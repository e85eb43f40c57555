use soroban_client::xdr::{LedgerEntryData, ReadXdr, TransactionEnvelope, WriteXdr};
use vstd::prelude::*;

verus! {

/// The limits under which the XDR codec works: how deep it may descend into
/// a value, and how many bytes it may read or write.
#[derive(Debug, Clone, Copy, PartialEq, Eq)]
pub struct Limits {
    pub depth: u32,
    pub len: usize,
}

/// The limits under which sizes are measured: a depth of 200 and 2 MiB.
pub open spec fn xdr_limits() -> Limits {
    Limits { depth: 200, len: 2_097_152 }
}

/// The limits under which sizes are measured: a depth of 200 and 2 MiB.
pub fn limits() -> (r: Limits)
    ensures
        r == xdr_limits(),
{
    Limits { depth: 200, len: 2_097_152 }
}

/// The size in XDR of the ledger entry data that the bytes `data` stand
/// for, as the codec writes it within the limits; `None` where the bytes
/// stand for no such data or the limits do not suffice.
pub uninterp spec fn entry_data_xdr_len(data: Seq<u8>, depth: u32, len: usize) -> Option<usize>;

/// The size in XDR of the transaction envelope that the bytes `envelope`
/// stand for, as the codec writes it within the limits. Where the bytes
/// stand for no envelope or the limits do not suffice, the codec's words for
/// the failure.
pub uninterp spec fn envelope_xdr_len(envelope: Seq<u8>, depth: u32, len: usize) -> Result<usize, Seq<char>>;

/// Measures ledger entry data in XDR.
///
/// Reads the bytes with `LedgerEntryData::from_xdr` and writes the data
/// again with `WriteXdr::to_xdr`, both of `soroban_client::xdr` and both
/// within the limits, and gives the number of bytes written, `None` where
/// either fails. The contract gives that number the name
/// [`entry_data_xdr_len`] and claims no more of it than that it depends on
/// the bytes and the limits alone. The depth may not exceed 200: the codec
/// descends once for each level that the limit allows.
#[verifier::external_body]
pub(crate) fn entry_data_len(data: &Vec<u8>, limits: Limits) -> (r: Option<usize>)
    requires
        limits.depth <= 200,
    ensures
        r == entry_data_xdr_len(data@, limits.depth, limits.len),
{
    let limits = soroban_client::xdr::Limits { depth: limits.depth, len: limits.len };
    let entry = LedgerEntryData::from_xdr(data, limits.clone()).ok()?;
    entry.to_xdr(limits).ok().map(|bytes| bytes.len())
}

/// Measures a transaction envelope in XDR.
///
/// Reads the bytes with `TransactionEnvelope::from_xdr` and writes the
/// envelope again with `WriteXdr::to_xdr`, both of `soroban_client::xdr` and
/// both within the limits, and gives the number of bytes written, or the
/// error of the one that failed in the words of its `Debug`. The contract
/// gives that outcome the name [`envelope_xdr_len`] and claims no more of it
/// than that it depends on the bytes and the limits alone. The depth may not
/// exceed 200: the codec descends once for each level that the limit allows.
#[verifier::external_body]
pub(crate) fn envelope_len(envelope: &Vec<u8>, limits: Limits) -> (r: Result<usize, String>)
    requires
        limits.depth <= 200,
    ensures
        match r {
            Ok(n) => envelope_xdr_len(envelope@, limits.depth, limits.len) == Ok::<
                usize,
                Seq<char>,
            >(n),
            Err(words) => envelope_xdr_len(envelope@, limits.depth, limits.len) == Err::<
                usize,
                Seq<char>,
            >(words@),
        },
{
    let limits = soroban_client::xdr::Limits { depth: limits.depth, len: limits.len };
    let read = TransactionEnvelope::from_xdr(envelope, limits.clone());
    let decoded = read.map_err(|e| format!("{:?}", e))?;
    decoded.to_xdr(limits).map(|bytes| bytes.len()).map_err(|e| format!("{:?}", e))
}

} // verus!
