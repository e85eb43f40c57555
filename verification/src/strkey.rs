use vstd::prelude::*;

verus! {

/// The address of the contract with the id `id`, as text: the strkey form,
/// in which a version byte, the id and a checksum over both are written in
/// base 32.
pub uninterp spec fn contract_strkey(id: Seq<u8>) -> Seq<char>;

/// The address of the contract with the id `id`, as text.
///
/// Calls `stellar_strkey::Contract::to_string`, which encodes the version
/// byte of contracts, the 32 bytes of the id and a CRC-16 over these in base
/// 32 without padding. The contract gives that text the name
/// [`contract_strkey`] and claims no more of it than that it depends on the
/// id alone.
#[verifier::external_body]
pub(crate) fn contract_address(id: &[u8; 32]) -> (r: String)
    ensures
        r@ == contract_strkey(id@),
{
    stellar_strkey::Contract(*id).to_string()
}

} // verus!
