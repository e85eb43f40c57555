use vstd::prelude::*;
use crate::scval_tools::ScVal;

verus! {

/// The key of a ledger entry, `soroban_client::xdr::LedgerKey`. Nothing is
/// known of a value of it: the keys of a footprint are only counted.
#[verifier::external_type_specification]
#[verifier::external_body]
pub struct ExLedgerKey(soroban_client::xdr::LedgerKey);

/// The ledger entries that a transaction declares to touch.
#[derive(Debug)]
pub struct LedgerFootprint {
    /// The entries that it only reads.
    pub read_only: Vec<soroban_client::xdr::LedgerKey>,
    /// The entries that it reads and writes.
    pub read_write: Vec<soroban_client::xdr::LedgerKey>,
}

/// The resources that a simulation estimates for a transaction.
#[derive(Debug)]
pub struct SorobanResources {
    pub footprint: LedgerFootprint,
    pub instructions: u32,
    pub disk_read_bytes: u32,
    pub write_bytes: u32,
}

/// What the simulation of a transaction gave.
#[derive(Debug)]
pub struct SimulationResult {
    /// The estimated resources; `None` where the simulation failed.
    pub resources: Option<SorobanResources>,
}

/// One change that an operation made to a ledger entry. A created or
/// updated entry comes with its data in XDR.
#[derive(Debug, PartialEq, Eq)]
pub enum LedgerEntryChange {
    Created(Vec<u8>),
    Updated(Vec<u8>),
    Removed,
    State,
    Restored,
}

/// The changes that one operation made to the ledger.
#[derive(Debug)]
pub struct OperationMeta {
    pub changes: Vec<LedgerEntryChange>,
}

/// One diagnostic event: its topics and its payload.
#[derive(Debug)]
pub struct DiagnosticEvent {
    pub topics: Vec<ScVal>,
    pub data: ScVal,
}

/// Transaction metadata of version 4.
#[derive(Debug)]
pub struct TransactionMetaV4 {
    /// One item for each operation of the transaction.
    pub operations: Vec<OperationMeta>,
    pub diagnostic_events: Vec<DiagnosticEvent>,
}

/// Transaction metadata by version. Only version 4 is read.
#[derive(Debug)]
pub enum TransactionMeta {
    V0,
    V1,
    V2,
    V3,
    V4(TransactionMetaV4),
}

/// How a transaction ended.
#[derive(Debug, Clone, Copy, PartialEq, Eq, Structural)]
pub enum TransactionStatus {
    Success,
    NotFound,
    Failed,
}

/// What the ledger reports of a transaction that was sent.
#[derive(Debug)]
pub struct TransactionReceipt {
    pub status: TransactionStatus,
    /// The metadata, where the ledger gave any.
    pub meta: Option<TransactionMeta>,
    /// The transaction's envelope in XDR, where the ledger gave one.
    pub envelope: Option<Vec<u8>>,
}

/// Whom an invocation addresses.
#[derive(Debug)]
pub enum ScAddress {
    /// A contract, by its 32-byte id.
    Contract([u8; 32]),
    /// An account or anything else that is no contract.
    Other,
}

/// What a host function operation runs.
#[derive(Debug)]
pub enum HostFunction {
    /// A call of `function_name` on the contract at `contract_address`.
    InvokeContract { contract_address: ScAddress, function_name: String },
    /// Anything else, such as the upload of code.
    Other,
}

/// One operation of a transaction.
#[derive(Debug)]
pub enum OperationBody {
    InvokeHostFunction(HostFunction),
    /// Any operation that invokes no host function.
    Other,
}

/// A transaction as it was sent.
#[derive(Debug)]
pub struct Transaction {
    /// Its operations, where it has any.
    pub operations: Option<Vec<OperationBody>>,
}

} // verus!
