use resource_usage_sdk::ledger::{
    HostFunction, LedgerFootprint, OperationBody, ScAddress, SimulationResult, SorobanResources,
    Transaction, TransactionMeta, TransactionMetaV4, TransactionReceipt, TransactionStatus,
};
use resource_usage_sdk::statistics::{settle_transaction, store_transaction, ResourceMetric};
use resource_usage_sdk::store::{append_sample, ContractStore};
use resource_usage_sdk::Error;

const ZERO_CONTRACT: &str = "CAAAAAAAAAAAAAAAAAAAAAAAAAAAAAAAAAAAAAAAAAAAAAAAAAAABSC4";
const ONES_CONTRACT: &str = "CAAQCAIBAEAQCAIBAEAQCAIBAEAQCAIBAEAQCAIBAEAQCAIBAEAQC526";
const COUNTER_CONTRACT: &str = "CDGBYRHOQYXKIY37TI5BWNU2JYYC4KWNNU6MV2R7DWU45IVFXHQ5F6ZY";
const COUNTER_ID: [u8; 32] = [
    204, 28, 68, 238, 134, 46, 164, 99, 127, 154, 58, 27, 54, 154, 78, 48, 46, 42, 205, 109, 60,
    202, 234, 63, 29, 169, 206, 162, 165, 185, 225, 210,
];

fn cpu(n: u64) -> ResourceMetric {
    ResourceMetric { cpu_insns: Some(n), ..ResourceMetric::default() }
}

fn call(id: [u8; 32], function: &str) -> OperationBody {
    OperationBody::InvokeHostFunction(HostFunction::InvokeContract {
        contract_address: ScAddress::Contract(id),
        function_name: function.to_string(),
    })
}

fn samples<'a>(store: &'a ContractStore, contract: &str, function: &str) -> Option<&'a Vec<ResourceMetric>> {
    store.get(contract).and_then(|functions| functions.get(function))
}

#[test]
fn record_uses_the_strkey_of_the_contract() {
    let mut store = ContractStore::new();
    let tx = Transaction {
        operations: Some(vec![call([0; 32], "a"), call([1; 32], "b"), call(COUNTER_ID, "increment")]),
    };
    store_transaction(&mut store, &tx, &cpu(5));
    assert_eq!(store.len(), 3);
    assert_eq!(store.key_at(0), ZERO_CONTRACT);
    assert_eq!(store.key_at(1), ONES_CONTRACT);
    assert_eq!(store.key_at(2), COUNTER_CONTRACT);
    assert_eq!(samples(&store, COUNTER_CONTRACT, "increment"), Some(&vec![cpu(5)]));
    assert_eq!(samples(&store, ZERO_CONTRACT, "a"), Some(&vec![cpu(5)]));
    assert_eq!(samples(&store, ZERO_CONTRACT, "b"), None);
}

#[test]
fn record_twice_for_two_batched_calls_of_one_function() {
    let mut store = ContractStore::new();
    append_sample(&mut store, COUNTER_CONTRACT, "increment", cpu(1));
    let tx = Transaction {
        operations: Some(vec![call(COUNTER_ID, "increment"), call(COUNTER_ID, "increment")]),
    };
    store_transaction(&mut store, &tx, &cpu(9));
    assert_eq!(store.len(), 1);
    assert_eq!(store.get(COUNTER_CONTRACT).unwrap().len(), 1);
    assert_eq!(samples(&store, COUNTER_CONTRACT, "increment"), Some(&vec![cpu(1), cpu(9), cpu(9)]));
}

#[test]
fn record_under_every_function_that_is_called() {
    let mut store = ContractStore::new();
    let tx = Transaction {
        operations: Some(vec![
            call(COUNTER_ID, "swap"),
            call([0; 32], "swap"),
            call(COUNTER_ID, "deposit"),
            call(COUNTER_ID, "swap"),
        ]),
    };
    store_transaction(&mut store, &tx, &cpu(3));
    assert_eq!(store.len(), 2);
    assert_eq!(samples(&store, COUNTER_CONTRACT, "swap"), Some(&vec![cpu(3), cpu(3)]));
    assert_eq!(samples(&store, COUNTER_CONTRACT, "deposit"), Some(&vec![cpu(3)]));
    assert_eq!(samples(&store, ZERO_CONTRACT, "swap"), Some(&vec![cpu(3)]));
    let functions = store.get(COUNTER_CONTRACT).unwrap();
    assert_eq!(functions.key_at(0), "swap");
    assert_eq!(functions.key_at(1), "deposit");
}

#[test]
fn record_passes_over_what_is_no_contract_call() {
    let mut store = ContractStore::new();
    let tx = Transaction {
        operations: Some(vec![
            OperationBody::Other,
            OperationBody::InvokeHostFunction(HostFunction::Other),
            OperationBody::InvokeHostFunction(HostFunction::InvokeContract {
                contract_address: ScAddress::Other,
                function_name: "f".to_string(),
            }),
        ]),
    };
    store_transaction(&mut store, &tx, &cpu(3));
    assert!(store.is_empty());
}

#[test]
fn record_does_nothing_without_operations() {
    let mut store = ContractStore::new();
    append_sample(&mut store, "C", "f", cpu(1));
    store_transaction(&mut store, &Transaction { operations: None }, &cpu(2));
    store_transaction(&mut store, &Transaction { operations: Some(vec![]) }, &cpu(2));
    assert_eq!(store.len(), 1);
    assert_eq!(samples(&store, "C", "f"), Some(&vec![cpu(1)]));
}

#[test]
fn samples_keep_the_order_of_completion() {
    let mut store = ContractStore::new();
    for n in [5, 3, 8, 1] {
        append_sample(&mut store, "C", "f", cpu(n));
    }
    append_sample(&mut store, "C", "g", cpu(7));
    append_sample(&mut store, "D", "f", cpu(6));
    assert_eq!(samples(&store, "C", "f"), Some(&vec![cpu(5), cpu(3), cpu(8), cpu(1)]));
    assert_eq!(samples(&store, "C", "g"), Some(&vec![cpu(7)]));
    assert_eq!(samples(&store, "D", "f"), Some(&vec![cpu(6)]));
    assert_eq!(samples(&store, "D", "g"), None);
}

fn simulation() -> SimulationResult {
    SimulationResult {
        resources: Some(SorobanResources {
            footprint: LedgerFootprint { read_only: vec![], read_write: vec![] },
            instructions: 0,
            disk_read_bytes: 11,
            write_bytes: 22,
        }),
    }
}

fn receipt(status: TransactionStatus, meta: Option<TransactionMeta>) -> TransactionReceipt {
    TransactionReceipt { status, meta, envelope: None }
}

fn meta_v4() -> TransactionMeta {
    TransactionMeta::V4(TransactionMetaV4 { operations: vec![], diagnostic_events: vec![] })
}

#[test]
fn settle_records_a_call_that_succeeded() {
    let mut store = ContractStore::new();
    let tx = Transaction { operations: Some(vec![call(COUNTER_ID, "increment")]) };
    let r = settle_transaction(
        &mut store,
        &tx,
        &simulation(),
        &receipt(TransactionStatus::Success, Some(meta_v4())),
    );
    assert_eq!(r, Ok(true));
    let expected = ResourceMetric {
        cpu_insns: None,
        mem_bytes: None,
        entry_bytes: Some(0),
        entry_reads: Some(0),
        entry_writes: Some(0),
        read_bytes: Some(11),
        write_bytes: Some(22),
        min_txn_bytes: None,
    };
    assert_eq!(samples(&store, COUNTER_CONTRACT, "increment"), Some(&vec![expected]));
}

#[test]
fn settle_passes_over_a_call_that_did_not_succeed() {
    let mut store = ContractStore::new();
    let tx = Transaction { operations: Some(vec![call(COUNTER_ID, "increment")]) };
    for status in [TransactionStatus::Failed, TransactionStatus::NotFound] {
        assert_eq!(
            settle_transaction(&mut store, &tx, &simulation(), &receipt(status, Some(meta_v4()))),
            Ok(false)
        );
        assert_eq!(
            settle_transaction(&mut store, &tx, &simulation(), &receipt(status, None)),
            Ok(false)
        );
    }
    assert!(store.is_empty());
}

#[test]
fn settle_keeps_the_store_when_no_sample_can_be_taken() {
    let mut store = ContractStore::new();
    append_sample(&mut store, COUNTER_CONTRACT, "increment", cpu(1));
    let tx = Transaction { operations: Some(vec![call(COUNTER_ID, "increment")]) };
    let r = settle_transaction(
        &mut store,
        &tx,
        &simulation(),
        &receipt(TransactionStatus::Success, None),
    );
    assert_eq!(r, Err(Error::MissingMeta));
    let r = settle_transaction(
        &mut store,
        &tx,
        &simulation(),
        &receipt(TransactionStatus::Success, Some(TransactionMeta::V3)),
    );
    assert_eq!(r, Err(Error::UnsupportedMeta));
    assert_eq!(samples(&store, COUNTER_CONTRACT, "increment"), Some(&vec![cpu(1)]));
}
