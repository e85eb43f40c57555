use resource_usage_sdk::ledger::{
    DiagnosticEvent, LedgerEntryChange, LedgerFootprint, OperationMeta, SimulationResult,
    SorobanResources, TransactionMeta, TransactionMetaV4, TransactionReceipt, TransactionStatus,
};
use resource_usage_sdk::scval_tools::{Int128Parts, ScVal, UInt128Parts};
use resource_usage_sdk::codec::{limits, Limits};
use resource_usage_sdk::statistics::{
    assemble, get_core_metrics, handle_meta_v4, handle_transaction, max_entry_value_len, max_size,
    measure_entries, Metrics, ResourceMetric,
};
use resource_usage_sdk::Error;
use soroban_client::xdr::{
    BytesM, ContractCodeEntry, ContractCodeEntryExt, ContractDataDurability, ContractDataEntry,
    ExtensionPoint, LedgerEntryData, LedgerKey, LedgerKeyContractCode, ScAddress, ScVec,
    TransactionEnvelope, TransactionV0Envelope, TtlEntry, WriteXdr,
};

fn xdr<T: WriteXdr>(value: &T) -> Vec<u8> {
    value.to_xdr(soroban_client::xdr::Limits::none()).unwrap()
}

/// The data of a ledger entry of 40 bytes.
fn ttl() -> Vec<u8> {
    xdr(&LedgerEntryData::Ttl(TtlEntry {
        key_hash: soroban_client::xdr::Hash([7; 32]),
        live_until_ledger_seq: 12,
    }))
}

/// The data of a ledger entry of 44 bytes and its code, which takes a
/// multiple of four bytes.
fn code(len: usize) -> Vec<u8> {
    let code: BytesM = vec![1u8; len].try_into().unwrap();
    xdr(&LedgerEntryData::ContractCode(ContractCodeEntry {
        ext: ContractCodeEntryExt::V0,
        hash: soroban_client::xdr::Hash([0; 32]),
        code,
    }))
}

/// The data of a ledger entry whose value is nested `depth` times.
fn nested(depth: usize) -> Vec<u8> {
    let mut val = soroban_client::xdr::ScVal::Void;
    for _ in 0..depth {
        val = soroban_client::xdr::ScVal::Vec(Some(ScVec(vec![val].try_into().unwrap())));
    }
    xdr(&LedgerEntryData::ContractData(ContractDataEntry {
        ext: ExtensionPoint::V0,
        contract: ScAddress::Contract(soroban_client::xdr::ContractId(soroban_client::xdr::Hash(
            [0; 32],
        ))),
        key: soroban_client::xdr::ScVal::U32(1),
        durability: ContractDataDurability::Persistent,
        val,
    }))
}

/// An envelope of 68 bytes.
fn envelope() -> Vec<u8> {
    xdr(&TransactionEnvelope::TxV0(TransactionV0Envelope::default()))
}

fn key(n: u8) -> LedgerKey {
    LedgerKey::ContractCode(LedgerKeyContractCode { hash: soroban_client::xdr::Hash([n; 32]) })
}

fn simulation(reads: u8, writes: u8, read_bytes: u32, write_bytes: u32) -> SimulationResult {
    SimulationResult {
        resources: Some(SorobanResources {
            footprint: LedgerFootprint {
                read_only: (0..reads).map(key).collect(),
                read_write: (0..writes).map(key).collect(),
            },
            instructions: 0,
            disk_read_bytes: read_bytes,
            write_bytes,
        }),
    }
}

fn symbol(s: &str) -> ScVal {
    ScVal::Symbol(s.to_string())
}

fn core_event(name: &str, value: ScVal) -> DiagnosticEvent {
    DiagnosticEvent { topics: vec![symbol("core_metrics"), symbol(name)], data: value }
}

fn meta(changes: Vec<Vec<LedgerEntryChange>>, events: Vec<DiagnosticEvent>) -> TransactionMetaV4 {
    TransactionMetaV4 {
        operations: changes.into_iter().map(|changes| OperationMeta { changes }).collect(),
        diagnostic_events: events,
    }
}

fn receipt(meta: Option<TransactionMeta>, envelope: Option<Vec<u8>>) -> TransactionReceipt {
    TransactionReceipt { status: TransactionStatus::Success, meta, envelope }
}

#[test]
fn test_data_has_the_sizes_it_is_said_to_have() {
    assert_eq!(ttl().len(), 40);
    assert_eq!(code(0).len(), 44);
    assert_eq!(code(6).len(), 52);
    assert_eq!(code(1000).len(), 1044);
    assert_eq!(envelope().len(), 68);
}

#[test]
fn max_entry_value_len_of_no_change_is_zero() {
    assert_eq!(max_entry_value_len(&meta(vec![], vec![])), 0);
    assert_eq!(max_entry_value_len(&meta(vec![vec![]], vec![])), 0);
    assert_eq!(max_entry_value_len(&meta(vec![vec![], vec![], vec![]], vec![])), 0);
    assert_eq!(max_size(&vec![]), 0);
    assert!(measure_entries(&meta(vec![vec![], vec![]], vec![])).is_empty());
}

#[test]
fn max_entry_value_len_is_the_largest_over_all_operations() {
    let m = meta(
        vec![
            vec![LedgerEntryChange::Created(ttl()), LedgerEntryChange::Updated(code(76))],
            vec![],
            vec![LedgerEntryChange::Updated(code(52)), LedgerEntryChange::Created(code(656))],
            vec![LedgerEntryChange::Created(ttl())],
        ],
        vec![],
    );
    assert_eq!(
        measure_entries(&m),
        vec![Some(40), Some(120), Some(96), Some(700), Some(40)]
    );
    assert_eq!(max_entry_value_len(&m), 700);
}

#[test]
fn max_entry_value_len_counts_only_created_and_updated() {
    let m = meta(
        vec![vec![
            LedgerEntryChange::Removed,
            LedgerEntryChange::State,
            LedgerEntryChange::Restored,
        ]],
        vec![],
    );
    assert!(measure_entries(&m).is_empty());
    assert_eq!(max_entry_value_len(&m), 0);
    let m = meta(
        vec![vec![
            LedgerEntryChange::Removed,
            LedgerEntryChange::Updated(ttl()),
            LedgerEntryChange::State,
        ]],
        vec![],
    );
    assert_eq!(max_entry_value_len(&m), 40);
}

#[test]
fn max_entry_value_len_counts_what_cannot_be_measured_as_zero() {
    let m = meta(
        vec![vec![
            LedgerEntryChange::Created(vec![]),
            LedgerEntryChange::Created(vec![0, 0, 0]),
            LedgerEntryChange::Updated(vec![0, 0, 0, 99]),
            LedgerEntryChange::Updated(ttl()[..39].to_vec()),
            LedgerEntryChange::Updated([ttl(), vec![0; 4]].concat()),
        ]],
        vec![],
    );
    assert_eq!(measure_entries(&m), vec![None, None, None, None, None]);
    assert_eq!(max_entry_value_len(&m), 0);
    assert_eq!(max_size(&vec![None, Some(3), None, Some(9), Some(4)]), 9);
    assert_eq!(max_size(&vec![None, None]), 0);
    assert_eq!(max_size(&vec![Some(usize::MAX), Some(1)]), usize::MAX);
}

#[test]
fn max_entry_value_len_is_measured_within_two_mebibytes() {
    let fits = code(2 * 1024 * 1024 - 44);
    let too_long = code(2 * 1024 * 1024 - 40);
    assert_eq!(fits.len(), 2 * 1024 * 1024);
    let m = meta(
        vec![vec![
            LedgerEntryChange::Created(ttl()),
            LedgerEntryChange::Updated(too_long),
            LedgerEntryChange::Updated(fits),
        ]],
        vec![],
    );
    assert_eq!(measure_entries(&m), vec![Some(40), None, Some(2 * 1024 * 1024)]);
    assert_eq!(max_entry_value_len(&m), 2 * 1024 * 1024);
    assert_eq!(limits(), Limits { depth: 200, len: 2 * 1024 * 1024 });
}

#[test]
fn max_entry_value_len_is_measured_within_a_depth_of_two_hundred() {
    let shallow = nested(10);
    let deep = nested(400);
    assert!(deep.len() > shallow.len());
    let n = shallow.len();
    let m = meta(
        vec![vec![LedgerEntryChange::Created(deep), LedgerEntryChange::Created(shallow)]],
        vec![],
    );
    assert_eq!(measure_entries(&m), vec![None, Some(n)]);
    assert_eq!(max_entry_value_len(&m), n);
}

#[test]
fn core_metrics_are_read_from_tagged_events() {
    let m = meta(
        vec![],
        vec![
            core_event("cpu_insn", ScVal::U64(1_234_567)),
            core_event("mem_byte", ScVal::U64(89_000)),
        ],
    );
    assert_eq!(get_core_metrics(&m), Metrics { cpu_insn: Some(1_234_567), mem_byte: Some(89_000) });
}

#[test]
fn core_metrics_need_the_tag() {
    let m = meta(
        vec![],
        vec![
            DiagnosticEvent { topics: vec![symbol("cpu_insn")], data: ScVal::U64(5) },
            DiagnosticEvent {
                topics: vec![symbol("fn_call"), symbol("mem_byte")],
                data: ScVal::U64(6),
            },
        ],
    );
    assert_eq!(get_core_metrics(&m), Metrics { cpu_insn: None, mem_byte: None });
}

#[test]
fn core_metrics_tag_may_stand_after_the_key_and_as_a_string() {
    let m = meta(
        vec![],
        vec![
            DiagnosticEvent {
                topics: vec![symbol("cpu_insn"), symbol("core_metrics")],
                data: ScVal::U32(77),
            },
            DiagnosticEvent {
                topics: vec![
                    ScVal::Str("core_metrics".to_string()),
                    ScVal::Other,
                    ScVal::U32(3),
                    ScVal::Str("mem_byte".to_string()),
                ],
                data: ScVal::I64(88),
            },
        ],
    );
    assert_eq!(get_core_metrics(&m), Metrics { cpu_insn: Some(77), mem_byte: Some(88) });
}

#[test]
fn core_metrics_first_named_key_decides() {
    let m = meta(
        vec![],
        vec![
            DiagnosticEvent {
                topics: vec![symbol("core_metrics"), symbol("ledger_read_byte"), symbol("cpu_insn")],
                data: ScVal::U64(10),
            },
            DiagnosticEvent {
                topics: vec![symbol("core_metrics"), symbol("mem_byte"), symbol("cpu_insn")],
                data: ScVal::U64(20),
            },
            DiagnosticEvent {
                topics: vec![symbol("core_metrics"), symbol("max_rw_key_byte"), symbol("mem_byte")],
                data: ScVal::U64(30),
            },
        ],
    );
    assert_eq!(get_core_metrics(&m), Metrics { cpu_insn: None, mem_byte: Some(30) });
}

#[test]
fn core_metrics_last_writer_wins() {
    let m = meta(
        vec![],
        vec![
            core_event("cpu_insn", ScVal::U64(1)),
            core_event("cpu_insn", ScVal::U64(2)),
            core_event("mem_byte", ScVal::U64(9)),
            core_event("cpu_insn", ScVal::U64(3)),
        ],
    );
    assert_eq!(get_core_metrics(&m), Metrics { cpu_insn: Some(3), mem_byte: Some(9) });
}

#[test]
fn core_metrics_skip_values_that_do_not_fit() {
    let m = meta(
        vec![],
        vec![
            core_event("cpu_insn", ScVal::U64(41)),
            core_event("cpu_insn", ScVal::U128(UInt128Parts { hi: 1, lo: 5 })),
            core_event("cpu_insn", ScVal::I64(-1)),
            core_event("cpu_insn", ScVal::Symbol("42".to_string())),
            core_event("mem_byte", ScVal::I128(Int128Parts { hi: -1, lo: u64::MAX })),
        ],
    );
    assert_eq!(get_core_metrics(&m), Metrics { cpu_insn: Some(41), mem_byte: None });
}

#[test]
fn extraction_fills_every_observed_field() {
    let sim = simulation(3, 2, 5_000, 640);
    let m = meta(
        vec![vec![LedgerEntryChange::Created(code(140))]],
        vec![
            core_event("cpu_insn", ScVal::U64(2_000_000)),
            core_event("mem_byte", ScVal::U64(1_500_000)),
        ],
    );
    let r = receipt(None, Some(envelope()));
    assert_eq!(
        handle_meta_v4(&sim, &r, &m),
        Ok(ResourceMetric {
            cpu_insns: Some(2_000_000),
            mem_bytes: Some(1_500_000),
            entry_bytes: Some(184),
            entry_reads: Some(3),
            entry_writes: Some(2),
            read_bytes: Some(5_000),
            write_bytes: Some(640),
            min_txn_bytes: Some(68),
        })
    );
}

#[test]
fn extraction_leaves_unreported_counters_absent() {
    let sim = simulation(1, 1, 10, 20);
    let r = receipt(
        Some(TransactionMeta::V4(meta(vec![], vec![core_event("mem_byte", ScVal::U32(7))]))),
        Some(envelope()),
    );
    let metric = handle_transaction(&sim, &r).unwrap();
    assert_eq!(metric.cpu_insns, None);
    assert_eq!(metric.mem_bytes, Some(7));
    assert_eq!(metric.entry_bytes, Some(0));

    let r = receipt(Some(TransactionMeta::V4(meta(vec![], vec![]))), Some(envelope()));
    let metric = handle_transaction(&sim, &r).unwrap();
    assert_eq!(metric.cpu_insns, None);
    assert_eq!(metric.mem_bytes, None);
    assert_eq!(metric.min_txn_bytes, Some(68));
}

#[test]
fn footprint_counts_come_from_the_simulation_alone() {
    let sim = simulation(4, 1, 0, 0);
    let none = receipt(Some(TransactionMeta::V4(meta(vec![], vec![]))), None);
    let many = receipt(
        Some(TransactionMeta::V4(meta(
            vec![
                (0..9).map(|_| LedgerEntryChange::Created(ttl())).collect(),
                (0..5).map(|_| LedgerEntryChange::Removed).collect(),
            ],
            vec![],
        ))),
        None,
    );
    for r in [none, many] {
        let metric = handle_transaction(&sim, &r).unwrap();
        assert_eq!(metric.entry_reads, Some(4));
        assert_eq!(metric.entry_writes, Some(1));
    }
    let metric = handle_transaction(
        &simulation(0, 0, 0, 0),
        &receipt(Some(TransactionMeta::V4(meta(vec![], vec![]))), None),
    )
    .unwrap();
    assert_eq!(metric.entry_reads, Some(0));
    assert_eq!(metric.entry_writes, Some(0));
}

#[test]
fn missing_meta_is_an_error() {
    let r = receipt(None, Some(envelope()));
    assert_eq!(handle_transaction(&simulation(0, 0, 0, 0), &r), Err(Error::MissingMeta));
    assert_eq!(
        handle_transaction(&SimulationResult { resources: None }, &r),
        Err(Error::MissingMeta)
    );
}

#[test]
fn other_meta_versions_are_unsupported() {
    let sim = simulation(0, 0, 0, 0);
    for m in [TransactionMeta::V0, TransactionMeta::V1, TransactionMeta::V2, TransactionMeta::V3] {
        assert_eq!(
            handle_transaction(&sim, &receipt(Some(m), Some(envelope()))),
            Err(Error::UnsupportedMeta)
        );
    }
}

#[test]
fn simulation_without_resources_is_an_error() {
    let sim = SimulationResult { resources: None };
    let r = receipt(Some(TransactionMeta::V4(meta(vec![], vec![]))), Some(envelope()));
    assert_eq!(handle_transaction(&sim, &r), Err(Error::NoTransactionData));
    let r = receipt(Some(TransactionMeta::V4(meta(vec![], vec![]))), Some(vec![1, 2, 3]));
    assert_eq!(handle_transaction(&sim, &r), Err(Error::NoTransactionData));
}

#[test]
fn envelope_size_is_that_of_the_envelope() {
    let sim = simulation(1, 1, 1, 1);
    let m = || Some(TransactionMeta::V4(meta(vec![], vec![])));
    let metric = handle_transaction(&sim, &receipt(m(), Some(envelope()))).unwrap();
    assert_eq!(metric.min_txn_bytes, Some(68));
}

#[test]
fn envelope_size_is_absent_without_an_envelope() {
    let sim = simulation(1, 1, 1, 1);
    let m = || Some(TransactionMeta::V4(meta(vec![], vec![])));
    let metric = handle_transaction(&sim, &receipt(m(), None)).unwrap();
    assert_eq!(metric.min_txn_bytes, None);
    assert_eq!(metric.entry_bytes, Some(0));
    assert_eq!(metric.entry_reads, Some(1));
    assert_eq!(metric.read_bytes, Some(1));
}

#[test]
fn envelope_that_cannot_be_measured_is_an_error() {
    let sim = simulation(1, 1, 1, 1);
    let m = || Some(TransactionMeta::V4(meta(vec![], vec![])));
    for bytes in [vec![], vec![0, 0, 0], vec![0, 0, 0, 9], envelope()[..67].to_vec()] {
        let r = handle_transaction(&sim, &receipt(m(), Some(bytes)));
        assert!(matches!(r, Err(Error::SDKXdrError(_))));
    }
    let r = handle_transaction(&sim, &receipt(m(), Some(vec![0, 0, 0, 9])));
    assert_eq!(r, Err(Error::SDKXdrError("Invalid".to_string())));
}

#[test]
fn assemble_takes_each_figure_from_its_source() {
    let sim = simulation(2, 5, 30, 40);
    let resources = sim.resources.as_ref().unwrap();
    let metrics = Metrics { cpu_insn: Some(9), mem_byte: None };
    assert_eq!(
        assemble(resources, metrics, 77, Some(Ok(1234))),
        Ok(ResourceMetric {
            cpu_insns: Some(9),
            mem_bytes: None,
            entry_bytes: Some(77),
            entry_reads: Some(2),
            entry_writes: Some(5),
            read_bytes: Some(30),
            write_bytes: Some(40),
            min_txn_bytes: Some(1234),
        })
    );
    assert_eq!(
        assemble(resources, metrics, 77, Some(Err("LengthLimitExceeded".to_string()))),
        Err(Error::SDKXdrError("LengthLimitExceeded".to_string()))
    );
    assert_eq!(
        assemble(resources, metrics, 77, None),
        Ok(ResourceMetric {
            cpu_insns: Some(9),
            mem_bytes: None,
            entry_bytes: Some(77),
            entry_reads: Some(2),
            entry_writes: Some(5),
            read_bytes: Some(30),
            write_bytes: Some(40),
            min_txn_bytes: None,
        })
    );
}

#[test]
fn default_metric_has_observed_nothing() {
    let m = ResourceMetric::default();
    assert_eq!(
        m,
        ResourceMetric {
            cpu_insns: None,
            mem_bytes: None,
            entry_bytes: None,
            entry_reads: None,
            entry_writes: None,
            read_bytes: None,
            write_bytes: None,
            min_txn_bytes: None,
        }
    );
}

#[test]
fn errors_in_words() {
    assert_eq!(Error::MissingMeta.message(), "missing transaction meta");
    assert_eq!(Error::UnsupportedMeta.message(), "unsupported transaction meta version");
    assert_eq!(Error::NoTransactionData.message(), "simulate no transaction data");
    assert_eq!(
        Error::SDKXdrError("LengthLimitExceeded".to_string()).message(),
        "sdk xdr error:LengthLimitExceeded"
    );
    assert_eq!(Error::SDKClientError("NetworkError".to_string()).message(), "sdk error:NetworkError");
}
