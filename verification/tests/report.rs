use resource_usage_sdk::classify::{default_cursors, Severity};
use resource_usage_sdk::report::{build_report, grade_row, grade_table, sort_by_func, ReportRow};
use resource_usage_sdk::show::{
    stellar_limits_config, Average, FuncTableData, LimitTable, MetricKey, PerMetric,
};
use resource_usage_sdk::statistics::ResourceMetric;
use resource_usage_sdk::store::{append_sample, ContractStore};

fn item(func: &str, times: usize) -> FuncTableData {
    FuncTableData { func: func.to_string(), times, rows: vec![] }
}

fn names(table: &[FuncTableData]) -> Vec<(&str, usize)> {
    table.iter().map(|d| (d.func.as_str(), d.times)).collect()
}

#[test]
fn sort_by_function_name() {
    let sorted = sort_by_func(vec![item("swap", 1), item("add_liquidity", 2), item("mint", 3)]);
    assert_eq!(names(&sorted), vec![("add_liquidity", 2), ("mint", 3), ("swap", 1)]);
}

#[test]
fn sort_keeps_the_order_of_equal_names() {
    let sorted = sort_by_func(vec![
        item("b", 1),
        item("a", 2),
        item("b", 3),
        item("a", 4),
        item("b", 5),
        item("", 6),
    ]);
    assert_eq!(names(&sorted), vec![("", 6), ("a", 2), ("a", 4), ("b", 1), ("b", 3), ("b", 5)]);
}

#[test]
fn sort_is_by_bytes() {
    let sorted = sort_by_func(vec![
        item("b", 0),
        item("ab", 0),
        item("B", 0),
        item("a", 0),
        item("é", 0),
        item("z", 0),
        item("_x", 0),
        item("abc", 0),
    ]);
    let mut expected = vec!["b", "ab", "B", "a", "é", "z", "_x", "abc"];
    expected.sort();
    assert_eq!(sorted.iter().map(|d| d.func.as_str()).collect::<Vec<_>>(), expected);
    assert_eq!(expected, vec!["B", "_x", "a", "ab", "abc", "b", "z", "é"]);
}

#[test]
fn sort_of_nothing_and_of_one() {
    assert!(sort_by_func(vec![]).is_empty());
    assert_eq!(names(&sort_by_func(vec![item("only", 9)])), vec![("only", 9)]);
}

#[test]
fn grade_marks_each_value_by_itself() {
    let row = (MetricKey::CpuInsns, 50_000_000, Average { sum: 170_000_000, count: 5 }, 58_000_000, 10_000_000, 170_000_000);
    assert_eq!(
        grade_row(&row, default_cursors()),
        ReportRow {
            key: MetricKey::CpuInsns,
            limit: 50_000_000,
            avg: Average { sum: 170_000_000, count: 5 },
            max: 58_000_000,
            min: 10_000_000,
            sum: 170_000_000,
            avg_severity: Severity::Normal,
            max_severity: Severity::Error,
            min_severity: Severity::Normal,
            sum_severity: Severity::Error,
        }
    );
}

#[test]
fn grade_keeps_functions_and_rows() {
    let table = vec![
        FuncTableData {
            func: "f".to_string(),
            times: 2,
            rows: vec![
                (MetricKey::MemBytes, 100, Average { sum: 170, count: 2 }, 90, 80, 170),
                (MetricKey::ReadBytes, 100, Average { sum: 2, count: 2 }, 1, 1, 2),
            ],
        },
        item("g", 1),
    ];
    let report = grade_table(&table, default_cursors());
    assert_eq!(report.len(), 2);
    assert_eq!(report[0].func, "f");
    assert_eq!(report[0].times, 2);
    assert_eq!(report[0].rows.len(), 2);
    assert_eq!(report[0].rows[0].key, MetricKey::MemBytes);
    assert_eq!(report[0].rows[0].avg_severity, Severity::Danger);
    assert_eq!(report[0].rows[0].max_severity, Severity::Danger);
    assert_eq!(report[0].rows[0].min_severity, Severity::Normal);
    assert_eq!(report[0].rows[0].sum_severity, Severity::Error);
    assert_eq!(report[0].rows[1].key, MetricKey::ReadBytes);
    assert_eq!(report[0].rows[1].avg_severity, Severity::Normal);
    assert_eq!(report[1].func, "g");
    assert!(report[1].rows.is_empty());
}

fn sample(i: u64, with_entries: bool) -> ResourceMetric {
    if with_entries {
        ResourceMetric {
            cpu_insns: Some(25_000_000 + i * 10_000_000),
            mem_bytes: Some(4_000_000 + i * 2_500_000),
            entry_reads: Some((3000 + i * 6500) as usize),
            entry_writes: Some((2200 + i * 7500) as usize),
            ..ResourceMetric::default()
        }
    } else {
        ResourceMetric {
            cpu_insns: Some(10_000_000 + i * 12_000_000),
            mem_bytes: Some(2_000_000 + i * 900_000),
            read_bytes: Some((500_000 + i * 150_000) as u32),
            write_bytes: Some((300_000 + i * 120_000) as u32),
            min_txn_bytes: Some((90_000 + i * 8_000) as usize),
            ..ResourceMetric::default()
        }
    }
}

#[test]
fn report_of_two_functions() {
    let mut store = ContractStore::new();
    for i in 0..5 {
        append_sample(&mut store, "contractA", "swap", sample(i, false));
    }
    for i in 0..3 {
        append_sample(&mut store, "contractA", "add_liquidity", sample(i, true));
    }
    let report = build_report(&store, &stellar_limits_config(), default_cursors());
    assert_eq!(report.len(), 2);

    let add = &report[0];
    assert_eq!(add.func, "add_liquidity");
    assert_eq!(add.times, 3);
    let keys: Vec<MetricKey> = add.rows.iter().map(|r| r.key).collect();
    assert_eq!(
        keys,
        vec![MetricKey::CpuInsns, MetricKey::MemBytes, MetricKey::EntryReads, MetricKey::EntryWrites]
    );
    let reads = add.rows[2];
    assert_eq!(reads.limit, 10_000);
    assert_eq!(reads.avg, Average { sum: 28_500, count: 3 });
    assert_eq!((reads.max, reads.min, reads.sum), (16_000, 3_000, 28_500));
    assert_eq!(reads.avg_severity, Severity::Danger);
    assert_eq!(reads.max_severity, Severity::Error);
    assert_eq!(reads.min_severity, Severity::Normal);

    let swap = &report[1];
    assert_eq!(swap.func, "swap");
    assert_eq!(swap.times, 5);
    let keys: Vec<MetricKey> = swap.rows.iter().map(|r| r.key).collect();
    assert_eq!(
        keys,
        vec![
            MetricKey::CpuInsns,
            MetricKey::MemBytes,
            MetricKey::ReadBytes,
            MetricKey::WriteBytes,
            MetricKey::MinTxnBytes
        ]
    );
    let cpu = swap.rows[0];
    assert_eq!(cpu.limit, 50_000_000);
    assert_eq!(cpu.avg, Average { sum: 170_000_000, count: 5 });
    assert_eq!((cpu.max, cpu.min, cpu.sum), (58_000_000, 10_000_000, 170_000_000));
    assert_eq!(cpu.avg_severity, Severity::Normal);
    assert_eq!(cpu.max_severity, Severity::Error);
    assert_eq!(cpu.min_severity, Severity::Normal);
    let txn = swap.rows[4];
    assert_eq!((txn.max, txn.min, txn.sum), (122_000, 90_000, 530_000));
    assert_eq!(txn.avg_severity, Severity::Error);
    assert_eq!(txn.min_severity, Severity::Danger);
}

#[test]
fn report_lists_the_functions_of_all_contracts_by_name() {
    let mut store = ContractStore::new();
    append_sample(&mut store, "B", "transfer", sample(0, false));
    append_sample(&mut store, "A", "transfer", sample(1, false));
    append_sample(&mut store, "A", "approve", sample(2, false));
    let report = build_report(&store, &stellar_limits_config(), default_cursors());
    let seen: Vec<(&str, u64)> = report.iter().map(|f| (f.func.as_str(), f.rows[0].max)).collect();
    assert_eq!(seen, vec![("approve", 34_000_000), ("transfer", 10_000_000), ("transfer", 22_000_000)]);
}

#[test]
fn report_never_shows_a_metric_with_a_zero_limit() {
    let mut store = ContractStore::new();
    for i in 0..4 {
        append_sample(&mut store, "C", "f", sample(i, false));
        append_sample(&mut store, "C", "g", sample(i, true));
    }
    let limits: LimitTable = PerMetric { cpu_insns: 0, read_bytes: 0, ..stellar_limits_config() };
    let report = build_report(&store, &limits, default_cursors());
    assert_eq!(report.len(), 2);
    for f in &report {
        assert!(!f.rows.is_empty());
        for row in &f.rows {
            assert_ne!(row.key, MetricKey::CpuInsns);
            assert_ne!(row.key, MetricKey::ReadBytes);
            assert_ne!(row.limit, 0);
        }
    }
}

#[test]
fn report_of_an_empty_store_is_empty() {
    assert!(build_report(&ContractStore::new(), &stellar_limits_config(), default_cursors()).is_empty());
}
