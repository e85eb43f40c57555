use vstd::prelude::*;
use crate::classify::{
    LimitsCursors, Severity, classify, classify_value, lemma_severity_monotone, rank, severity,
    single,
};
use crate::statistics::ResourceMetric;
use crate::show::{
    Average, FuncTableData, FuncTableModel, LimitTable, MetricKey, TableRow, aggregated,
    calc_statistics, func_table_model, largest, lemma_average_between, lemma_statistics_bounds,
    lemma_table_rows, load_table_data, metric_statistics, rows_within, smallest, table_model,
    table_of, total,
};
use crate::store::{ContractStore, StoreModel, store_model};
use crate::text::{lemma_text_order, precedes, text_before};
use vstd::seq_lib::{to_multiset_remove};

verus! {

/// The number of items at the head of `table` whose function comes
/// strictly before `name`: the place where an item named `name` goes so that
/// it stands before every item of an equal or later name.
pub open spec fn lead(table: Seq<FuncTableModel>, name: Seq<char>) -> int
    decreases table.len(),
{
    if table.len() == 0 {
        0
    } else if text_before(table[0].0, name) {
        1 + lead(table.drop_first(), name)
    } else {
        0
    }
}

/// `table` by function name, with items of the same name in the order that
/// they had.
pub open spec fn sorted_by_func(table: Seq<FuncTableModel>) -> Seq<FuncTableModel>
    decreases table.len(),
{
    if table.len() == 0 {
        Seq::empty()
    } else {
        let rest = sorted_by_func(table.drop_first());
        rest.insert(lead(rest, table[0].0), table[0])
    }
}

/// Whether the functions of `table` come in the order of their names: no
/// item has a name that comes before the name of an item in front of it.
pub open spec fn ordered_by_func(table: Seq<FuncTableModel>) -> bool {
    forall|i: int, j: int|
        0 <= i < j < table.len() ==> !text_before(#[trigger] table[j].0, #[trigger] table[i].0)
}

/// Every item in front of the place has a name that comes before `name`,
/// and the item at the place has not.
pub proof fn lemma_lead(table: Seq<FuncTableModel>, name: Seq<char>)
    ensures
        0 <= lead(table, name) <= table.len(),
        forall|i: int| 0 <= i < lead(table, name) ==> text_before(#[trigger] table[i].0, name),
        lead(table, name) < table.len() ==> !text_before(table[lead(table, name)].0, name),
    decreases table.len(),
{
    if table.len() > 0 && text_before(table[0].0, name) {
        let rest = table.drop_first();
        lemma_lead(rest, name);
        assert forall|i: int| 0 <= i < lead(table, name) implies text_before(
            #[trigger] table[i].0,
            name,
        ) by {
            if i > 0 {
                assert(rest[i - 1] == table[i]);
            }
        }
        if lead(table, name) < table.len() {
            assert(rest[lead(rest, name)] == table[lead(table, name)]);
        }
    }
}

/// The sorted table is in the order of the names.
pub proof fn lemma_sorted_ordered(table: Seq<FuncTableModel>)
    ensures
        ordered_by_func(sorted_by_func(table)),
        sorted_by_func(table).len() == table.len(),
    decreases table.len(),
{
    if table.len() > 0 {
        let rest = sorted_by_func(table.drop_first());
        let item = table[0];
        let p = lead(rest, item.0);
        let out = rest.insert(p, item);
        lemma_sorted_ordered(table.drop_first());
        lemma_lead(rest, item.0);
        assert forall|i: int, j: int| 0 <= i < j < out.len() implies !text_before(
            #[trigger] out[j].0,
            #[trigger] out[i].0,
        ) by {
            if j < p {
                assert(out[i] == rest[i] && out[j] == rest[j]);
            } else if j == p {
                assert(out[i] == rest[i]);
                lemma_text_order(rest[i].0, item.0, item.0);
            } else if i < p {
                assert(out[i] == rest[i] && out[j] == rest[j - 1]);
            } else if i == p {
                assert(out[j] == rest[j - 1]);
                if j - 1 > p {
                    assert(!text_before(rest[j - 1].0, rest[p].0));
                }
                lemma_text_order(item.0, rest[p].0, rest[j - 1].0);
            } else {
                assert(out[i] == rest[i - 1] && out[j] == rest[j - 1]);
            }
        }
    }
}

/// The sorted table holds the items of the table, each as often as the
/// table holds it.
pub proof fn lemma_sorted_same_items(table: Seq<FuncTableModel>)
    ensures
        sorted_by_func(table).to_multiset() == table.to_multiset(),
    decreases table.len(),
{
    broadcast use vstd::seq_lib::group_to_multiset_ensures;

    if table.len() == 0 {
        assert(sorted_by_func(table) =~= table);
    } else {
        let tail = table.drop_first();
        let rest = sorted_by_func(tail);
        let item = table[0];
        let p = lead(rest, item.0);
        let out = rest.insert(p, item);
        lemma_sorted_same_items(tail);
        lemma_lead(rest, item.0);
        assert(out.remove(p) =~= rest);
        to_multiset_remove(out, p);
        assert(out[p] == item);
        assert(out.contains(item));
        assert(table.remove(0) =~= tail);
        to_multiset_remove(table, 0);
        assert(table.contains(item));
        assert(out.to_multiset() =~= rest.to_multiset().insert(item));
        assert(table.to_multiset() =~= tail.to_multiset().insert(item));
    }
}

/// What holds of every item of the table holds of every item of the sorted
/// table.
pub proof fn lemma_sorted_keeps(
    table: Seq<FuncTableModel>,
    holds: spec_fn(FuncTableModel) -> bool,
)
    requires
        forall|i: int| 0 <= i < table.len() ==> holds(#[trigger] table[i]),
    ensures
        forall|i: int|
            0 <= i < sorted_by_func(table).len() ==> holds(#[trigger] sorted_by_func(table)[i]),
    decreases table.len(),
{
    if table.len() > 0 {
        let tail = table.drop_first();
        let rest = sorted_by_func(tail);
        let p = lead(rest, table[0].0);
        let out = rest.insert(p, table[0]);
        assert forall|i: int| 0 <= i < tail.len() implies holds(#[trigger] tail[i]) by {
            assert(tail[i] == table[i + 1]);
        }
        lemma_sorted_keeps(tail, holds);
        lemma_lead(rest, table[0].0);
        assert forall|i: int| 0 <= i < out.len() implies holds(#[trigger] out[i]) by {
            if i < p {
                assert(out[i] == rest[i]);
            } else if i > p {
                assert(out[i] == rest[i - 1]);
            }
        }
    }
}

/// Sorts the table by function name and keeps the order of items of the
/// same name.
pub fn sort_by_func(table: Vec<FuncTableData>) -> (r: Vec<FuncTableData>)
    ensures
        table_model(r@) == sorted_by_func(table_model(table@)),
{
    let ghost whole = table_model(table@);
    let mut rest = table;
    let mut out: Vec<FuncTableData> = Vec::new();
    proof {
        assert(whole.skip(whole.len() as int) =~= Seq::empty());
        assert(table_model(out@) =~= Seq::empty());
    }
    while rest.len() > 0
        invariant
            rest@.len() <= whole.len(),
            table_model(rest@) == whole.take(rest@.len() as int),
            table_model(out@) == sorted_by_func(whole.skip(rest@.len() as int)),
        decreases rest@.len(),
    {
        let ghost n = rest@.len() as int;
        let ghost before = table_model(out@);
        let ghost earlier = rest@;
        let item = rest.pop().unwrap();
        proof {
            assert(func_table_model(item) == whole[n - 1]) by {
                assert(table_model(earlier)[n - 1] == whole.take(n)[n - 1]);
            }
            assert(table_model(rest@) =~= whole.take(n - 1)) by {
                assert forall|k: int| 0 <= k < n - 1 implies table_model(rest@)[k]
                    == whole.take(n - 1)[k] by {
                    assert(table_model(earlier)[k] == whole.take(n)[k]);
                }
            }
            assert(whole.skip(n - 1)[0] == whole[n - 1]);
            assert(whole.skip(n - 1).drop_first() =~= whole.skip(n));
        }
        let mut k: usize = 0;
        proof {
            assert(before.skip(0) =~= before);
        }
        while k < out.len() && precedes(out[k].func.as_str(), item.func.as_str())
            invariant
                k <= out@.len(),
                before == table_model(out@),
                lead(before, item.func@) == k + lead(before.skip(k as int), item.func@),
            decreases out@.len() - k,
        {
            proof {
                assert(before.skip(k as int)[0] == before[k as int]);
                assert(before.skip(k as int).drop_first() =~= before.skip(k + 1));
            }
            k += 1;
        }
        proof {
            if k < out@.len() {
                assert(before.skip(k as int)[0] == before[k as int]);
            }
        }
        let ghost place = k as int;
        let ghost model = func_table_model(item);
        out.insert(k, item);
        proof {
            assert(table_model(out@) =~= before.insert(place, model));
        }
    }
    proof {
        assert(whole.skip(0) =~= whole);
    }
    out
}

/// One row of a report: a row of the table, and how its average, its
/// largest, its smallest and its sum stand to the ceiling.
#[derive(Debug, Clone, Copy, PartialEq, Eq)]
pub struct ReportRow {
    pub key: MetricKey,
    pub limit: u64,
    pub avg: Average,
    pub max: u64,
    pub min: u64,
    pub sum: u128,
    pub avg_severity: Severity,
    pub max_severity: Severity,
    pub min_severity: Severity,
    pub sum_severity: Severity,
}

/// The rows of one function in a report.
#[derive(Debug, PartialEq, Eq)]
pub struct FuncReport {
    pub func: String,
    pub times: usize,
    pub rows: Vec<ReportRow>,
}

/// What a [`FuncReport`] stands for.
pub type FuncReportModel = (Seq<char>, usize, Seq<ReportRow>);

/// What each of `report` stands for, in their order.
pub open spec fn report_model(report: Seq<FuncReport>) -> Seq<FuncReportModel> {
    Seq::new(report.len(), |i: int| (report[i].func@, report[i].times, report[i].rows@))
}

/// The row `row` with each of its four values held against the ceiling.
pub open spec fn graded_row(row: TableRow, cursors: LimitsCursors) -> ReportRow {
    ReportRow {
        key: row.0,
        limit: row.1,
        avg: row.2,
        max: row.3,
        min: row.4,
        sum: row.5,
        avg_severity: severity(row.2, row.1, cursors),
        max_severity: severity(single(row.3 as u128), row.1, cursors),
        min_severity: severity(single(row.4 as u128), row.1, cursors),
        sum_severity: severity(single(row.5), row.1, cursors),
    }
}

/// The table with every row graded.
pub open spec fn graded(table: Seq<FuncTableModel>, cursors: LimitsCursors) -> Seq<
    FuncReportModel,
> {
    Seq::new(
        table.len(),
        |i: int|
            (
                table[i].0,
                table[i].1,
                Seq::new(table[i].2.len(), |j: int| graded_row(table[i].2[j], cursors)),
            ),
    )
}

/// In the row of a figure's statistics the smallest is never marked higher
/// than the average, nor the average higher than the largest.
pub proof fn lemma_marks_in_order(
    samples: Seq<ResourceMetric>,
    key: MetricKey,
    limit: u64,
    cursors: LimitsCursors,
)
    requires
        metric_statistics(samples, key) is Some,
        samples.len() <= usize::MAX,
    ensures
        ({
            let st = metric_statistics(samples, key)->0;
            let row = graded_row((key, limit, st.avg, st.max, st.min, st.sum), cursors);
            rank(row.min_severity) <= rank(row.avg_severity) <= rank(row.max_severity)
        }),
{
    let st = metric_statistics(samples, key)->0;
    lemma_statistics_bounds(samples, key);
    lemma_average_between(samples, key);
    assert(samples.len() * u64::MAX <= usize::MAX * u64::MAX) by (nonlinear_arith)
        requires
            samples.len() <= usize::MAX,
    ;
    assert(usize::MAX * u64::MAX <= u64::MAX * u64::MAX) by (nonlinear_arith)
        requires
            usize::MAX <= u64::MAX,
    ;
    assert(u64::MAX * u64::MAX < u128::MAX) by (nonlinear_arith);
    assert(st.sum == total(samples, key));
    assert(st.max == largest(samples, key));
    assert(st.min == smallest(samples, key));
    assert(st.avg.count == samples.len());
    assert(smallest(samples, key) * samples.len() == samples.len() * smallest(samples, key))
        by (nonlinear_arith);
    assert(largest(samples, key) * samples.len() == samples.len() * largest(samples, key))
        by (nonlinear_arith);
    lemma_severity_monotone(single(st.min as u128), st.avg, limit, cursors);
    lemma_severity_monotone(st.avg, single(st.max as u128), limit, cursors);
}

/// Grades a row.
pub fn grade_row(row: &TableRow, cursors: LimitsCursors) -> (r: ReportRow)
    ensures
        r == graded_row(*row, cursors),
{
    ReportRow {
        key: row.0,
        limit: row.1,
        avg: row.2,
        max: row.3,
        min: row.4,
        sum: row.5,
        avg_severity: classify(row.2, row.1, cursors),
        max_severity: classify_value(row.3 as u128, row.1, cursors),
        min_severity: classify_value(row.4 as u128, row.1, cursors),
        sum_severity: classify_value(row.5, row.1, cursors),
    }
}

/// Grades every row of a table.
pub fn grade_table(table: &Vec<FuncTableData>, cursors: LimitsCursors) -> (r: Vec<FuncReport>)
    ensures
        report_model(r@) == graded(table_model(table@), cursors),
{
    let ghost goal = graded(table_model(table@), cursors);
    let mut out: Vec<FuncReport> = Vec::new();
    let mut i: usize = 0;
    while i < table.len()
        invariant
            i <= table.len(),
            goal == graded(table_model(table@), cursors),
            report_model(out@) == goal.take(i as int),
        decreases table.len() - i,
    {
        let data = &table[i];
        let mut rows: Vec<ReportRow> = Vec::new();
        let mut j: usize = 0;
        while j < data.rows.len()
            invariant
                j <= data.rows.len(),
                rows@.len() == j,
                forall|m: int| 0 <= m < j ==> rows@[m] == graded_row(data.rows@[m], cursors),
            decreases data.rows.len() - j,
        {
            rows.push(grade_row(&data.rows[j], cursors));
            j += 1;
        }
        let ghost prior = report_model(out@);
        out.push(FuncReport { func: data.func.clone(), times: data.times, rows });
        proof {
            assert(goal[i as int].2 =~= rows@);
            assert(report_model(out@) =~= prior.push(goal[i as int]));
            assert(goal.take(i + 1) =~= goal.take(i as int).push(goal[i as int]));
        }
        i += 1;
    }
    proof {
        assert(goal.take(goal.len() as int) =~= goal);
    }
    out
}

/// What a report of `store` holds: the statistics of every function with a
/// sample, as a table by function name, each row graded.
pub open spec fn report_of(
    store: StoreModel,
    limits: LimitTable,
    cursors: LimitsCursors,
) -> Seq<FuncReportModel> {
    graded(sorted_by_func(table_of(aggregated(store), limits)), cursors)
}

/// A figure whose ceiling is zero stands in no row of a report, whatever
/// the store holds of it; and every row carries the ceiling of its key.
pub proof fn lemma_report_rows(store: StoreModel, limits: LimitTable, cursors: LimitsCursors)
    ensures
        forall|i: int, j: int|
            0 <= i < report_of(store, limits, cursors).len() && 0 <= j < report_of(
                store,
                limits,
                cursors,
            )[i].2.len() ==> {
                let row = #[trigger] report_of(store, limits, cursors)[i].2[j];
                row.limit != 0 && row.limit == limits.at(row.key)
            },
{
    let table = table_of(aggregated(store), limits);
    let sorted = sorted_by_func(table);
    lemma_table_rows(aggregated(store), limits);
    lemma_sorted_keeps(table, |item: FuncTableModel| rows_within(item.2, limits));
    assert forall|i: int, j: int|
        0 <= i < report_of(store, limits, cursors).len() && 0 <= j < report_of(
            store,
            limits,
            cursors,
        )[i].2.len() implies {
        let row = #[trigger] report_of(store, limits, cursors)[i].2[j];
        row.limit != 0 && row.limit == limits.at(row.key)
    } by {
        assert(rows_within(sorted[i].2, limits));
        assert(report_of(store, limits, cursors)[i].2[j] == graded_row(sorted[i].2[j], cursors));
    }
}

/// The functions of a report come in the order of their names.
pub proof fn lemma_report_ordered(store: StoreModel, limits: LimitTable, cursors: LimitsCursors)
    ensures
        forall|i: int, j: int|
            0 <= i < j < report_of(store, limits, cursors).len() ==> !text_before(
                #[trigger] report_of(store, limits, cursors)[j].0,
                #[trigger] report_of(store, limits, cursors)[i].0,
            ),
{
    let sorted = sorted_by_func(table_of(aggregated(store), limits));
    lemma_sorted_ordered(table_of(aggregated(store), limits));
    assert forall|i: int, j: int|
        0 <= i < j < report_of(store, limits, cursors).len() implies !text_before(
        #[trigger] report_of(store, limits, cursors)[j].0,
        #[trigger] report_of(store, limits, cursors)[i].0,
    ) by {
        assert(report_of(store, limits, cursors)[i].0 == sorted[i].0);
        assert(report_of(store, limits, cursors)[j].0 == sorted[j].0);
    }
}

/// The report of a store: its functions by name, and for each the rows of
/// the figures that have statistics and a ceiling, each value marked as
/// normal, in danger or in error.
pub fn build_report(store: &ContractStore, limits: &LimitTable, cursors: LimitsCursors) -> (r:
    Vec<FuncReport>)
    ensures
        report_model(r@) == report_of(store_model(*store), *limits, cursors),
{
    let statistics = calc_statistics(store);
    let funcs = sort_by_func(load_table_data(&statistics, limits));
    grade_table(&funcs, cursors)
}

} // verus!
