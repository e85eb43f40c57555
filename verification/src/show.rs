use vstd::prelude::*;
use crate::keyed::{KeyedList, has_key, lemma_map_keys};
use crate::statistics::ResourceMetric;
use crate::store::{ContractStore, FunctionModel, FunctionStore, StoreModel, function_model, store_model};
use crate::text::same_text;

verus! {

/// The eight figures of a sample.
#[derive(Debug, Clone, Copy, PartialEq, Eq, Structural)]
pub enum MetricKey {
    CpuInsns,
    MemBytes,
    EntryBytes,
    EntryReads,
    EntryWrites,
    ReadBytes,
    WriteBytes,
    MinTxnBytes,
}

/// The keys in the order in which statistics are taken and rows are shown.
pub open spec fn metric_keys() -> Seq<MetricKey> {
    seq![
        MetricKey::CpuInsns,
        MetricKey::MemBytes,
        MetricKey::EntryBytes,
        MetricKey::EntryReads,
        MetricKey::EntryWrites,
        MetricKey::ReadBytes,
        MetricKey::WriteBytes,
        MetricKey::MinTxnBytes,
    ]
}

impl MetricKey {
    /// The key's name.
    pub open spec fn spec_name(self) -> Seq<char> {
        match self {
            MetricKey::CpuInsns => "cpu_insns"@,
            MetricKey::MemBytes => "mem_bytes"@,
            MetricKey::EntryBytes => "entry_bytes"@,
            MetricKey::EntryReads => "entry_reads"@,
            MetricKey::EntryWrites => "entry_writes"@,
            MetricKey::ReadBytes => "read_bytes"@,
            MetricKey::WriteBytes => "write_bytes"@,
            MetricKey::MinTxnBytes => "min_txn_bytes"@,
        }
    }

    /// The key that goes by the name `name`, if there is one.
    pub open spec fn spec_from_name(name: Seq<char>) -> Option<MetricKey> {
        if name == "cpu_insns"@ {
            Some(MetricKey::CpuInsns)
        } else if name == "mem_bytes"@ {
            Some(MetricKey::MemBytes)
        } else if name == "entry_bytes"@ {
            Some(MetricKey::EntryBytes)
        } else if name == "entry_reads"@ {
            Some(MetricKey::EntryReads)
        } else if name == "entry_writes"@ {
            Some(MetricKey::EntryWrites)
        } else if name == "read_bytes"@ {
            Some(MetricKey::ReadBytes)
        } else if name == "write_bytes"@ {
            Some(MetricKey::WriteBytes)
        } else if name == "min_txn_bytes"@ {
            Some(MetricKey::MinTxnBytes)
        } else {
            None
        }
    }

    /// The key's name.
    pub fn name(self) -> (r: &'static str)
        ensures
            r@ == self.spec_name(),
    {
        match self {
            MetricKey::CpuInsns => "cpu_insns",
            MetricKey::MemBytes => "mem_bytes",
            MetricKey::EntryBytes => "entry_bytes",
            MetricKey::EntryReads => "entry_reads",
            MetricKey::EntryWrites => "entry_writes",
            MetricKey::ReadBytes => "read_bytes",
            MetricKey::WriteBytes => "write_bytes",
            MetricKey::MinTxnBytes => "min_txn_bytes",
        }
    }

    /// The key that goes by the name `name`, if there is one.
    pub fn from_name(name: &str) -> (r: Option<MetricKey>)
        ensures
            r == Self::spec_from_name(name@),
    {
        if same_text(name, "cpu_insns") {
            Some(MetricKey::CpuInsns)
        } else if same_text(name, "mem_bytes") {
            Some(MetricKey::MemBytes)
        } else if same_text(name, "entry_bytes") {
            Some(MetricKey::EntryBytes)
        } else if same_text(name, "entry_reads") {
            Some(MetricKey::EntryReads)
        } else if same_text(name, "entry_writes") {
            Some(MetricKey::EntryWrites)
        } else if same_text(name, "read_bytes") {
            Some(MetricKey::ReadBytes)
        } else if same_text(name, "write_bytes") {
            Some(MetricKey::WriteBytes)
        } else if same_text(name, "min_txn_bytes") {
            Some(MetricKey::MinTxnBytes)
        } else {
            None
        }
    }

    /// The keys in the order of [`metric_keys`].
    pub fn all() -> (r: [MetricKey; 8])
        ensures
            r@ == metric_keys(),
    {
        let r = [
            MetricKey::CpuInsns,
            MetricKey::MemBytes,
            MetricKey::EntryBytes,
            MetricKey::EntryReads,
            MetricKey::EntryWrites,
            MetricKey::ReadBytes,
            MetricKey::WriteBytes,
            MetricKey::MinTxnBytes,
        ];
        assert(r@ =~= metric_keys());
        r
    }
}

/// Each key is found again by its name.
pub proof fn lemma_key_of_its_name(key: MetricKey)
    ensures
        MetricKey::spec_from_name(key.spec_name()) == Some(key),
{
    reveal_strlit("cpu_insns");
    reveal_strlit("mem_bytes");
    reveal_strlit("entry_bytes");
    reveal_strlit("entry_reads");
    reveal_strlit("entry_writes");
    reveal_strlit("read_bytes");
    reveal_strlit("write_bytes");
    reveal_strlit("min_txn_bytes");
    assert("cpu_insns"@.len() == 9);
    assert("mem_bytes"@[0] == 'm');
    assert("entry_bytes"@[6] == 'b');
    assert("entry_reads"@[6] == 'r');
    assert("entry_writes"@.len() == 12);
    assert("read_bytes"@[0] == 'r');
    assert("write_bytes"@[0] == 'w');
    assert("min_txn_bytes"@.len() == 13);
}

/// One value for each of the eight keys.
#[derive(Debug, PartialEq, Eq)]
pub struct PerMetric<T> {
    pub cpu_insns: T,
    pub mem_bytes: T,
    pub entry_bytes: T,
    pub entry_reads: T,
    pub entry_writes: T,
    pub read_bytes: T,
    pub write_bytes: T,
    pub min_txn_bytes: T,
}

impl<T> PerMetric<T> {
    /// The value of `key`.
    pub open spec fn at(self, key: MetricKey) -> T {
        match key {
            MetricKey::CpuInsns => self.cpu_insns,
            MetricKey::MemBytes => self.mem_bytes,
            MetricKey::EntryBytes => self.entry_bytes,
            MetricKey::EntryReads => self.entry_reads,
            MetricKey::EntryWrites => self.entry_writes,
            MetricKey::ReadBytes => self.read_bytes,
            MetricKey::WriteBytes => self.write_bytes,
            MetricKey::MinTxnBytes => self.min_txn_bytes,
        }
    }

    /// The value of `key`.
    pub fn get(&self, key: MetricKey) -> (r: &T)
        ensures
            *r == self.at(key),
    {
        match key {
            MetricKey::CpuInsns => &self.cpu_insns,
            MetricKey::MemBytes => &self.mem_bytes,
            MetricKey::EntryBytes => &self.entry_bytes,
            MetricKey::EntryReads => &self.entry_reads,
            MetricKey::EntryWrites => &self.entry_writes,
            MetricKey::ReadBytes => &self.read_bytes,
            MetricKey::WriteBytes => &self.write_bytes,
            MetricKey::MinTxnBytes => &self.min_txn_bytes,
        }
    }
}

/// The ceiling that the ledger puts on each figure. A ceiling of zero
/// means that the figure has none, and keeps it out of a report.
pub type LimitTable = PerMetric<u64>;

/// The ceilings of the Stellar network.
pub open spec fn stellar_limits() -> LimitTable {
    PerMetric {
        cpu_insns: 50_000_000,
        mem_bytes: 10_000_000,
        entry_bytes: 1_000_000,
        entry_reads: 10_000,
        entry_writes: 10_000,
        read_bytes: 2_000_000,
        write_bytes: 2_000_000,
        min_txn_bytes: 100_000,
    }
}

/// The ceilings of the Stellar network.
pub fn stellar_limits_config() -> (r: LimitTable)
    ensures
        r == stellar_limits(),
{
    PerMetric {
        cpu_insns: 50_000_000,
        mem_bytes: 10_000_000,
        entry_bytes: 1_000_000,
        entry_reads: 10_000,
        entry_writes: 10_000,
        read_bytes: 2_000_000,
        write_bytes: 2_000_000,
        min_txn_bytes: 100_000,
    }
}

/// The figure of `key` in the sample `m`, if it was observed.
pub open spec fn metric_value(m: ResourceMetric, key: MetricKey) -> Option<u64> {
    match key {
        MetricKey::CpuInsns => m.cpu_insns,
        MetricKey::MemBytes => m.mem_bytes,
        MetricKey::EntryBytes => widened(m.entry_bytes),
        MetricKey::EntryReads => widened(m.entry_reads),
        MetricKey::EntryWrites => widened(m.entry_writes),
        MetricKey::ReadBytes => match m.read_bytes {
            Some(v) => Some(v as u64),
            None => None,
        },
        MetricKey::WriteBytes => match m.write_bytes {
            Some(v) => Some(v as u64),
            None => None,
        },
        MetricKey::MinTxnBytes => widened(m.min_txn_bytes),
    }
}

/// A count of bytes or entries as a 64-bit number.
pub open spec fn widened(v: Option<usize>) -> Option<u64> {
    match v {
        Some(n) => Some(n as u64),
        None => None,
    }
}

fn widen(v: Option<usize>) -> (r: Option<u64>)
    ensures
        r == widened(v),
{
    match v {
        Some(n) => Some(n as u64),
        None => None,
    }
}

/// The figure of `key` in the sample `m`, if it was observed.
pub fn metric_of(m: &ResourceMetric, key: MetricKey) -> (r: Option<u64>)
    ensures
        r == metric_value(*m, key),
{
    match key {
        MetricKey::CpuInsns => m.cpu_insns,
        MetricKey::MemBytes => m.mem_bytes,
        MetricKey::EntryBytes => widen(m.entry_bytes),
        MetricKey::EntryReads => widen(m.entry_reads),
        MetricKey::EntryWrites => widen(m.entry_writes),
        MetricKey::ReadBytes => match m.read_bytes {
            Some(v) => Some(v as u64),
            None => None,
        },
        MetricKey::WriteBytes => match m.write_bytes {
            Some(v) => Some(v as u64),
            None => None,
        },
        MetricKey::MinTxnBytes => widen(m.min_txn_bytes),
    }
}

/// The figure that goes by the name `key` in the sample `m`: `None` where it
/// was not observed, and where no figure goes by that name.
pub fn get_metric_u64(m: &ResourceMetric, key: &str) -> (r: Option<u64>)
    ensures
        r == match MetricKey::spec_from_name(key@) {
            Some(k) => metric_value(*m, k),
            None => None,
        },
{
    match MetricKey::from_name(key) {
        Some(k) => metric_of(m, k),
        None => None,
    }
}

/// The mean of some figures, kept exact as their sum and their number.
#[derive(Debug, Clone, Copy, PartialEq, Eq)]
pub struct Average {
    /// The sum of the figures.
    pub sum: u128,
    /// How many figures there are.
    pub count: usize,
}

/// The statistics of one figure over the samples of a function.
#[derive(Debug, Clone, Copy, PartialEq, Eq)]
pub struct MetricStatistics {
    pub avg: Average,
    pub max: u64,
    pub min: u64,
    pub sum: u128,
}

/// The statistics of one function: how many samples there are, and the
/// statistics of each figure that the first sample has.
#[derive(Debug, PartialEq, Eq)]
pub struct FuncStatistics {
    pub times: usize,
    pub metrics: PerMetric<Option<MetricStatistics>>,
}

/// The statistics of a session: contract address to function name to the
/// function's statistics.
pub type ResultStatistics = KeyedList<KeyedList<FuncStatistics>>;

/// What the statistics of one contract stand for: function names, each with
/// its statistics.
pub type FunctionStatisticsModel = Seq<(Seq<char>, FuncStatistics)>;

/// What a [`ResultStatistics`] stands for.
pub type StatisticsModel = Seq<(Seq<char>, FunctionStatisticsModel)>;

/// The contracts of `statistics` with the statistics of their functions, in
/// the order of the list.
pub open spec fn statistics_model(statistics: ResultStatistics) -> StatisticsModel {
    Seq::new(
        statistics.entries().len(),
        |i: int| (statistics.entries()[i].0, statistics.entries()[i].1.entries()),
    )
}

/// The figure of `key` in `m` as it counts in a statistic: zero where it was
/// not observed.
pub open spec fn reading(m: ResourceMetric, key: MetricKey) -> nat {
    match metric_value(m, key) {
        Some(v) => v as nat,
        None => 0,
    }
}

/// The sum of the readings of `key` over `samples`.
pub open spec fn total(samples: Seq<ResourceMetric>, key: MetricKey) -> nat
    decreases samples.len(),
{
    if samples.len() == 0 {
        0
    } else {
        total(samples.drop_last(), key) + reading(samples.last(), key)
    }
}

/// The largest reading of `key` over `samples`; zero where there is no sample.
pub open spec fn largest(samples: Seq<ResourceMetric>, key: MetricKey) -> nat
    decreases samples.len(),
{
    if samples.len() == 0 {
        0
    } else {
        let rest = largest(samples.drop_last(), key);
        let last = reading(samples.last(), key);
        if last > rest {
            last
        } else {
            rest
        }
    }
}

/// The smallest reading of `key` over `samples`; zero where there is no
/// sample.
pub open spec fn smallest(samples: Seq<ResourceMetric>, key: MetricKey) -> nat
    decreases samples.len(),
{
    if samples.len() == 0 {
        0
    } else if samples.len() == 1 {
        reading(samples.last(), key)
    } else {
        let rest = smallest(samples.drop_last(), key);
        let last = reading(samples.last(), key);
        if last < rest {
            last
        } else {
            rest
        }
    }
}

/// The statistics of `key` over `samples`. There are none where there is no
/// sample or the first sample lacks the figure, whatever the later samples
/// hold; where there are, a sample that lacks the figure counts as zero.
pub open spec fn metric_statistics(samples: Seq<ResourceMetric>, key: MetricKey) -> Option<
    MetricStatistics,
> {
    if samples.len() == 0 || metric_value(samples[0], key) is None {
        None
    } else {
        Some(
            MetricStatistics {
                avg: Average { sum: total(samples, key) as u128, count: samples.len() as usize },
                max: largest(samples, key) as u64,
                min: smallest(samples, key) as u64,
                sum: total(samples, key) as u128,
            },
        )
    }
}

/// The statistics of a function with the samples `samples`.
pub open spec fn func_statistics(samples: Seq<ResourceMetric>) -> FuncStatistics {
    FuncStatistics {
        times: samples.len() as usize,
        metrics: PerMetric {
            cpu_insns: metric_statistics(samples, MetricKey::CpuInsns),
            mem_bytes: metric_statistics(samples, MetricKey::MemBytes),
            entry_bytes: metric_statistics(samples, MetricKey::EntryBytes),
            entry_reads: metric_statistics(samples, MetricKey::EntryReads),
            entry_writes: metric_statistics(samples, MetricKey::EntryWrites),
            read_bytes: metric_statistics(samples, MetricKey::ReadBytes),
            write_bytes: metric_statistics(samples, MetricKey::WriteBytes),
            min_txn_bytes: metric_statistics(samples, MetricKey::MinTxnBytes),
        },
    }
}

/// The statistics of the functions of one contract: one entry for each
/// function that has a sample, in the order of the functions.
pub open spec fn functions_aggregated(functions: FunctionModel) -> FunctionStatisticsModel
    decreases functions.len(),
{
    if functions.len() == 0 {
        Seq::empty()
    } else {
        let rest = functions_aggregated(functions.drop_last());
        let last = functions.last();
        if last.1.len() == 0 {
            rest
        } else {
            rest.push((last.0, func_statistics(last.1)))
        }
    }
}

/// The statistics of a store: one entry for each contract, in the order of
/// the contracts.
pub open spec fn aggregated(store: StoreModel) -> StatisticsModel {
    Seq::new(store.len(), |i: int| (store[i].0, functions_aggregated(store[i].1)))
}

/// The readings stay within 64 bits, and so do their largest and smallest;
/// their sum stays within as many times that.
pub proof fn lemma_statistics_bounds(samples: Seq<ResourceMetric>, key: MetricKey)
    ensures
        total(samples, key) <= samples.len() * u64::MAX,
        largest(samples, key) <= u64::MAX,
        smallest(samples, key) <= u64::MAX,
    decreases samples.len(),
{
    if samples.len() > 0 {
        lemma_statistics_bounds(samples.drop_last(), key);
        assert(samples.len() * u64::MAX == (samples.len() - 1) * u64::MAX + u64::MAX)
            by (nonlinear_arith);
    }
}

/// No reading is larger than the largest or smaller than the smallest, and
/// where there is a sample, one of them has the largest reading and one the
/// smallest.
pub proof fn lemma_extremes(samples: Seq<ResourceMetric>, key: MetricKey)
    ensures
        forall|i: int|
            0 <= i < samples.len() ==> smallest(samples, key) <= reading(
                #[trigger] samples[i],
                key,
            ) <= largest(samples, key),
        samples.len() > 0 ==> exists|i: int|
            0 <= i < samples.len() && reading(#[trigger] samples[i], key) == largest(samples, key),
        samples.len() > 0 ==> exists|i: int|
            0 <= i < samples.len() && reading(#[trigger] samples[i], key) == smallest(
                samples,
                key,
            ),
    decreases samples.len(),
{
    if samples.len() > 0 {
        let rest = samples.drop_last();
        let last = samples.len() - 1;
        lemma_extremes(rest, key);
        assert forall|i: int| 0 <= i < samples.len() implies smallest(samples, key) <= reading(
            #[trigger] samples[i],
            key,
        ) <= largest(samples, key) by {
            if i < last {
                assert(rest[i] == samples[i]);
            }
        }
        if rest.len() > 0 {
            let a = choose|i: int|
                0 <= i < rest.len() && reading(#[trigger] rest[i], key) == largest(rest, key);
            assert(rest[a] == samples[a]);
            let b = choose|i: int|
                0 <= i < rest.len() && reading(#[trigger] rest[i], key) == smallest(rest, key);
            assert(rest[b] == samples[b]);
        }
        if reading(samples[last], key) == largest(samples, key) {
        }
        if reading(samples[last], key) == smallest(samples, key) {
        }
    }
}

/// The sum lies between as many times the smallest reading and as many
/// times the largest: the average is no smaller than the smallest and no
/// larger than the largest.
pub proof fn lemma_average_between(samples: Seq<ResourceMetric>, key: MetricKey)
    ensures
        smallest(samples, key) * samples.len() <= total(samples, key) <= largest(samples, key)
            * samples.len(),
    decreases samples.len(),
{
    if samples.len() > 0 {
        let rest = samples.drop_last();
        let n = rest.len();
        lemma_average_between(rest, key);
        lemma_extremes(samples, key);
        assert(reading(samples[samples.len() - 1], key) <= largest(samples, key));
        assert(largest(rest, key) * n <= largest(samples, key) * n) by (nonlinear_arith)
            requires
                largest(rest, key) <= largest(samples, key),
        ;
        assert(largest(samples, key) * (n + 1) == largest(samples, key) * n + largest(
            samples,
            key,
        )) by (nonlinear_arith);
        assert(smallest(samples, key) * (n + 1) == smallest(samples, key) * n + smallest(
            samples,
            key,
        )) by (nonlinear_arith);
        if n > 0 {
            assert(smallest(samples, key) * n <= smallest(rest, key) * n) by (nonlinear_arith)
                requires
                    smallest(samples, key) <= smallest(rest, key),
            ;
        } else {
            assert(smallest(samples, key) * n == 0) by (nonlinear_arith)
                requires
                    n == 0,
            ;
            assert(total(rest, key) == 0);
        }
    }
}

/// A figure has statistics exactly where there is a sample and the first
/// sample has the figure: what the later samples hold decides nothing.
pub proof fn lemma_first_sample_decides(samples: Seq<ResourceMetric>, key: MetricKey)
    ensures
        func_statistics(samples).metrics.at(key) is Some <==> (samples.len() > 0 && metric_value(
            samples[0],
            key,
        ) is Some),
        func_statistics(samples).metrics.at(key) == metric_statistics(samples, key),
{
}

/// The statistics of `key` over `samples`.
pub fn summarize(samples: &Vec<ResourceMetric>, key: MetricKey) -> (r: Option<MetricStatistics>)
    ensures
        r == metric_statistics(samples@, key),
{
    if samples.len() == 0 {
        return None;
    }
    let first = match metric_of(&samples[0], key) {
        Some(v) => v,
        None => {
            return None;
        },
    };
    let mut sum: u128 = 0;
    let mut max: u64 = first;
    let mut min: u64 = first;
    let mut i: usize = 0;
    while i < samples.len()
        invariant
            i <= samples.len(),
            samples.len() > 0,
            first == reading(samples@[0], key),
            sum == total(samples@.take(i as int), key),
            i > 0 ==> max == largest(samples@.take(i as int), key),
            i > 0 ==> min == smallest(samples@.take(i as int), key),
            i == 0 ==> max == first && min == first,
        decreases samples.len() - i,
    {
        let value = match metric_of(&samples[i], key) {
            Some(v) => v,
            None => 0,
        };
        proof {
            let next = samples@.take(i + 1);
            assert(next.drop_last() =~= samples@.take(i as int));
            assert(next.last() == samples@[i as int]);
            lemma_statistics_bounds(next, key);
            assert(next.len() * u64::MAX <= usize::MAX * u64::MAX) by (nonlinear_arith)
                requires
                    next.len() <= usize::MAX,
            ;
            assert(usize::MAX * u64::MAX <= u64::MAX * u64::MAX) by (nonlinear_arith)
                requires
                    usize::MAX <= u64::MAX,
            ;
            assert(u64::MAX * u64::MAX < u128::MAX) by (nonlinear_arith);
            if i == 0 {
                assert(samples@.take(0).len() == 0);
                assert(largest(samples@.take(0), key) == 0);
                assert(total(samples@.take(0), key) == 0);
            }
        }
        sum = sum + value as u128;
        if value > max {
            max = value;
        }
        if value < min {
            min = value;
        }
        i += 1;
    }
    proof {
        assert(samples@.take(samples@.len() as int) =~= samples@);
        lemma_statistics_bounds(samples@, key);
    }
    Some(MetricStatistics { avg: Average { sum, count: samples.len() }, max, min, sum })
}

/// The statistics of a function with the samples `samples`.
pub fn summarize_function(samples: &Vec<ResourceMetric>) -> (r: FuncStatistics)
    ensures
        r == func_statistics(samples@),
{
    FuncStatistics {
        times: samples.len(),
        metrics: PerMetric {
            cpu_insns: summarize(samples, MetricKey::CpuInsns),
            mem_bytes: summarize(samples, MetricKey::MemBytes),
            entry_bytes: summarize(samples, MetricKey::EntryBytes),
            entry_reads: summarize(samples, MetricKey::EntryReads),
            entry_writes: summarize(samples, MetricKey::EntryWrites),
            read_bytes: summarize(samples, MetricKey::ReadBytes),
            write_bytes: summarize(samples, MetricKey::WriteBytes),
            min_txn_bytes: summarize(samples, MetricKey::MinTxnBytes),
        },
    }
}

/// The statistics of the functions of one contract.
pub fn calc_function_statistics(functions: &FunctionStore) -> (r: KeyedList<FuncStatistics>)
    ensures
        r.entries() == functions_aggregated(function_model(*functions)),
{
    let ghost model = function_model(*functions);
    let mut res: KeyedList<FuncStatistics> = KeyedList::new();
    let mut j: usize = 0;
    proof {
        use_type_invariant(functions);
        assert(model.take(0) =~= Seq::empty());
    }
    while j < functions.len()
        invariant
            j <= functions.entries().len(),
            functions.wf(),
            model == function_model(*functions),
            res.entries() == functions_aggregated(model.take(j as int)),
            forall|k: Seq<char>| #[trigger]
                has_key(res.entries(), k) ==> exists|m: int|
                    0 <= m < j && functions.entries()[m].0 == k,
        decreases functions.entries().len() - j,
    {
        let samples = functions.value_at(j);
        let ghost before = res.entries();
        proof {
            let next = model.take(j + 1);
            assert(next.drop_last() =~= model.take(j as int));
            assert(next.last() == model[j as int]);
        }
        if samples.len() != 0 {
            let name = functions.key_at(j).clone();
            proof {
                lemma_map_keys(res.entries(), name@);
                if has_key(res.entries(), name@) {
                    let m = choose|m: int| 0 <= m < j && functions.entries()[m].0 == name@;
                    assert(functions.entries()[m].0 != functions.entries()[j as int].0);
                }
            }
            res.push_new(name, summarize_function(samples));
            proof {
                assert forall|k: Seq<char>| #[trigger]
                    has_key(res.entries(), k) implies exists|m: int|
                    0 <= m < j + 1 && functions.entries()[m].0 == k by {
                    let a = choose|a: int|
                        0 <= a < res.entries().len() && #[trigger] res.entries()[a].0 == k;
                    if a < before.len() {
                        assert(before[a].0 == k);
                        assert(has_key(before, k));
                    } else {
                        assert(functions.entries()[j as int].0 == k);
                    }
                }
            }
        }
        j += 1;
    }
    proof {
        assert(model.take(model.len() as int) =~= model);
    }
    res
}

/// The statistics of every function in `store` that has a sample. A
/// contract has an entry even where none of its functions has one.
pub fn calc_statistics(store: &ContractStore) -> (r: ResultStatistics)
    ensures
        statistics_model(r) == aggregated(store_model(*store)),
{
    let ghost model = store_model(*store);
    let mut res: ResultStatistics = KeyedList::new();
    let mut i: usize = 0;
    proof {
        use_type_invariant(store);
    }
    while i < store.len()
        invariant
            i <= store.entries().len(),
            store.wf(),
            model == store_model(*store),
            res.entries().len() == i,
            forall|m: int|
                0 <= m < i ==> (#[trigger] res.entries()[m]).0 == store.entries()[m].0
                    && res.entries()[m].1.entries() == functions_aggregated(model[m].1),
        decreases store.entries().len() - i,
    {
        let inner = calc_function_statistics(store.value_at(i));
        let name = store.key_at(i).clone();
        let ghost before = res.entries();
        proof {
            lemma_map_keys(res.entries(), name@);
            if has_key(res.entries(), name@) {
                let m = choose|m: int|
                    0 <= m < res.entries().len() && #[trigger] res.entries()[m].0 == name@;
                assert(store.entries()[m].0 != store.entries()[i as int].0);
            }
        }
        res.push_new(name, inner);
        proof {
            assert forall|m: int| 0 <= m < i + 1 implies (#[trigger] res.entries()[m]).0
                == store.entries()[m].0 && res.entries()[m].1.entries()
                == functions_aggregated(model[m].1) by {
                if m < i {
                    assert(res.entries()[m] == before[m]);
                }
            }
        }
        i += 1;
    }
    proof {
        assert(statistics_model(res) =~= aggregated(model));
    }
    res
}

/// One row of a table: the key, its ceiling, and the average, the largest,
/// the smallest and the sum of the figure.
pub type TableRow = (MetricKey, u64, Average, u64, u64, u128);

/// The rows of one function for a report.
#[derive(Debug, PartialEq, Eq)]
pub struct FuncTableData {
    pub func: String,
    pub times: usize,
    pub rows: Vec<TableRow>,
}

/// What a [`FuncTableData`] stands for: the function's name, how often it
/// was called, and its rows.
pub type FuncTableModel = (Seq<char>, usize, Seq<TableRow>);

/// What `data` stands for.
pub open spec fn func_table_model(data: FuncTableData) -> FuncTableModel {
    (data.func@, data.times, data.rows@)
}

/// What each of `table` stands for, in their order.
pub open spec fn table_model(table: Seq<FuncTableData>) -> Seq<FuncTableModel> {
    Seq::new(table.len(), |i: int| func_table_model(table[i]))
}

/// The rows of a function for the first `n` keys: one row for each key that
/// has statistics and a ceiling other than zero, in the order of the keys.
pub open spec fn rows_upto(statistics: FuncStatistics, limits: LimitTable, n: nat) -> Seq<TableRow>
    decreases n,
{
    if n == 0 || n > metric_keys().len() {
        Seq::empty()
    } else {
        let rest = rows_upto(statistics, limits, (n - 1) as nat);
        let key = metric_keys()[n - 1];
        match statistics.metrics.at(key) {
            Some(st) => if limits.at(key) != 0 {
                rest.push((key, limits.at(key), st.avg, st.max, st.min, st.sum))
            } else {
                rest
            },
            None => rest,
        }
    }
}

/// The rows of a function.
pub open spec fn rows_of(statistics: FuncStatistics, limits: LimitTable) -> Seq<TableRow> {
    rows_upto(statistics, limits, metric_keys().len())
}

/// The table of one contract: one item for each function with statistics.
pub open spec fn functions_table(functions: FunctionStatisticsModel, limits: LimitTable) -> Seq<
    FuncTableModel,
> {
    Seq::new(
        functions.len(),
        |i: int| (functions[i].0, functions[i].1.times, rows_of(functions[i].1, limits)),
    )
}

/// The table of all contracts: the functions of the first contract, then
/// those of the second, and so on.
pub open spec fn table_of(statistics: StatisticsModel, limits: LimitTable) -> Seq<FuncTableModel>
    decreases statistics.len(),
{
    if statistics.len() == 0 {
        Seq::empty()
    } else {
        table_of(statistics.drop_last(), limits) + functions_table(statistics.last().1, limits)
    }
}

/// Every row stands for a key that has statistics and a ceiling other
/// than zero, and carries that ceiling and those statistics; the rows come in
/// the order of the keys, one for each such key among the first `n`.
pub proof fn lemma_rows_upto(statistics: FuncStatistics, limits: LimitTable, n: nat)
    ensures
        forall|j: int|
            0 <= j < rows_upto(statistics, limits, n).len() ==> {
                let row = #[trigger] rows_upto(statistics, limits, n)[j];
                &&& row.1 != 0
                &&& row.1 == limits.at(row.0)
                &&& statistics.metrics.at(row.0) == Some(
                    MetricStatistics { avg: row.2, max: row.3, min: row.4, sum: row.5 },
                )
            },
    decreases n,
{
    if n == 0 || n > metric_keys().len() {
    } else {
        lemma_rows_upto(statistics, limits, (n - 1) as nat);
    }
}

/// A figure whose ceiling is zero has no row, whatever was observed of it.
pub proof fn lemma_zero_limit_no_row(statistics: FuncStatistics, limits: LimitTable, key: MetricKey)
    requires
        limits.at(key) == 0,
    ensures
        forall|j: int|
            0 <= j < rows_of(statistics, limits).len() ==> (#[trigger] rows_of(
                statistics,
                limits,
            )[j]).0 != key,
{
    lemma_rows_upto(statistics, limits, metric_keys().len());
}

/// Whether every one of `rows` carries the ceiling of its key and that
/// ceiling is not zero.
pub open spec fn rows_within(rows: Seq<TableRow>, limits: LimitTable) -> bool {
    forall|j: int|
        0 <= j < rows.len() ==> (#[trigger] rows[j]).1 != 0 && rows[j].1 == limits.at(rows[j].0)
}

/// In every item of the table each row carries the ceiling of its key, and
/// no row stands for a key whose ceiling is zero.
pub proof fn lemma_table_rows(statistics: StatisticsModel, limits: LimitTable)
    ensures
        forall|i: int|
            0 <= i < table_of(statistics, limits).len() ==> rows_within(
                (#[trigger] table_of(statistics, limits)[i]).2,
                limits,
            ),
    decreases statistics.len(),
{
    if statistics.len() > 0 {
        let rest = table_of(statistics.drop_last(), limits);
        let here = functions_table(statistics.last().1, limits);
        lemma_table_rows(statistics.drop_last(), limits);
        assert forall|i: int| 0 <= i < table_of(statistics, limits).len() implies rows_within(
            (#[trigger] table_of(statistics, limits)[i]).2,
            limits,
        ) by {
            if i < rest.len() {
                assert(table_of(statistics, limits)[i] == rest[i]);
            } else {
                let k = i - rest.len();
                assert(table_of(statistics, limits)[i] == here[k]);
                lemma_rows_upto(statistics.last().1[k].1, limits, metric_keys().len());
            }
        }
    }
}

/// The rows of a function with the statistics `statistics`.
pub fn load_rows(statistics: &FuncStatistics, limits: &LimitTable) -> (r: Vec<TableRow>)
    ensures
        r@ == rows_of(*statistics, *limits),
{
    let keys = MetricKey::all();
    let mut rows: Vec<TableRow> = Vec::new();
    let mut n: usize = 0;
    while n < 8
        invariant
            n <= 8,
            keys@ == metric_keys(),
            rows@ == rows_upto(*statistics, *limits, n as nat),
        decreases 8 - n,
    {
        let key = keys[n];
        match statistics.metrics.get(key) {
            Some(st) => {
                let limit = *limits.get(key);
                if limit != 0 {
                    rows.push((key, limit, st.avg, st.max, st.min, st.sum));
                }
            },
            None => {},
        }
        n += 1;
    }
    rows
}

/// The table of `statistics`: for each function its name, how often it was
/// called, and one row for each figure that has statistics and a ceiling
/// other than zero.
pub fn load_table_data(statistics: &ResultStatistics, limits: &LimitTable) -> (r: Vec<
    FuncTableData,
>)
    ensures
        table_model(r@) == table_of(statistics_model(*statistics), *limits),
{
    let ghost model = statistics_model(*statistics);
    let mut res: Vec<FuncTableData> = Vec::new();
    let mut i: usize = 0;
    assert(model.take(0) =~= Seq::empty());
    assert(table_model(res@) =~= Seq::empty());
    while i < statistics.len()
        invariant
            i <= statistics.entries().len(),
            model == statistics_model(*statistics),
            table_model(res@) == table_of(model.take(i as int), *limits),
        decreases statistics.entries().len() - i,
    {
        let funcs = statistics.value_at(i);
        let ghost before = table_model(res@);
        let ghost inner = functions_table(funcs.entries(), *limits);
        let mut j: usize = 0;
        while j < funcs.len()
            invariant
                j <= funcs.entries().len(),
                inner == functions_table(funcs.entries(), *limits),
                table_model(res@) == before + inner.take(j as int),
            decreases funcs.entries().len() - j,
        {
            let data = funcs.value_at(j);
            let ghost prior = table_model(res@);
            res.push(
                FuncTableData {
                    func: funcs.key_at(j).clone(),
                    times: data.times,
                    rows: load_rows(data, limits),
                },
            );
            proof {
                assert(table_model(res@) =~= prior.push(inner[j as int]));
                assert(inner.take(j + 1) =~= inner.take(j as int).push(inner[j as int]));
                assert(table_model(res@) =~= before + inner.take(j + 1));
            }
            j += 1;
        }
        proof {
            assert(inner.take(inner.len() as int) =~= inner);
            let next = model.take(i + 1);
            assert(next.drop_last() =~= model.take(i as int));
            assert(next.last() == model[i as int]);
        }
        i += 1;
    }
    proof {
        assert(model.take(model.len() as int) =~= model);
    }
    res
}

} // verus!
