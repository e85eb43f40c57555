use vstd::prelude::*;
use crate::codec::{
    Limits, entry_data_len, entry_data_xdr_len, envelope_len, envelope_xdr_len, limits, xdr_limits,
};
use crate::error::{Error, ErrorView, result_view};
use crate::ledger::{
    DiagnosticEvent, HostFunction, LedgerEntryChange, OperationBody, OperationMeta, ScAddress,
    SimulationResult, SorobanResources, Transaction, TransactionMeta, TransactionMetaV4,
    TransactionReceipt, TransactionStatus,
};
use crate::scval_tools::{ScVal, scval_as_string, scval_as_u64, scval_text, scval_u64};
use crate::store::{
    ContractStore, StoreModel, append_sample, lemma_recorded, recorded, samples_at, store_model,
};
use crate::strkey::{contract_address, contract_strkey};
use crate::text::same_text;

verus! {

/// What one contract call consumed. A field is `None` where the figure was
/// not observed for the call, which is not the same as zero.
#[derive(Debug, Clone, Copy, PartialEq, Eq)]
pub struct ResourceMetric {
    /// CPU instructions, from the diagnostic events.
    pub cpu_insns: Option<u64>,
    /// Bytes of memory, from the diagnostic events.
    pub mem_bytes: Option<u64>,
    /// Encoded size of the largest ledger entry created or modified.
    pub entry_bytes: Option<usize>,
    /// Number of ledger entries in the read-only footprint.
    pub entry_reads: Option<usize>,
    /// Number of ledger entries in the read-write footprint.
    pub entry_writes: Option<usize>,
    /// Bytes read from the ledger.
    pub read_bytes: Option<u32>,
    /// Bytes written to the ledger.
    pub write_bytes: Option<u32>,
    /// Encoded size of the transaction envelope.
    pub min_txn_bytes: Option<usize>,
}

impl ResourceMetric {
    /// The sample in which nothing was observed.
    pub open spec fn empty() -> ResourceMetric {
        ResourceMetric {
            cpu_insns: None,
            mem_bytes: None,
            entry_bytes: None,
            entry_reads: None,
            entry_writes: None,
            read_bytes: None,
            write_bytes: None,
            min_txn_bytes: None,
        }
    }
}

impl Default for ResourceMetric {
    fn default() -> (r: ResourceMetric)
        ensures
            r == ResourceMetric::empty(),
    {
        ResourceMetric {
            cpu_insns: None,
            mem_bytes: None,
            entry_bytes: None,
            entry_reads: None,
            entry_writes: None,
            read_bytes: None,
            write_bytes: None,
            min_txn_bytes: None,
        }
    }
}

/// The sizes that the codec gives for the data of the entries that
/// `changes` created or updated, in their order; `None` for data that it
/// cannot write within the limits. Other changes have no data to measure.
pub open spec fn change_sizes(changes: Seq<LedgerEntryChange>, limits: Limits) -> Seq<
    Option<usize>,
>
    decreases changes.len(),
{
    if changes.len() == 0 {
        Seq::empty()
    } else {
        let rest = change_sizes(changes.drop_last(), limits);
        match changes.last() {
            LedgerEntryChange::Created(data) => rest.push(
                entry_data_xdr_len(data@, limits.depth, limits.len),
            ),
            LedgerEntryChange::Updated(data) => rest.push(
                entry_data_xdr_len(data@, limits.depth, limits.len),
            ),
            _ => rest,
        }
    }
}

/// The sizes of the data of all the entries that `operations` created or
/// updated: those of the first operation, then those of the second, and so
/// on.
pub open spec fn entry_sizes(operations: Seq<OperationMeta>, limits: Limits) -> Seq<Option<usize>>
    decreases operations.len(),
{
    if operations.len() == 0 {
        Seq::empty()
    } else {
        entry_sizes(operations.drop_last(), limits) + change_sizes(
            operations.last().changes@,
            limits,
        )
    }
}

/// What a size counts with: data that could not be measured counts as zero.
pub open spec fn size_or_zero(size: Option<usize>) -> nat {
    match size {
        Some(n) => n as nat,
        None => 0,
    }
}

/// The largest of `sizes`; zero where there is none.
pub open spec fn largest_size(sizes: Seq<Option<usize>>) -> nat
    decreases sizes.len(),
{
    if sizes.len() == 0 {
        0
    } else {
        let rest = largest_size(sizes.drop_last());
        let last = size_or_zero(sizes.last());
        if last > rest {
            last
        } else {
            rest
        }
    }
}

/// The size of the largest entry that `operations` created or updated;
/// zero where they created and updated none.
pub open spec fn largest_entry(operations: Seq<OperationMeta>, limits: Limits) -> nat {
    largest_size(entry_sizes(operations, limits))
}

/// No size is larger than the largest; where there is a size, one of them
/// is the largest; and where there is none, the largest is zero.
pub proof fn lemma_largest_size(sizes: Seq<Option<usize>>)
    ensures
        forall|j: int| 0 <= j < sizes.len() ==> size_or_zero(sizes[j]) <= largest_size(sizes),
        sizes.len() > 0 ==> exists|j: int|
            0 <= j < sizes.len() && size_or_zero(sizes[j]) == largest_size(sizes),
        sizes.len() == 0 ==> largest_size(sizes) == 0,
        largest_size(sizes) <= usize::MAX,
    decreases sizes.len(),
{
    if sizes.len() > 0 {
        let rest = sizes.drop_last();
        lemma_largest_size(rest);
        assert forall|j: int| 0 <= j < sizes.len() implies size_or_zero(sizes[j]) <= largest_size(
            sizes,
        ) by {
            if j < rest.len() {
                assert(rest[j] == sizes[j]);
            }
        }
        if size_or_zero(sizes.last()) > largest_size(rest) || rest.len() == 0 {
            assert(size_or_zero(sizes[sizes.len() - 1]) == largest_size(sizes));
        } else {
            let j = choose|j: int|
                0 <= j < rest.len() && size_or_zero(rest[j]) == largest_size(rest);
            assert(rest[j] == sizes[j]);
        }
    }
}

/// Operations that changed nothing have no largest entry but zero: so it is
/// where there is no operation, and where no operation has a change.
pub proof fn lemma_no_change_no_size(operations: Seq<OperationMeta>, limits: Limits)
    requires
        forall|i: int| 0 <= i < operations.len() ==> (#[trigger] operations[i]).changes@.len() == 0,
    ensures
        entry_sizes(operations, limits) == Seq::<Option<usize>>::empty(),
        largest_entry(operations, limits) == 0,
    decreases operations.len(),
{
    if operations.len() > 0 {
        let rest = operations.drop_last();
        assert forall|i: int| 0 <= i < rest.len() implies (#[trigger] rest[i]).changes@.len()
            == 0 by {
            assert(rest[i] == operations[i]);
        }
        lemma_no_change_no_size(rest, limits);
        assert(operations[operations.len() - 1].changes@.len() == 0);
        assert(entry_sizes(operations, limits) =~= Seq::<Option<usize>>::empty());
    }
}

/// The sizes of the data of all the entries that the transaction created
/// or updated, each as the codec measures it within the limits of
/// [`xdr_limits`].
pub fn measure_entries(meta: &TransactionMetaV4) -> (r: Vec<Option<usize>>)
    ensures
        r@ == entry_sizes(meta.operations@, xdr_limits()),
{
    let limits = limits();
    let mut sizes: Vec<Option<usize>> = Vec::new();
    let mut i: usize = 0;
    assert(meta.operations@.take(0) =~= Seq::empty());
    while i < meta.operations.len()
        invariant
            i <= meta.operations.len(),
            limits == xdr_limits(),
            sizes@ == entry_sizes(meta.operations@.take(i as int), limits),
        decreases meta.operations.len() - i,
    {
        let changes = &meta.operations[i].changes;
        let ghost before = sizes@;
        let mut j: usize = 0;
        assert(changes@.take(0) =~= Seq::empty());
        while j < changes.len()
            invariant
                j <= changes.len(),
                limits == xdr_limits(),
                sizes@ == before + change_sizes(changes@.take(j as int), limits),
            decreases changes.len() - j,
        {
            proof {
                let next = changes@.take(j + 1);
                assert(next.drop_last() =~= changes@.take(j as int));
                assert(next.last() == changes@[j as int]);
            }
            let ghost prior = change_sizes(changes@.take(j as int), limits);
            match &changes[j] {
                LedgerEntryChange::Created(data) => {
                    sizes.push(entry_data_len(data, limits));
                    assert(sizes@ =~= before + prior.push(sizes@.last()));
                },
                LedgerEntryChange::Updated(data) => {
                    sizes.push(entry_data_len(data, limits));
                    assert(sizes@ =~= before + prior.push(sizes@.last()));
                },
                _ => {},
            }
            j += 1;
        }
        proof {
            assert(changes@.take(changes@.len() as int) =~= changes@);
            let next = meta.operations@.take(i + 1);
            assert(next.drop_last() =~= meta.operations@.take(i as int));
            assert(next.last() == meta.operations@[i as int]);
        }
        i += 1;
    }
    proof {
        assert(meta.operations@.take(meta.operations@.len() as int) =~= meta.operations@);
    }
    sizes
}

/// The largest of `sizes`, a size that could not be measured counting as
/// zero; zero where there is none.
pub fn max_size(sizes: &Vec<Option<usize>>) -> (r: usize)
    ensures
        r == largest_size(sizes@),
{
    let mut max_len: usize = 0;
    let mut i: usize = 0;
    assert(sizes@.take(0) =~= Seq::empty());
    while i < sizes.len()
        invariant
            i <= sizes.len(),
            max_len == largest_size(sizes@.take(i as int)),
        decreases sizes.len() - i,
    {
        let len = match sizes[i] {
            Some(n) => n,
            None => 0,
        };
        proof {
            let next = sizes@.take(i + 1);
            assert(next.drop_last() =~= sizes@.take(i as int));
            assert(next.last() == sizes@[i as int]);
        }
        if len > max_len {
            max_len = len;
        }
        i += 1;
    }
    proof {
        assert(sizes@.take(sizes@.len() as int) =~= sizes@);
    }
    max_len
}

/// The size in XDR of the largest ledger entry that the transaction created
/// or updated, measured within the limits of [`xdr_limits`]; zero where it
/// created and updated none. An entry whose data cannot be written within
/// the limits counts as zero.
pub fn max_entry_value_len(meta: &TransactionMetaV4) -> (r: usize)
    ensures
        r == largest_entry(meta.operations@, xdr_limits()),
{
    max_size(&measure_entries(meta))
}

/// The counters that the ledger reports in diagnostic events.
#[derive(Debug, Clone, Copy, PartialEq, Eq, Structural)]
pub enum CoreKey {
    CpuInsn,
    MemByte,
    LedgerReadByte,
    LedgerWriteByte,
}

/// The counter that goes by the name `text`, if there is one.
pub open spec fn core_key_of(text: Seq<char>) -> Option<CoreKey> {
    if text == "cpu_insn"@ {
        Some(CoreKey::CpuInsn)
    } else if text == "mem_byte"@ {
        Some(CoreKey::MemByte)
    } else if text == "ledger_read_byte"@ {
        Some(CoreKey::LedgerReadByte)
    } else if text == "ledger_write_byte"@ {
        Some(CoreKey::LedgerWriteByte)
    } else {
        None
    }
}

/// Whether the topic is the tag `core_metrics`.
pub open spec fn is_tag(topic: ScVal) -> bool {
    scval_text(topic) == Some("core_metrics"@)
}

/// The counter that the topic names: a topic names one where it is text,
/// is not the tag, and is the name of a counter.
pub open spec fn topic_key(topic: ScVal) -> Option<CoreKey> {
    match scval_text(topic) {
        Some(text) => if text == "core_metrics"@ {
            None
        } else {
            core_key_of(text)
        },
        None => None,
    }
}

/// Whether one of `topics` is the tag `core_metrics`.
pub open spec fn has_tag(topics: Seq<ScVal>) -> bool {
    exists|i: int| 0 <= i < topics.len() && is_tag(#[trigger] topics[i])
}

/// The counter that the first of `topics` to name one names.
pub open spec fn first_key(topics: Seq<ScVal>) -> Option<CoreKey>
    decreases topics.len(),
{
    if topics.len() == 0 {
        None
    } else {
        match topic_key(topics[0]) {
            Some(key) => Some(key),
            None => first_key(topics.drop_first()),
        }
    }
}

/// What an event reports: a counter and its value, where the event carries
/// the tag, one of its topics names a counter, and its payload is a number
/// that 64 bits can hold. Any other event reports nothing.
pub open spec fn event_reading(event: DiagnosticEvent) -> Option<(CoreKey, u64)> {
    if has_tag(event.topics@) {
        match (first_key(event.topics@), scval_u64(event.data)) {
            (Some(key), Some(value)) => Some((key, value)),
            _ => None,
        }
    } else {
        None
    }
}

/// Whether `event` reports the counter `key`.
pub open spec fn reports(event: DiagnosticEvent, key: CoreKey) -> bool {
    match event_reading(event) {
        Some((k, _)) => k == key,
        None => false,
    }
}

/// The value of the counter `key` after `events`: what the last event that
/// reports the counter gives, `None` where no event reports it.
pub open spec fn last_reading(events: Seq<DiagnosticEvent>, key: CoreKey) -> Option<u64>
    decreases events.len(),
{
    if events.len() == 0 {
        None
    } else {
        match event_reading(events.last()) {
            Some((k, value)) => if k == key {
                Some(value)
            } else {
                last_reading(events.drop_last(), key)
            },
            None => last_reading(events.drop_last(), key),
        }
    }
}

/// A counter has a value exactly where some event reports it, and the value
/// is that of the last event that does.
pub proof fn lemma_last_reading(events: Seq<DiagnosticEvent>, key: CoreKey)
    ensures
        last_reading(events, key) is Some <==> exists|i: int|
            0 <= i < events.len() && reports(#[trigger] events[i], key),
        last_reading(events, key) is Some ==> exists|i: int|
            0 <= i < events.len() && reports(#[trigger] events[i], key) && event_reading(
                events[i],
            ) == Some((key, last_reading(events, key)->0)) && forall|j: int|
                i < j < events.len() ==> !reports(#[trigger] events[j], key),
    decreases events.len(),
{
    if events.len() > 0 {
        let rest = events.drop_last();
        let last = events.len() - 1;
        lemma_last_reading(rest, key);
        if reports(events[last], key) {
        } else {
            if exists|i: int| 0 <= i < events.len() && reports(#[trigger] events[i], key) {
                let i = choose|i: int| 0 <= i < events.len() && reports(#[trigger] events[i], key);
                assert(rest[i] == events[i]);
            }
            if last_reading(rest, key) is Some {
                let i = choose|i: int|
                    0 <= i < rest.len() && reports(#[trigger] rest[i], key) && event_reading(
                        rest[i],
                    ) == Some((key, last_reading(rest, key)->0)) && forall|j: int|
                        i < j < rest.len() ==> !reports(#[trigger] rest[j], key);
                assert(rest[i] == events[i]);
                assert forall|j: int| i < j < events.len() implies !reports(
                    #[trigger] events[j],
                    key,
                ) by {
                    if j < last {
                        assert(rest[j] == events[j]);
                    }
                }
            }
        }
    }
}

fn core_key_from(text: &str) -> (r: Option<CoreKey>)
    ensures
        r == core_key_of(text@),
{
    if same_text(text, "cpu_insn") {
        Some(CoreKey::CpuInsn)
    } else if same_text(text, "mem_byte") {
        Some(CoreKey::MemByte)
    } else if same_text(text, "ledger_read_byte") {
        Some(CoreKey::LedgerReadByte)
    } else if same_text(text, "ledger_write_byte") {
        Some(CoreKey::LedgerWriteByte)
    } else {
        None
    }
}

/// Whether the topics carry the tag, and the counter that they name.
fn scan_topics(topics: &Vec<ScVal>) -> (r: (bool, Option<CoreKey>))
    ensures
        r.0 == has_tag(topics@),
        r.1 == first_key(topics@),
{
    let mut is_core_metrics = false;
    let mut matched_key: Option<CoreKey> = None;
    let mut i: usize = 0;
    assert(topics@.skip(0) =~= topics@);
    while i < topics.len()
        invariant
            i <= topics.len(),
            is_core_metrics == has_tag(topics@.take(i as int)),
            first_key(topics@) == match matched_key {
                Some(key) => Some(key),
                None => first_key(topics@.skip(i as int)),
            },
        decreases topics.len() - i,
    {
        let ghost seen = topics@.take(i as int);
        let ghost next = topics@.take(i + 1);
        proof {
            assert(topics@.skip(i as int)[0] == topics@[i as int]);
            assert(topics@.skip(i as int).drop_first() =~= topics@.skip(i + 1));
            if has_tag(seen) {
                let k = choose|k: int| 0 <= k < seen.len() && is_tag(#[trigger] seen[k]);
                assert(is_tag(next[k]));
            }
            if has_tag(next) && !is_tag(topics@[i as int]) {
                let k = choose|k: int| 0 <= k < next.len() && is_tag(#[trigger] next[k]);
                assert(is_tag(seen[k]));
            }
            if is_tag(topics@[i as int]) {
                assert(is_tag(next[i as int]));
            }
        }
        match scval_as_string(&topics[i]) {
            Some(topic) => {
                if same_text(topic.as_str(), "core_metrics") {
                    is_core_metrics = true;
                } else if matched_key.is_none() {
                    matched_key = core_key_from(topic.as_str());
                }
            },
            None => {},
        }
        i += 1;
    }
    proof {
        assert(topics@.take(topics@.len() as int) =~= topics@);
    }
    (is_core_metrics, matched_key)
}

/// The two counters that a sample takes from the diagnostic events.
#[derive(Debug, Clone, Copy, PartialEq, Eq)]
pub struct Metrics {
    pub cpu_insn: Option<u64>,
    pub mem_byte: Option<u64>,
}

/// The CPU instructions and the bytes of memory that the diagnostic events
/// report. Where several events report a counter, the last one counts.
pub fn get_core_metrics(meta: &TransactionMetaV4) -> (r: Metrics)
    ensures
        r.cpu_insn == last_reading(meta.diagnostic_events@, CoreKey::CpuInsn),
        r.mem_byte == last_reading(meta.diagnostic_events@, CoreKey::MemByte),
{
    let events = &meta.diagnostic_events;
    let mut cpu_insn: Option<u64> = None;
    let mut mem_byte: Option<u64> = None;
    let mut i: usize = 0;
    assert(events@.take(0) =~= Seq::empty());
    while i < events.len()
        invariant
            i <= events.len(),
            cpu_insn == last_reading(events@.take(i as int), CoreKey::CpuInsn),
            mem_byte == last_reading(events@.take(i as int), CoreKey::MemByte),
        decreases events.len() - i,
    {
        let event = &events[i];
        proof {
            let next = events@.take(i + 1);
            assert(next.drop_last() =~= events@.take(i as int));
            assert(next.last() == events@[i as int]);
        }
        let (is_core_metrics, matched_key) = scan_topics(&event.topics);
        if is_core_metrics {
            if let Some(key) = matched_key {
                if let Some(value) = scval_as_u64(&event.data) {
                    match key {
                        CoreKey::CpuInsn => {
                            cpu_insn = Some(value);
                        },
                        CoreKey::MemByte => {
                            mem_byte = Some(value);
                        },
                        _ => {},
                    }
                }
            }
        }
        i += 1;
    }
    proof {
        assert(events@.take(events@.len() as int) =~= events@);
    }
    Metrics { cpu_insn, mem_byte }
}

/// The sample that is put together from the resources of the simulation,
/// the two counters, the size of the largest entry and the outcome of
/// measuring the envelope, `None` where the receipt has no envelope. Where
/// the envelope could not be measured, the codec's error. Else every figure
/// that has a source: the two counters as far as they were reported, and the
/// size of the envelope only where there is an envelope.
pub open spec fn assembled(
    resources: SorobanResources,
    metrics: Metrics,
    entry_bytes: usize,
    envelope: Option<Result<usize, Seq<char>>>,
) -> Result<ResourceMetric, ErrorView> {
    match envelope {
        Some(Err(words)) => Err(ErrorView::SDKXdrError(words)),
        Some(Ok(min_txn_bytes)) => Ok(
            ResourceMetric {
                cpu_insns: metrics.cpu_insn,
                mem_bytes: metrics.mem_byte,
                entry_bytes: Some(entry_bytes),
                entry_reads: Some(resources.footprint.read_only@.len() as usize),
                entry_writes: Some(resources.footprint.read_write@.len() as usize),
                read_bytes: Some(resources.disk_read_bytes),
                write_bytes: Some(resources.write_bytes),
                min_txn_bytes: Some(min_txn_bytes),
            },
        ),
        None => Ok(
            ResourceMetric {
                cpu_insns: metrics.cpu_insn,
                mem_bytes: metrics.mem_byte,
                entry_bytes: Some(entry_bytes),
                entry_reads: Some(resources.footprint.read_only@.len() as usize),
                entry_writes: Some(resources.footprint.read_write@.len() as usize),
                read_bytes: Some(resources.disk_read_bytes),
                write_bytes: Some(resources.write_bytes),
                min_txn_bytes: None,
            },
        ),
    }
}

/// What the outcome of measuring an envelope stands for.
pub open spec fn measured_view(envelope: Option<Result<usize, String>>) -> Option<
    Result<usize, Seq<char>>,
> {
    match envelope {
        Some(Ok(n)) => Some(Ok(n)),
        Some(Err(words)) => Some(Err(words@)),
        None => None,
    }
}

/// Puts a sample together from the resources of the simulation, the two
/// counters, the size of the largest entry and the outcome of measuring the
/// envelope, `None` where the receipt has no envelope.
pub fn assemble(
    resources: &SorobanResources,
    metrics: Metrics,
    entry_bytes: usize,
    envelope: Option<Result<usize, String>>,
) -> (r: Result<ResourceMetric, Error>)
    ensures
        result_view(r) == assembled(*resources, metrics, entry_bytes, measured_view(envelope)),
{
    let min_txn_bytes = match envelope {
        Some(Ok(len)) => Some(len),
        Some(Err(words)) => {
            return Err(Error::SDKXdrError(words));
        },
        None => None,
    };
    Ok(
        ResourceMetric {
            cpu_insns: metrics.cpu_insn,
            mem_bytes: metrics.mem_byte,
            entry_bytes: Some(entry_bytes),
            entry_reads: Some(resources.footprint.read_only.len()),
            entry_writes: Some(resources.footprint.read_write.len()),
            read_bytes: Some(resources.disk_read_bytes),
            write_bytes: Some(resources.write_bytes),
            min_txn_bytes,
        },
    )
}

/// The counters that the events of `meta` report.
pub open spec fn core_metrics(meta: TransactionMetaV4) -> Metrics {
    Metrics {
        cpu_insn: last_reading(meta.diagnostic_events@, CoreKey::CpuInsn),
        mem_byte: last_reading(meta.diagnostic_events@, CoreKey::MemByte),
    }
}

/// The outcome of measuring the envelope of a receipt within the limits of
/// [`xdr_limits`]: the size of the envelope or the codec's words for the
/// failure, and `None` where the receipt has no envelope.
pub open spec fn envelope_size(tx_result: TransactionReceipt) -> Option<Result<usize, Seq<char>>> {
    match tx_result.envelope {
        Some(bytes) => Some(envelope_xdr_len(bytes@, xdr_limits().depth, xdr_limits().len)),
        None => None,
    }
}

/// The sample of a call with metadata of version 4: an error where the
/// simulation has no resources, and else what is put together from the
/// resources, the counters of the events, the largest entry and the size of
/// the envelope, both measured within the limits of [`xdr_limits`].
pub open spec fn sample_v4(
    sim_tx: SimulationResult,
    tx_result: TransactionReceipt,
    meta: TransactionMetaV4,
) -> Result<ResourceMetric, ErrorView> {
    match sim_tx.resources {
        None => Err(ErrorView::NoTransactionData),
        Some(resources) => assembled(
            resources,
            core_metrics(meta),
            largest_entry(meta.operations@, xdr_limits()) as usize,
            envelope_size(tx_result),
        ),
    }
}

/// The sample of a call: an error where the receipt has no metadata or
/// metadata of another version than 4, and else what [`sample_v4`] gives.
pub open spec fn sample(sim_tx: SimulationResult, tx_result: TransactionReceipt) -> Result<
    ResourceMetric,
    ErrorView,
> {
    match tx_result.meta {
        None => Err(ErrorView::MissingMeta),
        Some(TransactionMeta::V4(meta)) => sample_v4(sim_tx, tx_result, meta),
        Some(_) => Err(ErrorView::UnsupportedMeta),
    }
}

/// What a sample holds: each figure exactly where its source is. Each of
/// the two counters is there exactly where an event of the metadata reports
/// it. The size of the envelope is there exactly where the receipt has an
/// envelope, and is then the size that the codec gives for its bytes. The
/// five other figures are always there: the sizes of the footprint as the
/// simulation has them, whatever the metadata holds, the bytes read and
/// written as the simulation has them, and the largest entry of the
/// metadata.
pub proof fn lemma_sample_fields(
    sim_tx: SimulationResult,
    tx_result: TransactionReceipt,
    meta: TransactionMetaV4,
)
    requires
        sample_v4(sim_tx, tx_result, meta) is Ok,
    ensures
        ({
            let m = sample_v4(sim_tx, tx_result, meta)->Ok_0;
            let resources = sim_tx.resources->0;
            &&& m.cpu_insns is Some <==> exists|i: int|
                0 <= i < meta.diagnostic_events@.len() && reports(
                    #[trigger] meta.diagnostic_events@[i],
                    CoreKey::CpuInsn,
                )
            &&& m.mem_bytes is Some <==> exists|i: int|
                0 <= i < meta.diagnostic_events@.len() && reports(
                    #[trigger] meta.diagnostic_events@[i],
                    CoreKey::MemByte,
                )
            &&& m.entry_reads == Some(resources.footprint.read_only@.len() as usize)
            &&& m.entry_writes == Some(resources.footprint.read_write@.len() as usize)
            &&& m.read_bytes == Some(resources.disk_read_bytes)
            &&& m.write_bytes == Some(resources.write_bytes)
            &&& m.entry_bytes == Some(largest_entry(meta.operations@, xdr_limits()) as usize)
            &&& m.min_txn_bytes is Some <==> tx_result.envelope is Some
            &&& tx_result.envelope is Some ==> envelope_xdr_len(
                tx_result.envelope->0@,
                xdr_limits().depth,
                xdr_limits().len,
            ) == Ok::<usize, Seq<char>>(m.min_txn_bytes->0)
        }),
{
    lemma_last_reading(meta.diagnostic_events@, CoreKey::CpuInsn);
    lemma_last_reading(meta.diagnostic_events@, CoreKey::MemByte);
}

/// The two sizes of the footprint in a sample are those of the simulation,
/// whatever the receipt and its metadata hold: two samples from one
/// simulation agree on them.
pub proof fn lemma_footprint_from_simulation(
    sim_tx: SimulationResult,
    first: (TransactionReceipt, TransactionMetaV4),
    second: (TransactionReceipt, TransactionMetaV4),
)
    requires
        sample_v4(sim_tx, first.0, first.1) is Ok,
        sample_v4(sim_tx, second.0, second.1) is Ok,
    ensures
        ({
            let a = sample_v4(sim_tx, first.0, first.1)->Ok_0;
            let b = sample_v4(sim_tx, second.0, second.1)->Ok_0;
            &&& a.entry_reads == b.entry_reads
            &&& a.entry_writes == b.entry_writes
            &&& a.entry_reads == Some(sim_tx.resources->0.footprint.read_only@.len() as usize)
            &&& a.entry_writes == Some(sim_tx.resources->0.footprint.read_write@.len() as usize)
        }),
{
}

/// A sample is taken exactly where the receipt has metadata of version 4,
/// the simulation has resources, and the envelope, if the receipt has one,
/// can be measured; each of the three errors comes where the first of these
/// fails in that order, and the codec's error where only the last fails.
pub proof fn lemma_sample_errors(sim_tx: SimulationResult, tx_result: TransactionReceipt)
    ensures
        sample(sim_tx, tx_result) == Err::<ResourceMetric, ErrorView>(ErrorView::MissingMeta)
            <==> tx_result.meta is None,
        sample(sim_tx, tx_result) == Err::<ResourceMetric, ErrorView>(ErrorView::UnsupportedMeta)
            <==> (tx_result.meta is Some && !(tx_result.meta->0 is V4)),
        sample(sim_tx, tx_result) == Err::<ResourceMetric, ErrorView>(
            ErrorView::NoTransactionData,
        ) <==> (tx_result.meta is Some && tx_result.meta->0 is V4 && sim_tx.resources is None),
        sample(sim_tx, tx_result) is Ok <==> (tx_result.meta is Some && tx_result.meta->0 is V4
            && sim_tx.resources is Some && !(envelope_size(tx_result) matches Some(Err(_)))),
        (sample(sim_tx, tx_result) matches Err(ErrorView::SDKXdrError(_))) <==> (tx_result.meta
            is Some && tx_result.meta->0 is V4 && sim_tx.resources is Some && (envelope_size(
            tx_result,
        ) matches Some(Err(_)))),
{
}

/// Takes the sample of one completed call from its simulation and its
/// receipt.
pub fn handle_transaction(sim_tx: &SimulationResult, tx_result: &TransactionReceipt) -> (r: Result<
    ResourceMetric,
    Error,
>)
    ensures
        result_view(r) == sample(*sim_tx, *tx_result),
{
    match &tx_result.meta {
        None => Err(Error::MissingMeta),
        Some(TransactionMeta::V4(meta)) => handle_meta_v4(sim_tx, tx_result, meta),
        Some(TransactionMeta::V0) => Err(Error::UnsupportedMeta),
        Some(TransactionMeta::V1) => Err(Error::UnsupportedMeta),
        Some(TransactionMeta::V2) => Err(Error::UnsupportedMeta),
        Some(TransactionMeta::V3) => Err(Error::UnsupportedMeta),
    }
}

/// Takes the sample of one completed call whose metadata is of version 4.
pub fn handle_meta_v4(
    sim_tx: &SimulationResult,
    tx_result: &TransactionReceipt,
    meta: &TransactionMetaV4,
) -> (r: Result<ResourceMetric, Error>)
    ensures
        result_view(r) == sample_v4(*sim_tx, *tx_result, *meta),
{
    let resources = match &sim_tx.resources {
        Some(resources) => resources,
        None => {
            return Err(Error::NoTransactionData);
        },
    };
    let min_txn_bytes = match &tx_result.envelope {
        Some(bytes) => Some(envelope_len(bytes, limits())),
        None => None,
    };
    let entry_bytes = max_entry_value_len(meta);
    let metrics = get_core_metrics(meta);
    proof {
        lemma_largest_size(entry_sizes(meta.operations@, xdr_limits()));
    }
    assemble(resources, metrics, entry_bytes, min_txn_bytes)
}

/// The contract and the function that an operation calls, where it is the
/// call of a function of a contract.
pub open spec fn call_target(operation: OperationBody) -> Option<(Seq<char>, Seq<char>)> {
    match operation {
        OperationBody::InvokeHostFunction(
            HostFunction::InvokeContract {
                contract_address: ScAddress::Contract(id),
                function_name,
            },
        ) => Some((contract_strkey(id@), function_name@)),
        _ => None,
    }
}

/// The store after `metric` was recorded once for each of `operations` that
/// calls a function of a contract, in their order.
pub open spec fn all_recorded(
    store: StoreModel,
    operations: Seq<OperationBody>,
    metric: ResourceMetric,
) -> StoreModel
    decreases operations.len(),
{
    if operations.len() == 0 {
        store
    } else {
        let before = all_recorded(store, operations.drop_last(), metric);
        match call_target(operations.last()) {
            Some((contract, function)) => recorded(before, contract, function, metric),
            None => before,
        }
    }
}

/// Records the sample of a transaction: once under each contract function
/// that the transaction calls, so twice under one that it calls twice.
/// Operations that call no contract function are passed over, and a
/// transaction without operations leaves the store as it is.
pub fn store_transaction(
    store_stats: &mut ContractStore,
    transaction: &Transaction,
    stats: &ResourceMetric,
)
    ensures
        store_model(*final(store_stats)) == transaction_recorded(
            store_model(*old(store_stats)),
            *transaction,
            *stats,
        ),
{
    let operations = match &transaction.operations {
        Some(operations) => operations,
        None => {
            return ;
        },
    };
    let ghost start = store_model(*store_stats);
    let mut i: usize = 0;
    assert(operations@.take(0) =~= Seq::empty());
    while i < operations.len()
        invariant
            i <= operations.len(),
            store_model(*store_stats) == all_recorded(start, operations@.take(i as int), *stats),
        decreases operations.len() - i,
    {
        proof {
            let next = operations@.take(i + 1);
            assert(next.drop_last() =~= operations@.take(i as int));
            assert(next.last() == operations@[i as int]);
        }
        match &operations[i] {
            OperationBody::InvokeHostFunction(
                HostFunction::InvokeContract {
                    contract_address: ScAddress::Contract(id),
                    function_name,
                },
            ) => {
                let contract = contract_address(id);
                append_sample(store_stats, contract.as_str(), function_name.as_str(), *stats);
            },
            _ => {},
        }
        i += 1;
    }
    proof {
        assert(operations@.take(operations@.len() as int) =~= operations@);
    }
}

/// A transaction that calls the same function of the same contract in two
/// operations leaves its sample twice at the end of that function's samples.
pub proof fn lemma_recorded_twice(
    store: StoreModel,
    first: OperationBody,
    second: OperationBody,
    metric: ResourceMetric,
)
    requires
        call_target(first) is Some,
        call_target(second) == call_target(first),
    ensures
        ({
            let (contract, function) = call_target(first)->0;
            samples_at(all_recorded(store, seq![first, second], metric), contract, function)
                == samples_at(store, contract, function).push(metric).push(metric)
        }),
{
    let (contract, function) = call_target(first)->0;
    let operations = seq![first, second];
    assert(operations.drop_last() =~= seq![first]);
    assert(seq![first].drop_last() =~= Seq::<OperationBody>::empty());
    assert(all_recorded(store, Seq::<OperationBody>::empty(), metric) == store);
    let once = recorded(store, contract, function, metric);
    assert(all_recorded(store, seq![first], metric) == once);
    assert(all_recorded(store, operations, metric) == recorded(once, contract, function, metric));
    lemma_recorded(store, contract, function, metric, contract, function);
    lemma_recorded(once, contract, function, metric, contract, function);
}

/// Operations that call no function of a contract leave the store as it is.
pub proof fn lemma_nothing_to_record(
    store: StoreModel,
    operations: Seq<OperationBody>,
    metric: ResourceMetric,
)
    requires
        forall|i: int| 0 <= i < operations.len() ==> call_target(#[trigger] operations[i]) is None,
    ensures
        all_recorded(store, operations, metric) == store,
    decreases operations.len(),
{
    if operations.len() > 0 {
        let rest = operations.drop_last();
        assert forall|i: int| 0 <= i < rest.len() implies call_target(#[trigger] rest[i])
            is None by {
            assert(rest[i] == operations[i]);
        }
        lemma_nothing_to_record(store, rest, metric);
        assert(call_target(operations[operations.len() - 1]) is None);
    }
}

/// The store after the sample `metric` of `transaction` was recorded.
pub open spec fn transaction_recorded(
    store: StoreModel,
    transaction: Transaction,
    metric: ResourceMetric,
) -> StoreModel {
    match transaction.operations {
        Some(operations) => all_recorded(store, operations@, metric),
        None => store,
    }
}

/// How taking a completed call into the store ends. A call that did not
/// succeed is passed over: `Ok(false)`. Of one that succeeded the sample is
/// taken and recorded: `Ok(true)`; where no sample can be taken, the error
/// says why.
pub open spec fn settle_outcome(sim_tx: SimulationResult, tx_result: TransactionReceipt) -> Result<
    bool,
    ErrorView,
> {
    if tx_result.status != TransactionStatus::Success {
        Ok(false)
    } else {
        match sample(sim_tx, tx_result) {
            Ok(_) => Ok(true),
            Err(e) => Err(e),
        }
    }
}

/// The store after a completed call was taken into it: with the call's
/// sample recorded where the call succeeded and a sample could be taken, and
/// else as it was.
pub open spec fn settle_store(
    store: StoreModel,
    transaction: Transaction,
    sim_tx: SimulationResult,
    tx_result: TransactionReceipt,
) -> StoreModel {
    if tx_result.status != TransactionStatus::Success {
        store
    } else {
        match sample(sim_tx, tx_result) {
            Ok(metric) => transaction_recorded(store, transaction, metric),
            Err(_) => store,
        }
    }
}

/// Takes a completed call into the store: passes over a call that did not
/// succeed, and records the sample of one that did. Whatever is not
/// recorded leaves the store as it is.
pub fn settle_transaction(
    store_stats: &mut ContractStore,
    transaction: &Transaction,
    sim_tx: &SimulationResult,
    tx_result: &TransactionReceipt,
) -> (r: Result<bool, Error>)
    ensures
        result_view(r) == settle_outcome(*sim_tx, *tx_result),
        store_model(*final(store_stats)) == settle_store(
            store_model(*old(store_stats)),
            *transaction,
            *sim_tx,
            *tx_result,
        ),
{
    match tx_result.status {
        TransactionStatus::Success => {},
        TransactionStatus::NotFound => {
            return Ok(false);
        },
        TransactionStatus::Failed => {
            return Ok(false);
        },
    }
    match handle_transaction(sim_tx, tx_result) {
        Ok(stats) => {
            store_transaction(store_stats, transaction, &stats);
            Ok(true)
        },
        Err(e) => Err(e),
    }
}

} // verus!
