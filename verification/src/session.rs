use vstd::prelude::*;
use crate::classify::LimitsCursors;
use crate::error::{Error, ErrorView, result_view};
use crate::keyed::{KeyedList, lemma_map_keys};
use crate::ledger::{SimulationResult, Transaction, TransactionReceipt, TransactionStatus};
use crate::report::{FuncReport, build_report, report_model, report_of};
use crate::show::LimitTable;
use crate::statistics::{sample, settle_transaction, transaction_recorded};
use crate::store::{ContractStore, FunctionModel, StoreModel, store_model};

verus! {

/// A call that was sent: the transaction and what its simulation gave.
#[derive(Debug)]
pub struct HashMapValue {
    pub transaction: Transaction,
    pub sim_tx_res: SimulationResult,
}

/// How settling a call ended.
#[derive(Debug, Clone, Copy, PartialEq, Eq, Structural)]
pub enum Settled {
    /// The call's sample was recorded.
    Recorded,
    /// The ledger gave no receipt for the call.
    NoReceipt,
    /// The call did not succeed.
    NotSuccessful,
    /// No call that was sent goes by the hash.
    NotSent,
}

/// How settling the call that goes by `hash` ends, and the samples after
/// it, where `calls` were sent and `samples` were recorded before. Nothing
/// is recorded without a receipt, for a call that did not succeed, and for a
/// hash that no call goes by. Of any other call the sample is taken and
/// recorded; where none can be taken, the error says why, and the samples
/// stay as they are.
pub open spec fn settle_step(
    calls: Map<Seq<char>, HashMapValue>,
    samples: StoreModel,
    hash: Seq<char>,
    tx_result: Option<TransactionReceipt>,
) -> (Result<Settled, ErrorView>, StoreModel) {
    match tx_result {
        None => (Ok(Settled::NoReceipt), samples),
        Some(receipt) => if receipt.status != TransactionStatus::Success {
            (Ok(Settled::NotSuccessful), samples)
        } else if !calls.contains_key(hash) {
            (Ok(Settled::NotSent), samples)
        } else {
            let call = calls[hash];
            match sample(call.sim_tx_res, receipt) {
                Ok(metric) => (
                    Ok(Settled::Recorded),
                    transaction_recorded(samples, call.transaction, metric),
                ),
                Err(e) => (Err(e), samples),
            }
        },
    }
}

/// What the ledger gave for the calls of a round: for each call its hash
/// and its receipt, `None` where the ledger gave none.
pub type Receipts = Seq<(Seq<char>, Option<TransactionReceipt>)>;

/// What `results` stand for: each hash as text, with its receipt.
pub open spec fn receipts_model(results: Seq<(String, Option<TransactionReceipt>)>) -> Receipts {
    Seq::new(results.len(), |i: int| (results[i].0@, results[i].1))
}

/// How settling each of `results` in their order ends, and the samples
/// after all of them. Each call is settled on the samples that the calls
/// before it left, as [`settle_step`] says: a call of which no sample can be
/// taken has its error and leaves the samples as they are, and the calls
/// after it are settled all the same.
pub open spec fn settle_steps(
    calls: Map<Seq<char>, HashMapValue>,
    samples: StoreModel,
    results: Receipts,
) -> (Seq<Result<Settled, ErrorView>>, StoreModel)
    decreases results.len(),
{
    if results.len() == 0 {
        (Seq::empty(), samples)
    } else {
        let before = settle_steps(calls, samples, results.drop_last());
        let last = settle_step(calls, before.1, results.last().0, results.last().1);
        (before.0.push(last.0), last.1)
    }
}

/// What each of `outcomes` stands for.
pub open spec fn outcomes_model(outcomes: Seq<Result<Settled, Error>>) -> Seq<
    Result<Settled, ErrorView>,
> {
    Seq::new(outcomes.len(), |i: int| result_view(outcomes[i]))
}

/// Every one of `results` has an outcome, the samples of a call of which
/// no sample could be taken are those that the call found, and the calls
/// after it are settled on them.
pub proof fn lemma_settle_steps(
    calls: Map<Seq<char>, HashMapValue>,
    samples: StoreModel,
    results: Receipts,
)
    ensures
        settle_steps(calls, samples, results).0.len() == results.len(),
        forall|i: int|
            0 <= i < results.len() ==> (#[trigger] settle_steps(calls, samples, results).0[i])
                == settle_step(
                calls,
                settle_steps(calls, samples, results.take(i)).1,
                results[i].0,
                results[i].1,
            ).0,
        forall|i: int|
            0 <= i < results.len() && (#[trigger] settle_steps(calls, samples, results).0[i])
                is Err ==> settle_steps(calls, samples, results.take(i + 1)).1 == settle_steps(
                calls,
                samples,
                results.take(i),
            ).1,
    decreases results.len(),
{
    if results.len() > 0 {
        let rest = results.drop_last();
        let n = rest.len() as int;
        lemma_settle_steps(calls, samples, rest);
        assert(results.take(n) =~= rest);
        assert(results.take(n + 1) =~= results);
        assert forall|i: int| 0 <= i < results.len() implies (#[trigger] settle_steps(
            calls,
            samples,
            results,
        ).0[i]) == settle_step(
            calls,
            settle_steps(calls, samples, results.take(i)).1,
            results[i].0,
            results[i].1,
        ).0 by {
            if i < n {
                assert(rest.take(i) =~= results.take(i));
                assert(rest[i] == results[i]);
            }
        }
        assert forall|i: int|
            0 <= i < results.len() && (#[trigger] settle_steps(calls, samples, results).0[i])
                is Err implies settle_steps(calls, samples, results.take(i + 1)).1
            == settle_steps(calls, samples, results.take(i)).1 by {
            if i < n {
                assert(rest.take(i) =~= results.take(i));
                assert(rest.take(i + 1) =~= results.take(i + 1));
                assert(settle_steps(calls, samples, results).0[i] == settle_steps(
                    calls,
                    samples,
                    rest,
                ).0[i]);
            }
        }
    }
}

/// The calls of a session between two reports: the call that was simulated
/// last and not yet sent, the calls that were sent, by the hash under which
/// the ledger knows them, and the samples of the calls that were settled.
#[derive(Debug)]
pub struct Session {
    draft: Option<HashMapValue>,
    hash: KeyedList<HashMapValue>,
    store_stats: ContractStore,
}

impl Session {
    /// The call that was simulated last and not yet sent.
    pub closed spec fn draft(self) -> Option<HashMapValue> {
        self.draft
    }

    /// The calls that were sent, by hash.
    pub closed spec fn sent_calls(self) -> Map<Seq<char>, HashMapValue> {
        self.hash@
    }

    /// The hashes of the calls that were sent, in the order in which they
    /// were first sent.
    pub closed spec fn sent_hashes(self) -> Seq<Seq<char>> {
        Seq::new(self.hash.entries().len(), |i: int| self.hash.entries()[i].0)
    }

    /// The samples that were recorded.
    pub closed spec fn samples(self) -> StoreModel {
        store_model(self.store_stats)
    }

    /// A session in which nothing has happened.
    pub fn new() -> (r: Session)
        ensures
            r.draft() is None,
            r.sent_calls() == Map::<Seq<char>, HashMapValue>::empty(),
            r.sent_hashes() == Seq::<Seq<char>>::empty(),
            r.samples() == Seq::<(Seq<char>, FunctionModel)>::empty(),
    {
        let r = Session { draft: None, hash: KeyedList::new(), store_stats: KeyedList::new() };
        assert(r.sent_hashes() =~= Seq::<Seq<char>>::empty());
        assert(r.samples() =~= Seq::<(Seq<char>, FunctionModel)>::empty());
        r
    }

    /// Takes note of a transaction that was simulated: it is the one that
    /// the next hash belongs to.
    pub fn simulated(&mut self, transaction: Transaction, sim_tx_res: SimulationResult)
        ensures
            final(self).draft() == Some(HashMapValue { transaction, sim_tx_res }),
            final(self).sent_calls() == old(self).sent_calls(),
            final(self).sent_hashes() == old(self).sent_hashes(),
            final(self).samples() == old(self).samples(),
    {
        self.draft = Some(HashMapValue { transaction, sim_tx_res });
    }

    /// Takes note that a transaction was sent and has the hash `hash`: the
    /// call that was simulated last now goes by that hash, in the place of
    /// any call that went by it before. Where no call was simulated since the
    /// last one was sent, nothing is noted.
    pub fn sent(&mut self, hash: String)
        ensures
            final(self).draft() is None,
            final(self).sent_calls() == match old(self).draft() {
                Some(call) => old(self).sent_calls().insert(hash@, call),
                None => old(self).sent_calls(),
            },
            final(self).sent_hashes() == if old(self).draft() is Some && !old(
                self,
            ).sent_calls().contains_key(hash@) {
                old(self).sent_hashes().push(hash@)
            } else {
                old(self).sent_hashes()
            },
            final(self).samples() == old(self).samples(),
    {
        let ghost before = self.sent_hashes();
        let mut draft = None;
        core::mem::swap(&mut self.draft, &mut draft);
        match draft {
            Some(call) => {
                let _ = self.hash.insert(hash, call);
                proof {
                    if old(self).sent_calls().contains_key(hash@) {
                        assert(self.sent_hashes() =~= before);
                    } else {
                        assert(self.sent_hashes() =~= before.push(hash@));
                    }
                }
            },
            None => {},
        }
    }

    /// The hashes of the calls that were sent: each of them once, in the
    /// order in which they were first sent.
    pub fn pending_hashes(&self) -> (r: Vec<String>)
        ensures
            r@.len() == self.sent_hashes().len(),
            forall|i: int| 0 <= i < r@.len() ==> (#[trigger] r@[i])@ == self.sent_hashes()[i],
            forall|i: int| 0 <= i < r@.len() ==> self.sent_calls().contains_key((#[trigger] r@[i])@),
            forall|i: int, j: int| 0 <= i < j < r@.len() ==> (#[trigger] r@[i])@ != (#[trigger] r@[j])@,
    {
        proof {
            use_type_invariant(&self.hash);
        }
        let mut out: Vec<String> = Vec::new();
        let mut i: usize = 0;
        while i < self.hash.len()
            invariant
                i <= self.hash.entries().len(),
                self.hash.wf(),
                out@.len() == i,
                forall|k: int| 0 <= k < i ==> (#[trigger] out@[k])@ == self.hash.entries()[k].0,
                forall|k: int| 0 <= k < i ==> self.hash@.contains_key((#[trigger] out@[k])@),
            decreases self.hash.entries().len() - i,
        {
            proof {
                lemma_map_keys(self.hash.entries(), self.hash.entries()[i as int].0);
            }
            out.push(self.hash.key_at(i).clone());
            i += 1;
        }
        out
    }

    /// How settling the call that goes by `hash` ends, and the samples after
    /// it: what [`settle_step`] gives for the calls that were sent and the
    /// samples that were recorded.
    pub open spec fn settled(
        self,
        hash: Seq<char>,
        tx_result: Option<TransactionReceipt>,
    ) -> (Result<Settled, ErrorView>, StoreModel) {
        settle_step(self.sent_calls(), self.samples(), hash, tx_result)
    }

    /// Settles the call that goes by `hash` with the receipt that the ledger
    /// gave for it, `None` where it gave none. The calls that were sent stay
    /// noted until [`Session::finish`].
    pub fn settle(&mut self, hash: &str, tx_result: Option<&TransactionReceipt>) -> (r: Result<
        Settled,
        Error,
    >)
        ensures
            final(self).draft() == old(self).draft(),
            final(self).sent_calls() == old(self).sent_calls(),
            final(self).sent_hashes() == old(self).sent_hashes(),
            (result_view(r), final(self).samples()) == old(self).settled(
                hash@,
                match tx_result {
                    Some(receipt) => Some(*receipt),
                    None => None,
                },
            ),
    {
        let receipt = match tx_result {
            Some(receipt) => receipt,
            None => {
                return Ok(Settled::NoReceipt);
            },
        };
        match receipt.status {
            TransactionStatus::Success => {},
            TransactionStatus::NotFound => {
                return Ok(Settled::NotSuccessful);
            },
            TransactionStatus::Failed => {
                return Ok(Settled::NotSuccessful);
            },
        }
        let call = match self.hash.get(hash) {
            Some(call) => call,
            None => {
                return Ok(Settled::NotSent);
            },
        };
        match settle_transaction(
            &mut self.store_stats,
            &call.transaction,
            &call.sim_tx_res,
            receipt,
        ) {
            Ok(_) => Ok(Settled::Recorded),
            Err(e) => Err(e),
        }
    }

    /// Settles the calls of a round, each with what the ledger gave for it,
    /// in their order, and hands back how each ended. A call of which no
    /// sample can be taken has its error in its place and is left out of the
    /// samples; the calls after it are settled all the same.
    pub fn settle_all(&mut self, results: &Vec<(String, Option<TransactionReceipt>)>) -> (r: Vec<
        Result<Settled, Error>,
    >)
        ensures
            final(self).draft() == old(self).draft(),
            final(self).sent_calls() == old(self).sent_calls(),
            final(self).sent_hashes() == old(self).sent_hashes(),
            (outcomes_model(r@), final(self).samples()) == settle_steps(
                old(self).sent_calls(),
                old(self).samples(),
                receipts_model(results@),
            ),
    {
        let ghost calls = self.sent_calls();
        let ghost start = self.samples();
        let ghost all = receipts_model(results@);
        let mut outcomes: Vec<Result<Settled, Error>> = Vec::new();
        let mut i: usize = 0;
        proof {
            assert(all.take(0) =~= Seq::empty());
            assert(outcomes_model(outcomes@) =~= Seq::empty());
        }
        while i < results.len()
            invariant
                i <= results.len(),
                all == receipts_model(results@),
                self.draft() == old(self).draft(),
                self.sent_calls() == calls,
                self.sent_hashes() == old(self).sent_hashes(),
                (outcomes_model(outcomes@), self.samples()) == settle_steps(
                    calls,
                    start,
                    all.take(i as int),
                ),
            decreases results.len() - i,
        {
            let ghost before = outcomes_model(outcomes@);
            let outcome = match &results[i].1 {
                Some(receipt) => self.settle(results[i].0.as_str(), Some(receipt)),
                None => self.settle(results[i].0.as_str(), None),
            };
            outcomes.push(outcome);
            proof {
                let next = all.take(i + 1);
                assert(next.drop_last() =~= all.take(i as int));
                assert(next.last() == all[i as int]);
                assert(outcomes_model(outcomes@) =~= before.push(result_view(outcome)));
            }
            i += 1;
        }
        proof {
            assert(all.take(all.len() as int) =~= all);
        }
        outcomes
    }

    /// The addresses of the contracts that have samples, in the order in
    /// which they were first seen.
    pub fn contracts(&self) -> (r: Vec<String>)
        ensures
            r@.len() == self.samples().len(),
            forall|i: int| 0 <= i < r@.len() ==> (#[trigger] r@[i])@ == self.samples()[i].0,
    {
        let mut out: Vec<String> = Vec::new();
        let mut i: usize = 0;
        while i < self.store_stats.len()
            invariant
                i <= self.store_stats.entries().len(),
                out@.len() == i,
                forall|k: int|
                    0 <= k < i ==> (#[trigger] out@[k])@ == self.store_stats.entries()[k].0,
            decreases self.store_stats.entries().len() - i,
        {
            out.push(self.store_stats.key_at(i).clone());
            i += 1;
        }
        out
    }

    /// The report of the samples that were recorded.
    pub fn report(&self, limits: &LimitTable, cursors: LimitsCursors) -> (r: Vec<FuncReport>)
        ensures
            report_model(r@) == report_of(self.samples(), *limits, cursors),
    {
        build_report(&self.store_stats, limits, cursors)
    }

    /// Ends a round: forgets the calls that were sent and the samples that
    /// were recorded.
    pub fn finish(&mut self)
        ensures
            final(self).draft() == old(self).draft(),
            final(self).sent_calls() == Map::<Seq<char>, HashMapValue>::empty(),
            final(self).sent_hashes() == Seq::<Seq<char>>::empty(),
            final(self).samples() == Seq::<(Seq<char>, FunctionModel)>::empty(),
    {
        self.hash.clear();
        self.store_stats.clear();
        assert(self.sent_hashes() =~= Seq::<Seq<char>>::empty());
        assert(self.samples() =~= Seq::<(Seq<char>, FunctionModel)>::empty());
    }
}

} // verus!
