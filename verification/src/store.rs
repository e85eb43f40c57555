use vstd::prelude::*;
use crate::keyed::{
    KeyedList, distinct_keys, entries_map, has_key, lemma_map_keys, lemma_map_value,
};
use crate::statistics::ResourceMetric;

verus! {

/// The samples of one contract: function name to the samples taken of it,
/// in the order in which the calls completed.
pub type FunctionStore = KeyedList<Vec<ResourceMetric>>;

/// The samples of a session: contract address to the samples of its
/// functions.
pub type ContractStore = KeyedList<FunctionStore>;

/// What a [`FunctionStore`] stands for: function names, each with its samples.
pub type FunctionModel = Seq<(Seq<char>, Seq<ResourceMetric>)>;

/// What a [`ContractStore`] stands for: contract addresses, each with its
/// functions.
pub type StoreModel = Seq<(Seq<char>, FunctionModel)>;

/// The functions of `functions` with their samples, in the order in which
/// they were first seen.
pub open spec fn function_model(functions: FunctionStore) -> FunctionModel {
    Seq::new(
        functions.entries().len(),
        |i: int| (functions.entries()[i].0, functions.entries()[i].1@),
    )
}

/// The contracts of `store` with their functions, in the order in which they
/// were first seen.
pub open spec fn store_model(store: ContractStore) -> StoreModel {
    Seq::new(
        store.entries().len(),
        |i: int| (store.entries()[i].0, function_model(store.entries()[i].1)),
    )
}

/// The place of the first entry of `entries` with the key `key`; the length
/// of `entries` if there is none.
pub open spec fn place_of<V>(entries: Seq<(Seq<char>, V)>, key: Seq<char>) -> int
    decreases entries.len(),
{
    if entries.len() == 0 {
        0
    } else if entries[0].0 == key {
        0
    } else {
        1 + place_of(entries.drop_first(), key)
    }
}

/// `place_of` gives a place within the list exactly for the keys that it has,
/// and the entry there has the key.
pub proof fn lemma_place_of<V>(entries: Seq<(Seq<char>, V)>, key: Seq<char>)
    ensures
        0 <= place_of(entries, key) <= entries.len(),
        place_of(entries, key) < entries.len() ==> entries[place_of(entries, key)].0 == key,
        forall|j: int| 0 <= j < place_of(entries, key) ==> entries[j].0 != key,
    decreases entries.len(),
{
    if entries.len() > 0 && entries[0].0 != key {
        let rest = entries.drop_first();
        lemma_place_of(rest, key);
        assert forall|j: int| 0 <= j < place_of(entries, key) implies entries[j].0 != key by {
            if j > 0 {
                assert(rest[j - 1] == entries[j]);
            }
        }
    }
}

/// The samples of one contract after one more sample of `function`: the
/// sample goes to the end of the function's list, and a function not seen
/// before goes to the end of the functions.
pub open spec fn function_recorded(
    functions: FunctionModel,
    function: Seq<char>,
    metric: ResourceMetric,
) -> FunctionModel {
    let j = place_of(functions, function);
    if j < functions.len() {
        functions.update(j, (function, functions[j].1.push(metric)))
    } else {
        functions.push((function, seq![metric]))
    }
}

/// The store after one more sample of `function` of `contract`: the sample
/// goes to that function's list, and a contract not seen before goes to the
/// end of the contracts.
pub open spec fn recorded(
    store: StoreModel,
    contract: Seq<char>,
    function: Seq<char>,
    metric: ResourceMetric,
) -> StoreModel {
    let i = place_of(store, contract);
    if i < store.len() {
        store.update(i, (contract, function_recorded(store[i].1, function, metric)))
    } else {
        store.push((contract, function_recorded(Seq::empty(), function, metric)))
    }
}

/// The samples of `function` in the functions of one contract; none where
/// the function was not seen.
pub open spec fn function_samples(functions: FunctionModel, function: Seq<char>) -> Seq<
    ResourceMetric,
> {
    let j = place_of(functions, function);
    if j < functions.len() {
        functions[j].1
    } else {
        Seq::empty()
    }
}

/// The samples of `function` of `contract` in the store; none where the
/// contract or the function was not seen.
pub open spec fn samples_at(store: StoreModel, contract: Seq<char>, function: Seq<char>) -> Seq<
    ResourceMetric,
> {
    let i = place_of(store, contract);
    if i < store.len() {
        function_samples(store[i].1, function)
    } else {
        Seq::empty()
    }
}

/// Where the keys are distinct, the place of a key is within the list
/// exactly where the map has the key, and the entry there holds what the map
/// gives for it.
pub proof fn lemma_place_is_lookup<V>(entries: Seq<(Seq<char>, V)>, key: Seq<char>)
    requires
        distinct_keys(entries),
    ensures
        place_of(entries, key) < entries.len() <==> entries_map(entries).contains_key(key),
        entries_map(entries).contains_key(key) ==> entries_map(entries)[key] == entries[place_of(
            entries,
            key,
        )].1,
{
    lemma_place_of(entries, key);
    lemma_map_keys(entries, key);
    let p = place_of(entries, key);
    if p < entries.len() {
        assert(entries[p].0 == key);
        lemma_map_value(entries, p);
    }
    if has_key(entries, key) {
        let i = choose|i: int| 0 <= i < entries.len() && #[trigger] entries[i].0 == key;
        assert(p <= i);
    }
}

/// The samples of a function in a store are those that looking up the
/// contract and then the function gives, and none where either is not found.
pub proof fn lemma_samples_at_lookup(
    store: ContractStore,
    contract: Seq<char>,
    function: Seq<char>,
)
    requires
        store.wf(),
        forall|i: int| 0 <= i < store.entries().len() ==> (#[trigger] store.entries()[i]).1.wf(),
    ensures
        samples_at(store_model(store), contract, function) == if store@.contains_key(contract)
            && store@[contract]@.contains_key(function) {
            store@[contract]@[function]@
        } else {
            Seq::empty()
        },
{
    let model = store_model(store);
    lemma_model_places(store.entries(), model, contract);
    lemma_place_is_lookup(store.entries(), contract);
    let i = place_of(model, contract);
    lemma_place_of(store.entries(), contract);
    if i < model.len() {
        let functions = store.entries()[i].1;
        assert(model[i].1 == function_model(functions));
        lemma_model_places(functions.entries(), function_model(functions), function);
        lemma_place_is_lookup(functions.entries(), function);
        lemma_place_of(functions.entries(), function);
    }
}

/// Two lists with the same keys at the same places have each key at the same
/// place.
proof fn lemma_model_places<V, W>(
    entries: Seq<(Seq<char>, V)>,
    model: Seq<(Seq<char>, W)>,
    key: Seq<char>,
)
    requires
        entries.len() == model.len(),
        forall|i: int| 0 <= i < entries.len() ==> (#[trigger] entries[i]).0 == model[i].0,
    ensures
        place_of(entries, key) == place_of(model, key),
    decreases entries.len(),
{
    if entries.len() > 0 {
        assert(entries[0].0 == model[0].0);
        if entries[0].0 != key {
            let a = entries.drop_first();
            let b = model.drop_first();
            assert forall|i: int| 0 <= i < a.len() implies (#[trigger] a[i]).0 == b[i].0 by {
                assert(a[i] == entries[i + 1]);
                assert(b[i] == model[i + 1]);
            }
            lemma_model_places(a, b, key);
        }
    }
}

/// A new value in the first entry of a key, or a new entry at the end for a
/// key that the list lacks, leaves every key at its place, and a key that
/// the list lacked is still not there unless it is that key.
pub proof fn lemma_place_kept<V>(entries: Seq<(Seq<char>, V)>, key: Seq<char>, value: V, other:
    Seq<char>)
    ensures
        ({
            let i = place_of(entries, key);
            let after = if i < entries.len() {
                entries.update(i, (key, value))
            } else {
                entries.push((key, value))
            };
            &&& place_of(after, key) == i
            &&& other != key ==> if place_of(entries, other) < entries.len() {
                place_of(after, other) == place_of(entries, other)
            } else {
                place_of(after, other) == after.len()
            }
        }),
    decreases entries.len(),
{
    let i = place_of(entries, key);
    lemma_place_of(entries, key);
    lemma_place_of(entries, other);
    let after = if i < entries.len() {
        entries.update(i, (key, value))
    } else {
        entries.push((key, value))
    };
    lemma_place_of(after, other);
    if entries.len() == 0 {
        assert(after.drop_first() =~= Seq::<(Seq<char>, V)>::empty());
        assert(place_of(after.drop_first(), other) == 0);
    } else if entries[0].0 == key {
        if other != key {
            assert(after.drop_first() =~= entries.drop_first());
        }
    } else {
        let rest = entries.drop_first();
        lemma_place_kept(rest, key, value, other);
        let k = place_of(rest, key);
        lemma_place_of(rest, key);
        let rest_after = if k < rest.len() {
            rest.update(k, (key, value))
        } else {
            rest.push((key, value))
        };
        assert(after.drop_first() =~= rest_after);
        assert(after[0] == entries[0]);
    }
}

/// Recording a sample of a function puts it at the end of that function's
/// samples and leaves the samples of every other function as they are.
pub proof fn lemma_function_recorded(
    functions: FunctionModel,
    function: Seq<char>,
    metric: ResourceMetric,
    other: Seq<char>,
)
    ensures
        function_samples(function_recorded(functions, function, metric), function)
            == function_samples(functions, function).push(metric),
        other != function ==> function_samples(
            function_recorded(functions, function, metric),
            other,
        ) == function_samples(functions, other),
{
    let j = place_of(functions, function);
    lemma_place_of(functions, function);
    lemma_place_of(functions, other);
    let list = if j < functions.len() {
        functions[j].1.push(metric)
    } else {
        seq![metric]
    };
    lemma_place_kept(functions, function, list, other);
    assert(seq![metric] =~= Seq::<ResourceMetric>::empty().push(metric));
}

/// Recording a sample under a contract and a function puts it at the end of
/// the samples of that function of that contract, and leaves the samples of
/// every other function, of this contract and of the others, as they are.
pub proof fn lemma_recorded(
    store: StoreModel,
    contract: Seq<char>,
    function: Seq<char>,
    metric: ResourceMetric,
    other_contract: Seq<char>,
    other_function: Seq<char>,
)
    ensures
        samples_at(recorded(store, contract, function, metric), contract, function) == samples_at(
            store,
            contract,
            function,
        ).push(metric),
        other_contract != contract || other_function != function ==> samples_at(
            recorded(store, contract, function, metric),
            other_contract,
            other_function,
        ) == samples_at(store, other_contract, other_function),
{
    let i = place_of(store, contract);
    lemma_place_of(store, contract);
    lemma_place_of(store, other_contract);
    let inner = if i < store.len() {
        store[i].1
    } else {
        Seq::empty()
    };
    lemma_place_kept(store, contract, function_recorded(inner, function, metric), other_contract);
    lemma_function_recorded(inner, function, metric, other_function);
    lemma_function_recorded(inner, function, metric, function);
    if i >= store.len() {
        assert(place_of(inner, function) == 0);
        assert(place_of(inner, other_function) == 0);
    }
}

/// Two samples recorded under different functions come out the same in
/// whichever order they are recorded: every function has the same samples
/// either way.
pub proof fn lemma_recording_commutes(
    store: StoreModel,
    first: (Seq<char>, Seq<char>, ResourceMetric),
    second: (Seq<char>, Seq<char>, ResourceMetric),
    contract: Seq<char>,
    function: Seq<char>,
)
    requires
        first.0 != second.0 || first.1 != second.1,
    ensures
        samples_at(
            recorded(recorded(store, first.0, first.1, first.2), second.0, second.1, second.2),
            contract,
            function,
        ) == samples_at(
            recorded(recorded(store, second.0, second.1, second.2), first.0, first.1, first.2),
            contract,
            function,
        ),
{
    let a = recorded(store, first.0, first.1, first.2);
    let b = recorded(store, second.0, second.1, second.2);
    lemma_recorded(store, first.0, first.1, first.2, contract, function);
    lemma_recorded(store, second.0, second.1, second.2, contract, function);
    lemma_recorded(a, second.0, second.1, second.2, contract, function);
    lemma_recorded(b, first.0, first.1, first.2, contract, function);
}

/// Adds `metric` to the samples of `function`.
pub fn append_function_sample(functions: &mut FunctionStore, function: &str, metric: ResourceMetric)
    ensures
        function_model(*final(functions)) == function_recorded(
            function_model(*old(functions)),
            function@,
            metric,
        ),
{
    let ghost before = function_model(*functions);
    proof {
        lemma_place_of(before, function@);
    }
    match functions.position(function) {
        Some(j) => {
            proof {
                use_type_invariant(&*functions);
                assert(before[j as int].0 == function@);
                assert(place_of(before, function@) == j) by {
                    let p = place_of(before, function@);
                    if p < j {
                        assert(before[p].0 == functions.entries()[p].0);
                    } else if p > j {
                        assert(before[j as int].0 != function@);
                    }
                }
            }
            let mut samples = functions.replace_at(j, Vec::new());
            samples.push(metric);
            let _ = functions.replace_at(j, samples);
            proof {
                assert(function_model(*functions) =~= function_recorded(before, function@, metric));
            }
        },
        None => {
            proof {
                let p = place_of(before, function@);
                if p < before.len() {
                    assert(functions.entries()[p].0 == function@);
                    assert(has_key(functions.entries(), function@));
                }
            }
            let mut samples = Vec::new();
            samples.push(metric);
            functions.push_new(function.to_owned(), samples);
            proof {
                assert(function_model(*functions) =~= function_recorded(before, function@, metric));
            }
        },
    }
}

/// Adds `metric` to the samples of `function` of `contract`.
pub fn append_sample(
    store: &mut ContractStore,
    contract: &str,
    function: &str,
    metric: ResourceMetric,
)
    ensures
        store_model(*final(store)) == recorded(
            store_model(*old(store)),
            contract@,
            function@,
            metric,
        ),
{
    let ghost before = store_model(*store);
    proof {
        lemma_place_of(before, contract@);
    }
    match store.position(contract) {
        Some(i) => {
            proof {
                use_type_invariant(&*store);
                assert(before[i as int].0 == contract@);
                assert(place_of(before, contract@) == i) by {
                    let p = place_of(before, contract@);
                    if p < i {
                        assert(before[p].0 == store.entries()[p].0);
                    } else if p > i {
                        assert(before[i as int].0 != contract@);
                    }
                }
            }
            let mut functions = store.replace_at(i, FunctionStore::new());
            append_function_sample(&mut functions, function, metric);
            let _ = store.replace_at(i, functions);
            proof {
                assert(store_model(*store) =~= recorded(before, contract@, function@, metric));
            }
        },
        None => {
            proof {
                let p = place_of(before, contract@);
                if p < before.len() {
                    assert(store.entries()[p].0 == contract@);
                    assert(has_key(store.entries(), contract@));
                }
            }
            let mut functions = FunctionStore::new();
            assert(function_model(functions) =~= Seq::empty());
            append_function_sample(&mut functions, function, metric);
            store.push_new(contract.to_owned(), functions);
            proof {
                assert(store_model(*store) =~= recorded(before, contract@, function@, metric));
            }
        },
    }
}

} // verus!
