//! The tables with which a peer starts: which processor handles which instance of
//! a transaction class, and which credentials stand for which processor.
use crate::config::ClassConfig;
use crate::config::ProcessorConfig;
use crate::ids::ProcessorIdx;
use crate::keys::copy_key;
use crate::keys::is_key;
use crate::model::InstanceEntry;
use crate::model::PeerStateView;
use crate::model::ProcessorEntry;
use crate::types::SealTypes;
use crate::xact::XactError;
use std::collections::HashMap;
use std::hash::Hash;
use vstd::hash_map::StringHashMap;
use vstd::prelude::*;

verus! {

/// Two processors are configured for one instance of a class.
#[derive(Clone, Copy, Debug, Eq, PartialEq, Structural)]
pub struct DuplicateProcessor {
    pub class: u128,
    pub instance: usize,
}

/// What `s` holds, each element once, in the order in which they first occur.
pub open spec fn distinct<P>(s: Seq<P>) -> Seq<P>
    decreases s.len(),
{
    if s.len() == 0 {
        Seq::empty()
    } else {
        let d = distinct(s.drop_last());
        if d.contains(s.last()) {
            d
        } else {
            d.push(s.last())
        }
    }
}

/// The principals of the configured processors.
pub open spec fn principals<V>(configs: Seq<ProcessorConfig<String, V>>) -> Seq<Seq<char>> {
    configs.map_values(|c: ProcessorConfig<String, V>| c.principal@)
}

/// Whether `ids` gives every one of `names` its position, and nothing else.
pub open spec fn numbers(ids: Map<Seq<char>, ProcessorIdx>, names: Seq<Seq<char>>) -> bool {
    &&& forall|p: Seq<char>| #[trigger] ids.contains_key(p) <==> names.contains(p)
    &&& forall|k: int| 0 <= k < names.len() ==> ids[#[trigger] names[k]].0 == k
}

/// Whether the class configuration `b` of processor configuration `a` comes before
/// `b2` of `a2`.
pub open spec fn before(a: int, b: int, a2: int, b2: int) -> bool {
    a < a2 || (a == a2 && b < b2)
}

/// Whether class configuration `b` of processor configuration `a` is for `class`.
pub open spec fn offers<V>(
    configs: Seq<ProcessorConfig<String, V>>,
    a: int,
    b: int,
    class: u128,
) -> bool {
    &&& 0 <= a < configs.len()
    &&& 0 <= b < configs[a].classes@.len()
    &&& configs[a].classes@[b].id.class() == class
}

/// Whether class configuration `b` of processor configuration `a` is for `class` and
/// has `instance` at index `j`.
pub open spec fn offers_at<V>(
    configs: Seq<ProcessorConfig<String, V>>,
    a: int,
    b: int,
    j: int,
    class: u128,
    instance: u64,
) -> bool {
    &&& offers(configs, a, b, class)
    &&& 0 <= j < configs[a].classes@[b].instances@.len()
    &&& configs[a].classes@[b].instances@[j] as u64 == instance
}

/// Whether `class` occurs before the class configuration `b` of processor
/// configuration `a`.
pub open spec fn offered_before<V>(
    configs: Seq<ProcessorConfig<String, V>>,
    a: int,
    b: int,
    class: u128,
) -> bool {
    exists|a1: int, b1: int| #[trigger] offers(configs, a1, b1, class) && before(a1, b1, a, b)
}

/// Whether `instance` of `class` occurs before the class configuration `b` of
/// processor configuration `a`.
pub open spec fn placed_before<V>(
    configs: Seq<ProcessorConfig<String, V>>,
    a: int,
    b: int,
    class: u128,
    instance: u64,
) -> bool {
    exists|a1: int, b1: int, j1: int| #[trigger]
        offers_at(configs, a1, b1, j1, class, instance) && before(a1, b1, a, b)
}

/// Whether the instance at index `j` of class configuration `b` of processor
/// configuration `a` is a duplicate: its class has occurred before, and the
/// instance has been taken there, or earlier in the same list.
pub open spec fn conflicts<V>(
    configs: Seq<ProcessorConfig<String, V>>,
    a: int,
    b: int,
    j: int,
) -> bool {
    let class = configs[a].classes@[b].id.class();
    let instance = configs[a].classes@[b].instances@[j] as u64;
    &&& offers_at(configs, a, b, j, class, instance)
    &&& offered_before(configs, a, b, class)
    &&& placed_before(configs, a, b, class, instance) || repeats(
        configs[a].classes@[b].instances@,
        j,
    )
}

/// Whether the element at index `j` occurs before.
pub open spec fn repeats(instances: Seq<usize>, j: int) -> bool {
    exists|j1: int| 0 <= j1 < j && #[trigger] instances[j1] == instances[j]
}

/// Whether nothing conflicts before the class configuration `b` of processor
/// configuration `a`.
pub open spec fn no_conflict_before<V>(
    configs: Seq<ProcessorConfig<String, V>>,
    a: int,
    b: int,
) -> bool {
    forall|a1: int, b1: int, j1: int|
        before(a1, b1, a, b) ==> !#[trigger] conflicts(configs, a1, b1, j1)
}

/// Whether `duplicate` reports the first conflict.
pub open spec fn is_first_conflict<V>(
    configs: Seq<ProcessorConfig<String, V>>,
    duplicate: DuplicateProcessor,
) -> bool {
    exists|a: int, b: int, j: int|
        {
            &&& #[trigger] conflicts(configs, a, b, j)
            &&& no_conflict_before(configs, a, b)
            &&& forall|j1: int| 0 <= j1 < j ==> !#[trigger] conflicts(configs, a, b, j1)
            &&& duplicate.class == configs[a].classes@[b].id.class()
            &&& duplicate.instance == configs[a].classes@[b].instances@[j]
        }
}

/// Whether `entry` is for the processor `id` and the versions that `range` makes of
/// the configured ones.
pub open spec fn entry_of<V, R, F: Fn(&V) -> R>(
    id: ProcessorIdx,
    versions: Seq<V>,
    range: F,
    entry: InstanceEntry<R>,
) -> bool {
    &&& entry.processor == id
    &&& entry.versions@.len() == versions.len()
    &&& forall|k: int|
        0 <= k < versions.len() ==> call_ensures(range, (&versions[k],), #[trigger] entry.versions@[k])
}

/// Whether `table` holds what is configured before the class configuration `b` of
/// processor configuration `a`: every instance of every class, with its processor
/// and its versions.
pub open spec fn tabulates_before<V, R, F: Fn(&V) -> R>(
    configs: Seq<ProcessorConfig<String, V>>,
    a: int,
    b: int,
    ids: Map<Seq<char>, ProcessorIdx>,
    range: F,
    table: Map<u128, ProcessorEntry<R>>,
) -> bool {
    &&& forall|c: u128| #[trigger] table.contains_key(c) <==> offered_before(configs, a, b, c)
    &&& forall|c: u128, i: u64|
        table.contains_key(c) ==> (#[trigger] table[c].instances@.contains_key(i) <==> placed_before(
            configs,
            a,
            b,
            c,
            i,
        ))
    &&& forall|a1: int, b1: int, j1: int, c: u128, i: u64| #[trigger]
        offers_at(configs, a1, b1, j1, c, i) && before(a1, b1, a, b) ==> entry_of(
            ids[configs[a1].principal@],
            configs[a1].classes@[b1].versions@,
            range,
            table[c].instances@[i],
        )
}

/// An entry for a processor and the versions that are configured for it.
fn make_entry<V, R, F: Fn(&V) -> R>(
    id: ProcessorIdx,
    versions: &Vec<V>,
    range: &F,
) -> (entry: InstanceEntry<R>)
    requires
        forall|v: &V| call_requires(*range, (v,)),
    ensures
        entry_of(id, versions@, *range, entry),
{
    let mut ranges: Vec<R> = Vec::new();
    let mut k: usize = 0;
    while k < versions.len()
        invariant
            k <= versions.len(),
            ranges@.len() == k,
            forall|v: &V| call_requires(*range, (v,)),
            forall|n: int| 0 <= n < k ==> call_ensures(*range, (&versions@[n],), #[trigger] ranges@[n]),
        decreases versions.len() - k,
    {
        ranges.push(range(&versions[k]));
        k += 1;
    }
    InstanceEntry::new(id, ranges)
}

/// Whether the instance at index `j` cannot be added to a class that is already in
/// the table with the instances `taken`.
spec fn clashes(taken: Set<u64>, instances: Seq<usize>, j: int) -> bool {
    &&& 0 <= j < instances.len()
    &&& taken.contains(instances[j] as u64) || repeats(instances, j)
}

/// Whether `next` is `prev` with entries for the instances of `config`.
spec fn extends<V, R, F: Fn(&V) -> R>(
    prev: Map<u64, InstanceEntry<R>>,
    next: Map<u64, InstanceEntry<R>>,
    id: ProcessorIdx,
    config: ClassConfig<V>,
    range: F,
) -> bool {
    &&& forall|i: u64| #[trigger]
        next.contains_key(i) <==> prev.contains_key(i) || exists|j: int|
            0 <= j < config.instances@.len() && #[trigger] config.instances@[j] as u64 == i
    &&& forall|i: u64| #[trigger]
        next.contains_key(i) ==> if exists|j: int|
            0 <= j < config.instances@.len() && #[trigger] config.instances@[j] as u64 == i {
            entry_of(id, config.versions@, range, next[i])
        } else {
            next[i] == prev[i]
        }
}

/// Add the instances of a class configuration to the instances of its class, of
/// which the table may have had some already: then none may come twice.
fn place_instances<V, R, F: Fn(&V) -> R>(
    entries: &mut HashMap<u64, InstanceEntry<R>>,
    known: bool,
    id: ProcessorIdx,
    config: &ClassConfig<V>,
    range: &F,
) -> (r: Result<(), usize>)
    requires
        forall|v: &V| call_requires(*range, (v,)),
    ensures
        match r {
            Ok(()) => {
                &&& known ==> forall|j: int| !clashes(old(entries)@.dom(), config.instances@, j)
                &&& extends(old(entries)@, final(entries)@, id, *config, *range)
            },
            Err(instance) => {
                &&& known
                &&& exists|j: int|
                    {
                        &&& #[trigger] clashes(old(entries)@.dom(), config.instances@, j)
                        &&& forall|j1: int|
                            0 <= j1 < j ==> !#[trigger] clashes(
                                old(entries)@.dom(),
                                config.instances@,
                                j1,
                            )
                        &&& instance == config.instances@[j]
                    }
            },
        },
{
    let ghost taken = entries@.dom();
    let ghost instances = config.instances@;
    let mut j: usize = 0;
    while j < config.instances.len()
        invariant
            j <= config.instances.len(),
            instances == config.instances@,
            taken == old(entries)@.dom(),
            forall|v: &V| call_requires(*range, (v,)),
            known ==> forall|j1: int| 0 <= j1 < j ==> !#[trigger] clashes(taken, instances, j1),
            forall|i: u64| #[trigger]
                entries@.contains_key(i) <==> old(entries)@.contains_key(i) || exists|j1: int|
                    0 <= j1 < j && #[trigger] instances[j1] as u64 == i,
            forall|i: u64| #[trigger]
                entries@.contains_key(i) ==> if exists|j1: int|
                    0 <= j1 < j && #[trigger] instances[j1] as u64 == i {
                    entry_of(id, config.versions@, *range, entries@[i])
                } else {
                    entries@[i] == old(entries)@[i]
                },
        decreases config.instances.len() - j,
    {
        let instance = config.instances[j];
        let entry = make_entry(id, &config.versions, range);
        let ghost prev = entries@;
        let old_entry = entries.insert(instance as u64, entry);
        if known && old_entry.is_some() {
            proof {
                assert(prev.contains_key(instance as u64));
                assert(clashes(taken, instances, j as int));
            }
            return Err(instance);
        }
        proof {
            if known {
                assert(!prev.contains_key(instance as u64));
                assert(!taken.contains(instance as u64));
                if repeats(instances, j as int) {
                    let j1 = choose|j1: int|
                        0 <= j1 < j && #[trigger] instances[j1] == instances[j as int];
                    assert(instances[j1] as u64 == instance as u64);
                    assert(prev.contains_key(instance as u64));
                }
                assert(!clashes(taken, instances, j as int));
            }
            assert(instances[j as int] as u64 == instance as u64);
            assert forall|i: u64| #[trigger] entries@.contains_key(i) implies if exists|j1: int|
                0 <= j1 < j + 1 && #[trigger] instances[j1] as u64 == i {
                entry_of(id, config.versions@, *range, entries@[i])
            } else {
                entries@[i] == old(entries)@[i]
            } by {
                if i != instance as u64 {
                    assert(prev.contains_key(i));
                    if exists|j1: int| 0 <= j1 < j + 1 && #[trigger] instances[j1] as u64 == i {
                        let j1 = choose|j1: int|
                            0 <= j1 < j + 1 && #[trigger] instances[j1] as u64 == i;
                        assert(0 <= j1 < j && instances[j1] as u64 == i);
                    }
                }
            }
            assert forall|i: u64| #[trigger]
                entries@.contains_key(i) <==> old(entries)@.contains_key(i) || exists|j1: int|
                    0 <= j1 < j + 1 && #[trigger] instances[j1] as u64 == i by {
                if prev.contains_key(i) && !old(entries)@.contains_key(i) {
                    let j1 = choose|j1: int| 0 <= j1 < j && #[trigger] instances[j1] as u64 == i;
                    assert(0 <= j1 < j + 1 && instances[j1] as u64 == i);
                }
            }
        }
        j += 1;
    }
    proof {
        if known {
            assert forall|j1: int| !clashes(taken, instances, j1) by {
                if 0 <= j1 < instances.len() {
                    assert(!clashes(taken, instances, j1));
                }
            }
        }
    }
    Ok(())
}

/// One more class configuration has been added to a table.
proof fn lemma_placed<V, R, F: Fn(&V) -> R>(
    configs: Seq<ProcessorConfig<String, V>>,
    a: int,
    b: int,
    ids: Map<Seq<char>, ProcessorIdx>,
    range: F,
    old_table: Map<u128, ProcessorEntry<R>>,
    prev: Map<u64, InstanceEntry<R>>,
    next: ProcessorEntry<R>,
)
    requires
        0 <= a < configs.len(),
        0 <= b < configs[a].classes@.len(),
        tabulates_before(configs, a, b, ids, range, old_table),
        no_conflict_before(configs, a, b),
        ({
            let config = configs[a].classes@[b];
            let c = config.id.class();
            &&& prev == (if old_table.contains_key(c) {
                old_table[c].instances@
            } else {
                Map::empty()
            })
            &&& old_table.contains_key(c) ==> forall|j: int|
                !clashes(prev.dom(), config.instances@, j)
            &&& extends(prev, next.instances@, ids[configs[a].principal@], config, range)
        }),
    ensures
        tabulates_before(
            configs,
            a,
            b + 1,
            ids,
            range,
            old_table.insert(configs[a].classes@[b].id.class(), next),
        ),
        no_conflict_before(configs, a, b + 1),
{
    let config = configs[a].classes@[b];
    let class = config.id.class();
    let table = old_table.insert(class, next);
    let known = old_table.contains_key(class);
    assert(offers(configs, a, b, class));
    assert forall|a1: int, b1: int, j1: int|
        before(a1, b1, a, b + 1) implies !#[trigger] conflicts(configs, a1, b1, j1) by {
        if a1 == a && b1 == b && conflicts(configs, a, b, j1) {
            let i = config.instances@[j1] as u64;
            assert(known);
            assert(!clashes(prev.dom(), config.instances@, j1));
            assert(old_table[class].instances@.contains_key(i) <==> placed_before(
                configs,
                a,
                b,
                class,
                i,
            ));
        }
    }
    assert forall|c: u128| #[trigger]
        table.contains_key(c) <==> offered_before(configs, a, b + 1, c) by {
        if table.contains_key(c) {
            if c == class {
                assert(offers(configs, a, b, c) && before(a, b, a, b + 1));
            } else {
                assert(old_table.contains_key(c));
                let (a1, b1) = choose|a1: int, b1: int| #[trigger]
                    offers(configs, a1, b1, c) && before(a1, b1, a, b);
                assert(offers(configs, a1, b1, c) && before(a1, b1, a, b + 1));
            }
        }
        if offered_before(configs, a, b + 1, c) {
            let (a1, b1) = choose|a1: int, b1: int| #[trigger]
                offers(configs, a1, b1, c) && before(a1, b1, a, b + 1);
            if !(a1 == a && b1 == b) {
                assert(offers(configs, a1, b1, c) && before(a1, b1, a, b));
                assert(old_table.contains_key(c));
            }
        }
    }
    assert forall|c: u128, i: u64| table.contains_key(c) implies (#[trigger] table[c].instances@.contains_key(
        i,
    ) <==> placed_before(configs, a, b + 1, c, i)) by {
        if table[c].instances@.contains_key(i) {
            if c == class && !prev.contains_key(i) {
                let j = choose|j: int|
                    0 <= j < config.instances@.len() && #[trigger] config.instances@[j] as u64 == i;
                assert(offers_at(configs, a, b, j, c, i) && before(a, b, a, b + 1));
            } else {
                assert(old_table.contains_key(c));
                assert(old_table[c].instances@.contains_key(i));
                let (a1, b1, j1) = choose|a1: int, b1: int, j1: int| #[trigger]
                    offers_at(configs, a1, b1, j1, c, i) && before(a1, b1, a, b);
                assert(offers_at(configs, a1, b1, j1, c, i) && before(a1, b1, a, b + 1));
            }
        }
        if placed_before(configs, a, b + 1, c, i) {
            let (a1, b1, j1) = choose|a1: int, b1: int, j1: int| #[trigger]
                offers_at(configs, a1, b1, j1, c, i) && before(a1, b1, a, b + 1);
            if a1 == a && b1 == b {
                assert(config.instances@[j1] as u64 == i);
                assert(next.instances@.contains_key(i));
            } else {
                assert(offers_at(configs, a1, b1, j1, c, i) && before(a1, b1, a, b));
                assert(offers(configs, a1, b1, c) && before(a1, b1, a, b));
                assert(placed_before(configs, a, b, c, i));
                assert(old_table.contains_key(c));
                assert(old_table[c].instances@.contains_key(i));
            }
        }
    }
    assert forall|a1: int, b1: int, j1: int, c: u128, i: u64| #[trigger]
        offers_at(configs, a1, b1, j1, c, i) && before(a1, b1, a, b + 1) implies entry_of(
        ids[configs[a1].principal@],
        configs[a1].classes@[b1].versions@,
        range,
        table[c].instances@[i],
    ) by {
        if a1 == a && b1 == b {
            assert(config.instances@[j1] as u64 == i);
            assert(next.instances@.contains_key(i));
        } else {
            assert(offers(configs, a1, b1, c) && before(a1, b1, a, b));
            assert(placed_before(configs, a, b, c, i));
            assert(old_table.contains_key(c));
            assert(old_table[c].instances@.contains_key(i));
            if c == class {
                assert(next.instances@.contains_key(i));
                if exists|j: int|
                    0 <= j < config.instances@.len() && #[trigger] config.instances@[j] as u64
                        == i {
                    let j = choose|j: int|
                        0 <= j < config.instances@.len() && #[trigger] config.instances@[j] as u64
                            == i;
                    assert(clashes(prev.dom(), config.instances@, j));
                }
            }
        }
    }
}

/// The end of one processor configuration is the start of the next.
proof fn lemma_row_done<V, R, F: Fn(&V) -> R>(
    configs: Seq<ProcessorConfig<String, V>>,
    a: int,
    ids: Map<Seq<char>, ProcessorIdx>,
    range: F,
    table: Map<u128, ProcessorEntry<R>>,
)
    requires
        0 <= a < configs.len(),
        tabulates_before(configs, a, configs[a].classes@.len() as int, ids, range, table),
        no_conflict_before(configs, a, configs[a].classes@.len() as int),
    ensures
        tabulates_before(configs, a + 1, 0, ids, range, table),
        no_conflict_before(configs, a + 1, 0),
{
    let n = configs[a].classes@.len() as int;
    assert forall|c: u128| #[trigger]
        table.contains_key(c) <==> offered_before(configs, a + 1, 0, c) by {
        if offered_before(configs, a + 1, 0, c) {
            let (a1, b1) = choose|a1: int, b1: int| #[trigger]
                offers(configs, a1, b1, c) && before(a1, b1, a + 1, 0);
            assert(offers(configs, a1, b1, c) && before(a1, b1, a, n));
        }
        if offered_before(configs, a, n, c) {
            let (a1, b1) = choose|a1: int, b1: int| #[trigger]
                offers(configs, a1, b1, c) && before(a1, b1, a, n);
            assert(offers(configs, a1, b1, c) && before(a1, b1, a + 1, 0));
        }
    }
    assert forall|c: u128, i: u64| table.contains_key(c) implies (#[trigger] table[c].instances@.contains_key(
        i,
    ) <==> placed_before(configs, a + 1, 0, c, i)) by {
        if placed_before(configs, a + 1, 0, c, i) {
            let (a1, b1, j1) = choose|a1: int, b1: int, j1: int| #[trigger]
                offers_at(configs, a1, b1, j1, c, i) && before(a1, b1, a + 1, 0);
            assert(offers_at(configs, a1, b1, j1, c, i) && before(a1, b1, a, n));
            assert(placed_before(configs, a, n, c, i));
        }
        if placed_before(configs, a, n, c, i) {
            let (a1, b1, j1) = choose|a1: int, b1: int, j1: int| #[trigger]
                offers_at(configs, a1, b1, j1, c, i) && before(a1, b1, a, n);
            assert(offers_at(configs, a1, b1, j1, c, i) && before(a1, b1, a + 1, 0));
        }
    }
    assert forall|a1: int, b1: int, j1: int|
        before(a1, b1, a + 1, 0) implies !#[trigger] conflicts(configs, a1, b1, j1) by {
        if conflicts(configs, a1, b1, j1) {
            assert(before(a1, b1, a, n));
        }
    }
}

/// The distinct elements of a sequence are its elements, each once.
pub proof fn lemma_distinct<P>(s: Seq<P>)
    ensures
        distinct(s).no_duplicates(),
        forall|p: P| #[trigger] distinct(s).contains(p) <==> s.contains(p),
        distinct(s).len() <= s.len(),
    decreases s.len(),
{
    if s.len() > 0 {
        let rest = s.drop_last();
        let d = distinct(rest);
        lemma_distinct(rest);
        assert forall|p: P| #[trigger] distinct(s).contains(p) <==> s.contains(p) by {
            if s.contains(p) {
                let k = choose|k: int| 0 <= k < s.len() && s[k] == p;
                if k < rest.len() {
                    assert(rest[k] == p);
                    assert(d.contains(p));
                }
                if d.contains(p) {
                    let m = choose|m: int| 0 <= m < d.len() && d[m] == p;
                    assert(distinct(s)[m] == p);
                } else {
                    assert(distinct(s)[d.len() as int] == p);
                }
            }
            if distinct(s).contains(p) {
                let m = choose|m: int| 0 <= m < distinct(s).len() && distinct(s)[m] == p;
                if m < d.len() {
                    assert(d[m] == p);
                    assert(d.contains(p));
                    let k = choose|k: int| 0 <= k < rest.len() && rest[k] == p;
                    assert(s[k] == p);
                } else {
                    assert(s[s.len() - 1] == p);
                }
            }
        }
    }
}

/// Add a class configuration of the processor `id` to a table.
fn place_class<V, R, F: Fn(&V) -> R>(
    table: &mut HashMap<u128, ProcessorEntry<R>>,
    id: ProcessorIdx,
    config: &ClassConfig<V>,
    range: &F,
    Ghost(configs): Ghost<Seq<ProcessorConfig<String, V>>>,
    Ghost(ids): Ghost<Map<Seq<char>, ProcessorIdx>>,
    Ghost(a): Ghost<int>,
    Ghost(b): Ghost<int>,
) -> (r: Result<(), DuplicateProcessor>)
    requires
        forall|v: &V| call_requires(*range, (v,)),
        0 <= a < configs.len(),
        0 <= b < configs[a].classes@.len(),
        configs[a].classes@[b] == *config,
        ids[configs[a].principal@] == id,
        tabulates_before(configs, a, b, ids, *range, old(table)@),
        no_conflict_before(configs, a, b),
    ensures
        match r {
            Ok(()) => {
                &&& tabulates_before(configs, a, b + 1, ids, *range, final(table)@)
                &&& no_conflict_before(configs, a, b + 1)
            },
            Err(duplicate) => is_first_conflict(configs, duplicate),
        },
{
    let class = config.id.uuid();
    let ghost before = table@;
    let removed = table.remove(&class);
    let known = removed.is_some();
    let mut entries = match removed {
        Some(entry) => entry.instances,
        None => HashMap::new(),
    };
    let ghost prev = entries@;
    assert(known == before.contains_key(class));
    match place_instances(&mut entries, known, id, config, range) {
        Ok(()) => {
            let entry = ProcessorEntry::new(entries);
            proof {
                assert(prev =~= (if before.contains_key(class) {
                    before[class].instances@
                } else {
                    Map::empty()
                }));
                lemma_placed(configs, a, b, ids, *range, before, prev, entry);
            }
            table.insert(class, entry);
            assert(table@ =~= before.insert(class, entry));
            Ok(())
        },
        Err(instance) => {
            let duplicate = DuplicateProcessor { class, instance };
            proof {
                let instances = config.instances@;
                assert forall|j: int| #[trigger]
                    conflicts(configs, a, b, j) <==> clashes(prev.dom(), instances, j) by {
                    let i = instances[j] as u64;
                    assert(before[class].instances@.contains_key(i) <==> placed_before(
                        configs,
                        a,
                        b,
                        class,
                        i,
                    ));
                    if 0 <= j < instances.len() {
                        assert(offers_at(configs, a, b, j, class, i));
                    }
                }
                let j = choose|j: int|
                    {
                        &&& #[trigger] clashes(prev.dom(), instances, j)
                        &&& forall|j1: int|
                            0 <= j1 < j ==> !#[trigger] clashes(prev.dom(), instances, j1)
                        &&& instance == instances[j]
                    };
                assert(conflicts(configs, a, b, j));
                assert forall|j1: int| 0 <= j1 < j implies !#[trigger] conflicts(
                    configs,
                    a,
                    b,
                    j1,
                ) by {
                    assert(!clashes(prev.dom(), instances, j1));
                }
            }
            Err(duplicate)
        },
    }
}

/// Number the principals of the configured processors in the order in which they
/// first occur, and tabulate which processor handles which instance of which class.
/// The closure `range` turns a configured version range into a version range.
pub fn build_processors<V, R, F: Fn(&V) -> R>(
    configs: &Vec<ProcessorConfig<String, V>>,
    range: &F,
) -> (r: Result<
    (StringHashMap<ProcessorIdx>, HashMap<u128, ProcessorEntry<R>>),
    DuplicateProcessor,
>)
    requires
        forall|v: &V| call_requires(*range, (v,)),
    ensures
        match r {
            Ok((ids, table)) => {
                &&& no_conflict_before(configs@, configs@.len() as int, 0)
                &&& numbers(ids@, distinct(principals(configs@)))
                &&& tabulates_before(configs@, configs@.len() as int, 0, ids@, *range, table@)
            },
            Err(duplicate) => is_first_conflict(configs@, duplicate),
        },
{
    let mut ids: StringHashMap<ProcessorIdx> = StringHashMap::with_capacity(configs.len());
    let mut table: HashMap<u128, ProcessorEntry<R>> = HashMap::with_capacity(configs.len());
    let mut curr_id: usize = 0;
    let mut a: usize = 0;
    let ghost names = principals(configs@);
    assert(names.take(0) =~= Seq::empty());
    while a < configs.len()
        invariant
            a <= configs.len(),
            names == principals(configs@),
            forall|v: &V| call_requires(*range, (v,)),
            curr_id == distinct(names.take(a as int)).len(),
            numbers(ids@, distinct(names.take(a as int))),
            tabulates_before(configs@, a as int, 0, ids@, *range, table@),
            no_conflict_before(configs@, a as int, 0),
        decreases configs.len() - a,
    {
        let config = &configs[a];
        let ghost prev_ids = ids@;
        let ghost seen = names.take(a as int);
        proof {
            assert(names.take(a + 1).drop_last() =~= seen);
            assert(names.take(a + 1).last() == config.principal@);
            lemma_distinct(seen);
        }
        let id = match ids.get(config.principal.as_str()) {
            Some(id) => *id,
            None => {
                let id = ProcessorIdx::from(curr_id);
                curr_id += 1;
                ids.insert(config.principal.clone(), id);
                id
            },
        };
        proof {
            let d = distinct(seen);
            let e = distinct(names.take(a + 1));
            assert forall|p: Seq<char>| #[trigger]
                ids@.contains_key(p) <==> e.contains(p) by {
                assert(prev_ids.contains_key(p) <==> d.contains(p));
                if d.contains(p) {
                    let k = choose|k: int| 0 <= k < d.len() && d[k] == p;
                    assert(e[k] == p);
                }
                if e.contains(p) {
                    let k = choose|k: int| 0 <= k < e.len() && e[k] == p;
                    if k < d.len() {
                        assert(d[k] == p);
                    }
                }
                if p == config.principal@ && !d.contains(p) {
                    assert(e[d.len() as int] == p);
                }
            }
            assert forall|k: int| 0 <= k < e.len() implies ids@[#[trigger] e[k]].0 == k by {
                if k < d.len() {
                    assert(e[k] == d[k]);
                    assert(d.contains(d[k]));
                }
            }
            assert forall|a1: int, b1: int, j1: int, c: u128, i: u64| #[trigger]
                offers_at(configs@, a1, b1, j1, c, i) && before(
                    a1,
                    b1,
                    a as int,
                    0,
                ) implies entry_of(
                ids@[configs@[a1].principal@],
                configs@[a1].classes@[b1].versions@,
                *range,
                table@[c].instances@[i],
            ) by {
                assert(seen[a1] == configs@[a1].principal@);
                assert(seen.contains(configs@[a1].principal@));
                assert(d.contains(configs@[a1].principal@));
                assert(prev_ids.contains_key(configs@[a1].principal@));
            }
        }
        let mut b: usize = 0;
        while b < config.classes.len()
            invariant
                a < configs.len(),
                b <= config.classes.len(),
                *config == configs@[a as int],
                ids@[config.principal@] == id,
                forall|v: &V| call_requires(*range, (v,)),
                tabulates_before(configs@, a as int, b as int, ids@, *range, table@),
                no_conflict_before(configs@, a as int, b as int),
            decreases config.classes.len() - b,
        {
            match place_class(
                &mut table,
                id,
                &config.classes[b],
                range,
                Ghost(configs@),
                Ghost(ids@),
                Ghost(a as int),
                Ghost(b as int),
            ) {
                Ok(()) => {},
                Err(duplicate) => {
                    return Err(duplicate);
                },
            }
            b += 1;
        }
        proof {
            lemma_row_done(configs@, a as int, ids@, *range, table@);
        }
        a += 1;
    }
    assert(names.take(names.len() as int) =~= names);
    Ok((ids, table))
}

/// Different principals get different indices, and the indices are those from zero
/// up to the number of principals.
pub proof fn law_indices_are_distinct(
    ids: Map<Seq<char>, ProcessorIdx>,
    names: Seq<Seq<char>>,
    p: Seq<char>,
    q: Seq<char>,
)
    requires
        numbers(ids, distinct(names)),
        ids.contains_key(p),
        ids.contains_key(q),
    ensures
        ids[p].0 < distinct(names).len(),
        distinct(names)[ids[p].0 as int] == p,
        ids[p] == ids[q] ==> p == q,
{
    let d = distinct(names);
    assert(d.contains(p) && d.contains(q));
    let k = choose|k: int| 0 <= k < d.len() && d[k] == p;
    let m = choose|m: int| 0 <= m < d.len() && d[m] == q;
    assert(ids[d[k]].0 == k);
    assert(ids[d[m]].0 == m);
}

/// With the table that was built from a configuration, a transaction for a
/// configured instance goes to the processor of the principal for which it is
/// configured, unless that does not support the version; and a transaction for
/// anything else finds no processor.
pub proof fn law_configuration_routes<T: SealTypes, V, F: Fn(&V) -> T::VersionRange, G: Fn(
    &T::VersionRange,
    &T::Version,
) -> bool>(
    configs: Seq<ProcessorConfig<String, V>>,
    ids: Map<Seq<char>, ProcessorIdx>,
    range: F,
    s: PeerStateView<T>,
    accepts: G,
    class: u128,
    version: T::Version,
    instance: u64,
    r: Result<ProcessorIdx, XactError<Seq<u8>>>,
)
    requires
        tabulates_before(configs, configs.len() as int, 0, ids, range, s.processors),
        s.routes(accepts, class, version, instance, r),
    ensures
        forall|a: int, b: int, j: int| #[trigger]
            offers_at(configs, a, b, j, class, instance) ==> r == Ok::<
                ProcessorIdx,
                XactError<Seq<u8>>,
            >(ids[configs[a].principal@]) || r == Err::<ProcessorIdx, XactError<Seq<u8>>>(
                XactError::UnknownVersion,
            ),
        (forall|a: int, b: int| !#[trigger] offers(configs, a, b, class)) ==> r == Err::<
            ProcessorIdx,
            XactError<Seq<u8>>,
        >(XactError::UnknownClass),
        (exists|a: int, b: int| #[trigger] offers(configs, a, b, class)) && (forall|
            a: int,
            b: int,
            j: int,
        |
            !#[trigger] offers_at(configs, a, b, j, class, instance)) ==> r == Err::<
            ProcessorIdx,
            XactError<Seq<u8>>,
        >(XactError::UnknownInstance),
{
    let n = configs.len() as int;
    assert forall|a: int, b: int, j: int| #[trigger]
        offers_at(configs, a, b, j, class, instance) implies r == Ok::<
        ProcessorIdx,
        XactError<Seq<u8>>,
    >(ids[configs[a].principal@]) || r == Err::<ProcessorIdx, XactError<Seq<u8>>>(
        XactError::UnknownVersion,
    ) by {
        assert(offers(configs, a, b, class) && before(a, b, n, 0));
        assert(offers_at(configs, a, b, j, class, instance) && before(a, b, n, 0));
        assert(s.processors.contains_key(class));
        assert(s.processors[class].instances@.contains_key(instance));
    }
    if exists|a: int, b: int| #[trigger] offers(configs, a, b, class) {
        let (a, b) = choose|a: int, b: int| #[trigger] offers(configs, a, b, class);
        assert(offers(configs, a, b, class) && before(a, b, n, 0));
        assert(s.processors.contains_key(class));
        if s.processors[class].instances@.contains_key(instance) {
            assert(placed_before(configs, n, 0, class, instance));
        }
    } else if s.processors.contains_key(class) {
        assert(offered_before(configs, n, 0, class));
    }
}

/// The credentials by which a principal is recognized; there is none where it could
/// not be obtained from the configuration.
#[derive(Clone, Debug)]
pub struct PrincipalCredentials<C> {
    pub principal: String,
    pub creds: Vec<Option<C>>,
}

/// The place of a credential that could not be obtained.
#[derive(Clone, Copy, Debug, Eq, PartialEq, Structural)]
pub struct MissingCredential {
    /// Index of the principal.
    pub entry: usize,
    /// Index of the credential among those of the principal.
    pub credential: usize,
}

/// Whether credential `b` of principal `a` is asked for: the principal is that of a
/// processor.
pub open spec fn asked_for<C>(
    auth: Seq<PrincipalCredentials<C>>,
    ids: Map<Seq<char>, ProcessorIdx>,
    a: int,
    b: int,
) -> bool {
    &&& 0 <= a < auth.len()
    &&& 0 <= b < auth[a].creds@.len()
    &&& ids.contains_key(auth[a].principal@)
}

/// Whether credential `b` of principal `a` is asked for and could not be obtained.
pub open spec fn lacking<C>(
    auth: Seq<PrincipalCredentials<C>>,
    ids: Map<Seq<char>, ProcessorIdx>,
    a: int,
    b: int,
) -> bool {
    asked_for(auth, ids, a, b) && auth[a].creds@[b] is None
}

/// Whether credential `b` of principal `a` is asked for and is `cred`.
pub open spec fn gives<C>(
    auth: Seq<PrincipalCredentials<C>>,
    ids: Map<Seq<char>, ProcessorIdx>,
    a: int,
    b: int,
    cred: C,
) -> bool {
    asked_for(auth, ids, a, b) && auth[a].creds@[b] == Some(cred)
}

/// Whether `creds` gives every credential that comes before credential `b` of
/// principal `a` the processor of the last principal there that has it.
pub open spec fn assigns_before<C>(
    auth: Seq<PrincipalCredentials<C>>,
    ids: Map<Seq<char>, ProcessorIdx>,
    a: int,
    b: int,
    creds: Map<C, ProcessorIdx>,
) -> bool {
    &&& forall|c: C| #[trigger]
        creds.contains_key(c) <==> exists|a1: int, b1: int| #[trigger]
            gives(auth, ids, a1, b1, c) && before(a1, b1, a, b)
    &&& forall|a1: int, b1: int, c: C|
        {
            &&& #[trigger] gives(auth, ids, a1, b1, c)
            &&& before(a1, b1, a, b)
            &&& forall|a2: int, b2: int|
                before(a1, b1, a2, b2) && before(a2, b2, a, b) ==> !#[trigger] gives(
                    auth,
                    ids,
                    a2,
                    b2,
                    c,
                )
        } ==> creds[c] == ids[auth[a1].principal@]
}

/// Assign the credentials of the principals in `ids` to their processors.  Other
/// principals have no services, and are passed over.
pub fn assign_credentials<C: Clone + Eq + Hash>(
    auth: &Vec<PrincipalCredentials<C>>,
    ids: &StringHashMap<ProcessorIdx>,
) -> (r: Result<HashMap<C, ProcessorIdx>, MissingCredential>)
    requires
        is_key::<C>(),
    ensures
        match r {
            Ok(creds) => {
                &&& forall|a: int, b: int| !#[trigger] lacking(auth@, ids@, a, b)
                &&& assigns_before(auth@, ids@, auth@.len() as int, 0, creds@)
            },
            Err(e) => {
                &&& lacking(auth@, ids@, e.entry as int, e.credential as int)
                &&& forall|a: int, b: int|
                    before(a, b, e.entry as int, e.credential as int) ==> !#[trigger] lacking(
                        auth@,
                        ids@,
                        a,
                        b,
                    )
            },
        },
{
    let mut creds: HashMap<C, ProcessorIdx> = HashMap::new();
    let mut a: usize = 0;
    while a < auth.len()
        invariant
            is_key::<C>(),
            a <= auth.len(),
            forall|a1: int, b1: int|
                before(a1, b1, a as int, 0) ==> !#[trigger] lacking(auth@, ids@, a1, b1),
            assigns_before(auth@, ids@, a as int, 0, creds@),
        decreases auth.len() - a,
    {
        let entry = &auth[a];
        match ids.get(entry.principal.as_str()) {
            Some(id) => {
                let mut b: usize = 0;
                while b < entry.creds.len()
                    invariant
                        is_key::<C>(),
                        a < auth.len(),
                        *entry == auth@[a as int],
                        b <= entry.creds.len(),
                        ids@.contains_key(entry.principal@),
                        *id == ids@[entry.principal@],
                        forall|a1: int, b1: int|
                            before(a1, b1, a as int, b as int) ==> !#[trigger] lacking(
                                auth@,
                                ids@,
                                a1,
                                b1,
                            ),
                        assigns_before(auth@, ids@, a as int, b as int, creds@),
                    decreases entry.creds.len() - b,
                {
                    match &entry.creds[b] {
                        Some(cred) => {
                            let ghost prev = creds@;
                            creds.insert(copy_key(cred), *id);
                            proof {
                                assert(creds@ =~= prev.insert(*cred, *id));
                                lemma_assigned(auth@, ids@, a as int, b as int, prev, creds@);
                            }
                        },
                        None => {
                            assert(lacking(auth@, ids@, a as int, b as int));
                            return Err(MissingCredential { entry: a, credential: b });
                        },
                    }
                    b += 1;
                }
                proof {
                    lemma_principal_done(auth@, ids@, a as int, b as int, creds@);
                    assert forall|a1: int, b1: int|
                        before(a1, b1, a + 1, 0) implies !#[trigger] lacking(
                        auth@,
                        ids@,
                        a1,
                        b1,
                    ) by {
                        if lacking(auth@, ids@, a1, b1) {
                            assert(before(a1, b1, a as int, b as int));
                        }
                    }
                }
            },
            None => {
                proof {
                    lemma_principal_done(auth@, ids@, a as int, 0, creds@);
                    assert forall|a1: int, b1: int|
                        before(a1, b1, a + 1, 0) implies !#[trigger] lacking(
                        auth@,
                        ids@,
                        a1,
                        b1,
                    ) by {
                        if lacking(auth@, ids@, a1, b1) {
                            assert(before(a1, b1, a as int, 0));
                        }
                    }
                }
            },
        }
        a += 1;
    }
    assert forall|a1: int, b1: int| !#[trigger] lacking(auth@, ids@, a1, b1) by {
        if lacking(auth@, ids@, a1, b1) {
            assert(before(a1, b1, a as int, 0));
        }
    }
    Ok(creds)
}

/// One more credential has been assigned.
proof fn lemma_assigned<C>(
    auth: Seq<PrincipalCredentials<C>>,
    ids: Map<Seq<char>, ProcessorIdx>,
    a: int,
    b: int,
    prev: Map<C, ProcessorIdx>,
    next: Map<C, ProcessorIdx>,
)
    requires
        asked_for(auth, ids, a, b),
        auth[a].creds@[b] is Some,
        assigns_before(auth, ids, a, b, prev),
        next == prev.insert(auth[a].creds@[b]->0, ids[auth[a].principal@]),
    ensures
        assigns_before(auth, ids, a, b + 1, next),
{
    let cred = auth[a].creds@[b]->0;
    assert(gives(auth, ids, a, b, cred));
    assert forall|c: C| #[trigger]
        next.contains_key(c) <==> exists|a1: int, b1: int| #[trigger]
            gives(auth, ids, a1, b1, c) && before(a1, b1, a, b + 1) by {
        if next.contains_key(c) {
            if c == cred {
                assert(gives(auth, ids, a, b, c) && before(a, b, a, b + 1));
            } else {
                assert(prev.contains_key(c));
                let (a1, b1) = choose|a1: int, b1: int| #[trigger]
                    gives(auth, ids, a1, b1, c) && before(a1, b1, a, b);
                assert(gives(auth, ids, a1, b1, c) && before(a1, b1, a, b + 1));
            }
        }
        if exists|a1: int, b1: int| #[trigger]
            gives(auth, ids, a1, b1, c) && before(a1, b1, a, b + 1) {
            let (a1, b1) = choose|a1: int, b1: int| #[trigger]
                gives(auth, ids, a1, b1, c) && before(a1, b1, a, b + 1);
            if !(a1 == a && b1 == b) {
                assert(gives(auth, ids, a1, b1, c) && before(a1, b1, a, b));
                assert(prev.contains_key(c));
            }
        }
    }
    assert forall|a1: int, b1: int, c: C|
        {
            &&& #[trigger] gives(auth, ids, a1, b1, c)
            &&& before(a1, b1, a, b + 1)
            &&& forall|a2: int, b2: int|
                before(a1, b1, a2, b2) && before(a2, b2, a, b + 1) ==> !#[trigger] gives(
                    auth,
                    ids,
                    a2,
                    b2,
                    c,
                )
        } implies next[c] == ids[auth[a1].principal@] by {
        if !(a1 == a && b1 == b) {
            assert(before(a1, b1, a, b));
            assert(before(a, b, a, b + 1));
            assert(!gives(auth, ids, a, b, c));
            assert forall|a2: int, b2: int|
                before(a1, b1, a2, b2) && before(a2, b2, a, b) implies !#[trigger] gives(
                auth,
                ids,
                a2,
                b2,
                c,
            ) by {
                assert(before(a2, b2, a, b + 1));
            }
        }
    }
}

/// The credentials of one principal are done, or are not asked for from `b` on.
proof fn lemma_principal_done<C>(
    auth: Seq<PrincipalCredentials<C>>,
    ids: Map<Seq<char>, ProcessorIdx>,
    a: int,
    b: int,
    creds: Map<C, ProcessorIdx>,
)
    requires
        0 <= a < auth.len(),
        b == auth[a].creds@.len() || (b == 0 && !ids.contains_key(auth[a].principal@)),
        assigns_before(auth, ids, a, b, creds),
    ensures
        assigns_before(auth, ids, a + 1, 0, creds),
{
    assert forall|a1: int, b1: int, c: C| #[trigger] gives(auth, ids, a1, b1, c) implies (before(
        a1,
        b1,
        a,
        b,
    ) <==> before(a1, b1, a + 1, 0)) by {}
    assert forall|c: C| #[trigger]
        creds.contains_key(c) <==> exists|a1: int, b1: int| #[trigger]
            gives(auth, ids, a1, b1, c) && before(a1, b1, a + 1, 0) by {
        if creds.contains_key(c) {
            let (a1, b1) = choose|a1: int, b1: int| #[trigger]
                gives(auth, ids, a1, b1, c) && before(a1, b1, a, b);
            assert(gives(auth, ids, a1, b1, c) && before(a1, b1, a + 1, 0));
        }
        if exists|a1: int, b1: int| #[trigger]
            gives(auth, ids, a1, b1, c) && before(a1, b1, a + 1, 0) {
            let (a1, b1) = choose|a1: int, b1: int| #[trigger]
                gives(auth, ids, a1, b1, c) && before(a1, b1, a + 1, 0);
            assert(gives(auth, ids, a1, b1, c) && before(a1, b1, a, b));
        }
    }
    assert forall|a1: int, b1: int, c: C|
        {
            &&& #[trigger] gives(auth, ids, a1, b1, c)
            &&& before(a1, b1, a + 1, 0)
            &&& forall|a2: int, b2: int|
                before(a1, b1, a2, b2) && before(a2, b2, a + 1, 0) ==> !#[trigger] gives(
                    auth,
                    ids,
                    a2,
                    b2,
                    c,
                )
        } implies creds[c] == ids[auth[a1].principal@] by {
        assert(before(a1, b1, a, b));
        assert forall|a2: int, b2: int|
            before(a1, b1, a2, b2) && before(a2, b2, a, b) implies !#[trigger] gives(
            auth,
            ids,
            a2,
            b2,
            c,
        ) by {
            if gives(auth, ids, a2, b2, c) {
                assert(before(a2, b2, a + 1, 0));
            }
        }
    }
}

/// The place of an instance in a configuration: instance `j` of class configuration
/// `b` of processor configuration `a` is `instance` of `class`.
pub open spec fn stands_at<V>(
    configs: Seq<ProcessorConfig<String, V>>,
    a: int,
    b: int,
    j: int,
    class: u128,
    instance: u64,
) -> bool {
    &&& 0 <= a < configs.len()
    &&& 0 <= b < configs[a].classes@.len()
    &&& configs[a].classes@[b].id.class() == class
    &&& 0 <= j < configs[a].classes@[b].instances@.len()
    &&& configs[a].classes@[b].instances@[j] as u64 == instance
}

/// The table that is built from a configuration holds exactly the instances that stand
/// in it.  Each has the index of the principal for which it stands, and as many version
/// ranges as are configured for it, each made of the configured one.
pub proof fn law_table_holds_the_configuration<V, R, F: Fn(&V) -> R>(
    configs: Seq<ProcessorConfig<String, V>>,
    ids: Map<Seq<char>, ProcessorIdx>,
    range: F,
    table: Map<u128, ProcessorEntry<R>>,
    class: u128,
    instance: u64,
)
    requires
        tabulates_before(configs, configs.len() as int, 0, ids, range, table),
    ensures
        forall|a: int, b: int, j: int| #[trigger]
            stands_at(configs, a, b, j, class, instance) ==> {
                let entry = table[class].instances@[instance];
                let versions = configs[a].classes@[b].versions@;
                &&& table.contains_key(class)
                &&& table[class].instances@.contains_key(instance)
                &&& entry.processor == ids[configs[a].principal@]
                &&& entry.versions@.len() == versions.len()
                &&& forall|k: int|
                    0 <= k < versions.len() ==> call_ensures(
                        range,
                        (&#[trigger] versions[k],),
                        entry.versions@[k],
                    )
            },
        table.contains_key(class) && table[class].instances@.contains_key(instance) ==> exists|
            a: int,
            b: int,
            j: int,
        |
            #[trigger] stands_at(configs, a, b, j, class, instance),
        table.contains_key(class) <==> exists|a: int, b: int|
            0 <= a < configs.len() && 0 <= b < configs[a].classes@.len()
                && #[trigger] configs[a].classes@[b].id.class() == class,
{
    let n = configs.len() as int;
    assert forall|a: int, b: int, j: int| #[trigger]
        stands_at(configs, a, b, j, class, instance) implies {
        let entry = table[class].instances@[instance];
        let versions = configs[a].classes@[b].versions@;
        &&& table.contains_key(class)
        &&& table[class].instances@.contains_key(instance)
        &&& entry.processor == ids[configs[a].principal@]
        &&& entry.versions@.len() == versions.len()
        &&& forall|k: int|
            0 <= k < versions.len() ==> call_ensures(
                range,
                (&#[trigger] versions[k],),
                entry.versions@[k],
            )
    } by {
        assert(offers(configs, a, b, class) && before(a, b, n, 0));
        assert(offers_at(configs, a, b, j, class, instance) && before(a, b, n, 0));
        assert(table.contains_key(class));
        assert(placed_before(configs, n, 0, class, instance));
        assert(table[class].instances@.contains_key(instance));
        let entry = table[class].instances@[instance];
        let versions = configs[a].classes@[b].versions@;
        assert(entry_of(ids[configs[a].principal@], versions, range, entry));
        assert forall|k: int| 0 <= k < versions.len() implies call_ensures(
            range,
            (&#[trigger] versions[k],),
            entry.versions@[k],
        ) by {
            let made = entry.versions@[k];
        }
    }
    if table.contains_key(class) {
        let (a, b) = choose|a: int, b: int| #[trigger]
            offers(configs, a, b, class) && before(a, b, n, 0);
        assert(configs[a].classes@[b].id.class() == class);
        if table[class].instances@.contains_key(instance) {
            assert(placed_before(configs, n, 0, class, instance));
            let (a, b, j) = choose|a: int, b: int, j: int| #[trigger]
                offers_at(configs, a, b, j, class, instance) && before(a, b, n, 0);
            assert(stands_at(configs, a, b, j, class, instance));
        }
    }
    if exists|a: int, b: int|
        0 <= a < configs.len() && 0 <= b < configs[a].classes@.len()
            && #[trigger] configs[a].classes@[b].id.class() == class {
        let (a, b) = choose|a: int, b: int|
            0 <= a < configs.len() && 0 <= b < configs[a].classes@.len()
                && #[trigger] configs[a].classes@[b].id.class() == class;
        assert(offers(configs, a, b, class) && before(a, b, n, 0));
    }
}

/// With the table that was built from a configuration, a transaction for a configured
/// instance goes to the processor for which it is configured if any of the configured
/// ranges, wherever it stands in the list, surely holds the version.  It is refused for
/// its version only if every one of them may refuse it, and accepted only if one of
/// them may hold it.
pub proof fn law_configured_versions_are_accepted<
    T: SealTypes,
    V,
    F: Fn(&V) -> T::VersionRange,
    G: Fn(&T::VersionRange, &T::Version) -> bool,
>(
    configs: Seq<ProcessorConfig<String, V>>,
    ids: Map<Seq<char>, ProcessorIdx>,
    range: F,
    s: PeerStateView<T>,
    accepts: G,
    class: u128,
    version: T::Version,
    instance: u64,
    r: Result<ProcessorIdx, XactError<Seq<u8>>>,
    a: int,
    b: int,
    j: int,
    k: int,
)
    requires
        tabulates_before(configs, configs.len() as int, 0, ids, range, s.processors),
        s.routes(accepts, class, version, instance, r),
        stands_at(configs, a, b, j, class, instance),
    ensures
        ({
            let versions = configs[a].classes@[b].versions@;
            &&& r matches Ok(p) ==> p == ids[configs[a].principal@]
            &&& r is Err ==> r == Err::<ProcessorIdx, XactError<Seq<u8>>>(
                XactError::UnknownVersion,
            )
            &&& 0 <= k < versions.len() && (forall|made: T::VersionRange| #[trigger]
                call_ensures(range, (&versions[k],), made) ==> !call_ensures(
                    accepts,
                    (&made, &version),
                    false,
                )) ==> r is Ok
            &&& 0 <= k < versions.len() && r is Err ==> exists|made: T::VersionRange| #[trigger]
                call_ensures(range, (&versions[k],), made) && call_ensures(
                    accepts,
                    (&made, &version),
                    false,
                )
            &&& r is Ok ==> exists|n: int, made: T::VersionRange|
                #![trigger versions[n], call_ensures(accepts, (&made, &version), true)]
                {
                    &&& 0 <= n < versions.len()
                    &&& call_ensures(range, (&versions[n],), made)
                    &&& call_ensures(accepts, (&made, &version), true)
                }
        }),
{
    law_table_holds_the_configuration(configs, ids, range, s.processors, class, instance);
    crate::guarantees::law_search_goes_by_the_table(s, accepts, class, version, instance, r);
    let entry = s.processors[class].instances@[instance];
    let versions = configs[a].classes@[b].versions@;
    if r is Err {
        if 0 <= k < versions.len() {
            let made = entry.versions@[k];
            assert(call_ensures(range, (&versions[k],), made));
            assert(call_ensures(accepts, (&made, &version), false));
        }
    } else {
        let n = choose|n: int|
            0 <= n < entry.versions@.len() && call_ensures(
                accepts,
                (&#[trigger] entry.versions@[n], &version),
                true,
            );
        let made = entry.versions@[n];
        assert(call_ensures(range, (&versions[n],), made));
        assert(call_ensures(accepts, (&made, &version), true));
    }
}

/// In a configuration without conflict, an instance of a class stands in one class
/// configuration at most.
pub proof fn law_no_instance_stands_twice<V>(
    configs: Seq<ProcessorConfig<String, V>>,
    class: u128,
    instance: u64,
    a: int,
    b: int,
    j: int,
    a2: int,
    b2: int,
    j2: int,
)
    requires
        no_conflict_before(configs, configs.len() as int, 0),
        stands_at(configs, a, b, j, class, instance),
        stands_at(configs, a2, b2, j2, class, instance),
    ensures
        a == a2 && b == b2,
{
    lemma_two_places_conflict(configs, configs.len() as int, 0, class, instance, a, b, j, a2, b2, j2);
}

/// Two places for one instance in different class configurations are a conflict.
proof fn lemma_two_places_conflict<V>(
    configs: Seq<ProcessorConfig<String, V>>,
    n: int,
    m: int,
    class: u128,
    instance: u64,
    a: int,
    b: int,
    j: int,
    a2: int,
    b2: int,
    j2: int,
)
    requires
        no_conflict_before(configs, n, m),
        stands_at(configs, a, b, j, class, instance),
        stands_at(configs, a2, b2, j2, class, instance),
        before(a, b, n, m),
        before(a2, b2, n, m),
    ensures
        a == a2 && b == b2,
{
    assert(offers_at(configs, a, b, j, class, instance));
    assert(offers_at(configs, a2, b2, j2, class, instance));
    assert(offers(configs, a, b, class));
    assert(offers(configs, a2, b2, class));
    if before(a, b, a2, b2) {
        assert(offered_before(configs, a2, b2, class));
        assert(placed_before(configs, a2, b2, class, instance));
        assert(conflicts(configs, a2, b2, j2));
    } else if before(a2, b2, a, b) {
        assert(offered_before(configs, a, b, class));
        assert(placed_before(configs, a, b, class, instance));
        assert(conflicts(configs, a, b, j));
    }
}

/// The instance that is reported as a duplicate does stand at two places, the later of
/// which is in a class configuration for a class that has been configured before.  No
/// instance stands in two class configurations before that.
pub proof fn law_reported_duplicates_stand_twice<V>(
    configs: Seq<ProcessorConfig<String, V>>,
    duplicate: DuplicateProcessor,
)
    requires
        is_first_conflict(configs, duplicate),
    ensures
        exists|a: int, b: int, j: int, a1: int, b1: int, j1: int|
            {
                &&& #[trigger] stands_at(
                    configs,
                    a,
                    b,
                    j,
                    duplicate.class,
                    duplicate.instance as u64,
                )
                &&& #[trigger] stands_at(
                    configs,
                    a1,
                    b1,
                    j1,
                    duplicate.class,
                    duplicate.instance as u64,
                )
                &&& a1 < a || (a1 == a && (b1 < b || (b1 == b && j1 < j)))
                &&& exists|a0: int, b0: int|
                    {
                        &&& 0 <= a0 < configs.len()
                        &&& 0 <= b0 < configs[a0].classes@.len()
                        &&& #[trigger] configs[a0].classes@[b0].id.class() == duplicate.class
                        &&& a0 < a || (a0 == a && b0 < b)
                    }
                &&& forall|
                    class: u128,
                    instance: u64,
                    c: int,
                    d: int,
                    i: int,
                    c2: int,
                    d2: int,
                    i2: int,
                |
                    #[trigger] stands_at(configs, c, d, i, class, instance) && #[trigger] stands_at(
                        configs,
                        c2,
                        d2,
                        i2,
                        class,
                        instance,
                    ) && (c < a || (c == a && d < b)) && (c2 < a || (c2 == a && d2 < b)) ==> c == c2
                        && d == d2
            },
{
    let (a, b, j) = choose|a: int, b: int, j: int|
        {
            &&& #[trigger] conflicts(configs, a, b, j)
            &&& no_conflict_before(configs, a, b)
            &&& forall|j1: int| 0 <= j1 < j ==> !#[trigger] conflicts(configs, a, b, j1)
            &&& duplicate.class == configs[a].classes@[b].id.class()
            &&& duplicate.instance == configs[a].classes@[b].instances@[j]
        };
    let class = duplicate.class;
    let instance = duplicate.instance as u64;
    assert(stands_at(configs, a, b, j, class, instance));
    let (a0, b0) = choose|a0: int, b0: int| #[trigger]
        offers(configs, a0, b0, class) && before(a0, b0, a, b);
    assert(configs[a0].classes@[b0].id.class() == class);
    assert forall|class: u128, instance: u64, c: int, d: int, i: int, c2: int, d2: int, i2: int|
        #[trigger] stands_at(configs, c, d, i, class, instance) && #[trigger] stands_at(
            configs,
            c2,
            d2,
            i2,
            class,
            instance,
        ) && (c < a || (c == a && d < b)) && (c2 < a || (c2 == a && d2 < b)) implies c == c2 && d
        == d2 by {
        lemma_two_places_conflict(configs, a, b, class, instance, c, d, i, c2, d2, i2);
    }
    if placed_before(configs, a, b, class, instance) {
        let (a1, b1, j1) = choose|a1: int, b1: int, j1: int| #[trigger]
            offers_at(configs, a1, b1, j1, class, instance) && before(a1, b1, a, b);
        assert(stands_at(configs, a1, b1, j1, class, instance));
    } else {
        let instances = configs[a].classes@[b].instances@;
        let j1 = choose|j1: int| 0 <= j1 < j && #[trigger] instances[j1] == instances[j];
        assert(stands_at(configs, a, b, j1, class, instance));
    }
}

/// The distinct elements of a first part of a sequence come first among those of the
/// whole.
proof fn lemma_distinct_prefix<P>(s: Seq<P>, n: int)
    requires
        0 <= n <= s.len(),
    ensures
        distinct(s.take(n)).len() <= distinct(s).len(),
        forall|k: int|
            0 <= k < distinct(s.take(n)).len() ==> #[trigger] distinct(s.take(n))[k]
                == distinct(s)[k],
    decreases s.len(),
{
    if n == s.len() {
        assert(s.take(n) =~= s);
    } else {
        let rest = s.drop_last();
        assert(rest.take(n) =~= s.take(n));
        lemma_distinct_prefix(rest, n);
    }
}

/// Every configured principal has an index, and no other has one.
pub proof fn law_principals_have_indices<V>(
    configs: Seq<ProcessorConfig<String, V>>,
    ids: Map<Seq<char>, ProcessorIdx>,
    p: Seq<char>,
)
    requires
        numbers(ids, distinct(principals(configs))),
    ensures
        ids.contains_key(p) <==> exists|a: int|
            0 <= a < configs.len() && (#[trigger] configs[a]).principal@ == p,
{
    let names = principals(configs);
    lemma_distinct(names);
    assert(ids.contains_key(p) <==> distinct(names).contains(p));
    assert(distinct(names).contains(p) <==> names.contains(p));
    if names.contains(p) {
        let a = choose|a: int| 0 <= a < names.len() && names[a] == p;
        assert(configs[a].principal@ == p);
    }
    if exists|a: int| 0 <= a < configs.len() && (#[trigger] configs[a]).principal@ == p {
        let a = choose|a: int| 0 <= a < configs.len() && (#[trigger] configs[a]).principal@ == p;
        assert(names[a] == p);
    }
}

/// The index of a principal is how many others have occurred before it first does.
proof fn lemma_index_counts<V>(
    configs: Seq<ProcessorConfig<String, V>>,
    ids: Map<Seq<char>, ProcessorIdx>,
    b: int,
)
    requires
        numbers(ids, distinct(principals(configs))),
        0 <= b < configs.len(),
        forall|c: int|
            0 <= c < b ==> (#[trigger] configs[c]).principal@ != configs[b].principal@,
    ensures
        ids[configs[b].principal@].0 == distinct(principals(configs).take(b)).len(),
{
    let names = principals(configs);
    let seen = names.take(b);
    let p = configs[b].principal@;
    lemma_distinct(seen);
    assert(names.take(b + 1).drop_last() =~= seen);
    assert(names.take(b + 1).last() == p);
    if seen.contains(p) {
        let c = choose|c: int| 0 <= c < seen.len() && seen[c] == p;
        assert(configs[c].principal@ == p);
    }
    assert(!distinct(seen).contains(p));
    lemma_distinct_prefix(names, b + 1);
    let m = distinct(seen).len() as int;
    assert(distinct(names.take(b + 1)) == distinct(seen).push(p));
    assert(distinct(names.take(b + 1))[m] == p);
    assert(distinct(names)[m] == p);
}

/// Principals are numbered from zero in the order in which they first occur.
pub proof fn law_principals_are_numbered_in_order<V>(
    configs: Seq<ProcessorConfig<String, V>>,
    ids: Map<Seq<char>, ProcessorIdx>,
    a: int,
    b: int,
)
    requires
        numbers(ids, distinct(principals(configs))),
        0 <= a < b < configs.len(),
        forall|c: int|
            0 <= c < b ==> (#[trigger] configs[c]).principal@ != configs[b].principal@,
    ensures
        ids[configs[a].principal@].0 < ids[configs[b].principal@].0,
        ids[configs[0].principal@].0 == 0,
{
    let names = principals(configs);
    let seen = names.take(b);
    let p = configs[a].principal@;
    lemma_distinct(seen);
    lemma_index_counts(configs, ids, b);
    assert(seen[a] == p);
    assert(distinct(seen).contains(p));
    let k = choose|k: int| 0 <= k < distinct(seen).len() && distinct(seen)[k] == p;
    lemma_distinct_prefix(names, b);
    assert(distinct(names)[k] == p);
    lemma_index_counts(configs, ids, 0);
    assert(names.take(0) =~= Seq::empty());
}

/// The indices of principals have no gap: below the index of a principal, every index
/// is that of another.
pub proof fn law_indices_have_no_gap(
    ids: Map<Seq<char>, ProcessorIdx>,
    names: Seq<Seq<char>>,
    p: Seq<char>,
    n: int,
)
    requires
        numbers(ids, distinct(names)),
        ids.contains_key(p),
        0 <= n < ids[p].0,
    ensures
        exists|q: Seq<char>| #[trigger] ids.contains_key(q) && ids[q].0 == n,
{
    let d = distinct(names);
    law_indices_are_distinct(ids, names, p, p);
    let q = d[n];
    assert(d.contains(q));
    assert(ids.contains_key(q));
    assert(ids[q].0 == n);
}

/// Every credential of a processor's principal stands for the processor of the last such
/// principal that has it, and no other credential stands for any.
pub proof fn law_credentials_stand_for_their_principals<C>(
    auth: Seq<PrincipalCredentials<C>>,
    ids: Map<Seq<char>, ProcessorIdx>,
    creds: Map<C, ProcessorIdx>,
    c: C,
)
    requires
        assigns_before(auth, ids, auth.len() as int, 0, creds),
    ensures
        forall|a: int, b: int|
            0 <= a < auth.len() && 0 <= b < auth[a].creds@.len() && ids.contains_key(
                auth[a].principal@,
            ) && #[trigger] auth[a].creds@[b] == Some(c) ==> {
                &&& creds.contains_key(c)
                &&& (forall|a2: int|
                    a < a2 < auth.len() && ids.contains_key((#[trigger] auth[a2]).principal@)
                        ==> !auth[a2].creds@.contains(Some(c))) ==> creds[c]
                    == ids[auth[a].principal@]
            },
        creds.contains_key(c) ==> exists|a: int|
            {
                &&& 0 <= a < auth.len()
                &&& ids.contains_key((#[trigger] auth[a]).principal@)
                &&& auth[a].creds@.contains(Some(c))
            },
{
    let n = auth.len() as int;
    assert forall|a: int, b: int|
        0 <= a < auth.len() && 0 <= b < auth[a].creds@.len() && ids.contains_key(
            auth[a].principal@,
        ) && #[trigger] auth[a].creds@[b] == Some(c) implies {
        &&& creds.contains_key(c)
        &&& (forall|a2: int|
            a < a2 < auth.len() && ids.contains_key((#[trigger] auth[a2]).principal@)
                ==> !auth[a2].creds@.contains(Some(c))) ==> creds[c] == ids[auth[a].principal@]
    } by {
        assert(gives(auth, ids, a, b, c) && before(a, b, n, 0));
        assert(creds.contains_key(c));
        if forall|a2: int|
            a < a2 < auth.len() && ids.contains_key((#[trigger] auth[a2]).principal@)
                ==> !auth[a2].creds@.contains(Some(c)) {
            lemma_last_given(auth, ids, a, b, c);
            let b1 = choose|b1: int| #[trigger]
                gives(auth, ids, a, b1, c) && forall|b2: int|
                    b2 > b1 ==> !#[trigger] gives(auth, ids, a, b2, c);
            assert forall|a2: int, b2: int|
                before(a, b1, a2, b2) && before(a2, b2, n, 0) implies !#[trigger] gives(
                auth,
                ids,
                a2,
                b2,
                c,
            ) by {
                if gives(auth, ids, a2, b2, c) && a2 > a {
                    assert(auth[a2].creds@[b2] == Some(c));
                    assert(auth[a2].creds@.contains(Some(c)));
                }
            }
            assert(gives(auth, ids, a, b1, c) && before(a, b1, n, 0));
        }
    }
    if creds.contains_key(c) {
        let (a, b) = choose|a: int, b: int| #[trigger]
            gives(auth, ids, a, b, c) && before(a, b, n, 0);
        assert(auth[a].creds@[b] == Some(c));
        assert(auth[a].creds@.contains(Some(c)));
    }
}

/// A principal that has a credential has it at a last place.
proof fn lemma_last_given<C>(
    auth: Seq<PrincipalCredentials<C>>,
    ids: Map<Seq<char>, ProcessorIdx>,
    a: int,
    b: int,
    c: C,
)
    requires
        gives(auth, ids, a, b, c),
    ensures
        exists|b1: int| #[trigger]
            gives(auth, ids, a, b1, c) && forall|b2: int|
                b2 > b1 ==> !#[trigger] gives(auth, ids, a, b2, c),
    decreases auth[a].creds@.len() - b,
{
    if exists|b2: int| b2 > b && #[trigger] gives(auth, ids, a, b2, c) {
        let b2 = choose|b2: int| b2 > b && #[trigger] gives(auth, ids, a, b2, c);
        lemma_last_given(auth, ids, a, b2, c);
    }
}

/// A credential is reported as missing exactly if it is not there and its principal is
/// that of a processor.
pub proof fn law_missing_credentials<C>(
    auth: Seq<PrincipalCredentials<C>>,
    ids: Map<Seq<char>, ProcessorIdx>,
    a: int,
    b: int,
)
    ensures
        lacking(auth, ids, a, b) <==> {
            &&& 0 <= a < auth.len()
            &&& 0 <= b < auth[a].creds@.len()
            &&& ids.contains_key(auth[a].principal@)
            &&& auth[a].creds@[b] is None
        },
{
}

/// A seal that carries nothing.
#[derive(Clone, Copy, Debug)]
pub struct TestSeal;

/// The codec of [`TestSeal`].
#[derive(Clone, Copy)]
pub struct TestSealCodec;

impl TestSealCodec {
    /// A codec, which takes no parameters.
    pub fn create() -> (codec: TestSealCodec)
        ensures
            codec == TestSealCodec,
    {
        TestSealCodec
    }

    /// How many bytes a seal takes: none.
    pub fn buf_size(&self, val: &TestSeal) -> (size: usize)
        ensures
            size == 0,
    {
        0
    }

    /// Write a seal: no bytes are written.
    pub fn encode(&mut self, val: &TestSeal, buf: &mut [u8]) -> (written: usize)
        ensures
            written == 0,
            final(buf)@ == old(buf)@,
    {
        0
    }

    /// Read a seal, with the number of bytes that were read: none.
    pub fn decode(&mut self, buf: &[u8]) -> (r: (TestSeal, usize))
        ensures
            r == (TestSeal, 0usize),
    {
        (TestSeal, 0)
    }
}

} // verus!
