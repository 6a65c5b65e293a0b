//! Submodule that implements [`SystemStorage`].
//!

use crate::gamecore::scenes::Scene;
use crate::gamecore::systems::{placeholder_id, DecomposedSystem, System, SystemId};
use std::collections::HashMap;
use vstd::prelude::*;

verus! {

broadcast use vstd::std_specs::hash::group_hash_axioms;

/// Position that follows position `k` in a cyclic sequence of length `n`.
///
pub open spec fn succ(k: int, n: int) -> int {
    if k + 1 == n {
        0
    } else {
        k + 1
    }
}

/// Position that precedes position `k` in a cyclic sequence of length `n`.
///
pub open spec fn pred(k: int, n: int) -> int {
    if k == 0 {
        n - 1
    } else {
        k - 1
    }
}

/// `order` lists distinct node indices, every one below `n`.
///
pub open spec fn is_permutation(order: Seq<usize>, n: nat) -> bool {
    &&& order.len() == n
    &&& order.no_duplicates()
    &&& forall|k: int| 0 <= k < order.len() ==> #[trigger] order[k] < n
}

/// The links `nexts`/`prevs` (indexed by node) form one cycle that visits the nodes in `order`.
///
pub open spec fn linked(order: Seq<usize>, nexts: Seq<usize>, prevs: Seq<usize>) -> bool {
    let n = order.len() as int;
    &&& forall|k: int| 0 <= k < n ==> #[trigger] order[k] < nexts.len() && order[k] < prevs.len()
    &&& forall|k: int| 0 <= k < n ==> #[trigger] nexts[order[k] as int] == order[succ(k, n)]
    &&& forall|k: int| 0 <= k < n ==> #[trigger] prevs[order[k] as int] == order[pred(k, n)]
}

/// Every node index below the length of a permutation occurs in it.
///
proof fn lemma_permutation_index(order: Seq<usize>, x: int) -> (k: int)
    requires
        is_permutation(order, order.len()),
        0 <= x < order.len(),
    ensures
        0 <= k < order.len(),
        order[k] == x,
{
    broadcast use vstd::seq_lib::seq_to_set_is_finite;

    let n = order.len() as int;
    let s = order.map_values(|v: usize| v as int);
    assert(s.no_duplicates()) by {
        assert forall|a: int, b: int| 0 <= a < s.len() && 0 <= b < s.len() && a != b implies s[a] != s[b] by {
            assert(order[a] != order[b]);
        }
    }
    s.unique_seq_to_set();
    let r = vstd::set_lib::set_int_range(0, n);
    vstd::set_lib::lemma_int_range(0, n);
    assert(s.to_set().subset_of(r)) by {
        assert forall|v: int| s.to_set().contains(v) implies r.contains(v) by {
            let j = choose|j: int| 0 <= j < s.len() && s[j] == v;
            assert(order[j] < n);
        }
    }
    vstd::set_lib::lemma_subset_equality(s.to_set(), r);
    assert(r.contains(x));
    assert(s.to_set().contains(x));
    let k = choose|j: int| 0 <= j < s.len() && s[j] == x;
    k
}

/// Inserting node `order.len()` at position `p` of the cycle keeps it a linked permutation.
///
proof fn lemma_linked_insert(order: Seq<usize>, nexts: Seq<usize>, prevs: Seq<usize>, p: int)
    requires
        1 <= order.len() <= usize::MAX,
        is_permutation(order, order.len()),
        nexts.len() == order.len(),
        prevs.len() == order.len(),
        linked(order, nexts, prevs),
        0 <= p <= order.len(),
    ensures
        ({
            let n = order.len() as int;
            let prev_node = order[if p == 0 { n - 1 } else { p - 1 }];
            let next_node = order[if p == n { 0 } else { p }];
            let o2 = order.insert(p, n as usize);
            let nexts2 = nexts.push(next_node).update(prev_node as int, n as usize);
            let prevs2 = prevs.push(prev_node).update(next_node as int, n as usize);
            &&& is_permutation(o2, (n + 1) as nat)
            &&& linked(o2, nexts2, prevs2)
        }),
{
    let n = order.len() as int;
    let nu = n as usize;
    let prev_node = order[if p == 0 { n - 1 } else { p - 1 }];
    let next_node = order[if p == n { 0 } else { p }];
    let o2 = order.insert(p, nu);
    let nexts2 = nexts.push(next_node).update(prev_node as int, nu);
    let prevs2 = prevs.push(prev_node).update(next_node as int, nu);
    assert(nu == n);
    assert(o2.len() == n + 1);
    assert(o2[p] == nu);
    assert forall|k: int| 0 <= k < o2.len() implies #[trigger] o2[k] < n + 1 by {
        if k < p {
            assert(o2[k] == order[k]);
        } else if k > p {
            assert(o2[k] == order[k - 1]);
        }
    }
    assert(o2.no_duplicates()) by {
        assert forall|a: int, b: int| 0 <= a < o2.len() && 0 <= b < o2.len() && a != b implies o2[a] != o2[b] by {
            let a1 = if a < p { a } else { a - 1 };
            let b1 = if b < p { b } else { b - 1 };
            if a != p && b != p {
                assert(o2[a] == order[a1]);
                assert(o2[b] == order[b1]);
            } else if a == p {
                assert(o2[b] == order[b1]);
            } else {
                assert(o2[a] == order[a1]);
            }
        }
    }
    assert forall|k: int| 0 <= k < n + 1 implies #[trigger] o2[k] < nexts2.len() && o2[k] < prevs2.len() by {
        assert(o2[k] < n + 1);
    }
    assert forall|k: int| 0 <= k < n + 1 implies #[trigger] nexts2[o2[k] as int] == o2[succ(k, n + 1)] by {
        if k == p {
            if p == n {
                assert(o2[0] == order[0]);
            } else {
                assert(o2[p + 1] == order[p]);
            }
        } else {
            let k1 = if k < p { k } else { k - 1 };
            assert(o2[k] == order[k1]);
            if order[k1] == prev_node {
                let pp = if p == 0 { n - 1 } else { p - 1 };
                assert(k1 == pp);
                if p == 0 {
                    assert(k == n);
                    assert(o2[0] == nu);
                } else {
                    assert(k == p - 1);
                }
            } else {
                assert(nexts2[o2[k] as int] == nexts[order[k1] as int]);
                assert(nexts[order[k1] as int] == order[succ(k1, n)]);
                if k < p {
                    assert(o2[k + 1] == order[k + 1]);
                } else {
                    if k1 + 1 == n {
                        assert(o2[0] == order[0]);
                    } else {
                        assert(o2[k + 1] == order[k1 + 1]);
                    }
                }
            }
        }
    }
    assert forall|k: int| 0 <= k < n + 1 implies #[trigger] prevs2[o2[k] as int] == o2[pred(k, n + 1)] by {
        if k == p {
            if p == 0 {
                assert(o2[n] == order[n - 1]);
            } else {
                assert(o2[p - 1] == order[p - 1]);
            }
        } else {
            let k1 = if k < p { k } else { k - 1 };
            assert(o2[k] == order[k1]);
            if order[k1] == next_node {
                let nn = if p == n { 0 } else { p };
                assert(k1 == nn);
                if p == n {
                    assert(k == 0);
                    assert(o2[n] == nu);
                } else {
                    assert(k == p + 1);
                }
            } else {
                assert(prevs2[o2[k] as int] == prevs[order[k1] as int]);
                assert(prevs[order[k1] as int] == order[pred(k1, n)]);
                if k < p {
                    if k1 == 0 {
                        assert(o2[n] == order[n - 1]);
                    } else {
                        assert(o2[k - 1] == order[k1 - 1]);
                    }
                } else {
                    if k - 1 == p {
                        assert(k1 == p);
                    } else {
                        assert(o2[k - 1] == order[k1 - 1]);
                    }
                }
            }
        }
    }
}

/// Unlinking the node at position `p` of the cycle leaves the other nodes linked in order.
///
proof fn lemma_linked_unlink(order: Seq<usize>, nexts: Seq<usize>, prevs: Seq<usize>, p: int)
    requires
        order.len() >= 2,
        order.no_duplicates(),
        linked(order, nexts, prevs),
        0 <= p < order.len(),
    ensures
        ({
            let n = order.len() as int;
            let x = order[p];
            let prev_node = prevs[x as int];
            let next_node = nexts[x as int];
            let o2 = order.remove(p);
            let nexts2 = nexts.update(prev_node as int, next_node);
            let prevs2 = prevs.update(next_node as int, prev_node);
            &&& prev_node == order[pred(p, n)]
            &&& next_node == order[succ(p, n)]
            &&& o2.no_duplicates()
            &&& !o2.contains(x)
            &&& linked(o2, nexts2, prevs2)
        }),
{
    let n = order.len() as int;
    let x = order[p];
    let prev_node = prevs[x as int];
    let next_node = nexts[x as int];
    let o2 = order.remove(p);
    let nexts2 = nexts.update(prev_node as int, next_node);
    let prevs2 = prevs.update(next_node as int, prev_node);
    assert(order[p] == x);
    assert forall|k: int| 0 <= k < n - 1 implies #[trigger] o2[k] == order[if k < p { k } else { k + 1 }] by {}
    assert(o2.no_duplicates()) by {
        assert forall|a: int, b: int| 0 <= a < o2.len() && 0 <= b < o2.len() && a != b implies o2[a] != o2[b] by {
            assert(o2[a] == order[if a < p { a } else { a + 1 }]);
            assert(o2[b] == order[if b < p { b } else { b + 1 }]);
        }
    }
    assert(!o2.contains(x)) by {
        assert forall|k: int| 0 <= k < o2.len() implies o2[k] != x by {
            assert(o2[k] == order[if k < p { k } else { k + 1 }]);
        }
    }
    assert forall|k: int| 0 <= k < n - 1 implies #[trigger] o2[k] < nexts2.len() && o2[k] < prevs2.len() by {
        assert(o2[k] == order[if k < p { k } else { k + 1 }]);
    }
    assert forall|k: int| 0 <= k < n - 1 implies #[trigger] nexts2[o2[k] as int] == o2[succ(k, n - 1)] by {
        let k1 = if k < p { k } else { k + 1 };
        assert(o2[k] == order[k1]);
        let s1 = succ(k1, n);
        if o2[k] == prev_node {
            assert(k1 == pred(p, n));
            let s2 = succ(p, n);
            assert(s2 != p);
            assert(o2[succ(k, n - 1)] == order[s2]);
        } else {
            assert(k1 != pred(p, n));
            assert(s1 != p);
            assert(o2[succ(k, n - 1)] == order[s1]);
        }
    }
    assert forall|k: int| 0 <= k < n - 1 implies #[trigger] prevs2[o2[k] as int] == o2[pred(k, n - 1)] by {
        let k1 = if k < p { k } else { k + 1 };
        assert(o2[k] == order[k1]);
        let q1 = pred(k1, n);
        if o2[k] == next_node {
            assert(k1 == succ(p, n));
            let q2 = pred(p, n);
            assert(q2 != p);
            assert(o2[pred(k, n - 1)] == order[q2]);
        } else {
            assert(k1 != succ(p, n));
            assert(q1 != p);
            assert(o2[pred(k, n - 1)] == order[q1]);
        }
    }
}

/// Moving node `from`, the last node of the arena, into the free slot `to` keeps the cycle linked.
///
proof fn lemma_linked_relocate(order: Seq<usize>, nexts: Seq<usize>, prevs: Seq<usize>, q: int, to: usize)
    requires
        order.len() >= 1,
        order.no_duplicates(),
        linked(order, nexts, prevs),
        nexts.len() == prevs.len(),
        0 <= q < order.len(),
        order[q] == nexts.len() - 1,
        to < nexts.len() - 1,
        !order.contains(to),
    ensures
        ({
            let from = order[q];
            let mp = if prevs[from as int] == from { to } else { prevs[from as int] };
            let mn = if nexts[from as int] == from { to } else { nexts[from as int] };
            let o2 = order.update(q, to);
            let nexts2 = nexts.update(to as int, nexts[from as int]).drop_last().update(to as int, mn).update(mp as int, to);
            let prevs2 = prevs.update(to as int, prevs[from as int]).drop_last().update(to as int, mp).update(mn as int, to);
            &&& o2.no_duplicates()
            &&& linked(o2, nexts2, prevs2)
            &&& mp < nexts.len() - 1
            &&& mn < nexts.len() - 1
        }),
{
    let n = order.len() as int;
    let from = order[q];
    let mp = if prevs[from as int] == from { to } else { prevs[from as int] };
    let mn = if nexts[from as int] == from { to } else { nexts[from as int] };
    let o2 = order.update(q, to);
    let nexts2 = nexts.update(to as int, nexts[from as int]).drop_last().update(to as int, mn).update(mp as int, to);
    let prevs2 = prevs.update(to as int, prevs[from as int]).drop_last().update(to as int, mp).update(mn as int, to);
    let last = nexts.len() - 1;
    assert(o2.no_duplicates()) by {
        assert forall|a: int, b: int| 0 <= a < o2.len() && 0 <= b < o2.len() && a != b implies o2[a] != o2[b] by {
            if a != q && b != q {
                assert(order[a] != order[b]);
            } else if a == q {
                assert(order.contains(order[b]));
            } else {
                assert(order.contains(order[a]));
            }
        }
    }
    assert(nexts[from as int] == order[succ(q, n)]);
    assert(prevs[from as int] == order[pred(q, n)]);
    assert(mp < last) by {
        if prevs[from as int] != from {
            assert(order[pred(q, n)] != order[q]);
            assert(order[pred(q, n)] < nexts.len());
        }
    }
    assert(mn < last) by {
        if nexts[from as int] != from {
            assert(order[succ(q, n)] < nexts.len());
        }
    }
    assert forall|k: int| 0 <= k < n implies #[trigger] o2[k] < nexts2.len() && o2[k] < prevs2.len() by {
        if k != q {
            assert(order[k] != from);
            assert(order[k] < nexts.len());
        }
    }
    assert forall|k: int| 0 <= k < n implies #[trigger] nexts2[o2[k] as int] == o2[succ(k, n)] by {
        let s1 = succ(k, n);
        if k == q {
            if mp == to {
                assert(prevs[from as int] == from);
                assert(pred(q, n) == q);
                assert(n == 1);
            } else {
                if s1 == q {
                    assert(n == 1);
                } else {
                    assert(order[s1] != from);
                }
            }
        } else {
            assert(order[k] != from);
            assert(order[k] != to);
            if order[k] == mp {
                assert(order[k] == order[pred(q, n)]);
                assert(k == pred(q, n));
                assert(s1 == q);
            } else {
                if s1 == q {
                    assert(k == pred(q, n));
                } else {
                    assert(order[s1] != from);
                }
            }
        }
    }
    assert forall|k: int| 0 <= k < n implies #[trigger] prevs2[o2[k] as int] == o2[pred(k, n)] by {
        let q1 = pred(k, n);
        if k == q {
            if mn == to {
                assert(nexts[from as int] == from);
                assert(succ(q, n) == q);
                assert(n == 1);
            } else {
                if q1 == q {
                    assert(n == 1);
                } else {
                    assert(order[q1] != from);
                }
            }
        } else {
            assert(order[k] != from);
            assert(order[k] != to);
            if order[k] == mn {
                assert(order[k] == order[succ(q, n)]);
                assert(k == succ(q, n));
                assert(q1 == q);
            } else {
                if q1 == q {
                    assert(k == succ(q, n));
                } else {
                    assert(order[q1] != from);
                }
            }
        }
    }
}

/// [`SystemPosition`] enum lists possible positions
/// in which new system could be inserted into [`SystemStorage`].
///
#[derive(Copy, Clone, Debug, PartialEq, Eq, Structural)]
pub enum SystemPosition {
    /// Head position (system will be inserted at the start of a [`SystemStorage`]'s schedule).
    ///
    Head,
    /// System will be inserted right before system with provided [`SystemId`].
    ///
    /// Case where no system with such [`SystemId`] is present in [`SystemStorage`]
    /// will be handled as the `SystemPosition::Head` case.
    ///
    Before(SystemId),
    /// System will be inserted right after system with provided [`SystemId`].
    ///
    /// Case where no system with such [`SystemId`] is present in [`SystemStorage`]
    /// will be handled as the `SystemPosition::Tail` case.
    ///
    After(SystemId),
    /// Tail position (system will be inserted at the end of a [`SystemStorage`]'s schedule).
    ///
    Tail,
}

impl Default for SystemPosition {
    /// The default position is the tail of the schedule.
    ///
    fn default() -> (position: Self)
        ensures
            position == SystemPosition::Tail,
    {
        SystemPosition::Tail
    }
}

/// One entry of a schedule: the id under which a system was inserted, and the system
/// (or the placeholder that stands for it while it is taken out).
///
pub type ScheduleEntry<S> = (SystemId, DecomposedSystem<S>);

/// Whether the schedule holds a system inserted under `id`.
///
pub open spec fn has_system<S>(entries: Seq<ScheduleEntry<S>>, id: SystemId) -> bool {
    exists|k: int| 0 <= k < entries.len() && (#[trigger] entries[k]).0 == id
}

/// Position in the schedule of the system inserted under `id`.
///
pub open spec fn position_of<S>(entries: Seq<ScheduleEntry<S>>, id: SystemId) -> int {
    choose|k: int| 0 <= k < entries.len() && (#[trigger] entries[k]).0 == id
}

/// Whether `system` is the placeholder of a taken system.
///
pub open spec fn is_placeholder<S>(system: DecomposedSystem<S>) -> bool {
    system.spec_id() == placeholder_id()
}

/// Position at which a system inserted at `position` lands in the schedule `entries`.
///
pub open spec fn insertion_index<S>(entries: Seq<ScheduleEntry<S>>, position: SystemPosition) -> int {
    match position {
        SystemPosition::Head => 0,
        SystemPosition::Before(anchor) => if has_system(entries, anchor) {
            position_of(entries, anchor)
        } else {
            0
        },
        SystemPosition::After(anchor) => if has_system(entries, anchor) {
            position_of(entries, anchor) + 1
        } else {
            entries.len() as int
        },
        SystemPosition::Tail => entries.len() as int,
    }
}

/// The slot of a system inserted under `key` holds that system, or the placeholder while it is taken.
///
pub open spec fn slot_matches<S>(key: SystemId, system: DecomposedSystem<S>) -> bool {
    system.spec_id() == key || is_placeholder(system)
}

/// Every entry of the schedule holds the system inserted under its id, or the placeholder.
///
pub open spec fn slots_match<S>(entries: Seq<ScheduleEntry<S>>) -> bool {
    forall|k: int| 0 <= k < entries.len() ==> #[trigger] slot_matches(entries[k].0, entries[k].1)
}

/// No two entries of the schedule share an id.
///
pub open spec fn distinct_keys<S>(entries: Seq<ScheduleEntry<S>>) -> bool {
    forall|i: int, j: int| 0 <= i < entries.len() && 0 <= j < entries.len() && i != j ==> (#[trigger] entries[i]).0 != (#[trigger] entries[j]).0
}

/// A system can be taken out of the schedule `entries` under `id`: it is there and not taken already.
///
pub open spec fn can_take<S>(entries: Seq<ScheduleEntry<S>>, id: SystemId) -> bool {
    has_system(entries, id) && !is_placeholder(entries[position_of(entries, id)].1)
}

/// The schedule `entries` once the system under `id` is taken out: the placeholder holds its place.
///
pub open spec fn taken_out<S>(entries: Seq<ScheduleEntry<S>>, id: SystemId) -> Seq<ScheduleEntry<S>> {
    entries.update(position_of(entries, id), (id, DecomposedSystem::<S>::spec_placeholder()))
}

/// The schedule `entries` once `system` is handed back: it takes the place of the placeholder
/// under its id, if there is one; otherwise the schedule stays as it is.
///
pub open spec fn handed_back<S>(entries: Seq<ScheduleEntry<S>>, system: DecomposedSystem<S>) -> Seq<ScheduleEntry<S>> {
    let id = system.spec_id();
    let k = position_of(entries, id);
    if has_system(entries, id) && is_placeholder(entries[k].1) {
        entries.update(k, (id, system))
    } else {
        entries
    }
}

/// The scenes `a` and `b` hold the same components, resources and events.
///
pub open spec fn same_data<V, R, E, S>(a: Scene<V, R, E, S>, b: Scene<V, R, E, S>) -> bool {
    &&& a.component_storage == b.component_storage
    &&& a.resource_storage == b.resource_storage
    &&& a.event_storage == b.event_storage
}

/// The system under `id` is taken out of `before`, giving `taken`; it runs on `taken`, is left as
/// `system` and leaves the scene as `ran`; handed back to `ran`, it gives `after`.
///
pub open spec fn step_through<V, R, E, S: System<V, R, E>>(
    before: Scene<V, R, E, S>,
    id: SystemId,
    taken: Scene<V, R, E, S>,
    system: DecomposedSystem<S>,
    ran: Scene<V, R, E, S>,
    after: Scene<V, R, E, S>,
) -> bool {
    let entries = before.system_storage@;
    &&& same_data(taken, before)
    &&& taken.system_storage@ == taken_out(entries, id)
    &&& entries[position_of(entries, id)].1.runs_to(taken, system, ran)
    &&& same_data(after, ran)
    &&& after.system_storage@ == handed_back(ran.system_storage@, system)
}

/// One step of a schedule run, for the system under `id`: if it can be taken out of `before`,
/// it is taken out, run and handed back, giving `after`; otherwise `after` is `before`.
///
pub open spec fn schedule_step<V, R, E, S: System<V, R, E>>(
    before: Scene<V, R, E, S>,
    id: SystemId,
    after: Scene<V, R, E, S>,
) -> bool {
    if can_take(before.system_storage@, id) {
        exists|taken: Scene<V, R, E, S>, system: DecomposedSystem<S>, ran: Scene<V, R, E, S>|
            #[trigger] step_through(before, id, taken, system, ran, after)
    } else {
        after == before
    }
}

/// The scenes of `trace` lead from `before` to `after`, one step for each id of `ids` in turn.
///
pub open spec fn schedule_trace<V, R, E, S: System<V, R, E>>(
    trace: Seq<Scene<V, R, E, S>>,
    ids: Seq<SystemId>,
    before: Scene<V, R, E, S>,
    after: Scene<V, R, E, S>,
) -> bool {
    &&& trace.len() == ids.len() + 1
    &&& trace[0] == before
    &&& trace.last() == after
    &&& forall|j: int| #![trigger ids[j]] 0 <= j < ids.len() ==> schedule_step(trace[j], ids[j], trace[j + 1])
}

/// The ids of the schedule `entries`, in schedule order.
///
pub open spec fn schedule_ids<S>(entries: Seq<ScheduleEntry<S>>) -> Seq<SystemId> {
    entries.map_values(|entry: ScheduleEntry<S>| entry.0)
}

/// Running the schedule of `before` leaves the scene as `after`: the systems that were in the
/// schedule of `before` run one after another, in schedule order.
///
pub open spec fn runs_schedule<V, R, E, S: System<V, R, E>>(before: Scene<V, R, E, S>, after: Scene<V, R, E, S>) -> bool {
    exists|trace: Seq<Scene<V, R, E, S>>| #[trigger] schedule_trace(trace, schedule_ids(before.system_storage@), before, after)
}

/// One slot of the schedule arena.
///
#[derive(Debug)]
struct SystemNode<S> {
    /// Id under which the system was inserted.
    ///
    key: SystemId,
    /// Decomposed system (or the placeholder, while the system is taken).
    ///
    system: DecomposedSystem<S>,
}

/// [`SystemStorage`] struct implements schedule of [`System`]s.
///
/// Conceptually, [`SystemStorage`] can be thought of as a doubly linked list with
/// O(1) random access: the slots live in one vector, the links in two more,
/// and a map from ids to slots gives direct access to every system.
///
/// # Usage
/// [`System`]s require `&mut Scene` to run, but since they are stored inside [`SystemStorage`]
/// which is inside [`Scene`], to call one it has to be moved out of the storage.
/// `SystemStorage::take_system` does exactly that - it moves the system
/// out of the storage, leaving placeholder system behind;
/// `SystemStorage::return_taken_system` puts it back in its place.
///
pub struct SystemStorage<S> {
    /// Index of schedule head (first system); `0` if schedule is empty.
    ///
    schedule_head: usize,
    /// Slots of the schedule.
    ///
    schedule: Vec<SystemNode<S>>,
    /// Index of the slot that follows each slot in the schedule (the tail is followed by the head).
    ///
    next: Vec<usize>,
    /// Index of the slot that precedes each slot in the schedule (the head is preceded by the tail).
    ///
    prev: Vec<usize>,
    /// Slot of every system, by the number of its id.
    ///
    positions: HashMap<u64, usize>,
    /// Slots in schedule order.
    ///
    order: Ghost<Seq<usize>>,
}

impl<S> View for SystemStorage<S> {
    type V = Seq<ScheduleEntry<S>>;

    /// The schedule: ids and systems in the order they run.
    ///
    closed spec fn view(&self) -> Seq<ScheduleEntry<S>> {
        Seq::new(
            self.order@.len(),
            |k: int| (self.schedule@[self.order@[k] as int].key, self.schedule@[self.order@[k] as int].system),
        )
    }
}

impl<S> SystemStorage<S> {
    /// Well-formedness of the storage.
    ///
    pub closed spec fn wf(&self) -> bool {
        let n = self.schedule@.len();
        let order = self.order@;
        &&& self.next@.len() == n
        &&& self.prev@.len() == n
        &&& is_permutation(order, n)
        &&& linked(order, self.next@, self.prev@)
        &&& (n == 0 ==> self.schedule_head == 0)
        &&& (n > 0 ==> self.schedule_head == order[0])
        &&& forall|i: int, j: int| 0 <= i < n && 0 <= j < n && i != j ==> (#[trigger] self.schedule@[i]).key != (#[trigger] self.schedule@[j]).key
        &&& forall|i: int| 0 <= i < n ==> #[trigger] self.positions@.contains_key(self.schedule@[i].key.0) && self.positions@[self.schedule@[i].key.0] == i
        &&& forall|u: u64| #[trigger] self.positions@.contains_key(u) ==> self.positions@[u] < n && self.schedule@[self.positions@[u] as int].key.0 == u

        &&& forall|i: int| 0 <= i < n ==> #[trigger] slot_matches(self.schedule@[i].key, self.schedule@[i].system)
    }

    /// The ids and systems in the order in which the storage keeps them, slot by slot.
    ///
    pub closed spec fn slots(&self) -> Seq<ScheduleEntry<S>> {
        Seq::new(self.schedule@.len(), |i: int| (self.schedule@[i].key, self.schedule@[i].system))
    }

    /// Facts about the schedule of a well-formed storage.
    ///
    pub proof fn lemma_wf_facts(&self)
        requires
            self.wf(),
        ensures
            distinct_keys(self@),
            slots_match(self@),
    {
        assert forall|k: int| 0 <= k < self@.len() implies #[trigger] slot_matches(self@[k].0, self@[k].1) by {
            assert(slot_matches(self.schedule@[self.order@[k] as int].key, self.schedule@[self.order@[k] as int].system));
        }
        assert forall|i: int, j: int| 0 <= i < self@.len() && 0 <= j < self@.len() && i != j implies (#[trigger] self@[i]).0 != (#[trigger] self@[j]).0 by {
            assert(self.order@[i] != self.order@[j]);
        }
    }

    /// Looking up the number `u` in the positions map finds the system inserted under it.
    ///
    proof fn lemma_lookup(&self, u: u64) -> (k: int)
        requires
            self.wf(),
        ensures
            self.positions@.contains_key(u) <==> has_system(self@, SystemId(u)),
            self.positions@.contains_key(u) ==> {
                &&& 0 <= k < self@.len()
                &&& self.order@[k] == self.positions@[u]
                &&& self@[k].0 == SystemId(u)
                &&& position_of(self@, SystemId(u)) == k
            },
    {
        self.lemma_wf_facts();
        if self.positions@.contains_key(u) {
            let i = self.positions@[u];
            let k = lemma_permutation_index(self.order@, i as int);
            assert(self@[k].0 == SystemId(u));
            assert(has_system(self@, SystemId(u)));
            let c = position_of(self@, SystemId(u));
            assert(self@[c].0 == SystemId(u));
            k
        } else {
            assert forall|k: int| 0 <= k < self@.len() implies (#[trigger] self@[k]).0 != SystemId(u) by {
                let i = self.order@[k] as int;
                assert(self.positions@.contains_key(self.schedule@[i].key.0));
            }
            0
        }
    }

    /// Initializes new [`SystemStorage`].
    ///
    /// Created [`SystemStorage`] will not allocate until first insertions.
    ///
    pub fn new() -> (storage: Self)
        ensures
            storage.wf(),
            storage@.len() == 0,
    {
        SystemStorage {
            schedule_head: 0,
            schedule: Vec::new(),
            next: Vec::new(),
            prev: Vec::new(),
            positions: HashMap::new(),
            order: Ghost(Seq::empty()),
        }
    }

    /// Clears storage, removing all data.
    ///
    pub fn clear(&mut self)
        ensures
            final(self).wf(),
            final(self)@.len() == 0,
    {
        self.schedule_head = 0;
        self.schedule.clear();
        self.next.clear();
        self.prev.clear();
        self.positions.clear();
        self.order = Ghost(Seq::empty());
    }

    /// Placeholder system that replaces systems when they are taken from [`SystemStorage`].
    ///
    /// It holds no system, and running it does nothing.
    ///
    pub fn placeholder_system() -> (placeholder: DecomposedSystem<S>)
        ensures
            placeholder == DecomposedSystem::<S>::spec_placeholder(),
            is_placeholder(placeholder),
            placeholder.system() is None,
    {
        proof {
            DecomposedSystem::<S>::spec_placeholder().lemma_decomposed();
        }
        DecomposedSystem::placeholder()
    }

    /// Returns whether a system with given [`SystemId`] was taken out from [`SystemStorage`].
    ///
    /// `None` is returned if there is no system with that id in the storage.
    ///
    pub fn is_system_taken(&self, system_id: SystemId) -> (taken: Option<bool>)
        requires
            self.wf(),
        ensures
            taken == (if has_system(self@, system_id) {
                Some(is_placeholder(self@[position_of(self@, system_id)].1))
            } else {
                None
            }),
    {
        let ghost k = self.lemma_lookup(system_id.0);
        match self.positions.get(&system_id.0) {
            Some(index) => Some(self.schedule[*index].system.id() == SystemId(crate::gamecore::systems::PLACEHOLDER_SYSTEM_KIND)),
            None => None,
        }
    }

    /// Returns whether a system with given [`SystemId`] is present or not.
    ///
    /// Placeholder systems are not considered present in the storage.
    ///
    pub fn contains_system(&self, system_id: SystemId) -> (result: bool)
        requires
            self.wf(),
        ensures
            result == (has_system(self@, system_id) && !is_placeholder(self@[position_of(self@, system_id)].1)),
    {
        match self.is_system_taken(system_id) {
            Some(taken) => !taken,
            None => false,
        }
    }

    /// Takes system out of the storage, leaving placeholder behind.
    ///
    /// Trying to take a placeholder system out returns `None`.
    ///
    pub fn take_system(&mut self, system_id: SystemId) -> (taken: Option<DecomposedSystem<S>>)
        requires
            old(self).wf(),
        ensures
            final(self).wf(),
            ({
                let k = position_of(old(self)@, system_id);
                if has_system(old(self)@, system_id) && !is_placeholder(old(self)@[k].1) {
                    &&& taken == Some(old(self)@[k].1)
                    &&& final(self)@ == old(self)@.update(k, (system_id, DecomposedSystem::<S>::spec_placeholder()))
                } else {
                    &&& taken is None
                    &&& *final(self) == *old(self)
                }
            }),
    {
        let ghost k = self.lemma_lookup(system_id.0);
        let index = match self.positions.get(&system_id.0) {
            Some(index) => *index,
            None => return None,
        };
        if self.schedule[index].system.id() == SystemId(crate::gamecore::systems::PLACEHOLDER_SYSTEM_KIND) {
            return None;
        }
        let mut system = Self::placeholder_system();
        std::mem::swap(&mut self.schedule[index].system, &mut system);
        assert(self@ =~= old(self)@.update(k, (system_id, DecomposedSystem::<S>::spec_placeholder())));
        Some(system)
    }

    /// Returns system into the storage from which it was previously taken.
    ///
    /// If the storage holds no placeholder under the id of `system`,
    /// `system` is handed back as an error.
    ///
    pub fn return_taken_system(&mut self, system: DecomposedSystem<S>) -> (result: Result<(), DecomposedSystem<S>>)
        requires
            old(self).wf(),
        ensures
            final(self).wf(),
            ({
                let id = system.spec_id();
                let k = position_of(old(self)@, id);
                if has_system(old(self)@, id) && is_placeholder(old(self)@[k].1) {
                    &&& result is Ok
                    &&& final(self)@ == old(self)@.update(k, (id, system))
                } else {
                    &&& result == Err::<(), DecomposedSystem<S>>(system)
                    &&& final(self)@ == old(self)@
                }
            }),
    {
        let id = system.id();
        let ghost k = self.lemma_lookup(id.0);
        let index = match self.positions.get(&id.0) {
            Some(index) => *index,
            None => return Err(system),
        };
        if self.schedule[index].system.id() != SystemId(crate::gamecore::systems::PLACEHOLDER_SYSTEM_KIND) {
            return Err(system);
        }
        let mut system = system;
        std::mem::swap(&mut self.schedule[index].system, &mut system);
        assert(self@ =~= old(self)@.update(k, (id, self.schedule@[index as int].system)));
        Ok(())
    }

    /// Returns the ids of the systems in the order they appear in the schedule
    /// (a taken system appears as the placeholder).
    ///
    pub fn system_order(&self) -> (order: Vec<SystemId>)
        requires
            self.wf(),
        ensures
            order@ == self@.map_values(|entry: ScheduleEntry<S>| entry.1.spec_id()),
    {
        let n = self.schedule.len();
        let mut order: Vec<SystemId> = Vec::with_capacity(n);
        let mut index = self.schedule_head;
        for k in 0..n
            invariant
                self.wf(),
                n == self@.len(),
                order@.len() == k,
                k < n ==> index == self.order@[k as int],
                forall|j: int| 0 <= j < k ==> order@[j] == (#[trigger] self@[j]).1.spec_id(),
        {
            order.push(self.schedule[index].system.id());
            index = self.next[index];
        }
        assert(order@ =~= self@.map_values(|entry: ScheduleEntry<S>| entry.1.spec_id()));
        order
    }

    /// Returns the ids under which the systems were inserted, in schedule order.
    ///
    fn schedule_keys(&self) -> (keys: Vec<SystemId>)
        requires
            self.wf(),
        ensures
            keys@ == self@.map_values(|entry: ScheduleEntry<S>| entry.0),
    {
        let n = self.schedule.len();
        let mut keys: Vec<SystemId> = Vec::with_capacity(n);
        let mut index = self.schedule_head;
        for k in 0..n
            invariant
                self.wf(),
                n == self@.len(),
                keys@.len() == k,
                k < n ==> index == self.order@[k as int],
                forall|j: int| 0 <= j < k ==> keys@[j] == (#[trigger] self@[j]).0,
        {
            keys.push(self.schedule[index].key);
            index = self.next[index];
        }
        assert(keys@ =~= self@.map_values(|entry: ScheduleEntry<S>| entry.0));
        keys
    }

    /// Inserts a system into the storage at the specified position.
    ///
    /// A system whose id is already present in the storage is not inserted.
    /// Docs on [`SystemPosition`] list all cases and implications of each position.
    ///
    /// A system whose id is that of the placeholder system (of kind [`crate::gamecore::systems::PLACEHOLDER_SYSTEM_KIND`])
    /// is stored, but counts as taken: it is never contained nor run.
    ///
    pub fn insert_system<V, R, E>(&mut self, system: S, position: SystemPosition) where S: System<V, R, E>
        requires
            old(self).wf(),
        ensures
            final(self).wf(),
            has_system(final(self)@, system.spec_id()),
            !has_system(old(self)@, system.spec_id()) ==> ({
                let k = insertion_index(old(self)@, position);
                &&& position_of(final(self)@, system.spec_id()) == k
                &&& final(self)@[k].1.spec_id() == system.spec_id()
                &&& final(self)@[k].1.system() == Some(system)
            }),
            !has_system(old(self)@, system.spec_id()) && system.spec_id() != placeholder_id() ==> !is_placeholder(
                final(self)@[position_of(final(self)@, system.spec_id())].1,
            ),
            has_system(old(self)@, system.spec_id()) ==> final(self)@ == old(self)@,
            !has_system(old(self)@, system.spec_id()) ==> final(self)@ == old(self)@.insert(
                insertion_index(old(self)@, position),
                (system.spec_id(), DecomposedSystem::<S>::decomposed(system.spec_id(), system)),
            ),
    {
        let id = system.id();
        proof {
            self.lemma_lookup(id.0);
            self.lemma_wf_facts();
        }
        if self.positions.contains_key(&id.0) {
            return;
        }
        proof {
            DecomposedSystem::<S>::lemma_decomposed_parts(id, system);
        }
        let last_index = self.schedule.len();
        let ghost old_order = self.order@;
        let ghost n = last_index as int;
        let head = self.schedule_head;
        let ghost mut p: int = 0;
        let (prev, next, new_head) = if last_index == 0 {
            (0, 0, 0)
        } else {
            let tail = self.prev[head];
            proof {
                assert(old_order[0] == head);
                assert(tail == old_order[pred(0, n)]);
            }
            match position {
                SystemPosition::Head => (tail, head, last_index),
                SystemPosition::Tail => {
                    proof { p = n; }
                    (tail, head, head)
                },
                SystemPosition::Before(anchor) => {
                    let ghost ka = self.lemma_lookup(anchor.0);
                    match self.positions.get(&anchor.0) {
                        Some(anchor_index) => {
                            let anchor_index = *anchor_index;
                            proof { p = ka; }
                            let new_head = if anchor_index == head { last_index } else { head };
                            proof {
                                if anchor_index == head {
                                    assert(old_order[0] == old_order[ka]);
                                    assert(ka == 0);
                                }
                            }
                            (self.prev[anchor_index], anchor_index, new_head)
                        },
                        None => (tail, head, last_index),
                    }
                },
                SystemPosition::After(anchor) => {
                    let ghost ka = self.lemma_lookup(anchor.0);
                    match self.positions.get(&anchor.0) {
                        Some(anchor_index) => {
                            let anchor_index = *anchor_index;
                            proof { p = ka + 1; }
                            (anchor_index, self.next[anchor_index], head)
                        },
                        None => {
                            proof { p = n; }
                            (tail, head, head)
                        },
                    }
                },
            }
        };
        assert(p == insertion_index(old(self)@, position));
        let ghost old_next = self.next@;
        let ghost old_prev = self.prev@;
        self.schedule.push(SystemNode { key: id, system: DecomposedSystem::from_system(system) });
        self.next.push(next);
        self.prev.push(prev);
        self.next.set(prev, last_index);
        self.prev.set(next, last_index);
        self.schedule_head = new_head;
        let _ = self.positions.insert(id.0, last_index);
        proof {
            if n == 0 {
                self.order@ = seq![0usize];
                assert(self.next@ == seq![0usize]);
                assert(self.prev@ == seq![0usize]);
            } else {
                lemma_linked_insert(old_order, old_next, old_prev, p);
                self.order@ = old_order.insert(p, last_index);
            }
        }
        assert(self.schedule@.len() == n + 1);
        assert forall|i: int, j: int| 0 <= i < n + 1 && 0 <= j < n + 1 && i != j implies (#[trigger] self.schedule@[i]).key != (#[trigger] self.schedule@[j]).key by {
            if i == n {
                assert(old(self).positions@.contains_key(old(self).schedule@[j].key.0));
            } else if j == n {
                assert(old(self).positions@.contains_key(old(self).schedule@[i].key.0));
            }
        }
        assert forall|i: int| 0 <= i < n + 1 implies #[trigger] self.positions@.contains_key(self.schedule@[i].key.0) && self.positions@[self.schedule@[i].key.0] == i by {
            if i < n {
                assert(old(self).positions@.contains_key(old(self).schedule@[i].key.0));
            }
        }
        assert(is_permutation(self.order@, (n + 1) as nat));
        assert(linked(self.order@, self.next@, self.prev@));
        assert(self.schedule_head == self.order@[0]);
        assert(self.next@.len() == n + 1);
        assert forall|u: u64| #[trigger] self.positions@.contains_key(u) implies self.positions@[u] < n + 1 && self.schedule@[self.positions@[u] as int].key.0 == u by {
            if u != id.0 {
                assert(old(self).positions@.contains_key(u));
            }
        }
        assert(self@ =~= old(self)@.insert(p, (id, DecomposedSystem::<S>::decomposed(id, system)))) by {
            assert forall|k: int| 0 <= k < n + 1 implies #[trigger] self@[k] == old(self)@.insert(p, (id, DecomposedSystem::<S>::decomposed(id, system)))[k] by {
                if k < p {
                    assert(self.order@[k] == old_order[k]);
                } else if k > p {
                    assert(self.order@[k] == old_order[k - 1]);
                }
            }
        }
        proof {
            self.lemma_wf_facts();
            lemma_position_of(self@, id, p);
        }
    }

    /// The slot `index` is out of the cycle and out of the positions map; every other part
    /// of the storage is as in a well-formed one.
    ///
    spec fn detached(&self, index: usize) -> bool {
        let n = self.schedule@.len();
        let order = self.order@;
        &&& n >= 2
        &&& index < n
        &&& self.next@.len() == n
        &&& self.prev@.len() == n
        &&& order.len() == n - 1
        &&& order.no_duplicates()
        &&& forall|k: int| 0 <= k < order.len() ==> #[trigger] order[k] < n && order[k] != index
        &&& linked(order, self.next@, self.prev@)
        &&& self.schedule_head == order[0]
        &&& forall|i: int, j: int| 0 <= i < n && 0 <= j < n && i != j ==> (#[trigger] self.schedule@[i]).key != (#[trigger] self.schedule@[j]).key
        &&& forall|i: int| 0 <= i < n && i != index ==> #[trigger] self.positions@.contains_key(self.schedule@[i].key.0) && self.positions@[self.schedule@[i].key.0] == i
        &&& forall|u: u64| #[trigger] self.positions@.contains_key(u) ==> self.positions@[u] < n && self.positions@[u] != index && self.schedule@[self.positions@[u] as int].key.0 == u

        &&& forall|i: int| 0 <= i < n ==> #[trigger] slot_matches(self.schedule@[i].key, self.schedule@[i].system)
    }

    /// Takes the slot `index`, at position `p` of the schedule, out of the cycle.
    ///
    fn unlink(&mut self, index: usize, Ghost(p): Ghost<int>)
        requires
            old(self).wf(),
            old(self).schedule@.len() >= 2,
            0 <= p < old(self).order@.len(),
            old(self).order@[p] == index,
        ensures
            final(self).detached(index),
            final(self).schedule@ == old(self).schedule@,
            final(self)@ == old(self)@.remove(p),
    {
        let ghost order = self.order@;
        let ghost n = order.len();
        let prev = self.prev[index];
        let next = self.next[index];
        proof {
            lemma_linked_unlink(order, self.next@, self.prev@, p);
        }
        self.next.set(prev, next);
        self.prev.set(next, prev);
        if index == self.schedule_head {
            self.schedule_head = next;
        }
        let key = self.schedule[index].key;
        let _ = self.positions.remove(&key.0);
        proof {
            self.order@ = order.remove(p);
            assert forall|k: int| 0 <= k < n - 1 implies #[trigger] self.order@[k] == order[if k < p { k } else { k + 1 }] by {}
            assert forall|k: int| 0 <= k < n - 1 implies #[trigger] self.order@[k] < n && self.order@[k] != index by {
                assert(self.order@[k] == order[if k < p { k } else { k + 1 }]);
            }
            assert forall|u: u64| #[trigger] self.positions@.contains_key(u) implies self.positions@[u] < n && self.positions@[u] != index && self.schedule@[self.positions@[u] as int].key.0 == u by {
                assert(old(self).positions@.contains_key(u));
            }
            assert forall|i: int| 0 <= i < n && i != index implies #[trigger] self.positions@.contains_key(self.schedule@[i].key.0) && self.positions@[self.schedule@[i].key.0] == i by {
                assert(old(self).positions@.contains_key(old(self).schedule@[i].key.0));
            }
            assert(self@ =~= old(self)@.remove(p));
        }
    }

    /// Drops the detached slot `index`, moving the last slot into its place.
    ///
    #[verifier::rlimit(30)]
    #[verifier::spinoff_prover]
    fn release(&mut self, index: usize)
        requires
            old(self).detached(index),
        ensures
            final(self).wf(),
            final(self)@ == old(self)@,
    {
        let n = self.schedule.len();
        let last = n - 1;
        let ghost order = self.order@;
        if index == last {
            let _ = self.schedule.pop();
            let _ = self.next.pop();
            let _ = self.prev.pop();
            assert(self@ =~= old(self)@);
            return;
        }
        let ghost keys_old = old(self).schedule@;
        assert(order.contains(last as usize)) by {
            let extended = order.push(index);
            assert(is_permutation(extended, n as nat)) by {
                assert(extended.no_duplicates()) by {
                    assert forall|a: int, b: int| 0 <= a < n && 0 <= b < n && a != b implies extended[a] != extended[b] by {
                        if a == n - 1 {
                            assert(order[b] != index);
                        } else if b == n - 1 {
                            assert(order[a] != index);
                        }
                    }
                }
            }
            let k = lemma_permutation_index(extended, last as int);
            assert(k != n - 1);
            assert(order[k] == last);
        }
        let ghost q = choose|k: int| 0 <= k < order.len() && order[k] == last;
        proof {
            lemma_linked_relocate(order, self.next@, self.prev@, q, index);
        }
        let _ = self.schedule.swap_remove(index);
        let moved_prev = self.prev[last];
        let moved_next = self.next[last];
        let _ = self.next.swap_remove(index);
        let _ = self.prev.swap_remove(index);
        let moved_prev = if moved_prev == last { index } else { moved_prev };
        let moved_next = if moved_next == last { index } else { moved_next };
        self.next.set(index, moved_next);
        self.prev.set(index, moved_prev);
        self.next.set(moved_prev, index);
        self.prev.set(moved_next, index);
        if self.schedule_head == last {
            self.schedule_head = index;
        }
        let _ = self.positions.insert(self.schedule[index].key.0, index);
        proof {
            self.order@ = order.update(q, index);
            assert forall|k: int| 0 <= k < n - 1 implies #[trigger] self.order@[k] < n - 1 by {
                if k != q {
                    assert(order[k] != last);
                }
            }
            assert(self@ =~= old(self)@);
            assert forall|i: int, j: int| 0 <= i < n - 1 && 0 <= j < n - 1 && i != j implies (#[trigger] self.schedule@[i]).key != (#[trigger] self.schedule@[j]).key by {
                let i0 = if i == index { last as int } else { i };
                let j0 = if j == index { last as int } else { j };
                assert(self.schedule@[i] == keys_old[i0]);
                assert(self.schedule@[j] == keys_old[j0]);
            }
            assert forall|i: int| 0 <= i < n - 1 implies #[trigger] self.positions@.contains_key(self.schedule@[i].key.0) && self.positions@[self.schedule@[i].key.0] == i by {
                let i0 = if i == index { last as int } else { i };
                assert(self.schedule@[i] == keys_old[i0]);
                assert(old(self).positions@.contains_key(keys_old[i0].key.0));
            }
            assert forall|u: u64| #[trigger] self.positions@.contains_key(u) implies self.positions@[u] < n - 1 && self.schedule@[self.positions@[u] as int].key.0 == u by {
                if u != keys_old[last as int].key.0 {
                    assert(old(self).positions@.contains_key(u));
                    let i0 = old(self).positions@[u] as int;
                    assert(i0 != last);
                }
            }
        }
    }

    /// Removes a system from the storage by its [`SystemId`].
    ///
    /// Nothing happens if there is no system with that id.
    ///
    pub fn remove_system(&mut self, system_id: SystemId)
        requires
            old(self).wf(),
        ensures
            final(self).wf(),
            has_system(old(self)@, system_id) ==> final(self)@ == old(self)@.remove(position_of(old(self)@, system_id)),
            !has_system(old(self)@, system_id) ==> final(self)@ == old(self)@,
    {
        let ghost p = self.lemma_lookup(system_id.0);
        let index = match self.positions.get(&system_id.0) {
            Some(index) => *index,
            None => return,
        };
        if self.schedule.len() == 1 {
            self.clear();
            assert(self@ =~= old(self)@.remove(p));
            return;
        }
        self.unlink(index, Ghost(p));
        self.release(index);
    }

    /// Rearranges the systems in the [`SystemStorage`] to match their logical schedule order.
    /// This can improve cache locality and simplify debugging.
    ///
    pub fn reorder(&mut self)
        requires
            old(self).wf(),
        ensures
            final(self).wf(),
            final(self)@ == old(self)@,
            final(self).slots() == final(self)@,
    {
        let n = self.schedule.len();
        let ghost order = self.order@;
        let ghost old_schedule = self.schedule@;
        let ghost old_positions = self.positions@;
        let mut schedule: Vec<SystemNode<S>> = Vec::with_capacity(n);
        let mut next: Vec<usize> = Vec::with_capacity(n);
        let mut prev: Vec<usize> = Vec::with_capacity(n);
        let mut index = self.schedule_head;
        for k in 0..n
            invariant
                old(self).wf(),
                n == old_schedule.len(),
                order == old(self).order@,
                old_schedule == old(self).schedule@,
                old_positions == old(self).positions@,
                self.schedule@.len() == n,
                self.next@ == old(self).next@,
                k < n ==> index == order[k as int],
                schedule@.len() == k,
                next@.len() == k,
                prev@.len() == k,
                forall|j: int| 0 <= j < k ==> #[trigger] schedule@[j] == old_schedule[order[j] as int],
                forall|j: int| k <= j < n ==> #[trigger] self.schedule@[order[j] as int] == old_schedule[order[j] as int],
                forall|j: int| 0 <= j < k ==> #[trigger] next@[j] == succ(j, n as int),
                forall|j: int| 0 <= j < k ==> #[trigger] prev@[j] == pred(j, n as int),
                forall|u: u64| #[trigger] self.positions@.contains_key(u) <==> old_positions.contains_key(u),
                forall|j: int| 0 <= j < k ==> #[trigger] self.positions@[old_schedule[order[j] as int].key.0] == j,
        {
            let mut node = SystemNode { key: SystemId(0), system: DecomposedSystem::placeholder() };
            std::mem::swap(&mut self.schedule[index], &mut node);
            let following = self.next[index];
            let _ = self.positions.insert(node.key.0, k);
            schedule.push(node);
            next.push(if k + 1 == n { 0 } else { k + 1 });
            prev.push(if k == 0 { n - 1 } else { k - 1 });
            proof {
                assert forall|j: int| k + 1 <= j < n implies #[trigger] self.schedule@[order[j] as int] == old_schedule[order[j] as int] by {
                    assert(order[j] != order[k as int]);
                }
                assert forall|j: int| 0 <= j < k implies #[trigger] self.positions@[old_schedule[order[j] as int].key.0] == j by {
                    assert(order[j] != order[k as int]);
                }
            }
            index = following;
        }
        self.schedule = schedule;
        self.next = next;
        self.prev = prev;
        self.schedule_head = 0;
        proof {
            let identity = Seq::new(n as nat, |k: int| k as usize);
            self.order@ = identity;
            assert(is_permutation(identity, n as nat));
            assert(linked(identity, self.next@, self.prev@));
            assert(self@ =~= old(self)@);
            assert(self.slots() =~= self@);
            assert forall|i: int, j: int| 0 <= i < n && 0 <= j < n && i != j implies (#[trigger] self.schedule@[i]).key != (#[trigger] self.schedule@[j]).key by {
                assert(order[i] != order[j]);
            }
            assert forall|i: int| 0 <= i < n implies #[trigger] self.positions@.contains_key(self.schedule@[i].key.0) && self.positions@[self.schedule@[i].key.0] == i by {
                assert(old_positions.contains_key(old_schedule[order[i] as int].key.0));
            }
            assert forall|u: u64| #[trigger] self.positions@.contains_key(u) implies self.positions@[u] < n && self.schedule@[self.positions@[u] as int].key.0 == u by {
                let i = old_positions[u];
                let j = lemma_permutation_index(order, i as int);
                assert(old_schedule[order[j] as int].key.0 == u);
            }
        }
    }

    /// Runs [`Scene`]'s [`SystemStorage`] schedule.
    ///
    /// This function runs every system of the schedule in schedule order: each system is taken
    /// out of the storage, run on the scene and returned into the storage.
    /// A system that is taken out already is skipped.
    ///
    pub fn run_system_schedule<V, R, E>(scene: &mut Scene<V, R, E, S>) where S: System<V, R, E>
        requires
            old(scene).wf(),
        ensures
            final(scene).wf(),
            runs_schedule(*old(scene), *final(scene)),
    {
        let ghost ids = schedule_ids(scene.system_storage@);
        let keys = scene.system_storage.schedule_keys();
        let ghost mut trace: Seq<Scene<V, R, E, S>> = seq![*scene];
        for i in 0..keys.len()
            invariant
                scene.wf(),
                keys@ == ids,
                trace.len() == i + 1,
                trace[0] == *old(scene),
                trace.last() == *scene,
                forall|j: int| #![trigger ids[j]] 0 <= j < i ==> schedule_step(trace[j], ids[j], trace[j + 1]),
        {
            let ghost before = *scene;
            let id = keys[i];
            match scene.system_storage.take_system(id) {
                Some(system) => {
                    let ghost taken = *scene;
                    let mut system = system;
                    system.run(scene);
                    let ghost ran = *scene;
                    let ghost ran_system = system;
                    let _ = scene.system_storage.return_taken_system(system);
                    assert(step_through(before, id, taken, ran_system, ran, *scene));
                },
                None => {},
            }
            proof {
                assert(schedule_step(before, id, *scene));
                trace = trace.push(*scene);
            }
        }
        assert(schedule_trace(trace, ids, *old(scene), *scene));
    }
}

/// The position of the system inserted under `id` is the one entry with that id.
///
proof fn lemma_position_of<S>(entries: Seq<ScheduleEntry<S>>, id: SystemId, k: int)
    requires
        distinct_keys(entries),
        0 <= k < entries.len(),
        entries[k].0 == id,
    ensures
        has_system(entries, id),
        position_of(entries, id) == k,
{
    assert(has_system(entries, id));
    let c = position_of(entries, id);
    assert(entries[c].0 == id);
}

/// Law: a system that is taken out and handed back to `return_taken_system` is in its place again,
/// and the schedule is as it was before the system was taken.
///
pub proof fn law_take_then_return<S>(entries: Seq<ScheduleEntry<S>>, id: SystemId)
    requires
        distinct_keys(entries),
        slots_match(entries),
        has_system(entries, id),
        !is_placeholder(entries[position_of(entries, id)].1),
    ensures
        ({
            let k = position_of(entries, id);
            let taken = entries[k].1;
            let emptied = entries.update(k, (id, DecomposedSystem::<S>::spec_placeholder()));
            &&& taken.spec_id() == id
            &&& has_system(emptied, taken.spec_id())
            &&& position_of(emptied, taken.spec_id()) == k
            &&& is_placeholder(emptied[k].1)
            &&& emptied.update(k, (taken.spec_id(), taken)) == entries
        }),
{
    let k = position_of(entries, id);
    let taken = entries[k].1;
    assert(entries[k].0 == id);
    assert(slot_matches(entries[k].0, entries[k].1));
    let emptied = entries.update(k, (id, DecomposedSystem::<S>::spec_placeholder()));
    assert(distinct_keys(emptied)) by {
        assert forall|i: int, j: int| 0 <= i < emptied.len() && 0 <= j < emptied.len() && i != j implies (#[trigger] emptied[i]).0 != (#[trigger] emptied[j]).0 by {
            assert(emptied[i].0 == entries[i].0);
            assert(emptied[j].0 == entries[j].0);
        }
    }
    lemma_position_of(emptied, id, k);
    taken.lemma_decomposed();
    assert(emptied.update(k, (taken.spec_id(), taken)) =~= entries);
}

/// Law: a removed system is no longer in the schedule, the ids stay distinct, and every other
/// system stays in the schedule.
///
pub proof fn law_remove_forgets<S>(entries: Seq<ScheduleEntry<S>>, id: SystemId, other: SystemId)
    requires
        distinct_keys(entries),
        has_system(entries, id),
    ensures
        ({
            let rest = entries.remove(position_of(entries, id));
            &&& rest.len() + 1 == entries.len()
            &&& !has_system(rest, id)
            &&& distinct_keys(rest)
            &&& other != id ==> (has_system(rest, other) <==> has_system(entries, other))
        }),
{
    let k = position_of(entries, id);
    let rest = entries.remove(k);
    assert forall|i: int| 0 <= i < rest.len() implies #[trigger] rest[i] == entries[if i < k { i } else { i + 1 }] by {}
    assert(!has_system(rest, id)) by {
        if has_system(rest, id) {
            let i = choose|i: int| 0 <= i < rest.len() && (#[trigger] rest[i]).0 == id;
            assert(rest[i] == entries[if i < k { i } else { i + 1 }]);
        }
    }
    assert(distinct_keys(rest)) by {
        assert forall|i: int, j: int| 0 <= i < rest.len() && 0 <= j < rest.len() && i != j implies (#[trigger] rest[i]).0 != (#[trigger] rest[j]).0 by {
            assert(rest[i] == entries[if i < k { i } else { i + 1 }]);
            assert(rest[j] == entries[if j < k { j } else { j + 1 }]);
        }
    }
    if other != id {
        if has_system(entries, other) {
            let j = choose|j: int| 0 <= j < entries.len() && (#[trigger] entries[j]).0 == other;
            assert(j != k);
            let i = if j < k { j } else { j - 1 };
            assert(rest[i] == entries[j]);
        }
        if has_system(rest, other) {
            let i = choose|i: int| 0 <= i < rest.len() && (#[trigger] rest[i]).0 == other;
            assert(rest[i] == entries[if i < k { i } else { i + 1 }]);
        }
    }
}

/// Law: an inserted system is found at its insertion index, the ids stay distinct, and an anchored
/// system lands right before (or right after) its anchor.
///
pub proof fn law_insert_position<S>(
    entries: Seq<ScheduleEntry<S>>,
    position: SystemPosition,
    id: SystemId,
    system: DecomposedSystem<S>,
)
    requires
        distinct_keys(entries),
        !has_system(entries, id),
    ensures
        ({
            let p = insertion_index(entries, position);
            let inserted = entries.insert(p, (id, system));
            &&& 0 <= p <= entries.len()
            &&& has_system(inserted, id)
            &&& position_of(inserted, id) == p
            &&& distinct_keys(inserted)
            &&& (position matches SystemPosition::Before(anchor) ==> (has_system(entries, anchor)
                ==> position_of(inserted, anchor) == p + 1))
            &&& (position matches SystemPosition::After(anchor) ==> (has_system(entries, anchor)
                ==> position_of(inserted, anchor) + 1 == p))
        }),
{
    let p = insertion_index(entries, position);
    match position {
        SystemPosition::Before(anchor) => {
            if has_system(entries, anchor) {
                let a = position_of(entries, anchor);
                assert(entries[a].0 == anchor);
            }
        },
        SystemPosition::After(anchor) => {
            if has_system(entries, anchor) {
                let a = position_of(entries, anchor);
                assert(entries[a].0 == anchor);
            }
        },
        _ => {},
    }
    let inserted = entries.insert(p, (id, system));
    assert forall|i: int| 0 <= i < inserted.len() && i != p implies #[trigger] inserted[i] == entries[if i < p { i } else { i - 1 }] by {}
    assert(distinct_keys(inserted)) by {
        assert forall|i: int, j: int| 0 <= i < inserted.len() && 0 <= j < inserted.len() && i != j implies (#[trigger] inserted[i]).0 != (#[trigger] inserted[j]).0 by {
            if i == p {
                assert(inserted[j] == entries[if j < p { j } else { j - 1 }]);
            } else if j == p {
                assert(inserted[i] == entries[if i < p { i } else { i - 1 }]);
            } else {
                assert(inserted[i] == entries[if i < p { i } else { i - 1 }]);
                assert(inserted[j] == entries[if j < p { j } else { j - 1 }]);
            }
        }
    }
    lemma_position_of(inserted, id, p);
    match position {
        SystemPosition::Before(anchor) => {
            if has_system(entries, anchor) {
                assert(inserted[p + 1] == entries[p]);
                lemma_position_of(inserted, anchor, p + 1);
            }
        },
        SystemPosition::After(anchor) => {
            if has_system(entries, anchor) {
                assert(inserted[p - 1] == entries[p - 1]);
                lemma_position_of(inserted, anchor, p - 1);
            }
        },
        _ => {},
    }
}

/// The schedule that `insert_system` builds from an empty storage when each system of `systems`
/// is inserted at [`SystemPosition::Tail`], in turn (each given with its id).
///
pub open spec fn tail_inserted<S>(systems: Seq<(SystemId, S)>) -> Seq<ScheduleEntry<S>>
    decreases systems.len(),
{
    if systems.len() == 0 {
        Seq::empty()
    } else {
        let entries = tail_inserted(systems.drop_last());
        let (id, system) = systems.last();
        if has_system(entries, id) {
            entries
        } else {
            entries.insert(insertion_index(entries, SystemPosition::Tail), (id, DecomposedSystem::<S>::decomposed(id, system)))
        }
    }
}

/// Law: systems with distinct ids inserted one after another at the tail of an empty schedule
/// are listed in insertion order, each once, each holding its system.
///
pub proof fn law_tail_inserts_keep_order<S>(systems: Seq<(SystemId, S)>)
    requires
        forall|i: int, j: int| 0 <= i < systems.len() && 0 <= j < systems.len() && i != j ==> (#[trigger] systems[i]).0 != (#[trigger] systems[j]).0,
    ensures
        tail_inserted(systems).len() == systems.len(),
        forall|k: int| 0 <= k < systems.len() ==> (#[trigger] tail_inserted(systems)[k]).0 == systems[k].0,
        forall|k: int| 0 <= k < systems.len() ==> (#[trigger] tail_inserted(systems)[k]).1.spec_id() == systems[k].0,
        forall|k: int| 0 <= k < systems.len() ==> (#[trigger] tail_inserted(systems)[k]).1.system() == Some(systems[k].1),
    decreases systems.len(),
{
    if systems.len() > 0 {
        let init = systems.drop_last();
        law_tail_inserts_keep_order(init);
        let entries = tail_inserted(init);
        let (id, system) = systems.last();
        DecomposedSystem::<S>::lemma_decomposed_parts(id, system);
        assert(!has_system(entries, id)) by {
            if has_system(entries, id) {
                let k = choose|k: int| 0 <= k < entries.len() && (#[trigger] entries[k]).0 == id;
                assert(init[k] == systems[k]);
                assert(systems[k].0 != systems[systems.len() - 1].0);
            }
        }
        let all = tail_inserted(systems);
        assert(all == entries.push((id, DecomposedSystem::<S>::decomposed(id, system))));
        assert forall|k: int| 0 <= k < systems.len() implies (#[trigger] all[k]).0 == systems[k].0
            && all[k].1.spec_id() == systems[k].0 && all[k].1.system() == Some(systems[k].1) by {
            if k < init.len() {
                assert(all[k] == entries[k]);
                assert(init[k] == systems[k]);
            }
        }
    }
}

} // verus!
