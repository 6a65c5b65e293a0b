//! `gamecore::storages` submodule implements several collections that
//! are used to store ECS-related data for game engine.
//!
//! Component tables are column-oriented: each column holds the cells of one component kind,
//! and the cell at index `i` of a column belongs to the entity with index `i`.
//!

use crate::gamecore::components::{Component, ComponentId};
use crate::gamecore::entities::EntityId;
use vstd::prelude::*;

pub mod component_storage;
pub mod entity_component_storage;
pub mod event_storage;
pub mod resource_storage;
pub mod system_storage;

pub use component_storage::ComponentStorage;
pub use entity_component_storage::EntityComponentStorage;
pub use event_storage::EventStorage;
pub use resource_storage::ResourceStorage;
pub use system_storage::SystemStorage;

verus! {

/// One column of a component table: the cells of a single component kind, indexed by entity.
///
#[derive(Debug)]
pub(crate) struct Column<V> {
    /// Kind of the components in this column.
    ///
    pub(crate) id: ComponentId,
    /// Cells of the column; the cell at index `i` belongs to the entity with index `i`.
    ///
    pub(crate) cells: Vec<Option<V>>,
}

/// No two columns of a table share a component kind.
///
pub(crate) open spec fn distinct_ids<V>(t: Seq<Column<V>>) -> bool {
    forall|i: int, j: int| 0 <= i < t.len() && 0 <= j < t.len() && i != j ==> #[trigger] t[i].id != #[trigger] t[j].id
}

/// The table holds a column of kind `c`.
///
pub(crate) open spec fn has_id<V>(t: Seq<Column<V>>, c: ComponentId) -> bool {
    exists|i: int| 0 <= i < t.len() && #[trigger] t[i].id == c
}

/// The table as a map from component kinds to column cells.
///
pub(crate) open spec fn table_map<V>(t: Seq<Column<V>>) -> Map<ComponentId, Seq<Option<V>>> {
    Map::new(
        |c: ComponentId| has_id(t, c),
        |c: ComponentId| t[choose|i: int| 0 <= i < t.len() && #[trigger] t[i].id == c].cells@,
    )
}

/// Cell of entity `e` in column `c` of a column map (`None` where there is no such cell).
///
pub open spec fn map_cell<V>(columns: Map<ComponentId, Seq<Option<V>>>, e: EntityId, c: ComponentId) -> Option<V> {
    if columns.contains_key(c) && e.0 < columns[c].len() {
        columns[c][e.0 as int]
    } else {
        None
    }
}

/// Every cell of every entity in `rows` is empty.
///
pub open spec fn rows_empty<V>(columns: Map<ComponentId, Seq<Option<V>>>, rows: Set<EntityId>) -> bool {
    forall|e: EntityId, c: ComponentId| #[trigger] rows.contains(e) ==> #[trigger] map_cell(columns, e, c) is None
}

pub(crate) proof fn lemma_table_map_index<V>(t: Seq<Column<V>>, i: int)
    requires
        distinct_ids(t),
        0 <= i < t.len(),
    ensures
        table_map(t).contains_key(t[i].id),
        table_map(t)[t[i].id] == t[i].cells@,
{
    assert(has_id(t, t[i].id));
    let j = choose|j: int| 0 <= j < t.len() && #[trigger] t[j].id == t[i].id;
    assert(t[j].id == t[i].id);
}

pub(crate) proof fn lemma_table_map_update<V>(t: Seq<Column<V>>, t2: Seq<Column<V>>, i: int)
    requires
        distinct_ids(t),
        0 <= i < t.len(),
        t2.len() == t.len(),
        t2[i].id == t[i].id,
        forall|j: int| 0 <= j < t.len() && j != i ==> t2[j] == t[j],
    ensures
        distinct_ids(t2),
        table_map(t2) == table_map(t).insert(t[i].id, t2[i].cells@),
{
    assert forall|a: int, b: int| 0 <= a < t2.len() && 0 <= b < t2.len() && a != b implies #[trigger] t2[a].id
        != #[trigger] t2[b].id by {
        assert(t2[a].id == t[a].id);
        assert(t2[b].id == t[b].id);
    }
    let m = table_map(t).insert(t[i].id, t2[i].cells@);
    assert forall|c: ComponentId| #[trigger] table_map(t2).contains_key(c) <==> m.contains_key(c) by {
        if has_id(t2, c) {
            let j = choose|j: int| 0 <= j < t2.len() && #[trigger] t2[j].id == c;
            if j != i {
                assert(t[j].id == c);
            }
        }
        if has_id(t, c) {
            let j = choose|j: int| 0 <= j < t.len() && #[trigger] t[j].id == c;
            assert(t2[j].id == c);
        }
        if c == t[i].id {
            assert(t2[i].id == c);
        }
    }
    assert forall|c: ComponentId| #[trigger] table_map(t2).contains_key(c) implies table_map(t2)[c] == m[c] by {
        let j = choose|j: int| 0 <= j < t2.len() && #[trigger] t2[j].id == c;
        lemma_table_map_index(t2, j);
        if j != i {
            assert(t2[j] == t[j]);
            lemma_table_map_index(t, j);
        }
    }
    assert(table_map(t2) =~= m);
}

pub(crate) proof fn lemma_table_map_update_any<V>(t: Seq<Column<V>>, i: int)
    requires
        distinct_ids(t),
        0 <= i < t.len(),
    ensures
        forall|t2: Seq<Column<V>>|
            t2.len() == t.len() && t2[i].id == t[i].id && (forall|j: int| 0 <= j < t.len() && j != i ==> t2[j] == t[j])
                ==> distinct_ids(t2) && #[trigger] table_map(t2) == table_map(t).insert(t[i].id, t2[i].cells@),
{
    assert forall|t2: Seq<Column<V>>|
        t2.len() == t.len() && t2[i].id == t[i].id && (forall|j: int| 0 <= j < t.len() && j != i ==> t2[j] == t[j])
            implies distinct_ids(t2) && #[trigger] table_map(t2) == table_map(t).insert(t[i].id, t2[i].cells@) by {
        lemma_table_map_update(t, t2, i);
    }
}

pub(crate) proof fn lemma_table_map_push<V>(t: Seq<Column<V>>, col: Column<V>)
    requires
        distinct_ids(t),
        !has_id(t, col.id),
    ensures
        distinct_ids(t.push(col)),
        table_map(t.push(col)) == table_map(t).insert(col.id, col.cells@),
{
    let t2 = t.push(col);
    assert forall|a: int, b: int| 0 <= a < t2.len() && 0 <= b < t2.len() && a != b implies #[trigger] t2[a].id
        != #[trigger] t2[b].id by {
        if a < t.len() && b < t.len() {
            assert(t2[a] == t[a] && t2[b] == t[b]);
        } else if a < t.len() {
            assert(t2[a] == t[a]);
        } else {
            assert(t2[b] == t[b]);
        }
    }
    let m = table_map(t).insert(col.id, col.cells@);
    assert forall|c: ComponentId| #[trigger] table_map(t2).contains_key(c) <==> m.contains_key(c) by {
        if has_id(t2, c) {
            let j = choose|j: int| 0 <= j < t2.len() && #[trigger] t2[j].id == c;
            if j < t.len() {
                assert(t[j].id == c);
            }
        }
        if has_id(t, c) {
            let j = choose|j: int| 0 <= j < t.len() && #[trigger] t[j].id == c;
            assert(t2[j].id == c);
        }
        if c == col.id {
            assert(t2[t.len() as int].id == c);
        }
    }
    assert forall|c: ComponentId| #[trigger] table_map(t2).contains_key(c) implies table_map(t2)[c] == m[c] by {
        let j = choose|j: int| 0 <= j < t2.len() && #[trigger] t2[j].id == c;
        lemma_table_map_index(t2, j);
        if j < t.len() {
            assert(t2[j] == t[j]);
            lemma_table_map_index(t, j);
        }
    }
    assert(table_map(t2) =~= m);
}

pub(crate) proof fn lemma_table_map_remove<V>(t: Seq<Column<V>>, i: int)
    requires
        distinct_ids(t),
        0 <= i < t.len(),
    ensures
        distinct_ids(t.remove(i)),
        table_map(t.remove(i)) == table_map(t).remove(t[i].id),
{
    let t2 = t.remove(i);
    assert forall|a: int, b: int| 0 <= a < t2.len() && 0 <= b < t2.len() && a != b implies #[trigger] t2[a].id
        != #[trigger] t2[b].id by {
        let a1 = if a < i { a } else { a + 1 };
        let b1 = if b < i { b } else { b + 1 };
        assert(t2[a] == t[a1]);
        assert(t2[b] == t[b1]);
    }
    let m = table_map(t).remove(t[i].id);
    assert forall|c: ComponentId| #[trigger] table_map(t2).contains_key(c) <==> m.contains_key(c) by {
        if has_id(t2, c) {
            let j = choose|j: int| 0 <= j < t2.len() && #[trigger] t2[j].id == c;
            let j1 = if j < i { j } else { j + 1 };
            assert(t[j1].id == c);
        }
        if has_id(t, c) && c != t[i].id {
            let j = choose|j: int| 0 <= j < t.len() && #[trigger] t[j].id == c;
            if j < i {
                assert(t2[j].id == c);
            } else {
                assert(t2[j - 1].id == c);
            }
        }
    }
    assert forall|c: ComponentId| #[trigger] table_map(t2).contains_key(c) implies table_map(t2)[c] == m[c] by {
        let j = choose|j: int| 0 <= j < t2.len() && #[trigger] t2[j].id == c;
        lemma_table_map_index(t2, j);
        let j1 = if j < i { j } else { j + 1 };
        assert(t2[j] == t[j1]);
        lemma_table_map_index(t, j1);
    }
    assert(table_map(t2) =~= m);
}

/// A table whose columns keep their kinds keeps its domain, and each column of the map is the
/// column of the table with that kind.
///
pub(crate) proof fn lemma_table_map_same_ids<V>(t: Seq<Column<V>>)
    requires
        distinct_ids(t),
    ensures
        forall|t2: Seq<Column<V>>| t2.len() == t.len() && (forall|i: int| 0 <= i < t.len() ==> (#[trigger] t2[i]).id == t[i].id) ==> {
            &&& distinct_ids(t2)
            &&& #[trigger] table_map(t2).dom() == table_map(t).dom()
            &&& forall|i: int| 0 <= i < t.len() ==> table_map(t2)[#[trigger] t[i].id] == t2[i].cells@
        },
{
    assert forall|t2: Seq<Column<V>>| t2.len() == t.len() && (forall|i: int| 0 <= i < t.len() ==> (#[trigger] t2[i]).id == t[i].id) implies {
        &&& distinct_ids(t2)
        &&& #[trigger] table_map(t2).dom() == table_map(t).dom()
        &&& forall|i: int| 0 <= i < t.len() ==> table_map(t2)[#[trigger] t[i].id] == t2[i].cells@
    } by {
        assert forall|a: int, b: int| 0 <= a < t2.len() && 0 <= b < t2.len() && a != b implies #[trigger] t2[a].id != #[trigger] t2[b].id by {
            assert(t2[a].id == t[a].id);
            assert(t2[b].id == t[b].id);
        }
        assert forall|c: ComponentId| #[trigger] has_id(t2, c) <==> has_id(t, c) by {
            if has_id(t2, c) {
                let j = choose|j: int| 0 <= j < t2.len() && #[trigger] t2[j].id == c;
                assert(t[j].id == c);
            }
            if has_id(t, c) {
                let j = choose|j: int| 0 <= j < t.len() && #[trigger] t[j].id == c;
                assert(t2[j].id == c);
            }
        }
        assert(table_map(t2).dom() =~= table_map(t).dom());
        assert forall|i: int| 0 <= i < t.len() implies table_map(t2)[#[trigger] t[i].id] == t2[i].cells@ by {
            assert(t2[i].id == t[i].id);
            lemma_table_map_index(t2, i);
        }
    }
}

/// `cells` extended with empty cells up to length `len` (unchanged if it is already that long).
///
pub open spec fn padded<V>(cells: Seq<Option<V>>, len: nat) -> Seq<Option<V>> {
    if cells.len() < len {
        cells + Seq::new((len - cells.len()) as nat, |k: int| None::<V>)
    } else {
        cells
    }
}

/// Columns after column `c` was grown to at least `len` cells (created empty if absent)
/// and its cell `e` was set to `value`.
///
pub open spec fn put_cell<V>(
    columns: Map<ComponentId, Seq<Option<V>>>,
    e: EntityId,
    c: ComponentId,
    len: nat,
    value: Option<V>,
) -> Map<ComponentId, Seq<Option<V>>> {
    let column = if columns.contains_key(c) { columns[c] } else { Seq::<Option<V>>::empty() };
    columns.insert(c, padded(column, len).update(e.0 as int, value))
}

/// Columns after cell `e` of column `c` was emptied (unchanged where there is no such cell).
///
pub open spec fn take_cell<V>(columns: Map<ComponentId, Seq<Option<V>>>, e: EntityId, c: ComponentId) -> Map<
    ComponentId,
    Seq<Option<V>>,
> {
    if columns.contains_key(c) && e.0 < columns[c].len() {
        columns.insert(c, columns[c].update(e.0 as int, None))
    } else {
        columns
    }
}

/// Columns after the cells of entity `e` were emptied in every column.
///
pub open spec fn clear_row<V>(columns: Map<ComponentId, Seq<Option<V>>>, e: EntityId) -> Map<
    ComponentId,
    Seq<Option<V>>,
> {
    Map::new(
        |c: ComponentId| columns.contains_key(c),
        |c: ComponentId|
            if e.0 < columns[c].len() {
                columns[c].update(e.0 as int, None)
            } else {
                columns[c]
            },
    )
}

/// Values of the occupied cells of `cells`, in index order, skipping the cells whose entity is in `skipped`.
///
pub open spec fn occupied_values<V>(cells: Seq<Option<V>>, skipped: Set<EntityId>) -> Seq<V>
    decreases cells.len(),
{
    if cells.len() == 0 {
        Seq::empty()
    } else {
        let rest = occupied_values(cells.drop_last(), skipped);
        match cells.last() {
            Some(v) => if skipped.contains(EntityId((cells.len() - 1) as usize)) {
                rest
            } else {
                rest.push(v)
            },
            None => rest,
        }
    }
}

/// Value of the last component of kind `c` in `bundle`, if there is one.
///
pub open spec fn bundle_value<V>(bundle: Seq<Component<V>>, c: ComponentId) -> Option<V>
    decreases bundle.len(),
{
    if bundle.len() == 0 {
        None
    } else if bundle.last().id == c {
        Some(bundle.last().value)
    } else {
        bundle_value(bundle.drop_last(), c)
    }
}

/// Kinds of the components in `bundle`.
///
pub open spec fn bundle_ids<V>(bundle: Seq<Component<V>>) -> Set<ComponentId> {
    Set::new(|c: ComponentId| exists|k: int| 0 <= k < bundle.len() && #[trigger] bundle[k].id == c)
}

pub proof fn lemma_bundle_value_take<V>(bundle: Seq<Component<V>>, k: int, c: ComponentId)
    requires
        0 <= k < bundle.len(),
    ensures
        bundle_value(bundle.take(k + 1), c) == if bundle[k].id == c {
            Some(bundle[k].value)
        } else {
            bundle_value(bundle.take(k), c)
        },
{
    assert(bundle.take(k + 1).drop_last() =~= bundle.take(k));
}

pub proof fn lemma_bundle_value_some<V>(bundle: Seq<Component<V>>, c: ComponentId)
    ensures
        bundle_value(bundle, c) is Some <==> bundle_ids(bundle).contains(c),
    decreases bundle.len(),
{
    if bundle.len() > 0 {
        lemma_bundle_value_some(bundle.drop_last(), c);
        if bundle_ids(bundle.drop_last()).contains(c) {
            let k = choose|k: int| 0 <= k < bundle.drop_last().len() && #[trigger] bundle.drop_last()[k].id == c;
            assert(bundle[k].id == c);
        }
        if bundle_ids(bundle).contains(c) && bundle.last().id != c {
            let k = choose|k: int| 0 <= k < bundle.len() && #[trigger] bundle[k].id == c;
            assert(bundle.drop_last()[k].id == c);
        }
        if bundle.last().id == c {
            assert(bundle[bundle.len() - 1].id == c);
        }
    } else {
        if bundle_ids(bundle).contains(c) {
            let k = choose|k: int| 0 <= k < bundle.len() && #[trigger] bundle[k].id == c;
        }
    }
}

pub proof fn lemma_put_cell<V>(
    columns: Map<ComponentId, Seq<Option<V>>>,
    e: EntityId,
    c: ComponentId,
    len: nat,
    value: Option<V>,
)
    requires
        e.0 < padded(if columns.contains_key(c) { columns[c] } else { Seq::<Option<V>>::empty() }, len).len(),
    ensures
        put_cell(columns, e, c, len, value).dom() == columns.dom().insert(c),
        forall|e2: EntityId, c2: ComponentId|
            #[trigger] map_cell(put_cell(columns, e, c, len, value), e2, c2) == if e2 == e && c2 == c {
                value
            } else {
                map_cell(columns, e2, c2)
            },
        put_cell(columns, e, c, len, value)[c].len() == padded(
            if columns.contains_key(c) { columns[c] } else { Seq::<Option<V>>::empty() },
            len,
        ).len(),
        forall|c2: ComponentId| c2 != c && columns.contains_key(c2) ==> #[trigger] put_cell(columns, e, c, len, value)[c2] == columns[c2],
{
    let m = put_cell(columns, e, c, len, value);
    assert(m.dom() =~= columns.dom().insert(c));
}

pub proof fn lemma_take_cell<V>(columns: Map<ComponentId, Seq<Option<V>>>, e: EntityId, c: ComponentId)
    ensures
        take_cell(columns, e, c).dom() == columns.dom(),
        forall|e2: EntityId, c2: ComponentId|
            #[trigger] map_cell(take_cell(columns, e, c), e2, c2) == if e2 == e && c2 == c {
                None
            } else {
                map_cell(columns, e2, c2)
            },
        forall|c2: ComponentId| #[trigger] take_cell(columns, e, c).contains_key(c2) ==> take_cell(columns, e, c)[c2].len() == columns[c2].len(),
{
    let m = take_cell(columns, e, c);
    if columns.contains_key(c) && e.0 < columns[c].len() {
        assert(m.dom() =~= columns.dom());
    }
}

pub proof fn lemma_clear_row<V>(columns: Map<ComponentId, Seq<Option<V>>>, e: EntityId)
    ensures
        clear_row(columns, e).dom() == columns.dom(),
        forall|e2: EntityId, c2: ComponentId|
            #[trigger] map_cell(clear_row(columns, e), e2, c2) == if e2 == e {
                None
            } else {
                map_cell(columns, e2, c2)
            },
        forall|c2: ComponentId| #[trigger] clear_row(columns, e).contains_key(c2) ==> clear_row(columns, e)[c2].len() == columns[c2].len(),
{
    let m = clear_row(columns, e);
    assert(m.dom() =~= columns.dom());
}

/// Finds the position of the column of kind `c`.
///
pub(crate) fn find_column<V>(t: &Vec<Column<V>>, c: ComponentId) -> (r: Option<usize>)
    ensures
        match r {
            Some(i) => i < t@.len() && t@[i as int].id == c,
            None => !has_id(t@, c),
        },
{
    let mut i: usize = 0;
    while i < t.len()
        invariant
            i <= t@.len(),
            forall|j: int| 0 <= j < i ==> #[trigger] t@[j].id != c,
        decreases t@.len() - i,
    {
        if t[i].id == c {
            return Some(i);
        }
        i += 1;
    }
    None
}

/// Replaces the cell `e` of the column at position `i`, returning the previous cell.
///
pub(crate) fn swap_cell<V>(t: &mut Vec<Column<V>>, i: usize, e: usize, value: Option<V>) -> (previous: Option<V>)
    requires
        i < old(t)@.len(),
        e < old(t)@[i as int].cells@.len(),
    ensures
        final(t)@.len() == old(t)@.len(),
        final(t)@[i as int].id == old(t)@[i as int].id,
        final(t)@[i as int].cells@ == old(t)@[i as int].cells@.update(e as int, value),
        previous == old(t)@[i as int].cells@[e as int],
        forall|j: int| 0 <= j < old(t)@.len() && j != i ==> final(t)@[j] == old(t)@[j],
{
    let mut value = value;
    std::mem::swap(&mut t[i].cells[e], &mut value);
    value
}

/// Extends the column at position `i` with empty cells until it holds `len` cells.
///
pub(crate) fn grow_column<V>(t: &mut Vec<Column<V>>, i: usize, len: usize)
    requires
        i < old(t)@.len(),
    ensures
        final(t)@.len() == old(t)@.len(),
        final(t)@[i as int].id == old(t)@[i as int].id,
        old(t)@[i as int].cells@.len() < len ==> final(t)@[i as int].cells@ == old(t)@[i as int].cells@
            + Seq::new((len - old(t)@[i as int].cells@.len()) as nat, |k: int| None::<V>),
        old(t)@[i as int].cells@.len() >= len ==> final(t)@[i as int].cells@ == old(t)@[i as int].cells@,
        forall|j: int| 0 <= j < old(t)@.len() && j != i ==> final(t)@[j] == old(t)@[j],
{
    let ghost start = t@[i as int].cells@;
    while t[i].cells.len() < len
        invariant
            i < t@.len(),
            t@.len() == old(t)@.len(),
            t@[i as int].id == old(t)@[i as int].id,
            start == old(t)@[i as int].cells@,
            start.len() <= t@[i as int].cells@.len(),
            start.len() < len ==> t@[i as int].cells@.len() <= len,
            start.len() >= len ==> t@[i as int].cells@.len() == start.len(),
            t@[i as int].cells@ == start + Seq::new((t@[i as int].cells@.len() - start.len()) as nat, |k: int| None::<V>),
            forall|j: int| 0 <= j < old(t)@.len() && j != i ==> t@[j] == old(t)@[j],
        decreases len - t@[i as int].cells@.len(),
    {
        t[i].cells.push(None);
        assert(t@[i as int].cells@ =~= start + Seq::new((t@[i as int].cells@.len() - start.len()) as nat, |k: int| None::<V>));
    }
    assert(start.len() >= len ==> t@[i as int].cells@ =~= start);
}

/// Sets cell `e` of column `c` to `value`, creating the column if needed and growing it
/// to at least `len` cells first; returns the previous cell.
///
pub(crate) fn put_in_table<V>(t: &mut Vec<Column<V>>, e: EntityId, c: ComponentId, len: usize, value: Option<V>) -> (previous: Option<V>)
    requires
        distinct_ids(old(t)@),
        e.0 < padded(
            if table_map(old(t)@).contains_key(c) { table_map(old(t)@)[c] } else { Seq::<Option<V>>::empty() },
            len as nat,
        ).len(),
    ensures
        distinct_ids(final(t)@),
        table_map(final(t)@) == put_cell(table_map(old(t)@), e, c, len as nat, value),
        previous == map_cell(table_map(old(t)@), e, c),
{
    let i = match find_column(t, c) {
        Some(i) => {
            proof {
                lemma_table_map_index(t@, i as int);
            }
            i
        },
        None => {
            let column = Column { id: c, cells: Vec::new() };
            proof {
                lemma_table_map_push(t@, column);
            }
            t.push(column);
            proof {
                lemma_table_map_index(t@, t@.len() - 1);
            }
            t.len() - 1
        },
    };
    let ghost t1 = t@;
    grow_column(t, i, len);
    let ghost t2 = t@;
    proof {
        lemma_table_map_update(t1, t2, i as int);
        assert(t2[i as int].cells@ == padded(t1[i as int].cells@, len as nat));
    }
    let previous = swap_cell(t, i, e.0, value);
    proof {
        lemma_table_map_update(t2, t@, i as int);
        assert(table_map(final(t)@) =~= put_cell(table_map(old(t)@), e, c, len as nat, value));
    }
    previous
}

/// Empties cell `e` of column `c` if there is such a cell; returns the previous cell.
///
pub(crate) fn take_in_table<V>(t: &mut Vec<Column<V>>, e: EntityId, c: ComponentId) -> (previous: Option<V>)
    requires
        distinct_ids(old(t)@),
    ensures
        distinct_ids(final(t)@),
        table_map(final(t)@) == take_cell(table_map(old(t)@), e, c),
        previous == map_cell(table_map(old(t)@), e, c),
{
    match find_column(t, c) {
        Some(i) => {
            proof {
                lemma_table_map_index(t@, i as int);
            }
            if e.0 < t[i].cells.len() {
                let ghost t1 = t@;
                let previous = swap_cell(t, i, e.0, None);
                proof {
                    lemma_table_map_update(t1, t@, i as int);
                }
                previous
            } else {
                None
            }
        },
        None => None,
    }
}

/// Empties the cells of entity `e` in every column.
///
pub(crate) fn clear_row_in_table<V>(t: &mut Vec<Column<V>>, e: EntityId)
    requires
        distinct_ids(old(t)@),
    ensures
        distinct_ids(final(t)@),
        final(t)@.len() == old(t)@.len(),
        forall|j: int| 0 <= j < old(t)@.len() ==> (#[trigger] final(t)@[j]).id == old(t)@[j].id,
        table_map(final(t)@) == clear_row(table_map(old(t)@), e),
{
    let ghost t0 = t@;
    let mut i: usize = 0;
    while i < t.len()
        invariant
            i <= t@.len(),
            t@.len() == t0.len(),
            distinct_ids(t0),
            forall|j: int| 0 <= j < t0.len() ==> (#[trigger] t@[j]).id == t0[j].id,
            forall|j: int|
                0 <= j < i ==> (#[trigger] t@[j]).cells@ == (if e.0 < t0[j].cells@.len() {
                    t0[j].cells@.update(e.0 as int, None)
                } else {
                    t0[j].cells@
                }),
            forall|j: int| i <= j < t0.len() ==> #[trigger] t@[j] == t0[j],
        decreases t0.len() - i,
    {
        if e.0 < t[i].cells.len() {
            let _ = swap_cell(t, i, e.0, None);
        }
        i += 1;
    }
    assert(distinct_ids(t@)) by {
        assert forall|a: int, b: int| 0 <= a < t@.len() && 0 <= b < t@.len() && a != b implies #[trigger] t@[a].id
            != #[trigger] t@[b].id by {
            assert(t@[a].id == t0[a].id);
            assert(t@[b].id == t0[b].id);
        }
    }
    let ghost m0 = table_map(t0);
    let ghost m1 = table_map(t@);
    let ghost m2 = clear_row(m0, e);
    assert forall|c: ComponentId| #[trigger] m1.contains_key(c) <==> m2.contains_key(c) by {
        if has_id(t@, c) {
            let j = choose|j: int| 0 <= j < t@.len() && #[trigger] t@[j].id == c;
            assert(t0[j].id == c);
        }
        if has_id(t0, c) {
            let j = choose|j: int| 0 <= j < t0.len() && #[trigger] t0[j].id == c;
            assert(t@[j].id == c);
        }
    }
    assert forall|c: ComponentId| #[trigger] m1.contains_key(c) implies m1[c] == m2[c] by {
        let j = choose|j: int| 0 <= j < t@.len() && #[trigger] t@[j].id == c;
        lemma_table_map_index(t@, j);
        lemma_table_map_index(t0, j);
    }
    assert(m1 =~= m2);
}

pub proof fn lemma_occupied_values_take<V>(cells: Seq<Option<V>>, skipped: Set<EntityId>, k: int)
    requires
        0 <= k < cells.len(),
    ensures
        occupied_values(cells.take(k + 1), skipped) == match cells[k] {
            Some(v) => if skipped.contains(EntityId(k as usize)) {
                occupied_values(cells.take(k), skipped)
            } else {
                occupied_values(cells.take(k), skipped).push(v)
            },
            None => occupied_values(cells.take(k), skipped),
        },
{
    assert(cells.take(k + 1).drop_last() =~= cells.take(k));
}

/// Collects references to the values of the occupied cells of `cells`, in index order,
/// skipping the cells whose entity is in `skipped`.
///
pub(crate) fn collect_occupied<'a, V>(cells: &'a Vec<Option<V>>, skipped: &Vec<EntityId>) -> (values: Vec<&'a V>)
    ensures
        values@.unref() == occupied_values(cells@, skipped@.to_set()),
{
    let mut values: Vec<&'a V> = Vec::new();
    let mut k: usize = 0;
    while k < cells.len()
        invariant
            k <= cells@.len(),
            values@.unref() == occupied_values(cells@.take(k as int), skipped@.to_set()),
        decreases cells@.len() - k,
    {
        proof {
            lemma_occupied_values_take(cells@, skipped@.to_set(), k as int);
        }
        let ghost before = values@;
        match &cells[k] {
            Some(v) => {
                if !contains_entity_id(skipped, EntityId(k)) {
                    values.push(v);
                    assert(values@.unref() =~= before.unref().push(*v));
                }
            },
            None => {},
        }
        k += 1;
    }
    assert(cells@.take(cells@.len() as int) =~= cells@);
    values
}

/// Moves the values of the occupied cells of `cells` out, in index order,
/// dropping the cells whose entity is in `skipped`.
///
pub(crate) fn drain_occupied<V>(cells: Vec<Option<V>>, skipped: &Vec<EntityId>) -> (values: Vec<V>)
    ensures
        values@ == occupied_values(cells@, skipped@.to_set()),
{
    let ghost initial = cells@;
    let mut cells = cells;
    let mut values: Vec<V> = Vec::new();
    let mut k: usize = 0;
    while k < cells.len()
        invariant
            k <= cells@.len(),
            cells@.len() == initial.len(),
            forall|j: int| k <= j < initial.len() ==> #[trigger] cells@[j] == initial[j],
            values@ == occupied_values(initial.take(k as int), skipped@.to_set()),
        decreases cells@.len() - k,
    {
        proof {
            lemma_occupied_values_take(initial, skipped@.to_set(), k as int);
        }
        let mut cell: Option<V> = None;
        std::mem::swap(&mut cells[k], &mut cell);
        match cell {
            Some(v) => {
                if !contains_entity_id(skipped, EntityId(k)) {
                    values.push(v);
                }
            },
            None => {},
        }
        k += 1;
    }
    assert(initial.take(initial.len() as int) =~= initial);
    values
}

/// Removes and returns the last id of `v`.
///
pub(crate) fn pop_entity_id(v: &mut Vec<EntityId>) -> (r: Option<EntityId>)
    requires
        old(v)@.no_duplicates(),
    ensures
        final(v)@.no_duplicates(),
        match r {
            Some(e) => {
                &&& old(v)@.len() > 0
                &&& final(v)@ == old(v)@.drop_last()
                &&& old(v)@.to_set().contains(e)
                &&& final(v)@.to_set() == old(v)@.to_set().remove(e)
            },
            None => old(v)@.len() == 0 && final(v)@ == old(v)@,
        },
{
    let r = v.pop();
    proof {
        match r {
            Some(e) => {
                let s = old(v)@;
                assert(s == v@.push(e));
                assert(s[s.len() - 1] == e);
                assert forall|x: EntityId| #[trigger] v@.to_set().contains(x) <==> s.to_set().contains(x) && x != e by {
                    if v@.to_set().contains(x) {
                        let k = choose|k: int| 0 <= k < v@.len() && v@[k] == x;
                        assert(s[k] == x);
                    }
                    if s.to_set().contains(x) && x != e {
                        let k = choose|k: int| 0 <= k < s.len() && s[k] == x;
                        assert(k != s.len() - 1);
                        assert(v@[k] == x);
                    }
                }
                assert(v@.to_set() =~= s.to_set().remove(e));
                assert(s.to_set().contains(e));
            },
            None => {},
        }
    }
    r
}

/// Appends `e`, which is not yet in `v`, to `v`.
///
pub(crate) fn push_entity_id(v: &mut Vec<EntityId>, e: EntityId)
    requires
        old(v)@.no_duplicates(),
        !old(v)@.contains(e),
    ensures
        final(v)@ == old(v)@.push(e),
        final(v)@.no_duplicates(),
        final(v)@.to_set() == old(v)@.to_set().insert(e),
{
    let ghost before = v@;
    v.push(e);
    proof {
        before.lemma_push_to_set_commute(e);
        assert forall|a: int, b: int| 0 <= a < b < v@.len() implies v@[a] != v@[b] by {
            if b == before.len() {
                assert(before.contains(before[a]));
            } else {
                assert(before[a] == v@[a]);
            }
        }
    }
}

/// Whether `e` is an element of `v`.
///
pub(crate) fn contains_entity_id(v: &Vec<EntityId>, e: EntityId) -> (r: bool)
    ensures
        r == v@.contains(e),
{
    let mut i: usize = 0;
    while i < v.len()
        invariant
            i <= v@.len(),
            forall|j: int| 0 <= j < i ==> #[trigger] v@[j] != e,
        decreases v@.len() - i,
    {
        if v[i] == e {
            assert(v@[i as int] == e);
            return true;
        }
        i += 1;
    }
    false
}


/// Positions of the occupied cells of `cells` whose entity is not `skipped`, in order.
///
pub open spec fn occupied_positions<V>(cells: Seq<Option<V>>, skipped: Set<EntityId>) -> Seq<int>
    decreases cells.len(),
{
    if cells.len() == 0 {
        Seq::empty()
    } else {
        let rest = occupied_positions(cells.drop_last(), skipped);
        if cells.last() is Some && !skipped.contains(EntityId((cells.len() - 1) as usize)) {
            rest.push(cells.len() - 1)
        } else {
            rest
        }
    }
}

/// Whether cell `k` of `cells` is occupied by an entity that is not `skipped`.
///
pub open spec fn is_selected<V>(cells: Seq<Option<V>>, skipped: Set<EntityId>, k: int) -> bool {
    cells[k] is Some && !skipped.contains(EntityId(k as usize))
}

/// Occupied positions lie within the cells and point at selected cells.
///
pub proof fn lemma_occupied_positions<V>(cells: Seq<Option<V>>, skipped: Set<EntityId>)
    ensures
        forall|j: int| 0 <= j < occupied_positions(cells, skipped).len() ==> 0 <= #[trigger] occupied_positions(cells, skipped)[j] < cells.len()
            && is_selected(cells, skipped, occupied_positions(cells, skipped)[j]),
    decreases cells.len(),
{
    if cells.len() > 0 {
        let init = cells.drop_last();
        lemma_occupied_positions(init, skipped);
        let rest = occupied_positions(init, skipped);
        let all = occupied_positions(cells, skipped);
        assert forall|j: int| 0 <= j < all.len() implies 0 <= #[trigger] all[j] < cells.len() && is_selected(cells, skipped, all[j]) by {
            if j < rest.len() {
                assert(all[j] == rest[j]);
                assert(is_selected(init, skipped, rest[j]));
            }
        }
    }
}

/// The occupied values of `cells` are the values in the cells at the occupied positions, in the same order:
/// the `j`-th value that `components` gives sits in the cell that the `j`-th mutable reference points at.
///
pub proof fn lemma_occupied_values_positions<V>(cells: Seq<Option<V>>, skipped: Set<EntityId>)
    ensures
        occupied_values(cells, skipped).len() == occupied_positions(cells, skipped).len(),
        forall|j: int| 0 <= j < occupied_positions(cells, skipped).len() ==> #[trigger] occupied_values(cells, skipped)[j]
            == cells[occupied_positions(cells, skipped)[j]]->0,
    decreases cells.len(),
{
    lemma_occupied_positions(cells, skipped);
    if cells.len() > 0 {
        let init = cells.drop_last();
        lemma_occupied_values_positions(init, skipped);
        lemma_occupied_positions(init, skipped);
        let values = occupied_values(cells, skipped);
        let positions = occupied_positions(cells, skipped);
        let rest_values = occupied_values(init, skipped);
        let rest_positions = occupied_positions(init, skipped);
        assert forall|j: int| 0 <= j < positions.len() implies #[trigger] values[j] == cells[positions[j]]->0 by {
            if j < rest_positions.len() {
                assert(positions[j] == rest_positions[j]);
                assert(values[j] == rest_values[j]);
                assert(init[rest_positions[j]] == cells[rest_positions[j]]);
            }
        }
    }
}

/// Mutable references to the values in the occupied cells of `cells` whose entity is not in `skipped`,
/// in order.
///
pub(crate) fn occupied_mut<'a, V>(cells: &'a mut [Option<V>], skipped: &Vec<EntityId>) -> (refs: Vec<&'a mut V>)
    ensures
        ({
            let positions = occupied_positions(old(cells)@, skipped@.to_set());
            &&& refs@.len() == positions.len()
            &&& final(cells)@.len() == old(cells)@.len()
            &&& forall|j: int| 0 <= j < refs@.len() ==> *(#[trigger] refs@[j]) == old(cells)@[positions[j]]->0
            &&& forall|j: int| 0 <= j < refs@.len() ==> final(cells)@[positions[j]] == Some(*final(#[trigger] refs@[j]))
            &&& forall|k: int| 0 <= k < old(cells)@.len() && !is_selected(old(cells)@, skipped@.to_set(), k)
                ==> #[trigger] final(cells)@[k] == old(cells)@[k]
        }),
    decreases old(cells)@.len(),
{
    if cells.len() == 0 {
        return Vec::new();
    }
    let n = cells.len();
    let ghost whole = cells@;
    let ghost skip = skipped@.to_set();
    let (init, last) = cells.split_at_mut(n - 1);
    assert(whole.drop_last() =~= init@);
    let ghost init_old = init@;
    proof {
        lemma_occupied_positions(whole, skip);
        lemma_occupied_positions(init_old, skip);
        assert forall|k: int| 0 <= k < init_old.len() implies #[trigger] is_selected(init_old, skip, k) == is_selected(whole, skip, k) by {}
    }
    let mut refs = occupied_mut(init, skipped);
    let ghost refs_init = refs@;
    let selected = !contains_entity_id(skipped, EntityId(n - 1));
    match last.first_mut() {
        Some(cell) => match cell {
            Some(value) => {
                if selected {
                    refs.push(value);
                }
            },
            None => {},
        },
        None => {},
    }
    proof {
        assert forall|j: int| 0 <= j < refs_init.len() implies occupied_positions(whole, skip)[j] == occupied_positions(init_old, skip)[j] by {}
    }
    refs
}

/// Position of kind `c` in `ids`, if it is there.
///
pub(crate) fn find_id(ids: &Vec<ComponentId>, c: ComponentId) -> (r: Option<usize>)
    ensures
        match r {
            Some(k) => k < ids@.len() && ids@[k as int] == c,
            None => !ids@.contains(c),
        },
{
    let mut k: usize = 0;
    while k < ids.len()
        invariant
            k <= ids@.len(),
            forall|j: int| 0 <= j < k ==> #[trigger] ids@[j] != c,
        decreases ids@.len() - k,
    {
        if ids[k] == c {
            return Some(k);
        }
        k += 1;
    }
    None
}

/// The requested columns of `table`, disjoint: for every kind in `ids`, the mutable references
/// to the selected values of its column, if the table has such a column.
///
pub(crate) fn disjoint_occupied_mut<'a, V>(
    table: &'a mut [Column<V>],
    ids: &Vec<ComponentId>,
    skipped: &Vec<EntityId>,
) -> (result: Vec<Option<Vec<&'a mut V>>>)
    requires
        distinct_ids(old(table)@),
        ids@.no_duplicates(),
    ensures
        result@.len() == ids@.len(),
        final(table)@.len() == old(table)@.len(),
        forall|i: int| 0 <= i < old(table)@.len() && !ids@.contains(old(table)@[i].id) ==> #[trigger] final(table)@[i] == old(table)@[i],
        forall|k: int| 0 <= k < ids@.len() && !has_id(old(table)@, ids@[k]) ==> #[trigger] result@[k] is None,
        forall|i: int, k: int| 0 <= i < old(table)@.len() && 0 <= k < ids@.len() && #[trigger] old(table)@[i].id == #[trigger] ids@[k] ==> {
            let cells = old(table)@[i].cells@;
            let positions = occupied_positions(cells, skipped@.to_set());
            &&& result@[k] is Some
            &&& result@[k]->0@.len() == positions.len()
            &&& final(table)@[i].id == old(table)@[i].id
            &&& final(table)@[i].cells@.len() == cells.len()
            &&& forall|j: int| 0 <= j < positions.len() ==> *(#[trigger] result@[k]->0@[j]) == cells[positions[j]]->0
            &&& forall|j: int| 0 <= j < positions.len() ==> final(table)@[i].cells@[positions[j]] == Some(*final(#[trigger] result@[k]->0@[j]))
            &&& forall|q: int| 0 <= q < cells.len() && !is_selected(cells, skipped@.to_set(), q) ==> #[trigger] final(table)@[i].cells@[q] == cells[q]
        },
    decreases old(table)@.len(),
{
    let n = table.len();
    if n == 0 {
        let mut result: Vec<Option<Vec<&'a mut V>>> = Vec::new();
        let mut k: usize = 0;
        while k < ids.len()
            invariant
                k <= ids@.len(),
                result@.len() == k,
                forall|j: int| 0 <= j < k ==> #[trigger] result@[j] is None,
            decreases ids@.len() - k,
        {
            result.push(None);
            k += 1;
        }
        return result;
    }
    let ghost whole = table@;
    let (init, last) = table.split_at_mut(n - 1);
    assert(init@ =~= whole.subrange(0, n - 1));
    assert(distinct_ids(init@)) by {
        assert forall|a: int, b: int| 0 <= a < init@.len() && 0 <= b < init@.len() && a != b implies #[trigger] init@[a].id != #[trigger] init@[b].id by {
            assert(init@[a] == whole[a]);
            assert(init@[b] == whole[b]);
        }
    }
    let ghost init_old = init@;
    let mut result = disjoint_occupied_mut(init, ids, skipped);
    let ghost result_init = result@;
    let ghost mut placed: int = -1;
    assert(last@.len() == 1);
    assert(last@[0] == whole[n - 1]);
    match last.first_mut() {
        Some(column) => {
            match find_id(ids, column.id) {
                Some(k) => {
                    let refs = occupied_mut(column.cells.as_mut_slice(), skipped);
                    proof {
                        if has_id(init_old, ids@[k as int]) {
                            let i = choose|i: int| 0 <= i < init_old.len() && #[trigger] init_old[i].id == ids@[k as int];
                            assert(whole[i].id == whole[n - 1].id);
                        }
                    }
                    result.set(k, Some(refs));
                    proof {
                        placed = k as int;
                    }
                },
                None => {},
            }
        },
        None => {},
    }
    proof {
        let skip = skipped@.to_set();
        assert forall|i: int, k: int| 0 <= i < n - 1 && 0 <= k < ids@.len() && #[trigger] whole[i].id == #[trigger] ids@[k] implies {
            let cells = whole[i].cells@;
            let positions = occupied_positions(cells, skip);
            &&& result@[k] == result_init[k]
            &&& result@[k] is Some
        } by {
            assert(init_old[i] == whole[i]);
            assert(init_old[i].id == ids@[k]);
            assert(result_init[k] is Some);
            assert(whole[i].id != whole[n - 1].id);
        }
        if ids@.contains(whole[n - 1].id) {
            assert(0 <= placed < ids@.len() && ids@[placed] == whole[n - 1].id);
            assert forall|k: int| 0 <= k < ids@.len() && ids@[k] == whole[n - 1].id implies k == placed by {}
            assert(result@[placed] is Some);
        }
    }
    result
}
} // verus!
