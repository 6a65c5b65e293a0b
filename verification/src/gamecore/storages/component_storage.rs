//! Submodule that implements [`ComponentStorage`].
//!

use crate::gamecore::components::{Component, ComponentId};
use crate::gamecore::entities::{EntityId, EntityMut, EntityRef};
use crate::gamecore::storages::{
    is_selected, occupied_mut, occupied_positions,
    bundle_ids, bundle_value, collect_occupied, drain_occupied, lemma_table_map_remove, occupied_values, lemma_bundle_value_some, lemma_bundle_value_take,
    clear_row, clear_row_in_table, contains_entity_id, distinct_ids, find_column, lemma_clear_row,
    lemma_put_cell, lemma_table_map_index, lemma_table_map_update_any, lemma_take_cell, map_cell, padded, put_cell, put_in_table, rows_empty,
    table_map, take_cell, take_in_table, Column,
};
use vstd::prelude::*;

verus! {

/// [`ComponentStorage`] is a column-oriented structure-of-arrays based storage
/// that maps entities to their [`Component`]s.
///
/// Conceptually, [`ComponentStorage`] can be thought of as a map from [`ComponentId`]s to
/// columns of optional components, where each column holds components of one kind that belong
/// to different entities (the cell at index `i` belongs to the entity with index `i`).
///
/// # Note
/// Most storage functions that require [`EntityId`] do nothing
/// if the entity with that id is not present.
/// `ComponentStorage::contains_entity` tells whether the entity id is correct.
///
#[derive(Debug)]
pub struct ComponentStorage<V> {
    /// Maximal index that is vacant for entity insertion.
    ///
    max_vacant_index: usize,
    /// Removed entities (no entity occurs twice).
    ///
    removed_entities: Vec<EntityId>,
    /// Table that holds all components.
    ///
    table: Vec<Column<V>>,
}

impl<V> ComponentStorage<V> {
    /// Smallest entity index that was never handed out.
    ///
    pub closed spec fn vacancy(&self) -> nat {
        self.max_vacant_index as nat
    }

    /// Set of removed entities whose ids may be handed out again.
    ///
    pub closed spec fn removed(&self) -> Set<EntityId> {
        self.removed_entities@.to_set()
    }

    /// Component columns by kind.
    ///
    pub closed spec fn columns(&self) -> Map<ComponentId, Seq<Option<V>>> {
        table_map(self.table@)
    }

    /// Whether the entity `e` is currently stored.
    ///
    pub open spec fn is_live(&self, e: EntityId) -> bool {
        e.0 < self.vacancy() && !self.removed().contains(e)
    }

    /// Component of kind `c` of entity `e`, if present.
    ///
    pub open spec fn cell(&self, e: EntityId, c: ComponentId) -> Option<V> {
        map_cell(self.columns(), e, c)
    }

    /// Well-formedness of the storage.
    ///
    pub closed spec fn wf(&self) -> bool {
        &&& self.removed_entities@.no_duplicates()
        &&& forall|k: int| 0 <= k < self.removed_entities@.len() ==> (#[trigger] self.removed_entities@[k]).0 < self.max_vacant_index
        &&& distinct_ids(self.table@)
        &&& forall|c: ComponentId| #[trigger] self.columns().contains_key(c) ==> self.columns()[c].len() <= self.vacancy()
        &&& rows_empty(self.columns(), self.removed())
    }

    /// Ids of the live entities with index below `n`, in increasing order.
    ///
    pub open spec fn live_ids(&self, n: nat) -> Seq<EntityId>
        decreases n,
    {
        if n == 0 {
            Seq::empty()
        } else {
            let rest = self.live_ids((n - 1) as nat);
            if self.is_live(EntityId((n - 1) as usize)) {
                rest.push(EntityId((n - 1) as usize))
            } else {
                rest
            }
        }
    }

    /// Initializes new [`ComponentStorage`].
    ///
    /// Created [`ComponentStorage`] will not allocate until first insertions.
    ///
    pub fn new() -> (storage: Self)
        ensures
            storage.wf(),
            storage.vacancy() == 0,
            storage.removed() == Set::<EntityId>::empty(),
            storage.columns() == Map::<ComponentId, Seq<Option<V>>>::empty(),
    {
        let storage = ComponentStorage { max_vacant_index: 0, removed_entities: Vec::new(), table: Vec::new() };
        assert(storage.removed() =~= Set::<EntityId>::empty());
        assert(storage.columns() =~= Map::<ComponentId, Seq<Option<V>>>::empty());
        storage
    }

    /// Clears storage, removing all data.
    ///
    pub fn clear(&mut self)
        ensures
            final(self).wf(),
            final(self).vacancy() == 0,
            final(self).removed() == Set::<EntityId>::empty(),
            final(self).columns() == Map::<ComponentId, Seq<Option<V>>>::empty(),
    {
        self.max_vacant_index = 0;
        self.removed_entities.clear();
        self.table.clear();
        assert(self.removed() =~= Set::<EntityId>::empty());
        assert(self.columns() =~= Map::<ComponentId, Seq<Option<V>>>::empty());
    }

    /// Finds a suitable [`EntityId`] for a new entity: a removed one if there is one,
    /// otherwise the vacant index.
    ///
    fn obtain_entity_id(&mut self) -> (entity_id: EntityId)
        requires
            old(self).wf(),
            old(self).removed().len() > 0 || old(self).vacancy() < usize::MAX,
        ensures
            final(self).wf(),
            final(self).columns() == old(self).columns(),
            final(self).is_live(entity_id),
            forall|c: ComponentId| #[trigger] final(self).cell(entity_id, c) is None,
            old(self).removed().len() > 0 ==> {
                &&& old(self).removed().contains(entity_id)
                &&& final(self).removed() == old(self).removed().remove(entity_id)
                &&& final(self).vacancy() == old(self).vacancy()
            },
            old(self).removed().len() == 0 ==> {
                &&& entity_id == EntityId(old(self).vacancy() as usize)
                &&& final(self).removed() == old(self).removed()
                &&& final(self).vacancy() == old(self).vacancy() + 1
            },
    {
        proof {
            self.lemma_wf_facts();
            self.removed_entities@.unique_seq_to_set();
        }
        match self.removed_entities.pop() {
            Some(id) => {
                proof {
                    let s = old(self).removed_entities@;
                    assert(s == self.removed_entities@.push(id));
                    assert(s[s.len() - 1] == id);
                    assert(self.removed() =~= old(self).removed().remove(id)) by {
                        assert forall|e: EntityId| #[trigger] self.removed().contains(e) <==> old(self).removed().contains(e) && e != id by {
                            if self.removed().contains(e) {
                                let k = choose|k: int| 0 <= k < self.removed_entities@.len() && self.removed_entities@[k] == e;
                                assert(s[k] == e);
                            }
                            if old(self).removed().contains(e) && e != id {
                                let k = choose|k: int| 0 <= k < s.len() && s[k] == e;
                                assert(k != s.len() - 1);
                                assert(self.removed_entities@[k] == e);
                            }
                        }
                    }
                    assert(old(self).removed().contains(id));
                    assert forall|k: int| 0 <= k < self.removed_entities@.len() implies (#[trigger] self.removed_entities@[k]).0 < self.max_vacant_index by {
                        assert(s[k] == self.removed_entities@[k]);
                    }
                }
                id
            },
            None => {
                proof {
                    assert(old(self).removed_entities@.len() == 0);
                    assert(old(self).removed() =~= Set::<EntityId>::empty());
                }
                let id = EntityId(self.max_vacant_index);
                self.max_vacant_index = self.max_vacant_index + 1;
                proof {
                    assert(self.removed() == old(self).removed());
                    assert forall|c: ComponentId| #[trigger] self.columns().contains_key(c) implies self.columns()[c].len() <= self.vacancy() by {
                        assert(old(self).columns().contains_key(c));
                    }
                }
                id
            },
        }
    }

    /// Returns whether an entity with given id is currently stored or not.
    ///
    pub fn contains_entity(&self, entity_id: EntityId) -> (result: bool)
        requires
            self.wf(),
        ensures
            result == self.is_live(entity_id),
    {
        entity_id.0 < self.max_vacant_index && !contains_entity_id(&self.removed_entities, entity_id)
    }

    /// Returns number of entities that are currently present in the storage.
    ///
    pub fn entity_count(&self) -> (count: usize)
        requires
            self.wf(),
        ensures
            count == self.vacancy() - self.removed().len(),
    {
        proof {
            self.lemma_wf_facts();
            self.removed_entities@.unique_seq_to_set();
        }
        self.max_vacant_index - self.removed_entities.len()
    }

    /// Returns all the [`EntityId`]s that are valid, in increasing order.
    /// That allows iterating over all entities in a storage.
    ///
    pub fn entity_ids(&self) -> (ids: Vec<EntityId>)
        requires
            self.wf(),
        ensures
            ids@ == self.live_ids(self.vacancy()),
    {
        let mut ids: Vec<EntityId> = Vec::new();
        let mut index: usize = 0;
        while index < self.max_vacant_index
            invariant
                self.wf(),
                index <= self.vacancy(),
                ids@ == self.live_ids(index as nat),
            decreases self.vacancy() - index,
        {
            let entity_id = EntityId(index);
            if self.contains_entity(entity_id) {
                ids.push(entity_id);
            }
            index += 1;
        }
        ids
    }

    /// Inserts component into given entity and returns old value if present.
    ///
    /// Nothing happens (and `None` is returned) if the entity is not present.
    ///
    pub fn insert_component(&mut self, entity_id: EntityId, component: Component<V>) -> (previous: Option<V>)
        requires
            old(self).wf(),
        ensures
            final(self).wf(),
            final(self).vacancy() == old(self).vacancy(),
            final(self).removed() == old(self).removed(),
            old(self).is_live(entity_id) ==> {
                &&& previous == old(self).cell(entity_id, component.id)
                &&& final(self).columns() == put_cell(old(self).columns(), entity_id, component.id, (entity_id.0 + 1) as nat, Some(component.value))
            },
            !old(self).is_live(entity_id) ==> previous is None && *final(self) == *old(self),
    {
        if !self.contains_entity(entity_id) {
            return None;
        }
        let ghost cols = self.columns();
        proof {
            lemma_put_cell(cols, entity_id, component.id, (entity_id.0 + 1) as nat, Some(component.value));
        }
        let previous = put_in_table(&mut self.table, entity_id, component.id, entity_id.0 + 1, Some(component.value));
        proof {
            let cols2 = self.columns();
            assert forall|c: ComponentId| #[trigger] cols2.contains_key(c) implies cols2[c].len() <= self.vacancy() by {
                if c != component.id {
                    assert(cols.contains_key(c));
                }
            }
            assert forall|e: EntityId, c: ComponentId| #[trigger] self.removed().contains(e) implies #[trigger] map_cell(cols2, e, c) is None by {
                assert(map_cell(cols, e, c) is None);
            }
        }
        previous
    }

    /// Removes component from an entity and returns the old value if present.
    ///
    pub fn remove_component(&mut self, entity_id: EntityId, component_id: ComponentId) -> (previous: Option<V>)
        requires
            old(self).wf(),
        ensures
            final(self).wf(),
            final(self).vacancy() == old(self).vacancy(),
            final(self).removed() == old(self).removed(),
            old(self).is_live(entity_id) ==> {
                &&& previous == old(self).cell(entity_id, component_id)
                &&& final(self).columns() == take_cell(old(self).columns(), entity_id, component_id)
            },
            !old(self).is_live(entity_id) ==> previous is None && *final(self) == *old(self),
    {
        if !self.contains_entity(entity_id) {
            return None;
        }
        let ghost cols = self.columns();
        proof {
            lemma_take_cell(cols, entity_id, component_id);
        }
        let previous = take_in_table(&mut self.table, entity_id, component_id);
        proof {
            let cols2 = self.columns();
            assert forall|c: ComponentId| #[trigger] cols2.contains_key(c) implies cols2[c].len() <= self.vacancy() by {
                assert(cols.contains_key(c));
            }
            assert forall|e: EntityId, c: ComponentId| #[trigger] self.removed().contains(e) implies #[trigger] map_cell(cols2, e, c) is None by {
                assert(map_cell(cols, e, c) is None);
            }
        }
        previous
    }

    /// Removes all components from entity (the entity itself stays).
    ///
    pub fn clear_entity(&mut self, entity_id: EntityId)
        requires
            old(self).wf(),
        ensures
            final(self).wf(),
            final(self).vacancy() == old(self).vacancy(),
            final(self).removed() == old(self).removed(),
            old(self).is_live(entity_id) ==> final(self).columns() == clear_row(old(self).columns(), entity_id),
            !old(self).is_live(entity_id) ==> *final(self) == *old(self),
    {
        if !self.contains_entity(entity_id) {
            return;
        }
        let ghost cols = self.columns();
        proof {
            lemma_clear_row(cols, entity_id);
        }
        clear_row_in_table(&mut self.table, entity_id);
        proof {
            let cols2 = self.columns();
            assert forall|c: ComponentId| #[trigger] cols2.contains_key(c) implies cols2[c].len() <= self.vacancy() by {
                assert(cols.contains_key(c));
            }
            assert forall|e: EntityId, c: ComponentId| #[trigger] self.removed().contains(e) implies #[trigger] map_cell(cols2, e, c) is None by {
                assert(map_cell(cols, e, c) is None);
            }
        }
    }

    /// Removes entity from [`ComponentStorage`], returning whether it was present.
    ///
    /// All of its components are dropped and its id may be handed out again later.
    ///
    pub fn remove_entity(&mut self, entity_id: EntityId) -> (removed: bool)
        requires
            old(self).wf(),
        ensures
            final(self).wf(),
            removed == old(self).is_live(entity_id),
            final(self).vacancy() == old(self).vacancy(),
            removed ==> final(self).removed() == old(self).removed().insert(entity_id),
            removed ==> final(self).columns() == clear_row(old(self).columns(), entity_id),
            removed ==> final(self).vacancy() - final(self).removed().len() == old(self).vacancy() - old(self).removed().len() - 1,
            !final(self).is_live(entity_id),
            forall|e: EntityId| e != entity_id ==> (#[trigger] final(self).is_live(e) <==> old(self).is_live(e)),
            !removed ==> *final(self) == *old(self),
    {
        if !self.contains_entity(entity_id) {
            return false;
        }
        self.clear_entity(entity_id);
        let ghost before = self.removed_entities@;
        self.removed_entities.push(entity_id);
        proof {
            lemma_clear_row(old(self).columns(), entity_id);
            assert(self.removed() =~= old(self).removed().insert(entity_id)) by {
                assert forall|e: EntityId| #[trigger] self.removed().contains(e) <==> old(self).removed().contains(e) || e == entity_id by {
                    if self.removed().contains(e) {
                        let k = choose|k: int| 0 <= k < self.removed_entities@.len() && self.removed_entities@[k] == e;
                        if k < before.len() {
                            assert(before[k] == e);
                        }
                    }
                    if old(self).removed().contains(e) {
                        let k = choose|k: int| 0 <= k < before.len() && before[k] == e;
                        assert(self.removed_entities@[k] == e);
                    }
                    if e == entity_id {
                        assert(self.removed_entities@[before.len() as int] == e);
                    }
                }
            }
            assert(self.removed_entities@.no_duplicates()) by {
                assert forall|a: int, b: int| 0 <= a < b < self.removed_entities@.len() implies self.removed_entities@[a] != self.removed_entities@[b] by {
                    if b == before.len() {
                        assert(before.contains(before[a]));
                    } else {
                        assert(before[a] == self.removed_entities@[a]);
                    }
                }
            }
            assert forall|k: int| 0 <= k < self.removed_entities@.len() implies (#[trigger] self.removed_entities@[k]).0 < self.max_vacant_index by {
                if k < before.len() {
                    assert(before[k] == self.removed_entities@[k]);
                }
            }
            old(self).lemma_wf_facts();
            self.lemma_wf_facts();
        }
        true
    }

    /// Returns whether this component is present in an entity or not.
    ///
    pub fn contains_component(&self, entity_id: EntityId, component_id: ComponentId) -> (result: bool)
        requires
            self.wf(),
        ensures
            result == (!self.removed().contains(entity_id) && self.cell(entity_id, component_id) is Some),
    {
        if contains_entity_id(&self.removed_entities, entity_id) {
            return false;
        }
        match find_column(&self.table, component_id) {
            Some(i) => {
                proof {
                    lemma_table_map_index(self.table@, i as int);
                }
                entity_id.0 < self.table[i].cells.len() && self.table[i].cells[entity_id.0].is_some()
            },
            None => false,
        }
    }

    /// Returns immutable reference to the component of given entity if present.
    ///
    pub fn component(&self, entity_id: EntityId, component_id: ComponentId) -> (result: Option<&V>)
        requires
            self.wf(),
        ensures
            match result {
                Some(v) => self.is_live(entity_id) && self.cell(entity_id, component_id) == Some(*v),
                None => !self.is_live(entity_id) || self.cell(entity_id, component_id) is None,
            },
    {
        if !self.contains_entity(entity_id) {
            return None;
        }
        match find_column(&self.table, component_id) {
            Some(i) => {
                proof {
                    lemma_table_map_index(self.table@, i as int);
                }
                if entity_id.0 < self.table[i].cells.len() {
                    self.table[i].cells[entity_id.0].as_ref()
                } else {
                    None
                }
            },
            None => None,
        }
    }

    /// Returns mutable reference to the component of given entity if present.
    ///
    pub fn component_mut(&mut self, entity_id: EntityId, component_id: ComponentId) -> (result: Option<&mut V>)
        requires
            old(self).wf(),
        ensures
            match result {
                Some(v) => {
                    &&& old(self).is_live(entity_id)
                    &&& old(self).cell(entity_id, component_id) == Some(*v)
                    &&& final(self).wf()
                    &&& final(self).vacancy() == old(self).vacancy()
                    &&& final(self).removed() == old(self).removed()
                    &&& final(self).columns() == old(self).columns().insert(
                        component_id,
                        old(self).columns()[component_id].update(entity_id.0 as int, Some(*final(v))),
                    )
                },
                None => {
                    &&& !old(self).is_live(entity_id) || old(self).cell(entity_id, component_id) is None
                    &&& *final(self) == *old(self)
                },
            },
    {
        if !self.contains_entity(entity_id) {
            return None;
        }
        match find_column(&self.table, component_id) {
            Some(i) => {
                proof {
                    lemma_table_map_index(self.table@, i as int);
                }
                if entity_id.0 < self.table[i].cells.len() && self.table[i].cells[entity_id.0].is_some() {
                    proof {
                        lemma_table_map_update_any(self.table@, i as int);
                        let cols = self.columns();
                        assert forall|v: V| #[trigger] rows_empty(
                            cols.insert(component_id, cols[component_id].update(entity_id.0 as int, Some(v))),
                            self.removed(),
                        ) by {
                            let m = cols.insert(component_id, cols[component_id].update(entity_id.0 as int, Some(v)));
                            assert forall|e: EntityId, c: ComponentId| #[trigger] self.removed().contains(e) implies #[trigger] map_cell(m, e, c) is None by {
                                assert(map_cell(cols, e, c) is None);
                            }
                        }
                    }
                    self.table[i].cells[entity_id.0].as_mut()
                } else {
                    None
                }
            },
            None => None,
        }
    }

    /// Returns mutable references to all components of one kind, in entity index order.
    ///
    /// Returns `None` if components of this kind are not present in the storage.
    ///
    pub fn components_mut(&mut self, component_id: ComponentId) -> (components: Option<Vec<&mut V>>)
        requires
            old(self).wf(),
        ensures
            final(self).wf(),
            final(self).vacancy() == old(self).vacancy(),
            final(self).removed() == old(self).removed(),
            match components {
                Some(refs) => {
                    let column = old(self).columns()[component_id];
                    let positions = occupied_positions(column, old(self).removed());
                    &&& old(self).columns().contains_key(component_id)
                    &&& refs@.len() == positions.len()
                    &&& forall|j: int| 0 <= j < refs@.len() ==> *(#[trigger] refs@[j]) == column[positions[j]]->0
                    &&& final(self).columns().dom() == old(self).columns().dom()
                    &&& forall|c: ComponentId| c != component_id && old(self).columns().contains_key(c)
                        ==> #[trigger] final(self).columns()[c] == old(self).columns()[c]
                    &&& final(self).columns()[component_id].len() == column.len()
                    &&& forall|j: int| 0 <= j < refs@.len() ==> final(self).columns()[component_id][positions[j]] == Some(*final(#[trigger] refs@[j]))
                    &&& forall|k: int| 0 <= k < column.len() && !is_selected(column, old(self).removed(), k)
                        ==> #[trigger] final(self).columns()[component_id][k] == column[k]
                },
                None => !old(self).columns().contains_key(component_id) && *final(self) == *old(self),
            },
    {
        match find_column(&self.table, component_id) {
            Some(i) => {
                proof {
                    lemma_table_map_index(self.table@, i as int);
                    lemma_table_map_update_any(self.table@, i as int);
                    let cols = self.columns();
                    assert forall|f: Seq<Option<V>>| f.len() == cols[component_id].len() && (forall|k: int| 0 <= k < f.len() && !is_selected(cols[component_id], self.removed(), k) ==> #[trigger] f[k] == cols[component_id][k])
                        implies #[trigger] rows_empty(cols.insert(component_id, f), self.removed()) by {
                        let m = cols.insert(component_id, f);
                        assert forall|e: EntityId, c: ComponentId| #[trigger] self.removed().contains(e) implies #[trigger] map_cell(m, e, c) is None by {
                            assert(map_cell(cols, e, c) is None);
                        }
                    }
                }
                let refs = occupied_mut(self.table[i].cells.as_mut_slice(), &self.removed_entities);
                Some(refs)
            },
            None => None,
        }
    }

    /// Inserts components into given entity (for repeated kinds, the last one stays).
    ///
    /// Nothing happens if the entity is not present.
    ///
    pub fn insert_many_components(&mut self, entity_id: EntityId, components: Vec<Component<V>>)
        requires
            old(self).wf(),
        ensures
            final(self).wf(),
            final(self).vacancy() == old(self).vacancy(),
            final(self).removed() == old(self).removed(),
            old(self).is_live(entity_id) ==> {
                &&& final(self).columns().dom() == old(self).columns().dom().union(bundle_ids(components@))
                &&& forall|e: EntityId, c: ComponentId| #[trigger] final(self).cell(e, c) == if e == entity_id
                    && bundle_value(components@, c) is Some {
                    bundle_value(components@, c)
                } else {
                    old(self).cell(e, c)
                }
            },
            !old(self).is_live(entity_id) ==> *final(self) == *old(self),
    {
        if !self.contains_entity(entity_id) {
            return;
        }
        let ghost bundle = components@;
        let ghost start = *self;
        let total = components.len();
        assert(bundle.len() == total);
        let mut components = components;
        let mut reversed: Vec<Component<V>> = Vec::new();
        while components.len() > 0
            invariant
                reversed@.len() + components@.len() == bundle.len(),
                forall|k: int| 0 <= k < components@.len() ==> #[trigger] components@[k] == bundle[k],
                forall|k: int| 0 <= k < reversed@.len() ==> #[trigger] reversed@[k] == bundle[bundle.len() - 1 - k],
            decreases components@.len(),
        {
            let component = components.pop().unwrap();
            reversed.push(component);
        }
        let mut index: usize = 0;
        while reversed.len() > 0
            invariant
                self.wf(),
                start.is_live(entity_id),
                self.vacancy() == start.vacancy(),
                self.removed() == start.removed(),
                index + reversed@.len() == bundle.len(),
                bundle.len() <= usize::MAX,
                forall|k: int| 0 <= k < reversed@.len() ==> #[trigger] reversed@[k] == bundle[bundle.len() - 1 - k],
                forall|c: ComponentId| #[trigger] self.columns().contains_key(c) <==> start.columns().contains_key(c)
                    || bundle_ids(bundle.take(index as int)).contains(c),
                forall|e: EntityId, c: ComponentId| #[trigger] self.cell(e, c) == if e == entity_id
                    && bundle_value(bundle.take(index as int), c) is Some {
                    bundle_value(bundle.take(index as int), c)
                } else {
                    start.cell(e, c)
                },
            decreases reversed@.len(),
        {
            let component = reversed.pop().unwrap();
            let ghost before = *self;
            let ghost k = index as int;
            assert(component == bundle[k]);
            let _ = self.insert_component(entity_id, component);
            proof {
                lemma_put_cell(before.columns(), entity_id, component.id, (entity_id.0 + 1) as nat, Some(component.value));
                assert forall|c: ComponentId| #[trigger] bundle_ids(bundle.take(k + 1)).contains(c) <==> bundle_ids(bundle.take(k)).contains(c) || c == component.id by {
                    lemma_bundle_value_some(bundle.take(k + 1), c);
                    lemma_bundle_value_some(bundle.take(k), c);
                    lemma_bundle_value_take(bundle, k, c);
                }
                assert forall|e: EntityId, c: ComponentId| #[trigger] self.cell(e, c) == if e == entity_id
                    && bundle_value(bundle.take(k + 1), c) is Some {
                    bundle_value(bundle.take(k + 1), c)
                } else {
                    start.cell(e, c)
                } by {
                    lemma_bundle_value_take(bundle, k, c);
                    assert(self.cell(e, c) == map_cell(self.columns(), e, c));
                    assert(before.cell(e, c) == map_cell(before.columns(), e, c));
                }
            }
            index += 1;
        }
        proof {
            assert(bundle.take(bundle.len() as int) =~= bundle);
            assert(self.columns().dom() =~= start.columns().dom().union(bundle_ids(bundle)));
        }
    }

    /// Removes components of the given kinds from entity.
    ///
    /// Nothing happens if the entity is not present.
    ///
    pub fn remove_many_components(&mut self, entity_id: EntityId, component_ids: Vec<ComponentId>)
        requires
            old(self).wf(),
        ensures
            final(self).wf(),
            final(self).vacancy() == old(self).vacancy(),
            final(self).removed() == old(self).removed(),
            old(self).is_live(entity_id) ==> {
                &&& final(self).columns().dom() == old(self).columns().dom()
                &&& forall|e: EntityId, c: ComponentId| #[trigger] final(self).cell(e, c) == if e == entity_id
                    && component_ids@.contains(c) {
                    None
                } else {
                    old(self).cell(e, c)
                }
            },
            !old(self).is_live(entity_id) ==> *final(self) == *old(self),
    {
        if !self.contains_entity(entity_id) {
            return;
        }
        let ghost start = *self;
        let mut index: usize = 0;
        while index < component_ids.len()
            invariant
                self.wf(),
                start.is_live(entity_id),
                self.vacancy() == start.vacancy(),
                self.removed() == start.removed(),
                index <= component_ids@.len(),
                self.columns().dom() == start.columns().dom(),
                forall|e: EntityId, c: ComponentId| #[trigger] self.cell(e, c) == if e == entity_id
                    && component_ids@.take(index as int).contains(c) {
                    None
                } else {
                    start.cell(e, c)
                },
            decreases component_ids@.len() - index,
        {
            let ghost before = *self;
            let component_id = component_ids[index];
            let _ = self.remove_component(entity_id, component_id);
            proof {
                lemma_take_cell(before.columns(), entity_id, component_id);
                assert(self.columns().dom() =~= start.columns().dom());
                assert forall|c: ComponentId| #[trigger] component_ids@.take(index + 1).contains(c) <==> component_ids@.take(index as int).contains(c) || c == component_id by {
                    if component_ids@.take(index + 1).contains(c) {
                        let j = choose|j: int| 0 <= j < index + 1 && #[trigger] component_ids@.take(index + 1)[j] == c;
                        if j < index {
                            assert(component_ids@.take(index as int)[j] == c);
                        }
                    }
                    if component_ids@.take(index as int).contains(c) {
                        let j = choose|j: int| 0 <= j < index && #[trigger] component_ids@.take(index as int)[j] == c;
                        assert(component_ids@.take(index + 1)[j] == c);
                    }
                    if c == component_id {
                        assert(component_ids@.take(index + 1)[index as int] == c);
                    }
                }
                assert forall|e: EntityId, c: ComponentId| #[trigger] self.cell(e, c) == if e == entity_id
                    && component_ids@.take(index + 1).contains(c) {
                    None
                } else {
                    start.cell(e, c)
                } by {
                    assert(self.cell(e, c) == map_cell(self.columns(), e, c));
                    assert(before.cell(e, c) == map_cell(before.columns(), e, c));
                }
            }
            index += 1;
        }
        proof {
            assert(component_ids@.take(component_ids@.len() as int) =~= component_ids@);
        }
    }

    /// `next` is `self` after handing out `entity_id` for a new entity:
    /// a removed id if there is one, otherwise the vacant index.
    ///
    pub open spec fn hands_out(&self, next: &Self, entity_id: EntityId) -> bool {
        if self.removed().len() > 0 {
            &&& self.removed().contains(entity_id)
            &&& next.removed() == self.removed().remove(entity_id)
            &&& next.vacancy() == self.vacancy()
        } else {
            &&& entity_id == EntityId(self.vacancy() as usize)
            &&& next.removed() == self.removed()
            &&& next.vacancy() == self.vacancy() + 1
        }
    }

    /// Inserts entity with components into [`ComponentStorage`]
    /// and returns mutable reference to it, so it could be further modified.
    ///
    pub fn insert_entity(&mut self, components: Vec<Component<V>>) -> (entity: EntityMut<'_, ComponentStorage<V>>)
        requires
            old(self).wf(),
            old(self).removed().len() > 0 || old(self).vacancy() < usize::MAX,
        ensures
            *final(self) == *final(entity.component_storage),
            entity.component_storage.wf(),
            old(self).hands_out(entity.component_storage, entity.entity_id),
            !old(self).is_live(entity.entity_id),
            entity.component_storage.is_live(entity.entity_id),
            entity.component_storage.vacancy() - entity.component_storage.removed().len() == old(self).vacancy() - old(self).removed().len() + 1,
            forall|e: EntityId| e != entity.entity_id ==> (#[trigger] entity.component_storage.is_live(e) <==> old(self).is_live(e)),
            entity.component_storage.columns().dom() == old(self).columns().dom().union(bundle_ids(components@)),
            forall|e: EntityId, c: ComponentId| #[trigger] entity.component_storage.cell(e, c) == if e == entity.entity_id {
                bundle_value(components@, c)
            } else {
                old(self).cell(e, c)
            },
    {
        let entity_id = self.obtain_entity_id();
        let ghost obtained = *self;
        self.insert_many_components(entity_id, components);
        proof {
            old(self).lemma_wf_facts();
            self.lemma_wf_facts();
            assert forall|e: EntityId, c: ComponentId| #[trigger] self.cell(e, c) == if e == entity_id {
                bundle_value(components@, c)
            } else {
                old(self).cell(e, c)
            } by {
                assert(obtained.cell(entity_id, c) is None);
                assert(obtained.cell(e, c) == old(self).cell(e, c));
            }
        }
        EntityMut::new(entity_id, self)
    }

    /// Inserts empty entity.
    /// Equivalent of `storage.insert_entity(Vec::new())`.
    ///
    pub fn insert_empty_entity(&mut self) -> (entity: EntityMut<'_, ComponentStorage<V>>)
        requires
            old(self).wf(),
            old(self).removed().len() > 0 || old(self).vacancy() < usize::MAX,
        ensures
            *final(self) == *final(entity.component_storage),
            entity.component_storage.wf(),
            old(self).hands_out(entity.component_storage, entity.entity_id),
            !old(self).is_live(entity.entity_id),
            entity.component_storage.is_live(entity.entity_id),
            entity.component_storage.vacancy() - entity.component_storage.removed().len() == old(self).vacancy() - old(self).removed().len() + 1,
            entity.component_storage.columns().dom() == old(self).columns().dom(),
            forall|e: EntityId, c: ComponentId| #[trigger] entity.component_storage.cell(e, c) == if e == entity.entity_id {
                None
            } else {
                old(self).cell(e, c)
            },
    {
        let entity = self.insert_entity(Vec::new());
        proof {
            assert forall|c: ComponentId| !(#[trigger] bundle_ids(Seq::<Component<V>>::empty()).contains(c)) by {}
            assert(entity.component_storage.columns().dom() =~= old(self).columns().dom());
        }
        entity
    }

    /// Returns immutable reference to entity in [`ComponentStorage`] if present.
    ///
    pub fn entity(&self, entity_id: EntityId) -> (entity: Option<EntityRef<'_, ComponentStorage<V>>>)
        requires
            self.wf(),
        ensures
            match entity {
                Some(r) => self.is_live(entity_id) && r.entity_id == entity_id && r.component_storage == self,
                None => !self.is_live(entity_id),
            },
    {
        if self.contains_entity(entity_id) {
            Some(EntityRef::new(entity_id, self))
        } else {
            None
        }
    }

    /// Returns mutable reference to entity in [`ComponentStorage`] if present.
    ///
    pub fn entity_mut(&mut self, entity_id: EntityId) -> (entity: Option<EntityMut<'_, ComponentStorage<V>>>)
        requires
            old(self).wf(),
        ensures
            match entity {
                Some(r) => {
                    &&& old(self).is_live(entity_id)
                    &&& r.entity_id == entity_id
                    &&& *r.component_storage == *old(self)
                    &&& *final(self) == *final(r.component_storage)
                },
                None => !old(self).is_live(entity_id) && *final(self) == *old(self),
            },
    {
        if self.contains_entity(entity_id) {
            Some(EntityMut::new(entity_id, self))
        } else {
            None
        }
    }

    /// Removes all components of one kind from all entities and returns them in index order.
    /// Returns `None` if components of this kind were never present in the storage
    /// or were removed by this function previously.
    ///
    pub fn remove_components(&mut self, component_id: ComponentId) -> (removed: Option<Vec<V>>)
        requires
            old(self).wf(),
        ensures
            final(self).wf(),
            final(self).vacancy() == old(self).vacancy(),
            final(self).removed() == old(self).removed(),
            final(self).columns() == old(self).columns().remove(component_id),
            match removed {
                Some(values) => old(self).columns().contains_key(component_id) && values@ == occupied_values(
                    old(self).columns()[component_id],
                    Set::<EntityId>::empty(),
                ),
                None => !old(self).columns().contains_key(component_id),
            },
    {
        match find_column(&self.table, component_id) {
            Some(i) => {
                proof {
                    lemma_table_map_index(self.table@, i as int);
                    lemma_table_map_remove(self.table@, i as int);
                }
                let column = self.table.remove(i);
                proof {
                    let cols = old(self).columns();
                    let cols2 = self.columns();
                    assert forall|c: ComponentId| #[trigger] cols2.contains_key(c) implies cols2[c].len() <= self.vacancy() by {
                        assert(cols.contains_key(c));
                    }
                    assert forall|e: EntityId, c: ComponentId| #[trigger] self.removed().contains(e) implies #[trigger] map_cell(cols2, e, c) is None by {
                        assert(map_cell(cols, e, c) is None);
                    }
                }
                let nothing: Vec<EntityId> = Vec::new();
                assert(nothing@.to_set() =~= Set::<EntityId>::empty());
                Some(drain_occupied(column.cells, &nothing))
            },
            None => {
                assert(old(self).columns().remove(component_id) =~= old(self).columns());
                None
            },
        }
    }

    /// Returns immutable references to all components of one kind, in entity index order.
    /// Returns `None` if components of this kind were never present in the storage.
    ///
    pub fn components(&self, component_id: ComponentId) -> (components: Option<Vec<&V>>)
        requires
            self.wf(),
        ensures
            match components {
                Some(values) => self.columns().contains_key(component_id) && values@.unref() == occupied_values(
                    self.columns()[component_id],
                    self.removed(),
                ),
                None => !self.columns().contains_key(component_id),
            },
    {
        match find_column(&self.table, component_id) {
            Some(i) => {
                proof {
                    lemma_table_map_index(self.table@, i as int);
                }
                Some(collect_occupied(&self.table[i].cells, &self.removed_entities))
            },
            None => None,
        }
    }

    /// Number of removed ids that `n` new entities take before fresh indices are used.
    ///
    pub open spec fn reused_count(&self, n: nat) -> nat {
        if n <= self.removed().len() {
            n
        } else {
            self.removed().len()
        }
    }

    /// `ids` are the ids that `n` consecutive new entities get from `self`:
    /// first removed ids, then consecutive fresh indices starting at the vacant index.
    ///
    pub open spec fn hands_out_many(&self, next: &Self, ids: Seq<EntityId>) -> bool {
        let reused = self.reused_count(ids.len());
        &&& ids.no_duplicates()
        &&& forall|k: int| 0 <= k < reused ==> self.removed().contains(#[trigger] ids[k])
        &&& forall|k: int| reused <= k < ids.len() ==> #[trigger] ids[k] == EntityId((self.vacancy() + (k - reused)) as usize)
        &&& next.removed() == self.removed().difference(ids.to_set())
        &&& next.vacancy() == self.vacancy() + (ids.len() - reused)
    }

    /// Inserts multiple entities with components into [`ComponentStorage`]
    /// and returns immutable references to those entities (the `k`-th entity gets the `k`-th set).
    ///
    pub fn insert_many_entities(&mut self, many_components: Vec<Vec<Component<V>>>) -> (entities: Vec<
        EntityRef<'_, ComponentStorage<V>>,
    >)
        requires
            old(self).wf(),
            many_components@.len() <= old(self).removed().len() + (usize::MAX - old(self).vacancy()),
        ensures
            final(self).wf(),
            entities@.len() == many_components@.len(),
            forall|k: int| 0 <= k < entities@.len() ==> *(#[trigger] entities@[k]).component_storage == *final(self),
            old(self).hands_out_many(final(self), Seq::new(entities@.len(), |k: int| entities@[k].entity_id)),
            forall|k: int| 0 <= k < entities@.len() ==> final(self).is_live(#[trigger] entities@[k].entity_id),
            final(self).vacancy() - final(self).removed().len() == old(self).vacancy() - old(self).removed().len() + many_components@.len(),
            forall|k: int, c: ComponentId| 0 <= k < entities@.len() ==> #[trigger] final(self).cell(entities@[k].entity_id, c)
                == bundle_value(many_components@[k]@, c),
            forall|e: EntityId, c: ComponentId| !Seq::new(entities@.len(), |k: int| entities@[k].entity_id).contains(e)
                ==> #[trigger] final(self).cell(e, c) == old(self).cell(e, c),
            forall|c: ComponentId| #[trigger] final(self).columns().contains_key(c) <==> old(self).columns().contains_key(c)
                || exists|k: int| 0 <= k < many_components@.len() && #[trigger] bundle_ids(many_components@[k]@).contains(c),
    {
        let ghost start = *self;
        let ghost bundles = many_components@;
        proof {
            start.removed_entities@.unique_seq_to_set();
            start.lemma_wf_facts();
        }
        let n = many_components.len();
        let mut ids: Vec<EntityId> = Vec::new();
        assert(self.removed() =~= start.removed().difference(ids@.to_set()));
        while ids.len() < n
            invariant
                self.wf(),
                start.wf(),
                n == bundles.len(),
                ids@.len() <= n,
                n <= start.removed().len() + (usize::MAX - start.vacancy()),
                start.removed().finite(),
                self.removed().finite(),
                self.columns() == start.columns(),
                start.hands_out_many(self, ids@),
                self.removed().len() == start.removed().len() - start.reused_count(ids@.len()),
                forall|k: int| 0 <= k < ids@.len() ==> self.is_live(#[trigger] ids@[k]) && !start.is_live(ids@[k]),
            decreases n - ids@.len(),
        {
            let ghost before = *self;
            proof {
                self.removed_entities@.unique_seq_to_set();
            }
            let entity_id = self.obtain_entity_id();
            let ghost k = ids@.len();
            proof {
                self.removed_entities@.unique_seq_to_set();
                let r = start.reused_count(k);
                let r2 = start.reused_count(k + 1);
                if before.removed().len() > 0 {
                    assert(r2 == r + 1);
                    assert(start.removed().contains(entity_id));
                } else {
                    assert(r2 == r);
                }
                assert(!ids@.contains(entity_id)) by {
                    if ids@.contains(entity_id) {
                        let j = choose|j: int| 0 <= j < ids@.len() && ids@[j] == entity_id;
                        assert(before.is_live(ids@[j]));
                    }
                }
            }
            let ghost old_ids = ids@;
            ids.push(entity_id);
            proof {
                old_ids.lemma_push_to_set_commute(entity_id);
                assert(ids@ == old_ids.push(entity_id));
                if before.removed().len() == 0 {
                    assert(!start.removed().contains(entity_id));
                }
                assert(self.removed() =~= start.removed().difference(ids@.to_set()));
                assert forall|j: int| 0 <= j < ids@.len() implies self.is_live(#[trigger] ids@[j]) && !start.is_live(ids@[j]) by {
                    if j < k {
                        assert(ids@[j] != entity_id);
                    }
                }
            }
        }
        let mut many_components = many_components;
        let ghost obtained = *self;
        while many_components.len() > 0
            invariant
                self.wf(),
                ids@.len() == n,
                n == bundles.len(),
                many_components@.len() <= n,
                many_components@ == bundles.take(many_components@.len() as int),
                ids@.no_duplicates(),
                self.vacancy() == obtained.vacancy(),
                self.removed() == obtained.removed(),
                forall|k: int| 0 <= k < n ==> self.is_live(#[trigger] ids@[k]),
                forall|k: int, c: ComponentId| 0 <= k < n ==> #[trigger] self.cell(ids@[k], c) == if k < many_components@.len() {
                    None
                } else {
                    bundle_value(bundles[k]@, c)
                },
                forall|e: EntityId, c: ComponentId| !ids@.contains(e) ==> #[trigger] self.cell(e, c) == start.cell(e, c),
                forall|c: ComponentId| #[trigger] self.columns().contains_key(c) <==> start.columns().contains_key(c)
                    || exists|k: int| many_components@.len() <= k < n && #[trigger] bundle_ids(bundles[k]@).contains(c),
            decreases many_components@.len(),
        {
            let ghost before = *self;
            let ghost m = many_components@.len() - 1;
            let index = many_components.len() - 1;
            let components = many_components.pop().unwrap();
            assert(components == bundles[m]);
            let entity_id = ids[index];
            self.insert_many_components(entity_id, components);
            proof {
                assert(many_components@ =~= bundles.take(m));
                assert forall|k: int, c: ComponentId| 0 <= k < n implies #[trigger] self.cell(ids@[k], c) == if k < m {
                    None
                } else {
                    bundle_value(bundles[k]@, c)
                } by {
                    if k != m {
                        assert(ids@[k] != ids@[m]);
                    }
                }
                assert forall|e: EntityId, c: ComponentId| !ids@.contains(e) implies #[trigger] self.cell(e, c) == start.cell(e, c) by {
                    assert(e != ids@[m]);
                }
                assert forall|c: ComponentId| #[trigger] self.columns().contains_key(c) <==> start.columns().contains_key(c)
                    || exists|k: int| m <= k < n && #[trigger] bundle_ids(bundles[k]@).contains(c) by {
                    if bundle_ids(bundles[m]@).contains(c) {
                        assert(self.columns().contains_key(c));
                    }
                    if exists|k: int| m + 1 <= k < n && #[trigger] bundle_ids(bundles[k]@).contains(c) {
                        let k = choose|k: int| m + 1 <= k < n && #[trigger] bundle_ids(bundles[k]@).contains(c);
                        assert(before.columns().contains_key(c));
                    }
                    if exists|k: int| m <= k < n && #[trigger] bundle_ids(bundles[k]@).contains(c) {
                        let k = choose|k: int| m <= k < n && #[trigger] bundle_ids(bundles[k]@).contains(c);
                        if k != m {
                            assert(before.columns().contains_key(c));
                        }
                    }
                }
            }
        }
        let this: &ComponentStorage<V> = self;
        let mut entities: Vec<EntityRef<'_, ComponentStorage<V>>> = Vec::new();
        let mut k: usize = 0;
        while k < n
            invariant
                k <= n,
                ids@.len() == n,
                entities@.len() == k,
                forall|j: int| 0 <= j < k ==> (#[trigger] entities@[j]).entity_id == ids@[j] && entities@[j].component_storage == this,
            decreases n - k,
        {
            entities.push(EntityRef::new(ids[k], this));
            k += 1;
        }
        proof {
            assert(Seq::new(entities@.len(), |j: int| entities@[j].entity_id) =~= ids@);
        }
        entities
    }

    /// Facts about a well-formed storage: the removed ids are finitely many and were all handed
    /// out before, and no component lies outside the handed-out rows of a live entity.
    ///
    pub proof fn lemma_wf_facts(&self)
        requires
            self.wf(),
        ensures
            self.removed().finite(),
            self.vacancy() <= usize::MAX,
            self.removed().len() <= self.vacancy(),
            forall|e: EntityId| #[trigger] self.removed().contains(e) ==> e.0 < self.vacancy(),
            forall|e: EntityId, c: ComponentId| e.0 >= self.vacancy() ==> #[trigger] self.cell(e, c) is None,
            forall|e: EntityId, c: ComponentId| #[trigger] self.cell(e, c) is Some ==> self.is_live(e),
    {
        self.removed_entities@.unique_seq_to_set();
        let s = Set::new(|i: int| 0 <= i < self.vacancy());
        let r = self.removed().map(|e: EntityId| e.0 as int);
        assert forall|e: EntityId| #[trigger] self.removed().contains(e) implies e.0 < self.vacancy() by {
            let k = choose|k: int| 0 <= k < self.removed_entities@.len() && self.removed_entities@[k] == e;
            assert(self.removed_entities@[k].0 < self.max_vacant_index);
        }
        vstd::set_lib::lemma_int_range(0, self.vacancy() as int);
        assert(s =~= vstd::set_lib::set_int_range(0, self.vacancy() as int));
        assert(self.removed().finite()) by {
            self.removed_entities@.lemma_cardinality_of_set();
        }
        assert(vstd::relations::injective_on(|e: EntityId| e.0 as int, self.removed()));
        vstd::set_lib::lemma_map_size(self.removed(), r, |e: EntityId| e.0 as int);
        assert(r.subset_of(s));
        vstd::set_lib::lemma_len_subset(r, s);
        assert forall|e: EntityId, c: ComponentId| e.0 >= self.vacancy() implies #[trigger] self.cell(e, c) is None by {
            if self.columns().contains_key(c) {
                assert(self.columns()[c].len() <= self.vacancy());
            }
        }
    }
}

/// Removed entities whose index is below `n`.
///
pub open spec fn removed_below(removed: Set<EntityId>, n: nat) -> Set<EntityId> {
    removed.filter(|e: EntityId| e.0 < n)
}

impl<V> ComponentStorage<V> {
    /// Counting live entities below `n`: together with the removed ones they are all the indices below `n`.
    ///
    proof fn lemma_live_ids_len(&self, n: nat)
        requires
            self.wf(),
            n <= self.vacancy(),
        ensures
            removed_below(self.removed(), n).finite(),
            self.live_ids(n).len() + removed_below(self.removed(), n).len() == n,
        decreases n,
    {
        self.lemma_wf_facts();
        assert(self.removed().finite()) by {
            self.removed_entities@.lemma_cardinality_of_set();
        }
        self.removed().lemma_len_filter(|e: EntityId| e.0 < n);
        if n == 0 {
            assert(removed_below(self.removed(), 0) =~= Set::<EntityId>::empty());
        } else {
            let m = (n - 1) as nat;
            self.lemma_live_ids_len(m);
            let e = EntityId(m as usize);
            if self.is_live(e) {
                assert(removed_below(self.removed(), n) =~= removed_below(self.removed(), m));
            } else {
                assert(removed_below(self.removed(), n) =~= removed_below(self.removed(), m).insert(e));
            }
        }
    }

    /// Law: the number of entities that `entity_count` gives is the number of ids that
    /// `entity_ids` lists.
    ///
    pub proof fn law_entity_count_matches_ids(&self)
        requires
            self.wf(),
        ensures
            self.live_ids(self.vacancy()).len() == self.vacancy() - self.removed().len(),
    {
        self.lemma_wf_facts();
        self.lemma_live_ids_len(self.vacancy());
        assert(removed_below(self.removed(), self.vacancy()) =~= self.removed());
    }

    /// Law: `contains_component` answers `true` exactly when `component` finds the component.
    ///
    pub proof fn law_contains_component_iff_found(&self, e: EntityId, c: ComponentId)
        requires
            self.wf(),
        ensures
            (!self.removed().contains(e) && self.cell(e, c) is Some) <==> (self.is_live(e) && self.cell(e, c) is Some),
    {
        self.lemma_wf_facts();
    }
}

/// Law: after a component is inserted, reading the cell gives it back, and every other cell is as before.
///
pub proof fn law_read_after_insert<V>(columns: Map<ComponentId, Seq<Option<V>>>, e: EntityId, c: ComponentId, value: V)
    ensures
        map_cell(put_cell(columns, e, c, (e.0 + 1) as nat, Some(value)), e, c) == Some(value),
        forall|e2: EntityId, c2: ComponentId| !(e2 == e && c2 == c) ==> #[trigger] map_cell(put_cell(columns, e, c, (e.0 + 1) as nat, Some(value)), e2, c2) == map_cell(columns, e2, c2),
{
    lemma_put_cell(columns, e, c, (e.0 + 1) as nat, Some(value));
}

/// Law: after a component is removed, reading the cell gives nothing, and every other cell is as before.
///
pub proof fn law_read_after_remove<V>(columns: Map<ComponentId, Seq<Option<V>>>, e: EntityId, c: ComponentId)
    ensures
        map_cell(take_cell(columns, e, c), e, c) is None,
        forall|e2: EntityId, c2: ComponentId| !(e2 == e && c2 == c) ==> #[trigger] map_cell(take_cell(columns, e, c), e2, c2) == map_cell(columns, e2, c2),
{
    lemma_take_cell(columns, e, c);
}

/// Law: removing a component that was just inserted into an empty cell gives back the cells
/// that were there before the insertion.
///
pub proof fn law_remove_undoes_insert<V>(columns: Map<ComponentId, Seq<Option<V>>>, e: EntityId, c: ComponentId, value: V)
    requires
        map_cell(columns, e, c) is None,
    ensures
        forall|e2: EntityId, c2: ComponentId| #[trigger] map_cell(take_cell(put_cell(columns, e, c, (e.0 + 1) as nat, Some(value)), e, c), e2, c2) == map_cell(columns, e2, c2),
{
    lemma_put_cell(columns, e, c, (e.0 + 1) as nat, Some(value));
    lemma_take_cell(put_cell(columns, e, c, (e.0 + 1) as nat, Some(value)), e, c);
}

/// Law: clearing an entity (or removing it) leaves none of its components, and touches no other entity.
///
pub proof fn law_cleared_entity_is_empty<V>(columns: Map<ComponentId, Seq<Option<V>>>, e: EntityId)
    ensures
        forall|c: ComponentId| #[trigger] map_cell(clear_row(columns, e), e, c) is None,
        forall|e2: EntityId, c: ComponentId| e2 != e ==> #[trigger] map_cell(clear_row(columns, e), e2, c) == map_cell(columns, e2, c),
{
    lemma_clear_row(columns, e);
}

} // verus!
