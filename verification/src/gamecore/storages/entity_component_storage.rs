//! Submodule that implements [`EntityComponentStorage`].
//!

use crate::gamecore::components::{Component, ComponentId};
use crate::gamecore::entities::{EntityId, EntityMut, EntityRef};
use crate::gamecore::storages::{
    disjoint_occupied_mut, is_selected, lemma_table_map_same_ids, occupied_mut, occupied_positions,
    bundle_ids, bundle_value, clear_row, clear_row_in_table, collect_occupied, contains_entity_id,
    distinct_ids, drain_occupied, find_column, lemma_bundle_value_some, lemma_bundle_value_take,
    lemma_clear_row, lemma_put_cell, lemma_table_map_index, lemma_table_map_remove,
    lemma_table_map_update_any, lemma_take_cell, map_cell, occupied_values, padded, pop_entity_id, push_entity_id,
    put_cell, put_in_table, table_map, take_cell, take_in_table, Column,
};
use vstd::prelude::*;

verus! {

/// [`EntityComponentStorage`] is a column-oriented structure-of-arrays based storage
/// that maps entities to their type-erased components.
///
/// Conceptually, [`EntityComponentStorage`] can be thought of as a map from [`ComponentId`]s
/// to columns of optional components. Each row corresponds to a single entity
/// (i.e. equal indices of columns point to different components of the same entity)
/// and each column corresponds to a single component kind.
///
/// # Note
/// This collection provides fine-grained control over entity-component storage:
/// component operations work on any entity index, present or not.
///
#[derive(Debug)]
pub struct EntityComponentStorage<V> {
    /// Maximal index that is vacant for entity insertion.
    ///
    max_vacant_index: usize,
    /// Removed entities (no entity occurs twice).
    ///
    removed_entities: Vec<EntityId>,
    /// Table that holds all components.
    ///
    table: Vec<Column<V>>,
}

impl<V> EntityComponentStorage<V> {
    /// Smallest entity index that was never handed out.
    ///
    pub closed spec fn vacancy(&self) -> nat {
        self.max_vacant_index as nat
    }

    /// Set of removed entities whose ids may be handed out again.
    ///
    pub closed spec fn removed(&self) -> Set<EntityId> {
        self.removed_entities@.to_set()
    }

    /// Component columns by kind.
    ///
    pub closed spec fn columns(&self) -> Map<ComponentId, Seq<Option<V>>> {
        table_map(self.table@)
    }

    /// Whether the entity `e` is currently stored.
    ///
    pub open spec fn is_live(&self, e: EntityId) -> bool {
        e.0 < self.vacancy() && !self.removed().contains(e)
    }

    /// Component of kind `c` in the row of entity `e`, if present.
    ///
    pub open spec fn cell(&self, e: EntityId, c: ComponentId) -> Option<V> {
        map_cell(self.columns(), e, c)
    }

    /// No component lies in the row of an entity that is not present.
    ///
    /// [`EntityComponentStorage::new`] and [`EntityComponentStorage::clear`] give it; inserting and
    /// removing entities, and inserting components into present entities, keep it.
    ///
    pub open spec fn dead_rows_empty(&self) -> bool {
        forall|e: EntityId, c: ComponentId| !self.is_live(e) ==> #[trigger] self.cell(e, c) is None
    }

    /// Well-formedness of the storage.
    ///
    pub closed spec fn wf(&self) -> bool {
        &&& self.removed_entities@.no_duplicates()
        &&& forall|k: int| 0 <= k < self.removed_entities@.len() ==> (#[trigger] self.removed_entities@[k]).0 < self.max_vacant_index
        &&& distinct_ids(self.table@)
    }

    /// Ids of the live entities with index below `n`, in increasing order.
    ///
    pub open spec fn live_ids(&self, n: nat) -> Seq<EntityId>
        decreases n,
    {
        if n == 0 {
            Seq::empty()
        } else {
            let rest = self.live_ids((n - 1) as nat);
            if self.is_live(EntityId((n - 1) as usize)) {
                rest.push(EntityId((n - 1) as usize))
            } else {
                rest
            }
        }
    }

    /// `next` is `self` after handing out `entity_id` for a new entity:
    /// a removed id if there is one, otherwise the vacant index.
    ///
    pub open spec fn hands_out(&self, next: &Self, entity_id: EntityId) -> bool {
        if self.removed().len() > 0 {
            &&& self.removed().contains(entity_id)
            &&& next.removed() == self.removed().remove(entity_id)
            &&& next.vacancy() == self.vacancy()
        } else {
            &&& entity_id == EntityId(self.vacancy() as usize)
            &&& next.removed() == self.removed()
            &&& next.vacancy() == self.vacancy() + 1
        }
    }

    /// Number of removed ids that `n` new entities take before fresh indices are used.
    ///
    pub open spec fn reused_count(&self, n: nat) -> nat {
        if n <= self.removed().len() {
            n
        } else {
            self.removed().len()
        }
    }

    /// `ids` are the ids that `ids.len()` consecutive new entities get from `self`:
    /// first removed ids, then consecutive fresh indices starting at the vacant index.
    ///
    pub open spec fn hands_out_many(&self, next: &Self, ids: Seq<EntityId>) -> bool {
        let reused = self.reused_count(ids.len());
        &&& ids.no_duplicates()
        &&& forall|k: int| 0 <= k < reused ==> self.removed().contains(#[trigger] ids[k])
        &&& forall|k: int| reused <= k < ids.len() ==> #[trigger] ids[k] == EntityId((self.vacancy() + (k - reused)) as usize)
        &&& next.removed() == self.removed().difference(ids.to_set())
        &&& next.vacancy() == self.vacancy() + (ids.len() - reused)
    }

    /// Length to which column `c` is grown before its cell `e` is written with the
    /// capacity hint `capacity` (0 when the column is already long enough).
    ///
    pub open spec fn grown_len(&self, e: EntityId, c: ComponentId, capacity: nat) -> nat {
        let len = if self.columns().contains_key(c) { self.columns()[c].len() } else { 0 };
        if len <= e.0 {
            if capacity == 0 {
                (e.0 + 1) as nat
            } else {
                capacity
            }
        } else {
            0
        }
    }

    /// Writing cell `e` of column `c` with the capacity hint `capacity` stays in bounds.
    ///
    pub open spec fn can_grow(&self, e: EntityId, c: ComponentId, capacity: nat) -> bool {
        let len = if self.columns().contains_key(c) { self.columns()[c].len() } else { 0 };
        ||| len > e.0
        ||| capacity == 0 && e.0 < usize::MAX
        ||| capacity > e.0
    }

    proof fn lemma_removed_finite(&self)
        requires
            self.wf(),
        ensures
            self.removed().finite(),
            self.removed().len() == self.removed_entities@.len(),
    {
        self.removed_entities@.unique_seq_to_set();
    }

    /// Facts about a well-formed storage: the removed ids are finitely many, all of them were
    /// handed out before, so there are no more of them than handed-out indices.
    ///
    pub proof fn lemma_wf_facts(&self)
        requires
            self.wf(),
        ensures
            self.removed().finite(),
            self.vacancy() <= usize::MAX,
            forall|e: EntityId| #[trigger] self.removed().contains(e) ==> e.0 < self.vacancy(),
            self.removed().len() <= self.vacancy(),
    {
        self.lemma_removed_finite();
        let s = vstd::set_lib::set_int_range(0, self.vacancy() as int);
        let r = self.removed().map(|e: EntityId| e.0 as int);
        assert forall|e: EntityId| #[trigger] self.removed().contains(e) implies e.0 < self.vacancy() by {
            let k = choose|k: int| 0 <= k < self.removed_entities@.len() && self.removed_entities@[k] == e;
            assert(self.removed_entities@[k].0 < self.max_vacant_index);
        }
        vstd::set_lib::lemma_int_range(0, self.vacancy() as int);
        assert(vstd::relations::injective_on(|e: EntityId| e.0 as int, self.removed()));
        vstd::set_lib::lemma_map_size(self.removed(), r, |e: EntityId| e.0 as int);
        assert(r.subset_of(s));
        vstd::set_lib::lemma_len_subset(r, s);
    }

    /// Initializes new [`EntityComponentStorage`].
    ///
    /// Created [`EntityComponentStorage`] will not allocate until first insertions.
    ///
    pub fn new() -> (storage: Self)
        ensures
            storage.wf(),
            storage.vacancy() == 0,
            storage.removed() == Set::<EntityId>::empty(),
            storage.columns() == Map::<ComponentId, Seq<Option<V>>>::empty(),
            storage.dead_rows_empty(),
    {
        let storage = EntityComponentStorage { max_vacant_index: 0, removed_entities: Vec::new(), table: Vec::new() };
        assert(storage.removed() =~= Set::<EntityId>::empty());
        assert(storage.columns() =~= Map::<ComponentId, Seq<Option<V>>>::empty());
        storage
    }

    /// Clears storage, removing all data.
    ///
    pub fn clear(&mut self)
        ensures
            final(self).wf(),
            final(self).vacancy() == 0,
            final(self).removed() == Set::<EntityId>::empty(),
            final(self).columns() == Map::<ComponentId, Seq<Option<V>>>::empty(),
            final(self).dead_rows_empty(),
    {
        self.max_vacant_index = 0;
        self.removed_entities.clear();
        self.table.clear();
        assert(self.removed() =~= Set::<EntityId>::empty());
        assert(self.columns() =~= Map::<ComponentId, Seq<Option<V>>>::empty());
    }

    /// Finds a suitable [`EntityId`] for a new entity.
    ///
    fn obtain_entity_id(&mut self) -> (entity_id: EntityId)
        requires
            old(self).wf(),
            old(self).removed().len() > 0 || old(self).vacancy() < usize::MAX,
        ensures
            final(self).wf(),
            final(self).columns() == old(self).columns(),
            old(self).hands_out(final(self), entity_id),
    {
        proof {
            self.lemma_removed_finite();
        }
        match pop_entity_id(&mut self.removed_entities) {
            Some(id) => {
                assert forall|k: int| 0 <= k < self.removed_entities@.len() implies (#[trigger] self.removed_entities@[k]).0 < self.max_vacant_index by {
                    assert(self.removed_entities@[k] == old(self).removed_entities@[k]);
                }
                id
            },
            None => {
                assert(old(self).removed() =~= Set::<EntityId>::empty());
                let id = EntityId(self.max_vacant_index);
                self.max_vacant_index = self.max_vacant_index + 1;
                id
            },
        }
    }

    /// Inserts component into existing entity, growing the column up to `capacity` cells
    /// (or just enough cells when `capacity` is zero) if it is too short.
    ///
    fn insert_bundled_component_with_capacity(
        &mut self,
        entity_id: EntityId,
        component_id: ComponentId,
        boxed_component: V,
        capacity: usize,
    ) -> (previous: Option<V>)
        requires
            old(self).wf(),
            old(self).can_grow(entity_id, component_id, capacity as nat),
        ensures
            final(self).wf(),
            final(self).vacancy() == old(self).vacancy(),
            final(self).removed() == old(self).removed(),
            previous == old(self).cell(entity_id, component_id),
            final(self).columns() == put_cell(
                old(self).columns(),
                entity_id,
                component_id,
                old(self).grown_len(entity_id, component_id, capacity as nat),
                Some(boxed_component),
            ),
    {
        let len: usize = match find_column(&self.table, component_id) {
            Some(i) => {
                proof {
                    lemma_table_map_index(self.table@, i as int);
                }
                if self.table[i].cells.len() <= entity_id.0 {
                    if capacity == 0 {
                        entity_id.0 + 1
                    } else {
                        capacity
                    }
                } else {
                    0
                }
            },
            None => {
                if capacity == 0 {
                    entity_id.0 + 1
                } else {
                    capacity
                }
            },
        };
        put_in_table(&mut self.table, entity_id, component_id, len, Some(boxed_component))
    }

    /// Inserts new entity supplying it with components, passing the capacity hint
    /// to every component insertion.
    ///
    fn insert_entity_with_capacity(&mut self, components: Vec<Component<V>>, capacity: usize) -> (entity: EntityMut<
        '_,
        EntityComponentStorage<V>,
    >)
        requires
            old(self).wf(),
            old(self).removed().len() > 0 || old(self).vacancy() < usize::MAX,
            capacity == 0 || old(self).vacancy() < capacity || (old(self).removed().len() > 0 && old(self).vacancy() <= capacity),
        ensures
            *final(self) == *final(entity.component_storage),
            entity.component_storage.wf(),
            old(self).hands_out(entity.component_storage, entity.entity_id),
            entity.component_storage.columns().dom() == old(self).columns().dom().union(bundle_ids(components@)),
            forall|e: EntityId, c: ComponentId| #[trigger] entity.component_storage.cell(e, c) == if e
                == entity.entity_id && bundle_value(components@, c) is Some {
                bundle_value(components@, c)
            } else {
                old(self).cell(e, c)
            },
    {
        proof {
            old(self).lemma_wf_facts();
        }
        let entity_id = self.obtain_entity_id();
        let ghost start = *self;
        let ghost bundle = components@;
        let total = components.len();
        assert(bundle.len() == total);
        let mut components = components;
        let mut reversed: Vec<Component<V>> = Vec::new();
        while components.len() > 0
            invariant
                reversed@.len() + components@.len() == bundle.len(),
                forall|k: int| 0 <= k < components@.len() ==> #[trigger] components@[k] == bundle[k],
                forall|k: int| 0 <= k < reversed@.len() ==> #[trigger] reversed@[k] == bundle[bundle.len() - 1 - k],
            decreases components@.len(),
        {
            let component = components.pop().unwrap();
            reversed.push(component);
        }
        let mut index: usize = 0;
        while reversed.len() > 0
            invariant
                self.wf(),
                self.vacancy() == start.vacancy(),
                self.removed() == start.removed(),
                capacity == 0 ==> entity_id.0 < usize::MAX,
                capacity != 0 ==> entity_id.0 < capacity,
                index + reversed@.len() == bundle.len(),
                bundle.len() <= usize::MAX,
                forall|k: int| 0 <= k < reversed@.len() ==> #[trigger] reversed@[k] == bundle[bundle.len() - 1 - k],
                forall|c: ComponentId| #[trigger] self.columns().contains_key(c) <==> start.columns().contains_key(c)
                    || bundle_ids(bundle.take(index as int)).contains(c),
                forall|e: EntityId, c: ComponentId| #[trigger] self.cell(e, c) == if e == entity_id
                    && bundle_value(bundle.take(index as int), c) is Some {
                    bundle_value(bundle.take(index as int), c)
                } else {
                    start.cell(e, c)
                },
            decreases reversed@.len(),
        {
            let component = reversed.pop().unwrap();
            let ghost before = *self;
            let ghost k = index as int;
            assert(component == bundle[k]);
            let _ = self.insert_bundled_component_with_capacity(entity_id, component.id, component.value, capacity);
            proof {
                lemma_put_cell(
                    before.columns(),
                    entity_id,
                    component.id,
                    before.grown_len(entity_id, component.id, capacity as nat),
                    Some(component.value),
                );
                assert forall|c: ComponentId| #[trigger] bundle_ids(bundle.take(k + 1)).contains(c) <==> bundle_ids(bundle.take(k)).contains(c) || c == component.id by {
                    lemma_bundle_value_some(bundle.take(k + 1), c);
                    lemma_bundle_value_some(bundle.take(k), c);
                    lemma_bundle_value_take(bundle, k, c);
                }
                assert forall|e: EntityId, c: ComponentId| #[trigger] self.cell(e, c) == if e == entity_id
                    && bundle_value(bundle.take(k + 1), c) is Some {
                    bundle_value(bundle.take(k + 1), c)
                } else {
                    start.cell(e, c)
                } by {
                    lemma_bundle_value_take(bundle, k, c);
                    assert(self.cell(e, c) == map_cell(self.columns(), e, c));
                    assert(before.cell(e, c) == map_cell(before.columns(), e, c));
                }
            }
            index += 1;
        }
        proof {
            assert(bundle.take(bundle.len() as int) =~= bundle);
            assert(self.columns().dom() =~= start.columns().dom().union(bundle_ids(bundle)));
        }
        EntityMut::new(entity_id, self)
    }
    /// Inserts entity with components into [`EntityComponentStorage`]
    /// and returns mutable reference to it, so it could be further modified.
    ///
    /// For repeated component kinds, the last one stays.
    ///
    pub fn insert_entity(&mut self, components: Vec<Component<V>>) -> (entity: EntityMut<'_, EntityComponentStorage<V>>)
        requires
            old(self).wf(),
            old(self).removed().len() > 0 || old(self).vacancy() < usize::MAX,
        ensures
            *final(self) == *final(entity.component_storage),
            entity.component_storage.wf(),
            old(self).hands_out(entity.component_storage, entity.entity_id),
            !old(self).is_live(entity.entity_id),
            entity.component_storage.is_live(entity.entity_id),
            entity.component_storage.vacancy() - entity.component_storage.removed().len() == old(self).vacancy() - old(self).removed().len() + 1,
            forall|e: EntityId| e != entity.entity_id ==> (#[trigger] entity.component_storage.is_live(e) <==> old(self).is_live(e)),
            old(self).dead_rows_empty() ==> entity.component_storage.dead_rows_empty(),
            old(self).dead_rows_empty() ==> forall|c: ComponentId| #[trigger] entity.component_storage.cell(entity.entity_id, c)
                == bundle_value(components@, c),
            entity.component_storage.columns().dom() == old(self).columns().dom().union(bundle_ids(components@)),
            forall|e: EntityId, c: ComponentId| #[trigger] entity.component_storage.cell(e, c) == if e
                == entity.entity_id && bundle_value(components@, c) is Some {
                bundle_value(components@, c)
            } else {
                old(self).cell(e, c)
            },
    {
        proof {
            old(self).lemma_wf_facts();
        }
        let entity = self.insert_entity_with_capacity(components, 0);
        proof {
            entity.component_storage.lemma_wf_facts();
            old(self).lemma_removed_finite();
        }
        entity
    }

    /// Inserts multiple entities with components into [`EntityComponentStorage`]
    /// and returns immutable references to those entities (the `k`-th entity gets the `k`-th set).
    ///
    /// When at least as many entities are inserted as there are removed ids,
    /// columns are grown past the last index handed out in one step.
    ///
    pub fn insert_entities(&mut self, many_components: Vec<Vec<Component<V>>>) -> (entities: Vec<
        EntityRef<'_, EntityComponentStorage<V>>,
    >)
        requires
            old(self).wf(),
            many_components@.len() <= old(self).removed().len() + (usize::MAX - old(self).vacancy()),
        ensures
            final(self).wf(),
            entities@.len() == many_components@.len(),
            forall|k: int| 0 <= k < entities@.len() ==> *(#[trigger] entities@[k]).component_storage == *final(self),
            old(self).hands_out_many(final(self), Seq::new(entities@.len(), |k: int| entities@[k].entity_id)),
            forall|k: int| 0 <= k < entities@.len() ==> final(self).is_live(#[trigger] entities@[k].entity_id),
            forall|k: int| 0 <= k < entities@.len() ==> !old(self).is_live(#[trigger] entities@[k].entity_id),
            final(self).vacancy() - final(self).removed().len() == old(self).vacancy() - old(self).removed().len() + many_components@.len(),
            old(self).dead_rows_empty() ==> final(self).dead_rows_empty(),
            old(self).dead_rows_empty() ==> forall|k: int, c: ComponentId| 0 <= k < entities@.len()
                ==> #[trigger] final(self).cell(entities@[k].entity_id, c) == bundle_value(many_components@[k]@, c),
            forall|k: int, c: ComponentId| 0 <= k < entities@.len() ==> #[trigger] final(self).cell(entities@[k].entity_id, c)
                == if bundle_value(many_components@[k]@, c) is Some {
                bundle_value(many_components@[k]@, c)
            } else {
                old(self).cell(entities@[k].entity_id, c)
            },
            forall|e: EntityId, c: ComponentId| !Seq::new(entities@.len(), |k: int| entities@[k].entity_id).contains(e)
                ==> #[trigger] final(self).cell(e, c) == old(self).cell(e, c),
            forall|c: ComponentId| #[trigger] final(self).columns().contains_key(c) <==> old(self).columns().contains_key(c)
                || exists|k: int| 0 <= k < many_components@.len() && #[trigger] bundle_ids(many_components@[k]@).contains(c),
    {
        let ghost start = *self;
        let ghost bundles = many_components@;
        proof {
            start.lemma_removed_finite();
            start.lemma_wf_facts();
        }
        let adding = many_components.len();
        let resizing: usize = if adding >= self.removed_entities.len() {
            let vacant = self.removed_entities.len();
            self.max_vacant_index + (adding - vacant)
        } else {
            0
        };
        let mut ids: Vec<EntityId> = Vec::new();
        let mut many_components = many_components;
        let mut reversed: Vec<Vec<Component<V>>> = Vec::new();
        while many_components.len() > 0
            invariant
                reversed@.len() + many_components@.len() == bundles.len(),
                forall|k: int| 0 <= k < many_components@.len() ==> #[trigger] many_components@[k] == bundles[k],
                forall|k: int| 0 <= k < reversed@.len() ==> #[trigger] reversed@[k] == bundles[bundles.len() - 1 - k],
            decreases many_components@.len(),
        {
            let components = many_components.pop().unwrap();
            reversed.push(components);
        }
        assert(self.removed() =~= start.removed().difference(ids@.to_set()));
        while reversed.len() > 0
            invariant
                self.wf(),
                start.wf(),
                adding == bundles.len(),
                ids@.len() + reversed@.len() == adding,
                forall|k: int| 0 <= k < reversed@.len() ==> #[trigger] reversed@[k] == bundles[bundles.len() - 1 - k],
                adding <= start.removed().len() + (usize::MAX - start.vacancy()),
                adding >= start.removed().len() ==> resizing == start.vacancy() + (adding - start.removed().len()),
                adding < start.removed().len() ==> resizing == 0,
                start.removed().finite(),
                self.removed().finite(),
                start.hands_out_many(self, ids@),
                self.removed().len() == start.removed().len() - start.reused_count(ids@.len()),
                forall|k: int| 0 <= k < ids@.len() ==> !ids@.take(k).contains(#[trigger] ids@[k]),
                forall|k: int, c: ComponentId| 0 <= k < ids@.len() ==> #[trigger] self.cell(ids@[k], c) == if bundle_value(
                    bundles[k]@,
                    c,
                ) is Some {
                    bundle_value(bundles[k]@, c)
                } else {
                    start.cell(ids@[k], c)
                },
                forall|e: EntityId, c: ComponentId| !ids@.contains(e) ==> #[trigger] self.cell(e, c) == start.cell(e, c),
                forall|c: ComponentId| #[trigger] self.columns().contains_key(c) <==> start.columns().contains_key(c)
                    || exists|k: int| 0 <= k < ids@.len() && #[trigger] bundle_ids(bundles[k]@).contains(c),
            decreases reversed@.len(),
        {
            let ghost before = *self;
            let ghost k = ids@.len();
            let components = reversed.pop().unwrap();
            assert(components == bundles[k as int]);
            proof {
                self.lemma_removed_finite();
                let r = start.reused_count(k);
                if self.removed().len() == 0 {
                    assert(r == start.removed().len());
                } else {
                    assert(r == k);
                }
            }
            let entity_id = self.insert_entity_with_capacity(components, resizing).id();
            let ghost old_ids = ids@;
            proof {
                let r = start.reused_count(k);
                let r2 = start.reused_count(k + 1);
                if before.removed().len() > 0 {
                    assert(r2 == r + 1);
                    assert(start.removed().contains(entity_id));
                } else {
                    assert(r2 == r);
                    assert(!start.removed().contains(entity_id)) by {
                        if start.removed().contains(entity_id) {
                            if old_ids.to_set().contains(entity_id) {
                                let j = choose|j: int| 0 <= j < old_ids.len() && old_ids[j] == entity_id;
                                if j < r {
                                } else {
                                    assert(old_ids[j].0 >= start.vacancy());
                                }
                            }
                        }
                    }
                }
                assert(!old_ids.contains(entity_id)) by {
                    if old_ids.contains(entity_id) {
                        let j = choose|j: int| 0 <= j < old_ids.len() && old_ids[j] == entity_id;
                        if before.removed().len() > 0 {
                            assert(before.removed().contains(entity_id));
                            assert(old_ids.to_set().contains(entity_id));
                        } else {
                            assert(entity_id == EntityId(before.vacancy() as usize));
                            if j < r {
                                assert(start.removed().contains(old_ids[j]));
                                assert(!start.removed().contains(entity_id));
                            }
                        }
                    }
                }
            }
            ids.push(entity_id);
            proof {
                old_ids.lemma_push_to_set_commute(entity_id);
                assert(ids@ == old_ids.push(entity_id));
                assert(ids@.take(k as int) =~= old_ids);
                assert(self.removed() =~= start.removed().difference(ids@.to_set()));
                assert(ids@.no_duplicates()) by {
                    assert forall|a: int, b: int| 0 <= a < b < ids@.len() implies ids@[a] != ids@[b] by {
                        if b == k {
                            assert(old_ids.contains(old_ids[a]));
                        } else {
                            assert(old_ids[a] == ids@[a] && old_ids[b] == ids@[b]);
                        }
                    }
                }
                assert forall|j: int| 0 <= j < ids@.len() implies !ids@.take(j).contains(#[trigger] ids@[j]) by {
                    if ids@.take(j).contains(ids@[j]) {
                        let i = choose|i: int| 0 <= i < j && ids@.take(j)[i] == ids@[j];
                        assert(ids@[i] == ids@[j]);
                    }
                }
                assert forall|j: int, c: ComponentId| 0 <= j < ids@.len() implies #[trigger] self.cell(ids@[j], c) == if bundle_value(
                    bundles[j]@,
                    c,
                ) is Some {
                    bundle_value(bundles[j]@, c)
                } else {
                    start.cell(ids@[j], c)
                } by {
                    if j < k {
                        assert(ids@[j] != entity_id);
                        assert(ids@[j] == old_ids[j]);
                    } else {
                        assert(before.cell(entity_id, c) == start.cell(entity_id, c));
                    }
                }
                assert forall|e: EntityId, c: ComponentId| !ids@.contains(e) implies #[trigger] self.cell(e, c) == start.cell(e, c) by {
                    assert(ids@[k as int] == entity_id);
                    assert(e != entity_id);
                    if old_ids.contains(e) {
                        let j = choose|j: int| 0 <= j < old_ids.len() && old_ids[j] == e;
                        assert(ids@[j] == e);
                    }
                }
                assert forall|c: ComponentId| #[trigger] self.columns().contains_key(c) <==> start.columns().contains_key(c)
                    || exists|j: int| 0 <= j < ids@.len() && #[trigger] bundle_ids(bundles[j]@).contains(c) by {
                    if exists|j: int| 0 <= j < ids@.len() && #[trigger] bundle_ids(bundles[j]@).contains(c) {
                        let j = choose|j: int| 0 <= j < ids@.len() && #[trigger] bundle_ids(bundles[j]@).contains(c);
                        if j < k {
                            assert(before.columns().contains_key(c));
                        }
                    }
                    if before.columns().contains_key(c) && !start.columns().contains_key(c) {
                        let j = choose|j: int| 0 <= j < old_ids.len() && #[trigger] bundle_ids(bundles[j]@).contains(c);
                        assert(j < ids@.len());
                    }
                }
            }
        }
        let this: &EntityComponentStorage<V> = self;
        let n = ids.len();
        let mut entities: Vec<EntityRef<'_, EntityComponentStorage<V>>> = Vec::new();
        let mut k: usize = 0;
        while k < n
            invariant
                k <= n,
                ids@.len() == n,
                entities@.len() == k,
                forall|j: int| 0 <= j < k ==> (#[trigger] entities@[j]).entity_id == ids@[j] && entities@[j].component_storage == this,
            decreases n - k,
        {
            entities.push(EntityRef::new(ids[k], this));
            k += 1;
        }
        proof {
            assert(Seq::new(entities@.len(), |j: int| entities@[j].entity_id) =~= ids@);
            let r = start.reused_count(n as nat);
            assert forall|k: int| 0 <= k < entities@.len() implies self.is_live(#[trigger] entities@[k].entity_id)
                && !start.is_live(entities@[k].entity_id) by {
                assert(entities@[k].entity_id == ids@[k]);
                assert(ids@.to_set().contains(ids@[k]));
                if k < r {
                    assert(start.removed().contains(ids@[k]));
                }
            }
            if start.dead_rows_empty() {
                assert forall|e: EntityId, c: ComponentId| !self.is_live(e) implies #[trigger] self.cell(e, c) is None by {
                    if ids@.contains(e) {
                        let k = choose|k: int| 0 <= k < ids@.len() && ids@[k] == e;
                        assert(ids@.to_set().contains(e));
                        if k < r {
                            assert(start.removed().contains(e));
                        }
                    } else {
                        assert(!ids@.to_set().contains(e));
                        assert(self.cell(e, c) == start.cell(e, c));
                    }
                }
                assert forall|k: int, c: ComponentId| 0 <= k < entities@.len()
                    implies #[trigger] self.cell(entities@[k].entity_id, c) == bundle_value(bundles[k]@, c) by {
                    assert(entities@[k].entity_id == ids@[k]);
                    assert(ids@.to_set().contains(ids@[k]));
                    if k < r {
                        assert(start.removed().contains(ids@[k]));
                    }
                    assert(!start.is_live(ids@[k]));
                    assert(start.cell(ids@[k], c) is None);
                }
            }
        }
        entities
    }
    /// Removes entity from [`EntityComponentStorage`], returning `false` if it is not present
    /// (never handed out, or removed already).
    ///
    /// Its row of components is emptied and its id may be handed out again later.
    ///
    pub fn remove_entity(&mut self, entity_id: EntityId) -> (removed: bool)
        requires
            old(self).wf(),
        ensures
            final(self).wf(),
            removed == old(self).is_live(entity_id),
            final(self).vacancy() == old(self).vacancy(),
            removed ==> final(self).removed() == old(self).removed().insert(entity_id),
            removed ==> final(self).columns() == clear_row(old(self).columns(), entity_id),
            removed ==> final(self).vacancy() - final(self).removed().len() == old(self).vacancy() - old(self).removed().len() - 1,
            !final(self).is_live(entity_id),
            forall|e: EntityId| e != entity_id ==> (#[trigger] final(self).is_live(e) <==> old(self).is_live(e)),
            old(self).dead_rows_empty() ==> final(self).dead_rows_empty(),
            !removed ==> *final(self) == *old(self),
    {
        if !self.contains_entity(entity_id) {
            return false;
        }
        push_entity_id(&mut self.removed_entities, entity_id);
        clear_row_in_table(&mut self.table, entity_id);
        proof {
            lemma_clear_row(old(self).columns(), entity_id);
            if old(self).dead_rows_empty() {
                assert forall|e: EntityId, c: ComponentId| !self.is_live(e) implies #[trigger] self.cell(e, c) is None by {
                    assert(self.cell(e, c) == map_cell(clear_row(old(self).columns(), entity_id), e, c));
                    if e != entity_id {
                        assert(old(self).cell(e, c) is None);
                    }
                }
            }
            let n = self.removed_entities@.len();
            assert forall|k: int| 0 <= k < n implies (#[trigger] self.removed_entities@[k]).0 < self.max_vacant_index by {
                if k < n - 1 {
                    assert(self.removed_entities@[k] == old(self).removed_entities@[k]);
                }
            }
            old(self).lemma_removed_finite();
            self.lemma_removed_finite();
        }
        true
    }

    /// Returns number of entities that are currently present in the storage.
    ///
    pub fn entities_count(&self) -> (count: usize)
        requires
            self.wf(),
        ensures
            count == self.vacancy() - self.removed().len(),
    {
        proof {
            self.lemma_removed_finite();
            self.lemma_wf_facts();
        }
        self.max_vacant_index - self.removed_entities.len()
    }

    /// Returns whether an entity with given id is currently stored or not.
    ///
    pub fn contains_entity(&self, entity_id: EntityId) -> (result: bool)
        requires
            self.wf(),
        ensures
            result == self.is_live(entity_id),
    {
        entity_id.0 < self.max_vacant_index && !contains_entity_id(&self.removed_entities, entity_id)
    }

    /// Returns immutable reference to entity in [`EntityComponentStorage`] if present.
    ///
    pub fn entity(&self, entity_id: EntityId) -> (entity: Option<EntityRef<'_, EntityComponentStorage<V>>>)
        requires
            self.wf(),
        ensures
            match entity {
                Some(r) => self.is_live(entity_id) && r.entity_id == entity_id && r.component_storage == self,
                None => !self.is_live(entity_id),
            },
    {
        if self.contains_entity(entity_id) {
            Some(EntityRef::new(entity_id, self))
        } else {
            None
        }
    }

    /// Returns references to all entities that are present in the storage, in increasing id order.
    ///
    pub fn all_entities(&self) -> (entities: Vec<EntityRef<'_, EntityComponentStorage<V>>>)
        requires
            self.wf(),
        ensures
            entities@.len() == self.live_ids(self.vacancy()).len(),
            forall|k: int| 0 <= k < entities@.len() ==> (#[trigger] entities@[k]).entity_id == self.live_ids(self.vacancy())[k]
                && entities@[k].component_storage == self,
    {
        let mut entities: Vec<EntityRef<'_, EntityComponentStorage<V>>> = Vec::new();
        let mut index: usize = 0;
        while index < self.max_vacant_index
            invariant
                self.wf(),
                index <= self.vacancy(),
                entities@.len() == self.live_ids(index as nat).len(),
                forall|k: int| 0 <= k < entities@.len() ==> (#[trigger] entities@[k]).entity_id == self.live_ids(index as nat)[k]
                    && entities@[k].component_storage == self,
            decreases self.vacancy() - index,
        {
            match self.entity(EntityId(index)) {
                Some(entity) => {
                    entities.push(entity);
                },
                None => {},
            }
            index += 1;
        }
        entities
    }

    /// Returns mutable reference to entity in [`EntityComponentStorage`] if present.
    ///
    pub fn entity_mut(&mut self, entity_id: EntityId) -> (entity: Option<EntityMut<'_, EntityComponentStorage<V>>>)
        requires
            old(self).wf(),
        ensures
            match entity {
                Some(r) => {
                    &&& old(self).is_live(entity_id)
                    &&& r.entity_id == entity_id
                    &&& *r.component_storage == *old(self)
                    &&& *final(self) == *final(r.component_storage)
                },
                None => !old(self).is_live(entity_id) && *final(self) == *old(self),
            },
    {
        if self.contains_entity(entity_id) {
            Some(EntityMut::new(entity_id, self))
        } else {
            None
        }
    }

    /// Inserts component into given entity row and returns old value if present.
    ///
    pub fn insert_component(&mut self, entity_id: EntityId, component_id: ComponentId, boxed_component: V) -> (previous: Option<V>)
        requires
            old(self).wf(),
            entity_id.0 < usize::MAX,
        ensures
            final(self).wf(),
            final(self).vacancy() == old(self).vacancy(),
            final(self).removed() == old(self).removed(),
            previous == old(self).cell(entity_id, component_id),
            final(self).columns() == put_cell(old(self).columns(), entity_id, component_id, (entity_id.0 + 1) as nat, Some(boxed_component)),
            old(self).dead_rows_empty() && old(self).is_live(entity_id) ==> final(self).dead_rows_empty(),
    {
        let previous = self.insert_bundled_component_with_capacity(entity_id, component_id, boxed_component, 0);
        proof {
            lemma_put_cell(old(self).columns(), entity_id, component_id, (entity_id.0 + 1) as nat, Some(boxed_component));
            if old(self).dead_rows_empty() && old(self).is_live(entity_id) {
                assert forall|e: EntityId, c: ComponentId| !self.is_live(e) implies #[trigger] self.cell(e, c) is None by {
                    assert(self.cell(e, c) == map_cell(self.columns(), e, c));
                    assert(old(self).cell(e, c) is None);
                }
            }
        }
        assert(put_cell(old(self).columns(), entity_id, component_id, old(self).grown_len(entity_id, component_id, 0), Some(boxed_component))
            =~= put_cell(old(self).columns(), entity_id, component_id, (entity_id.0 + 1) as nat, Some(boxed_component)));
        previous
    }

    /// Inserts components into given entity row (for repeated kinds, the last one stays).
    ///
    pub fn insert_components(&mut self, entity_id: EntityId, components: Vec<Component<V>>)
        requires
            old(self).wf(),
            components@.len() == 0 || entity_id.0 < usize::MAX,
        ensures
            final(self).wf(),
            final(self).vacancy() == old(self).vacancy(),
            final(self).removed() == old(self).removed(),
            final(self).columns().dom() == old(self).columns().dom().union(bundle_ids(components@)),
            forall|e: EntityId, c: ComponentId| #[trigger] final(self).cell(e, c) == if e == entity_id && bundle_value(
                components@,
                c,
            ) is Some {
                bundle_value(components@, c)
            } else {
                old(self).cell(e, c)
            },
    {
        let ghost bundle = components@;
        let ghost start = *self;
        let total = components.len();
        assert(bundle.len() == total);
        let mut components = components;
        let mut reversed: Vec<Component<V>> = Vec::new();
        while components.len() > 0
            invariant
                reversed@.len() + components@.len() == bundle.len(),
                forall|k: int| 0 <= k < components@.len() ==> #[trigger] components@[k] == bundle[k],
                forall|k: int| 0 <= k < reversed@.len() ==> #[trigger] reversed@[k] == bundle[bundle.len() - 1 - k],
            decreases components@.len(),
        {
            let component = components.pop().unwrap();
            reversed.push(component);
        }
        let mut index: usize = 0;
        while reversed.len() > 0
            invariant
                self.wf(),
                self.vacancy() == start.vacancy(),
                self.removed() == start.removed(),
                bundle.len() == 0 || entity_id.0 < usize::MAX,
                index + reversed@.len() == bundle.len(),
                bundle.len() <= usize::MAX,
                forall|k: int| 0 <= k < reversed@.len() ==> #[trigger] reversed@[k] == bundle[bundle.len() - 1 - k],
                forall|c: ComponentId| #[trigger] self.columns().contains_key(c) <==> start.columns().contains_key(c)
                    || bundle_ids(bundle.take(index as int)).contains(c),
                forall|e: EntityId, c: ComponentId| #[trigger] self.cell(e, c) == if e == entity_id
                    && bundle_value(bundle.take(index as int), c) is Some {
                    bundle_value(bundle.take(index as int), c)
                } else {
                    start.cell(e, c)
                },
            decreases reversed@.len(),
        {
            let component = reversed.pop().unwrap();
            let ghost before = *self;
            let ghost k = index as int;
            assert(component == bundle[k]);
            let _ = self.insert_component(entity_id, component.id, component.value);
            proof {
                lemma_put_cell(before.columns(), entity_id, component.id, (entity_id.0 + 1) as nat, Some(component.value));
                assert forall|c: ComponentId| #[trigger] bundle_ids(bundle.take(k + 1)).contains(c) <==> bundle_ids(bundle.take(k)).contains(c) || c == component.id by {
                    lemma_bundle_value_some(bundle.take(k + 1), c);
                    lemma_bundle_value_some(bundle.take(k), c);
                    lemma_bundle_value_take(bundle, k, c);
                }
                assert forall|e: EntityId, c: ComponentId| #[trigger] self.cell(e, c) == if e == entity_id
                    && bundle_value(bundle.take(k + 1), c) is Some {
                    bundle_value(bundle.take(k + 1), c)
                } else {
                    start.cell(e, c)
                } by {
                    lemma_bundle_value_take(bundle, k, c);
                    assert(self.cell(e, c) == map_cell(self.columns(), e, c));
                    assert(before.cell(e, c) == map_cell(before.columns(), e, c));
                }
            }
            index += 1;
        }
        proof {
            assert(bundle.take(bundle.len() as int) =~= bundle);
            assert(self.columns().dom() =~= start.columns().dom().union(bundle_ids(bundle)));
        }
    }

    /// Removes component from an entity row and returns the old value if present.
    ///
    pub fn remove_component(&mut self, entity_id: EntityId, component_id: ComponentId) -> (previous: Option<V>)
        requires
            old(self).wf(),
        ensures
            final(self).wf(),
            final(self).vacancy() == old(self).vacancy(),
            final(self).removed() == old(self).removed(),
            previous == old(self).cell(entity_id, component_id),
            final(self).columns() == take_cell(old(self).columns(), entity_id, component_id),
    {
        take_in_table(&mut self.table, entity_id, component_id)
    }

    /// Removes components of the given kinds from an entity row.
    ///
    pub fn remove_components(&mut self, entity_id: EntityId, component_ids: Vec<ComponentId>)
        requires
            old(self).wf(),
        ensures
            final(self).wf(),
            final(self).vacancy() == old(self).vacancy(),
            final(self).removed() == old(self).removed(),
            final(self).columns().dom() == old(self).columns().dom(),
            forall|e: EntityId, c: ComponentId| #[trigger] final(self).cell(e, c) == if e == entity_id
                && component_ids@.contains(c) {
                None
            } else {
                old(self).cell(e, c)
            },
    {
        let ghost start = *self;
        let mut index: usize = 0;
        while index < component_ids.len()
            invariant
                self.wf(),
                self.vacancy() == start.vacancy(),
                self.removed() == start.removed(),
                index <= component_ids@.len(),
                self.columns().dom() == start.columns().dom(),
                forall|e: EntityId, c: ComponentId| #[trigger] self.cell(e, c) == if e == entity_id
                    && component_ids@.take(index as int).contains(c) {
                    None
                } else {
                    start.cell(e, c)
                },
            decreases component_ids@.len() - index,
        {
            let ghost before = *self;
            let component_id = component_ids[index];
            let _ = self.remove_component(entity_id, component_id);
            proof {
                lemma_take_cell(before.columns(), entity_id, component_id);
                assert(self.columns().dom() =~= start.columns().dom());
                assert forall|c: ComponentId| #[trigger] component_ids@.take(index + 1).contains(c) <==> component_ids@.take(index as int).contains(c) || c == component_id by {
                    if component_ids@.take(index + 1).contains(c) {
                        let j = choose|j: int| 0 <= j < index + 1 && #[trigger] component_ids@.take(index + 1)[j] == c;
                        if j < index {
                            assert(component_ids@.take(index as int)[j] == c);
                        }
                    }
                    if component_ids@.take(index as int).contains(c) {
                        let j = choose|j: int| 0 <= j < index && #[trigger] component_ids@.take(index as int)[j] == c;
                        assert(component_ids@.take(index + 1)[j] == c);
                    }
                    if c == component_id {
                        assert(component_ids@.take(index + 1)[index as int] == c);
                    }
                }
                assert forall|e: EntityId, c: ComponentId| #[trigger] self.cell(e, c) == if e == entity_id
                    && component_ids@.take(index + 1).contains(c) {
                    None
                } else {
                    start.cell(e, c)
                } by {
                    assert(self.cell(e, c) == map_cell(self.columns(), e, c));
                    assert(before.cell(e, c) == map_cell(before.columns(), e, c));
                }
            }
            index += 1;
        }
        proof {
            assert(component_ids@.take(component_ids@.len() as int) =~= component_ids@);
        }
    }

    /// Removes all components from an entity row.
    ///
    pub fn remove_all_components(&mut self, entity_id: EntityId)
        requires
            old(self).wf(),
        ensures
            final(self).wf(),
            final(self).vacancy() == old(self).vacancy(),
            final(self).removed() == old(self).removed(),
            final(self).columns() == clear_row(old(self).columns(), entity_id),
    {
        clear_row_in_table(&mut self.table, entity_id);
    }

    /// Returns whether this component is present in an entity row or not.
    ///
    pub fn contains_component(&self, entity_id: EntityId, component_id: ComponentId) -> (result: bool)
        requires
            self.wf(),
        ensures
            result == self.cell(entity_id, component_id) is Some,
    {
        match find_column(&self.table, component_id) {
            Some(i) => {
                proof {
                    lemma_table_map_index(self.table@, i as int);
                }
                entity_id.0 < self.table[i].cells.len() && self.table[i].cells[entity_id.0].is_some()
            },
            None => false,
        }
    }

    /// Extracts all components of one kind from storage, in entity index order,
    /// dropping those that belong to removed entities.
    /// Returns `None` if components of this kind are not present in the storage.
    ///
    pub fn components_take(&mut self, component_id: ComponentId) -> (taken: Option<Vec<V>>)
        requires
            old(self).wf(),
        ensures
            final(self).wf(),
            final(self).vacancy() == old(self).vacancy(),
            final(self).removed() == old(self).removed(),
            final(self).columns() == old(self).columns().remove(component_id),
            match taken {
                Some(values) => old(self).columns().contains_key(component_id) && values@ == occupied_values(
                    old(self).columns()[component_id],
                    old(self).removed(),
                ),
                None => !old(self).columns().contains_key(component_id),
            },
    {
        match find_column(&self.table, component_id) {
            Some(i) => {
                proof {
                    lemma_table_map_index(self.table@, i as int);
                    lemma_table_map_remove(self.table@, i as int);
                }
                let column = self.table.remove(i);
                Some(drain_occupied(column.cells, &self.removed_entities))
            },
            None => {
                assert(old(self).columns().remove(component_id) =~= old(self).columns());
                None
            },
        }
    }

    /// Returns immutable reference to the component of given entity row if present.
    ///
    pub fn component(&self, entity_id: EntityId, component_id: ComponentId) -> (result: Option<&V>)
        requires
            self.wf(),
        ensures
            match result {
                Some(v) => self.cell(entity_id, component_id) == Some(*v),
                None => self.cell(entity_id, component_id) is None,
            },
    {
        match find_column(&self.table, component_id) {
            Some(i) => {
                proof {
                    lemma_table_map_index(self.table@, i as int);
                }
                if entity_id.0 < self.table[i].cells.len() {
                    self.table[i].cells[entity_id.0].as_ref()
                } else {
                    None
                }
            },
            None => None,
        }
    }

    /// Returns immutable references to all components of one kind, in entity index order,
    /// skipping those that belong to removed entities.
    /// Returns `None` if components of this kind are not present in the storage.
    ///
    pub fn components(&self, component_id: ComponentId) -> (components: Option<Vec<&V>>)
        requires
            self.wf(),
        ensures
            match components {
                Some(values) => self.columns().contains_key(component_id) && values@.unref() == occupied_values(
                    self.columns()[component_id],
                    self.removed(),
                ),
                None => !self.columns().contains_key(component_id),
            },
    {
        match find_column(&self.table, component_id) {
            Some(i) => {
                proof {
                    lemma_table_map_index(self.table@, i as int);
                }
                Some(collect_occupied(&self.table[i].cells, &self.removed_entities))
            },
            None => None,
        }
    }

    /// Returns mutable reference to the component of given entity row if present.
    ///
    pub fn component_mut(&mut self, entity_id: EntityId, component_id: ComponentId) -> (result: Option<&mut V>)
        requires
            old(self).wf(),
        ensures
            match result {
                Some(v) => {
                    &&& old(self).cell(entity_id, component_id) == Some(*v)
                    &&& final(self).wf()
                    &&& final(self).vacancy() == old(self).vacancy()
                    &&& final(self).removed() == old(self).removed()
                    &&& final(self).columns() == old(self).columns().insert(
                        component_id,
                        old(self).columns()[component_id].update(entity_id.0 as int, Some(*final(v))),
                    )
                },
                None => {
                    &&& old(self).cell(entity_id, component_id) is None
                    &&& *final(self) == *old(self)
                },
            },
    {
        match find_column(&self.table, component_id) {
            Some(i) => {
                proof {
                    lemma_table_map_index(self.table@, i as int);
                }
                if entity_id.0 < self.table[i].cells.len() && self.table[i].cells[entity_id.0].is_some() {
                    proof {
                        lemma_table_map_update_any(self.table@, i as int);
                    }
                    self.table[i].cells[entity_id.0].as_mut()
                } else {
                    None
                }
            },
            None => None,
        }
    }

    /// Returns mutable references to all components of one kind, in entity index order,
    /// leaving out those that belong to removed entities.
    ///
    /// Returns `None` if components of this kind are not present in the storage.
    ///
    pub fn components_mut(&mut self, component_id: ComponentId) -> (components: Option<Vec<&mut V>>)
        requires
            old(self).wf(),
        ensures
            final(self).wf(),
            final(self).vacancy() == old(self).vacancy(),
            final(self).removed() == old(self).removed(),
            match components {
                Some(refs) => {
                    let column = old(self).columns()[component_id];
                    let positions = occupied_positions(column, old(self).removed());
                    &&& old(self).columns().contains_key(component_id)
                    &&& refs@.len() == positions.len()
                    &&& forall|j: int| 0 <= j < refs@.len() ==> *(#[trigger] refs@[j]) == column[positions[j]]->0
                    &&& final(self).columns().dom() == old(self).columns().dom()
                    &&& forall|c: ComponentId| c != component_id && old(self).columns().contains_key(c)
                        ==> #[trigger] final(self).columns()[c] == old(self).columns()[c]
                    &&& final(self).columns()[component_id].len() == column.len()
                    &&& forall|j: int| 0 <= j < refs@.len() ==> final(self).columns()[component_id][positions[j]] == Some(*final(#[trigger] refs@[j]))
                    &&& forall|k: int| 0 <= k < column.len() && !is_selected(column, old(self).removed(), k)
                        ==> #[trigger] final(self).columns()[component_id][k] == column[k]
                },
                None => !old(self).columns().contains_key(component_id) && *final(self) == *old(self),
            },
    {
        match find_column(&self.table, component_id) {
            Some(i) => {
                proof {
                    lemma_table_map_index(self.table@, i as int);
                    lemma_table_map_update_any(self.table@, i as int);
                }
                let refs = occupied_mut(self.table[i].cells.as_mut_slice(), &self.removed_entities);
                Some(refs)
            },
            None => None,
        }
    }

    /// Returns mutable references to the components of several kinds at once, one entry per kind:
    /// for each kind, the references to its components in entity index order, leaving out those
    /// that belong to removed entities, or `None` if components of this kind are not present.
    ///
    /// The kinds must be distinct.
    ///
    #[verifier::spinoff_prover]
    pub fn components_disjoint_mut(&mut self, component_ids: Vec<ComponentId>) -> (components: Vec<Option<Vec<&mut V>>>)
        requires
            old(self).wf(),
            component_ids@.no_duplicates(),
        ensures
            final(self).wf(),
            final(self).vacancy() == old(self).vacancy(),
            final(self).removed() == old(self).removed(),
            components@.len() == component_ids@.len(),
            final(self).columns().dom() == old(self).columns().dom(),
            forall|c: ComponentId| old(self).columns().contains_key(c) && !component_ids@.contains(c)
                ==> #[trigger] final(self).columns()[c] == old(self).columns()[c],
            forall|k: int| 0 <= k < component_ids@.len() && !old(self).columns().contains_key(component_ids@[k])
                ==> #[trigger] components@[k] is None,
            forall|k: int| 0 <= k < component_ids@.len() && old(self).columns().contains_key(#[trigger] component_ids@[k]) ==> {
                let column = old(self).columns()[component_ids@[k]];
                let positions = occupied_positions(column, old(self).removed());
                let refs = components@[k]->0@;
                &&& components@[k] is Some
                &&& refs.len() == positions.len()
                &&& final(self).columns()[component_ids@[k]].len() == column.len()
                &&& forall|j: int| 0 <= j < refs.len() ==> *(#[trigger] refs[j]) == column[positions[j]]->0
                &&& forall|j: int| 0 <= j < refs.len() ==> final(self).columns()[component_ids@[k]][positions[j]] == Some(*final(#[trigger] refs[j]))
                &&& forall|q: int| 0 <= q < column.len() && !is_selected(column, old(self).removed(), q)
                    ==> #[trigger] final(self).columns()[component_ids@[k]][q] == column[q]
            },
    {
        proof {
            lemma_table_map_same_ids(self.table@);
            assert forall|k: int| 0 <= k < component_ids@.len() && self.columns().contains_key(#[trigger] component_ids@[k]) implies
                exists|i: int| 0 <= i < self.table@.len() && #[trigger] self.table@[i].id == component_ids@[k] by {
                let i = choose|i: int| 0 <= i < self.table@.len() && #[trigger] self.table@[i].id == component_ids@[k];
            }
            assert forall|i: int| 0 <= i < self.table@.len() implies #[trigger] self.columns()[self.table@[i].id] == self.table@[i].cells@ by {
                lemma_table_map_index(self.table@, i);
            }
        }
        disjoint_occupied_mut(self.table.as_mut_slice(), &component_ids, &self.removed_entities)
    }

    /// Gets a mutable reference to the component of given kind if present,
    /// otherwise inserts the component that is constructed by given closure and
    /// returns mutable reference to it.
    ///
    pub fn component_get_or_insert_with<F: FnOnce() -> V>(&mut self, entity_id: EntityId, component_id: ComponentId, f: F) -> (result: &mut V)
        requires
            old(self).wf(),
            entity_id.0 < usize::MAX,
            f.requires(()),
        ensures
            final(self).wf(),
            final(self).vacancy() == old(self).vacancy(),
            final(self).removed() == old(self).removed(),
            old(self).cell(entity_id, component_id) is Some ==> {
                &&& *result == old(self).cell(entity_id, component_id)->0
                &&& final(self).columns() == old(self).columns().insert(
                    component_id,
                    old(self).columns()[component_id].update(entity_id.0 as int, Some(*final(result))),
                )
            },
            old(self).cell(entity_id, component_id) is None ==> {
                &&& f.ensures((), *result)
                &&& final(self).columns() == put_cell(
                    old(self).columns(),
                    entity_id,
                    component_id,
                    (entity_id.0 + 1) as nat,
                    Some(*final(result)),
                )
            },
    {
        if !self.contains_component(entity_id, component_id) {
            let value = f();
            let _ = self.insert_bundled_component_with_capacity(entity_id, component_id, value, 0);
            proof {
                lemma_put_cell(old(self).columns(), entity_id, component_id, old(self).grown_len(entity_id, component_id, 0), Some(value));
            }
        }
        let ghost middle = *self;
        proof {
            assert(middle.cell(entity_id, component_id) is Some);
        }
        proof {
            if old(self).cell(entity_id, component_id) is None {
                let cols = old(self).columns();
                let col = if cols.contains_key(component_id) { cols[component_id] } else { Seq::<Option<V>>::empty() };
                assert(padded(col, old(self).grown_len(entity_id, component_id, 0)) =~= padded(col, (entity_id.0 + 1) as nat));
                assert forall|x: V| #[trigger] middle.columns().insert(
                    component_id,
                    middle.columns()[component_id].update(entity_id.0 as int, Some(x)),
                ) == put_cell(cols, entity_id, component_id, (entity_id.0 + 1) as nat, Some(x)) by {
                    assert(middle.columns()[component_id].update(entity_id.0 as int, Some(x)) =~= padded(
                        col,
                        (entity_id.0 + 1) as nat,
                    ).update(entity_id.0 as int, Some(x)));
                    assert(middle.columns().insert(component_id, middle.columns()[component_id].update(entity_id.0 as int, Some(x)))
                        =~= put_cell(cols, entity_id, component_id, (entity_id.0 + 1) as nat, Some(x)));
                }
            }
        }
        self.component_mut(entity_id, component_id).unwrap()
    }
}

} // verus!
