//! Submodule that implements [`ComponentQuery`].
//!

use super::{QueryParameter, QueryParameterMarker, QueryParameterTuple};
use crate::gamecore::components::ComponentId;
use crate::gamecore::storages::{ComponentStorage, EntityComponentStorage};
use vstd::prelude::*;

verus! {

/// [`ComponentMarker`] zero-sized type serves as a parameter marker
/// for queries that operate on components.
///
#[derive(Copy, Clone, Debug, Default)]
pub struct ComponentMarker;

impl QueryParameterMarker for ComponentMarker {}

impl QueryParameter<ComponentMarker> for ComponentId {
    open spec fn spec_kind(&self) -> u64 {
        self.0
    }

    fn kind(&self) -> (kind: u64) {
        self.0
    }
}

/// [`ComponentsTuple`] trait is an alias for `QueryParameterTuple<ComponentMarker>`.
/// It is implemented for sequences of [`QueryParameter`]s which are marked as components.
///
pub trait ComponentsTuple: QueryParameterTuple<ComponentMarker> {}

impl<T: QueryParameterTuple<ComponentMarker>> ComponentsTuple for T {}

/// [`ComponentGroup`] struct wraps one [`ComponentsTuple`]: the components that a query
/// asks of one entity.
///
#[derive(Debug)]
pub struct ComponentGroup<T: ComponentsTuple>(pub T);

/// Total size of the tuples of `groups`.
///
pub open spec fn groups_total<T: ComponentsTuple>(groups: Seq<ComponentGroup<T>>) -> nat
    decreases groups.len(),
{
    if groups.len() == 0 {
        0
    } else {
        groups_total(groups.drop_last()) + groups.last().0.spec_size()
    }
}

/// [`ComponentGroupsTuple`] trait is implemented for sequences of [`ComponentGroup`]s.
///
pub trait ComponentGroupsTuple {
    /// Size of a tuple.
    ///
    spec fn spec_size(&self) -> nat;

    /// Total number of components in all groups.
    ///
    spec fn spec_total_components(&self) -> nat;

    /// Size of a tuple.
    ///
    fn size(&self) -> (size: usize)
        ensures
            size == self.spec_size(),
    ;

    /// Total number of components in all groups.
    ///
    fn total_components(&self) -> (total: usize)
        requires
            self.spec_total_components() <= usize::MAX,
        ensures
            total == self.spec_total_components(),
    ;
}

/// The total of a prefix of the groups is at most the total of all of them.
///
proof fn lemma_groups_total_prefix<T: ComponentsTuple>(groups: Seq<ComponentGroup<T>>, k: int)
    requires
        0 <= k <= groups.len(),
    ensures
        groups_total(groups.take(k)) <= groups_total(groups),
    decreases groups.len() - k,
{
    if k < groups.len() {
        lemma_groups_total_prefix(groups, k + 1);
        assert(groups.take(k + 1).drop_last() =~= groups.take(k));
    } else {
        assert(groups.take(k) =~= groups);
    }
}

impl<T: ComponentsTuple> ComponentGroupsTuple for Vec<ComponentGroup<T>> {
    open spec fn spec_size(&self) -> nat {
        self@.len()
    }

    open spec fn spec_total_components(&self) -> nat {
        groups_total(self@)
    }

    fn size(&self) -> (size: usize) {
        self.len()
    }

    fn total_components(&self) -> (total: usize) {
        let mut total: usize = 0;
        let mut k: usize = 0;
        while k < self.len()
            invariant
                k <= self@.len(),
                total == groups_total(self@.take(k as int)),
                groups_total(self@) <= usize::MAX,
            decreases self@.len() - k,
        {
            proof {
                lemma_groups_total_prefix(self@, k + 1);
                assert(self@.take(k + 1).drop_last() =~= self@.take(k as int));
            }
            total = total + self[k].0.size();
            k = k + 1;
        }
        assert(self@.take(k as int) =~= self@);
        total
    }
}

/// [`ComponentQuery`] struct represents a result of querying components from [`Scene`](crate::gamecore::scenes::Scene).
///
pub struct ComponentQuery<'a, V, ComponentParams: ComponentGroupsTuple> {
    /// Storage of components.
    ///
    storage: &'a mut ComponentStorage<V>,
    /// Component parameters of the query.
    ///
    params: ComponentParams,
}

impl<'a, V, ComponentParams: ComponentGroupsTuple> ComponentQuery<'a, V, ComponentParams> {
    /// Storage that the query operates on.
    ///
    pub closed spec fn storage(&self) -> ComponentStorage<V> {
        *self.storage
    }

    /// Component parameters of the query.
    ///
    pub closed spec fn params(&self) -> ComponentParams {
        self.params
    }

    /// Creates a query with parameters `params` over the components of `storage`.
    ///
    pub fn new(storage: &'a mut ComponentStorage<V>, params: ComponentParams) -> (query: Self)
        ensures
            query.storage() == *old(storage),
            query.params() == params,
    {
        ComponentQuery { storage, params }
    }
}

/// [`ComponentsQuery`] struct represents a result of querying components from an
/// [`EntityComponentStorage`].
///
pub struct ComponentsQuery<'a, V, ComponentParams: ComponentGroupsTuple> {
    /// Storage of components.
    ///
    storage: &'a mut EntityComponentStorage<V>,
    /// Component parameters of the query.
    ///
    params: ComponentParams,
}

} // verus!
