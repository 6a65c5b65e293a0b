//! Submodule that implements [`ResourceQuery`].
//!

use super::{QueryParameter, QueryParameterMarker, QueryParameterTuple};
use crate::gamecore::resources::ResourceId;
use crate::gamecore::storages::ResourceStorage;
use vstd::prelude::*;

verus! {

/// [`ResourceMarker`] zero-sized type serves as a parameter marker
/// for queries that operate on resources.
///
#[derive(Copy, Clone, Debug, Default)]
pub struct ResourceMarker;

impl QueryParameterMarker for ResourceMarker {}

impl QueryParameter<ResourceMarker> for ResourceId {
    open spec fn spec_kind(&self) -> u64 {
        self.0
    }

    fn kind(&self) -> (kind: u64) {
        self.0
    }
}

/// [`ResourcesTuple`] trait is an alias for `QueryParameterTuple<ResourceMarker>`.
/// It is implemented for sequences of [`QueryParameter`]s which are marked as resources.
///
pub trait ResourcesTuple: QueryParameterTuple<ResourceMarker> {}

impl<T: QueryParameterTuple<ResourceMarker>> ResourcesTuple for T {}

/// [`ResourceQueryValidationError`] enum lists all errors that could occur
/// during validation of [`ResourceQuery`] parameters.
///
/// Every sequence of resource parameters is a valid query at present, so validation never
/// produces an error (see `ResourceQuery::is_valid`).
///
#[derive(Copy, Clone, Debug, PartialEq, Eq, Structural)]
pub enum ResourceQueryValidationError {
    /// The parameters cannot be queried together.
    ///
    InvalidParameters,
}

/// [`ResourceQuery`] struct represents a result of querying resources from [`Scene`](crate::gamecore::scenes::Scene).
///
pub struct ResourceQuery<'a, V, ResourceParams: ResourcesTuple> {
    /// Storage of resources.
    ///
    storage: &'a mut ResourceStorage<V>,
    /// Resource parameters of the query.
    ///
    params: ResourceParams,
}

impl<'a, V, ResourceParams: ResourcesTuple> ResourceQuery<'a, V, ResourceParams> {
    /// Storage that the query operates on.
    ///
    pub closed spec fn storage(&self) -> ResourceStorage<V> {
        *self.storage
    }

    /// Resource parameters of the query.
    ///
    pub closed spec fn params(&self) -> ResourceParams {
        self.params
    }

    /// Checks the resource parameters of a query; no parameters are refused.
    ///
    pub fn is_valid(params: &ResourceParams) -> (result: Result<(), ResourceQueryValidationError>)
        ensures
            result is Ok,
    {
        Ok(())
    }

    /// Creates a query with parameters `params` over the resources of `storage`,
    /// after validating the parameters.
    ///
    pub fn new(storage: &'a mut ResourceStorage<V>, params: ResourceParams) -> (result: Result<Self, ResourceQueryValidationError>)
        ensures
            result is Ok,
            result matches Ok(query) ==> query.storage() == *old(storage) && query.params() == params,
    {
        match Self::is_valid(&params) {
            Ok(()) => Ok(Self::new_validated(storage, params)),
            Err(error) => Err(error),
        }
    }

    /// Creates a query with parameters `params` over the resources of `storage`, without validation.
    ///
    pub fn new_validated(storage: &'a mut ResourceStorage<V>, params: ResourceParams) -> (query: Self)
        ensures
            query.storage() == *old(storage),
            query.params() == params,
    {
        ResourceQuery { storage, params }
    }
}

/// [`ResourcesQuery`] struct represents a result of querying resources: the storage together
/// with the resource parameters of the query.
///
pub struct ResourcesQuery<'a, V, ResourceParams: ResourcesTuple> {
    /// Storage of resources.
    ///
    storage: &'a mut ResourceStorage<V>,
    /// Resource parameters of the query.
    ///
    params: ResourceParams,
}

} // verus!
