//! Submodule that implements [`EventQuery`].
//!

use super::{QueryParameter, QueryParameterMarker, QueryParameterTuple};
use crate::gamecore::events::EventId;
use crate::gamecore::storages::EventStorage;
use vstd::prelude::*;

verus! {

/// [`EventMarker`] zero-sized type serves as a parameter marker
/// for queries that operate on events.
///
#[derive(Copy, Clone, Debug, Default)]
pub struct EventMarker;

impl QueryParameterMarker for EventMarker {}

impl QueryParameter<EventMarker> for EventId {
    open spec fn spec_kind(&self) -> u64 {
        self.0
    }

    fn kind(&self) -> (kind: u64) {
        self.0
    }
}

/// [`EventsTuple`] trait is an alias for `QueryParameterTuple<EventMarker>`.
/// It is implemented for sequences of [`QueryParameter`]s which are marked as events.
///
pub trait EventsTuple: QueryParameterTuple<EventMarker> {}

impl<T: QueryParameterTuple<EventMarker>> EventsTuple for T {}

/// [`EventQueryValidationError`] enum lists all errors that could occur
/// during validation of [`EventQuery`] parameters.
///
/// Every sequence of event parameters is a valid query at present, so validation never
/// produces an error (see `EventQuery::is_valid`).
///
#[derive(Copy, Clone, Debug, PartialEq, Eq, Structural)]
pub enum EventQueryValidationError {
    /// The parameters cannot be queried together.
    ///
    InvalidParameters,
}

/// [`EventQuery`] struct represents a result of querying events from [`Scene`](crate::gamecore::scenes::Scene).
///
pub struct EventQuery<'a, V, EventParams: EventsTuple> {
    /// Storage of events.
    ///
    storage: &'a mut EventStorage<V>,
    /// Event parameters of the query.
    ///
    params: EventParams,
}

impl<'a, V, EventParams: EventsTuple> EventQuery<'a, V, EventParams> {
    /// Storage that the query operates on.
    ///
    pub closed spec fn storage(&self) -> EventStorage<V> {
        *self.storage
    }

    /// Event parameters of the query.
    ///
    pub closed spec fn params(&self) -> EventParams {
        self.params
    }

    /// Checks the event parameters of a query; no parameters are refused.
    ///
    pub fn is_valid(params: &EventParams) -> (result: Result<(), EventQueryValidationError>)
        ensures
            result is Ok,
    {
        Ok(())
    }

    /// Creates a query with parameters `params` over the events of `storage`,
    /// after validating the parameters.
    ///
    pub fn new(storage: &'a mut EventStorage<V>, params: EventParams) -> (result: Result<Self, EventQueryValidationError>)
        ensures
            result is Ok,
            result matches Ok(query) ==> query.storage() == *old(storage) && query.params() == params,
    {
        match Self::is_valid(&params) {
            Ok(()) => Ok(Self::new_validated(storage, params)),
            Err(error) => Err(error),
        }
    }

    /// Creates a query with parameters `params` over the events of `storage`, without validation.
    ///
    pub fn new_validated(storage: &'a mut EventStorage<V>, params: EventParams) -> (query: Self)
        ensures
            query.storage() == *old(storage),
            query.params() == params,
    {
        EventQuery { storage, params }
    }
}

} // verus!
