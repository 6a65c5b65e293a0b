//! `gamecore::querying` submodule defines several traits and structs
//! which allow rich and concise representation of system queries.
//!
//! A query names the kinds of data it operates on by their ids; the parameters of a query
//! are grouped by the storage they come from, which [`QueryParameterMarker`]s tell apart.
//!

use vstd::prelude::*;

pub mod component_query;
pub mod event_query;
pub mod resource_query;
pub mod system_query;

verus! {

/// [`QueryParameterMarker`] trait is defined for all query types that `ggengine` supports.
///
pub trait QueryParameterMarker {}

/// [`QueryParameter`] trait defines values that may be used for querying:
/// ids of the kinds of data that a query operates on.
///
pub trait QueryParameter<M: QueryParameterMarker> {
    /// Number of the kind that the parameter names.
    ///
    spec fn spec_kind(&self) -> u64;

    /// Number of the kind that the parameter names.
    ///
    fn kind(&self) -> (kind: u64)
        ensures
            kind == self.spec_kind(),
    ;
}

/// [`QueryParameterTuple`] trait is defined for sequences of [`QueryParameter`]s which have the same marker.
///
pub trait QueryParameterTuple<M: QueryParameterMarker> {
    /// The size of a tuple.
    ///
    spec fn spec_size(&self) -> nat;

    /// The size of a tuple.
    ///
    fn size(&self) -> (size: usize)
        ensures
            size == self.spec_size(),
    ;
}

impl<M: QueryParameterMarker, P: QueryParameter<M>> QueryParameterTuple<M> for Vec<P> {
    open spec fn spec_size(&self) -> nat {
        self@.len()
    }

    fn size(&self) -> (size: usize) {
        self.len()
    }
}

} // verus!
