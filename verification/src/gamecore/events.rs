//! `gamecore::events` submodule defines events - data that is used by `ggengine` parts to communicate.
//!
//! Events are stored type-erased: every event value carries the [`EventId`]
//! of its kind, and the storage keeps the events of each kind in the order they were sent.
//!

use vstd::prelude::*;

verus! {

/// [`EventId`] id struct is needed to identify kinds of [`Event`]s in storages.
///
/// Storages internally operate on ids, which allows them to provide a flexible interface.
///
#[derive(Copy, Clone, Debug, PartialEq, Eq, Structural, Hash)]
pub struct EventId(pub u64);

impl EventId {
    /// Returns [`EventId`] of the event kind numbered `kind`.
    ///
    pub fn of(kind: u64) -> (id: EventId)
        ensures
            id.0 == kind,
    {
        EventId(kind)
    }
}

/// [`Event`] struct is a type-erased event: a value together with the id of its kind.
///
/// Events of one kind are collected in the order they were sent until they are consumed.
///
#[derive(Debug)]
pub struct Event<V> {
    /// Kind of the event.
    ///
    pub id: EventId,
    /// Event data.
    ///
    pub value: V,
}

/// Type alias for a type-erased [`Event`].
///
pub type BoxedEvent<V> = Event<V>;

impl<V> Event<V> {
    /// Creates a event of kind `id` that holds `value`.
    ///
    pub fn new(id: EventId, value: V) -> (event: Event<V>)
        ensures
            event.id == id,
            event.value == value,
    {
        Event { id, value }
    }

    /// Returns true if the inner value is of the kind `id`.
    ///
    pub fn is(&self, id: EventId) -> (result: bool)
        ensures
            result == (self.id == id),
    {
        self.id == id
    }

    /// Attempts to downcast the event to the value of kind `id`.
    ///
    /// On failure the event is returned unchanged.
    ///
    pub fn downcast(self, id: EventId) -> (result: Result<V, Event<V>>)
        ensures
            self.id == id ==> result == Ok::<V, Event<V>>(self.value),
            self.id != id ==> result == Err::<V, Event<V>>(self),
    {
        if self.id == id {
            Ok(self.value)
        } else {
            Err(self)
        }
    }

    /// Returns some reference to the inner value if it is of kind `id`, or `None` if it isn't.
    ///
    pub fn downcast_ref(&self, id: EventId) -> (result: Option<&V>)
        ensures
            self.id == id ==> result == Some(&self.value),
            self.id != id ==> result is None,
    {
        if self.id == id {
            Some(&self.value)
        } else {
            None
        }
    }

    /// Returns some mutable reference to the inner value if it is of kind `id`, or `None` if it isn't.
    ///
    pub fn downcast_mut(&mut self, id: EventId) -> (result: Option<&mut V>)
        ensures
            old(self).id == id ==> (result is Some && *result->0 == old(self).value
                && final(self).id == id && final(self).value == *final(result->0)),
            old(self).id != id ==> (result is None && *final(self) == *old(self)),
    {
        if self.id == id {
            Some(&mut self.value)
        } else {
            None
        }
    }
}

} // verus!
