//! Submodule that implements [`EventStorage`].
//!

use crate::gamecore::events::{Event, EventId};
use std::collections::hash_map::Entry;
use std::collections::HashMap;
use vstd::prelude::*;

verus! {

broadcast use vstd::std_specs::hash::group_hash_axioms;

/// [`EventStorage`] struct provides API for a storage of events.
///
/// Events of one kind are kept in the order they were sent, until they are removed.
///
#[derive(Debug)]
pub struct EventStorage<V> {
    /// Map from the number of an event kind to the events of that kind.
    ///
    events: HashMap<u64, Vec<V>>,
}

impl<V> View for EventStorage<V> {
    type V = Map<EventId, Seq<V>>;

    /// The events held by the storage, by kind, in the order they were sent.
    ///
    closed spec fn view(&self) -> Map<EventId, Seq<V>> {
        Map::new(
            |e: EventId| self.events@.contains_key(e.0),
            |e: EventId| self.events@[e.0]@,
        )
    }
}

/// Events of kind `event_id` that `events` holds (none where it holds no such kind).
///
pub open spec fn pending<V>(events: Map<EventId, Seq<V>>, event_id: EventId) -> Seq<V> {
    if events.contains_key(event_id) {
        events[event_id]
    } else {
        Seq::empty()
    }
}

impl<V> EventStorage<V> {
    /// Initializes new [`EventStorage`].
    ///
    /// Created [`EventStorage`] will not allocate until first insertions.
    ///
    pub fn new() -> (storage: Self)
        ensures
            storage@ == Map::<EventId, Seq<V>>::empty(),
    {
        let storage = EventStorage { events: HashMap::new() };
        assert(storage@ =~= Map::<EventId, Seq<V>>::empty());
        storage
    }

    /// Clears storage, removing all data.
    ///
    pub fn clear(&mut self)
        ensures
            final(self)@ == Map::<EventId, Seq<V>>::empty(),
    {
        self.events.clear();
        assert(self@ =~= Map::<EventId, Seq<V>>::empty());
    }

    /// Sends event: appends it to the events of its kind.
    ///
    pub fn insert(&mut self, event: Event<V>)
        ensures
            final(self)@ == old(self)@.insert(event.id, pending(old(self)@, event.id).push(event.value)),
    {
        let Event { id, value } = event;
        let events = self.events.entry(id.0).or_insert(Vec::new());
        events.push(value);
        assert(self@ =~= old(self)@.insert(id, pending(old(self)@, id).push(value)));
    }

    /// Removes all events of kind `event_id` from the storage and returns them.
    ///
    /// `None` is returned when there were no such events.
    ///
    pub fn remove(&mut self, event_id: EventId) -> (removed: Option<Vec<V>>)
        ensures
            final(self)@ == old(self)@.remove(event_id),
            pending(old(self)@, event_id).len() == 0 ==> removed is None,
            pending(old(self)@, event_id).len() > 0 ==> (removed is Some && removed->0@ == pending(old(self)@, event_id)),
    {
        let removed = self.events.remove(&event_id.0);
        assert(self@ =~= old(self)@.remove(event_id));
        match removed {
            Some(events) => {
                if events.len() == 0 {
                    None
                } else {
                    Some(events)
                }
            },
            None => None,
        }
    }

    /// Returns whether there are events of kind `event_id` in the storage.
    ///
    pub fn contains(&self, event_id: EventId) -> (result: bool)
        ensures
            result == (pending(self@, event_id).len() > 0),
    {
        match self.events.get(&event_id.0) {
            Some(events) => events.len() > 0,
            None => false,
        }
    }

    /// Returns reference to the events of kind `event_id`, if there are any.
    ///
    /// It agrees with `contains`: `None` is returned when the kind holds no events,
    /// so the returned vector is never empty.
    ///
    pub fn events(&self, event_id: EventId) -> (result: Option<&Vec<V>>)
        ensures
            pending(self@, event_id).len() > 0 ==> (result is Some && result->0@ == self@[event_id]),
            pending(self@, event_id).len() == 0 ==> result is None,
    {
        match self.events.get(&event_id.0) {
            Some(events) => {
                if events.len() == 0 {
                    None
                } else {
                    Some(events)
                }
            },
            None => None,
        }
    }

    /// Returns mutable reference to the events of kind `event_id`, if there are any.
    ///
    pub fn events_mut(&mut self, event_id: EventId) -> (result: Option<&mut Vec<V>>)
        ensures
            pending(old(self)@, event_id).len() > 0 ==> (result is Some
                && result->0@ == old(self)@[event_id]
                && final(self)@ == old(self)@.insert(event_id, final(result->0)@)),
            pending(old(self)@, event_id).len() == 0 ==> (result is None && final(self)@ == old(self)@),
    {
        match self.events.entry(event_id.0) {
            Entry::Occupied(entry) => {
                if entry.get().len() == 0 {
                    None
                } else {
                    Some(entry.into_mut())
                }
            },
            Entry::Vacant(_) => None,
        }
    }
}

/// Law: a sent event is pending after every event of its kind that was sent before it,
/// and events of other kinds are untouched.
///
pub proof fn law_sent_event_is_pending<V>(events: Map<EventId, Seq<V>>, event: Event<V>, other: EventId)
    ensures
        ({
            let sent = events.insert(event.id, pending(events, event.id).push(event.value));
            &&& pending(sent, event.id) == pending(events, event.id).push(event.value)
            &&& pending(sent, event.id).len() > 0
            &&& other != event.id ==> pending(sent, other) == pending(events, other)
        }),
{
}

/// Law: after the events of a kind are removed, none of that kind is pending.
///
pub proof fn law_removed_events_are_gone<V>(events: Map<EventId, Seq<V>>, event_id: EventId)
    ensures
        pending(events.remove(event_id), event_id).len() == 0,
{
}

} // verus!
