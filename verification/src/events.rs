//! Events: listeners subscribe to an event type and are called, in the order they
//! subscribed, whenever an event of that type is emitted.
use vstd::prelude::*;
use crate::json::Json;
use crate::strmap::StrMap;

verus! {

/// An event: its type (such as `"node_update:user_123"`) and its data.
pub struct Event {
    pub event_type: String,
    pub data: Json,
}

/// A subscribed listener and the ID it was given.
pub struct ListenerEntry<F> {
    pub id: u64,
    pub callback: F,
}

/// The listeners of a list that do not have the given ID, in their order.
pub open spec fn without_id<F>(s: Seq<ListenerEntry<F>>, id: u64) -> Seq<ListenerEntry<F>>
    decreases s.len(),
{
    if s.len() == 0 {
        s
    } else if s.last().id == id {
        without_id(s.drop_last(), id)
    } else {
        without_id(s.drop_last(), id).push(s.last())
    }
}

/// The listeners of an event type, in the order they subscribed.
pub open spec fn listeners_of<F>(m: Map<Seq<char>, Seq<ListenerEntry<F>>>, event_type: Seq<char>) -> Seq<ListenerEntry<F>> {
    if m.contains_key(event_type) { m[event_type] } else { Seq::empty() }
}

/// The listeners after the one with the given ID is unsubscribed from an event type: the
/// type's list without it, and the type forgotten when no listener is left.
pub open spec fn off_result<F>(m: Map<Seq<char>, Seq<ListenerEntry<F>>>, event_type: Seq<char>, id: u64) -> Map<Seq<char>, Seq<ListenerEntry<F>>> {
    if !m.contains_key(event_type) {
        m
    } else if without_id(m[event_type], id).len() == 0 {
        m.remove(event_type)
    } else {
        m.insert(event_type, without_id(m[event_type], id))
    }
}

/// The listeners after a listener with the given ID subscribes to an event type.
pub open spec fn on_result<F>(m: Map<Seq<char>, Seq<ListenerEntry<F>>>, event_type: Seq<char>, id: u64, callback: F) -> Map<Seq<char>, Seq<ListenerEntry<F>>> {
    m.insert(event_type, listeners_of(m, event_type).push(ListenerEntry { id, callback }))
}

/// An event emitter: the listeners of each event type, and the last ID handed out.
pub struct EventEmitter<F> {
    listeners: StrMap<Vec<ListenerEntry<F>>>,
    id_counter: u64,
}

impl<F> EventEmitter<F> {
    /// The listeners of each event type that has any, in the order they subscribed.
    pub closed spec fn listeners(&self) -> Map<Seq<char>, Seq<ListenerEntry<F>>> {
        self.listeners@.map_values(|v: Vec<ListenerEntry<F>>| v@)
    }

    /// The last listener ID handed out (0 before the first).
    pub closed spec fn last_id(&self) -> u64 {
        self.id_counter
    }

    /// An emitter with no listeners.
    pub fn new() -> (e: Self)
        ensures
            e.listeners() == Map::<Seq<char>, Seq<ListenerEntry<F>>>::empty(),
            e.last_id() == 0,
    {
        let e = EventEmitter { listeners: StrMap::new(), id_counter: 0 };
        assert(e.listeners() =~= Map::<Seq<char>, Seq<ListenerEntry<F>>>::empty());
        e
    }

    /// Subscribe a listener to an event type; returns its ID, one more than the last
    /// ID handed out. The listener is called after those that subscribed before it.
    pub fn on(&mut self, event_type: &str, callback: F) -> (id: u64)
        requires
            old(self).last_id() < u64::MAX,
        ensures
            id == old(self).last_id() + 1,
            final(self).last_id() == id,
            final(self).listeners() == on_result(old(self).listeners(), event_type@, id, callback),
    {
        let id = self.id_counter + 1;
        self.id_counter = id;
        let mut entries = match self.listeners.remove(event_type) {
            Some(v) => v,
            None => Vec::new(),
        };
        entries.push(ListenerEntry { id, callback });
        self.listeners.insert(event_type.to_owned(), entries);
        proof {
            assert(self.listeners() =~= old(self).listeners().insert(
                event_type@,
                listeners_of(old(self).listeners(), event_type@).push(ListenerEntry { id, callback }),
            ));
        }
        id
    }

    /// Unsubscribe the listener with the given ID from an event type. An event type
    /// left with no listener is forgotten.
    pub fn off(&mut self, event_type: &str, id: u64)
        ensures
            final(self).last_id() == old(self).last_id(),
            final(self).listeners() == off_result(old(self).listeners(), event_type@, id),
    {
        match self.listeners.remove(event_type) {
            Some(mut entries) => {
                let ghost orig = entries@;
                let mut kept: Vec<ListenerEntry<F>> = Vec::new();
                let n = entries.len();
                proof {
                    assert(orig.subrange(0, 0) =~= Seq::<ListenerEntry<F>>::empty());
                }
                while entries.len() > 0
                    invariant
                        orig.len() == n,
                        entries.len() <= n,
                        entries@ == orig.subrange(n - entries.len(), n as int),
                        kept@ == without_id(orig.subrange(0, n - entries.len()), id),
                    decreases entries.len(),
                {
                    let ghost i = n - entries.len();
                    let e = entries.remove(0);
                    proof {
                        assert(e == orig[i]);
                        assert(orig.subrange(0, i + 1).drop_last() =~= orig.subrange(0, i));
                        assert(entries@ =~= orig.subrange(i + 1, n as int));
                    }
                    if e.id != id {
                        kept.push(e);
                    }
                }
                proof {
                    assert(orig.subrange(0, n as int) =~= orig);
                }
                if kept.len() > 0 {
                    self.listeners.insert(event_type.to_owned(), kept);
                }
                proof {
                    if kept@.len() == 0 {
                        assert(self.listeners() =~= old(self).listeners().remove(event_type@));
                    } else {
                        assert(self.listeners() =~= old(self).listeners().insert(event_type@, without_id(old(self).listeners()[event_type@], id)));
                    }
                }
            },
            None => {
                proof {
                    assert(self.listeners() =~= old(self).listeners());
                }
            },
        }
    }

    /// Unsubscribe every listener of an event type.
    pub fn off_all(&mut self, event_type: &str)
        ensures
            final(self).last_id() == old(self).last_id(),
            final(self).listeners() == old(self).listeners().remove(event_type@),
    {
        let _ = self.listeners.remove(event_type);
        assert(self.listeners() =~= old(self).listeners().remove(event_type@));
    }

    /// Unsubscribe every listener of an event type.
    pub fn remove_all_listeners(&mut self, event_type: &str)
        ensures
            final(self).last_id() == old(self).last_id(),
            final(self).listeners() == old(self).listeners().remove(event_type@),
    {
        self.off_all(event_type);
    }

    /// The last listener ID handed out (zero before the first).
    pub fn last_listener_id(&self) -> (id: u64)
        ensures
            id == self.last_id(),
    {
        self.id_counter
    }

    /// How many listeners an event type has.
    pub fn listener_count(&self, event_type: &str) -> (n: usize)
        ensures
            n == listeners_of(self.listeners(), event_type@).len(),
    {
        match self.listeners.get(event_type) {
            Some(v) => v.len(),
            None => 0,
        }
    }

    /// Call every listener of the event's type with the event, in the order they subscribed.
    pub fn emit(&self, event: &Event)
        where
            F: Fn(&Event),
        requires
            forall|i: int| 0 <= i < listeners_of(self.listeners(), event.event_type@).len()
                ==> call_requires(#[trigger] listeners_of(self.listeners(), event.event_type@)[i].callback, (event,)),
    {
        match self.listeners.get(event.event_type.as_str()) {
            Some(entries) => {
                let mut i: usize = 0;
                proof {
                    assert(entries@ == listeners_of(self.listeners(), event.event_type@));
                    assert forall|j: int| 0 <= j < entries@.len() implies call_requires(#[trigger] entries@[j].callback, (event,)) by {
                        assert(entries@[j] == listeners_of(self.listeners(), event.event_type@)[j]);
                    }
                }
                while i < entries.len()
                    invariant
                        i <= entries@.len(),
                        entries@ == listeners_of(self.listeners(), event.event_type@),
                        forall|j: int| 0 <= j < entries@.len() ==> call_requires(#[trigger] entries@[j].callback, (event,)),
                    decreases entries@.len() - i,
                {
                    let cb = &entries[i].callback;
                    cb(event);
                    i = i + 1;
                }
            },
            None => {},
        }
    }
}

} // verus!

verus! {

proof fn lemma_without_absent_id<F>(s: Seq<ListenerEntry<F>>, id: u64)
    requires
        forall|i: int| 0 <= i < s.len() ==> (#[trigger] s[i]).id != id,
    ensures
        without_id(s, id) == s,
    decreases s.len(),
{
    if s.len() > 0 {
        lemma_without_absent_id(s.drop_last(), id);
        assert(s.drop_last().push(s.last()) =~= s);
    }
}

/// Unsubscribing a listener undoes subscribing it: when no listener of the event type has
/// the ID, subscribing a listener with it and then unsubscribing it gives back the listeners
/// as they were (an event type is only kept while it has listeners).
pub proof fn lemma_off_undoes_on<F>(m: Map<Seq<char>, Seq<ListenerEntry<F>>>, event_type: Seq<char>, id: u64, callback: F)
    requires
        m.contains_key(event_type) ==> m[event_type].len() > 0,
        forall|i: int| 0 <= i < listeners_of(m, event_type).len() ==> (#[trigger] listeners_of(m, event_type)[i]).id != id,
    ensures
        off_result(on_result(m, event_type, id, callback), event_type, id) == m,
{
    let l = listeners_of(m, event_type);
    let l2 = l.push(ListenerEntry { id, callback });
    assert(l2.drop_last() =~= l);
    lemma_without_absent_id(l, id);
    assert(without_id(l2, id) == l);
    if m.contains_key(event_type) {
        assert(off_result(on_result(m, event_type, id, callback), event_type, id) =~= m);
    } else {
        assert(off_result(on_result(m, event_type, id, callback), event_type, id) =~= m);
    }
}

} // verus!

verus! {

impl<F> Default for EventEmitter<F> {
    /// An emitter with no listeners, as `EventEmitter::new` gives.
    fn default() -> (e: Self)
        ensures
            e.listeners() == Map::<Seq<char>, Seq<ListenerEntry<F>>>::empty(),
            e.last_id() == 0,
    {
        EventEmitter::new()
    }
}

} // verus!
