//! Message deduplication for the DAM protocol.
//!
//! Message IDs are remembered with the time they were last seen, and the peer
//! that sent them. An ID seen less than `max_age` milliseconds ago is a
//! duplicate. When the tracker holds `max_size` IDs, expired ones are dropped
//! before a new one is tracked.
use vstd::prelude::*;
use crate::json::Json;
use crate::strmap::{StrMap, entries_view, distinct_keys, lemma_entries_view_subrange_step};
use crate::clock::now_millis;

verus! {

/// What is remembered of a message: when it was last seen, the peer that sent it,
/// and the message itself when it was stored.
pub struct MessageEntry {
    pub was: u64,
    pub via: Option<String>,
    pub it: Option<Json>,
}

/// Milliseconds from `was` to `now`; zero when the clock reads earlier than `was`.
pub open spec fn elapsed(was: u64, now: u64) -> int {
    if now >= was { now - was } else { 0 }
}

/// A remembered message is still fresh at time `now`.
pub open spec fn is_fresh(e: MessageEntry, now: u64, max_age: u64) -> bool {
    elapsed(e.was, now) < max_age
}

/// The message `id` is a duplicate at time `now`: it is remembered and still fresh.
pub open spec fn is_duplicate(messages: Map<Seq<char>, MessageEntry>, id: Seq<char>, now: u64, max_age: u64) -> bool {
    messages.contains_key(id) && is_fresh(messages[id], now, max_age)
}

/// The messages that are still fresh at time `now`.
pub open spec fn fresh_only(messages: Map<Seq<char>, MessageEntry>, now: u64, max_age: u64) -> Map<Seq<char>, MessageEntry> {
    Map::new(|k: Seq<char>| messages.contains_key(k) && is_fresh(messages[k], now, max_age), |k: Seq<char>| messages[k])
}

/// The messages after `id` is seen at time `now`: its time is renewed, or it is added
/// with no peer and no stored message.
pub open spec fn seen_at(messages: Map<Seq<char>, MessageEntry>, id: Seq<char>, now: u64) -> Map<Seq<char>, MessageEntry> {
    if messages.contains_key(id) {
        messages.insert(id, MessageEntry { was: now, ..messages[id] })
    } else {
        messages.insert(id, MessageEntry { was: now, via: None, it: None })
    }
}

/// The messages after `id` is tracked at time `now` by a tracker of the given limits:
/// when it is full, expired messages are dropped first.
pub open spec fn tracked_at(messages: Map<Seq<char>, MessageEntry>, max_size: usize, max_age: u64, id: Seq<char>, now: u64)
    -> Map<Seq<char>, MessageEntry> {
    if messages.dom().len() >= max_size {
        seen_at(fresh_only(messages, now, max_age), id, now)
    } else {
        seen_at(messages, id, now)
    }
}

/// Message deduplication tracker.
pub struct Dup {
    messages: StrMap<MessageEntry>,
    max_age: u64,
    max_size: usize,
}

fn elapsed_ms(was: u64, now: u64) -> (r: u64)
    ensures
        r == elapsed(was, now),
{
    if now >= was { now - was } else { 0 }
}

impl Dup {
    /// The remembered messages, by ID.
    pub closed spec fn messages(&self) -> Map<Seq<char>, MessageEntry> {
        self.messages@
    }

    /// Milliseconds after which a message is no longer a duplicate.
    pub closed spec fn max_age(&self) -> u64 {
        self.max_age
    }

    /// How many messages the tracker holds before it drops expired ones.
    pub closed spec fn max_size(&self) -> usize {
        self.max_size
    }

    /// A tracker that remembers no message.
    pub fn new(max_size: usize, max_age_ms: u64) -> (d: Dup)
        ensures
            d.messages() == Map::<Seq<char>, MessageEntry>::empty(),
            d.max_age() == max_age_ms,
            d.max_size() == max_size,
    {
        Dup { messages: StrMap::new(), max_age: max_age_ms, max_size }
    }

    /// A tracker with the default limits: 999 messages, 9000 milliseconds.
    pub fn new_default() -> (d: Dup)
        ensures
            d.messages() == Map::<Seq<char>, MessageEntry>::empty(),
            d.max_age() == 9000,
            d.max_size() == 999,
    {
        Self::new(999, 9000)
    }

    /// Whether `id` is a duplicate at time `now`.
    pub fn check_at(&self, id: &str, now: u64) -> (b: bool)
        ensures
            b == is_duplicate(self.messages(), id@, now, self.max_age()),
    {
        match self.messages.get(id) {
            Some(e) => elapsed_ms(e.was, now) < self.max_age,
            None => false,
        }
    }

    /// Whether `id` is a duplicate now, reading the system clock.
    pub fn check(&self, id: &str) -> (b: bool)
        ensures
            exists|now: u64| b == is_duplicate(self.messages(), id@, now, self.max_age()),
    {
        let now = now_millis();
        self.check_at(id, now)
    }

    /// Drop the messages that have expired at time `now`.
    pub fn drop_expired_at(&mut self, now: u64)
        ensures
            final(self).messages() == fresh_only(old(self).messages(), now, old(self).max_age()),
            final(self).max_age() == old(self).max_age(),
            final(self).max_size() == old(self).max_size(),
    {
        let ghost m0 = self.messages@;
        let mut kept: StrMap<MessageEntry> = StrMap::new();
        let mut old_messages: StrMap<MessageEntry> = StrMap::new();
        std::mem::swap(&mut old_messages, &mut self.messages);
        let mut entries = old_messages.into_entries();
        let ghost orig = entries@;
        let n = entries.len();
        let max_age = self.max_age;
        proof {
            assert(orig.subrange(n as int, n as int) =~= Seq::<(String, MessageEntry)>::empty());
            assert(fresh_only(entries_view(orig.subrange(n as int, n as int)), now, max_age) =~= Map::<Seq<char>, MessageEntry>::empty());
        }
        while entries.len() > 0
            invariant
                orig.len() == n,
                entries.len() <= n,
                entries@ == orig.subrange(0, entries.len() as int),
                distinct_keys(orig),
                entries_view(orig) == m0,
                max_age == self.max_age,
                kept@ == fresh_only(entries_view(orig.subrange(entries.len() as int, n as int)), now, max_age),
            decreases entries.len(),
        {
            let ghost i = entries.len() as int;
            let ghost d = entries_view(orig.subrange(i, n as int));
            proof {
                lemma_entries_view_subrange_step(orig, i, n as int);
            }
            let (k, e) = entries.pop().unwrap();
            proof {
                assert(orig[i - 1] == (k, e));
            }
            if elapsed_ms(e.was, now) < max_age {
                kept.insert(k, e);
            }
            proof {
                let d2 = d.insert(k@, e);
                assert(entries_view(orig.subrange(i - 1, n as int)) == d2);
                assert(kept@ =~= fresh_only(d2, now, max_age));
                assert(entries@ =~= orig.subrange(0, i - 1));
            }
        }
        proof {
            assert(orig.subrange(0, n as int) =~= orig);
        }
        self.messages = kept;
    }

    /// Drop every expired message, reading the system clock.
    pub fn drop_expired_all(&mut self)
        ensures
            exists|now: u64| final(self).messages() == fresh_only(old(self).messages(), now, old(self).max_age()),
            final(self).max_age() == old(self).max_age(),
            final(self).max_size() == old(self).max_size(),
    {
        let now = now_millis();
        self.drop_expired_at(now);
    }

    /// Mark `id` as seen at time `now`. When the tracker is full, expired messages
    /// are dropped first. Always returns `true`.
    pub fn track_at(&mut self, id: &str, now: u64) -> (b: bool)
        ensures
            b,
            final(self).max_age() == old(self).max_age(),
            final(self).max_size() == old(self).max_size(),
            final(self).messages() == tracked_at(old(self).messages(), old(self).max_size(), old(self).max_age(), id@, now),
    {
        if self.messages.len() >= self.max_size {
            self.drop_expired_at(now);
        }
        let ghost m1 = self.messages@;
        match self.messages.remove(id) {
            Some(e) => {
                let MessageEntry { was: _, via, it } = e;
                self.messages.insert(id.to_owned(), MessageEntry { was: now, via, it });
                proof {
                    assert(self.messages@ =~= seen_at(m1, id@, now));
                }
            },
            None => {
                self.messages.insert(id.to_owned(), MessageEntry { was: now, via: None, it: None });
                proof {
                    assert(self.messages@ =~= seen_at(m1, id@, now));
                }
            },
        }
        true
    }

    /// Mark `id` as seen now, reading the system clock. Always returns `true`.
    pub fn track(&mut self, id: &str) -> (b: bool)
        ensures
            b,
            exists|now: u64| final(self).messages() == #[trigger] tracked_at(old(self).messages(), old(self).max_size(), old(self).max_age(), id@, now),
            final(self).max_age() == old(self).max_age(),
            final(self).max_size() == old(self).max_size(),
    {
        let now = now_millis();
        self.track_at(id, now)
    }

    /// Mark `id` as seen at time `now`, sent by `peer_id` when one is given.
    pub fn track_with_peer_at(&mut self, id: &str, peer_id: Option<&str>, now: u64)
        ensures
            final(self).max_age() == old(self).max_age(),
            final(self).max_size() == old(self).max_size(),
            final(self).messages().dom() == old(self).messages().dom().insert(id@),
            forall|k: Seq<char>| k != id@ && #[trigger] old(self).messages().contains_key(k)
                ==> final(self).messages()[k] == old(self).messages()[k],
            final(self).messages()[id@].was == now,
            final(self).messages()[id@].it == seen_at(old(self).messages(), id@, now)[id@].it,
            match peer_id {
                Some(p) => final(self).messages()[id@].via matches Some(v) && v@ == p@,
                None => final(self).messages()[id@].via == seen_at(old(self).messages(), id@, now)[id@].via,
            },
    {
        let ghost m1 = self.messages@;
        let (via, it) = match self.messages.remove(id) {
            Some(e) => (e.via, e.it),
            None => (None, None),
        };
        let via = match peer_id {
            Some(p) => Some(p.to_owned()),
            None => via,
        };
        self.messages.insert(id.to_owned(), MessageEntry { was: now, via, it });
        proof {
            assert(self.messages@.dom() =~= m1.dom().insert(id@));
        }
    }
}

} // verus!

verus! {

/// The messages after message `id` is stored with its data: a remembered ID keeps its
/// time and peer; a new one is added as seen at time `now`.
pub open spec fn stored_at(messages: Map<Seq<char>, MessageEntry>, id: Seq<char>, data: Json, now: u64) -> Map<Seq<char>, MessageEntry> {
    if messages.contains_key(id) {
        messages.insert(id, MessageEntry { it: Some(data), ..messages[id] })
    } else {
        messages.insert(id, MessageEntry { was: now, via: None, it: Some(data) })
    }
}

impl Dup {
    /// The peer that sent message `id`, when it was tracked with one.
    pub fn get_via(&self, id: &str) -> (r: Option<String>)
        ensures
            match r {
                Some(p) => self.messages().contains_key(id@) && self.messages()[id@].via == Some(p),
                None => !self.messages().contains_key(id@) || self.messages()[id@].via is None,
            },
    {
        match self.messages.get(id) {
            Some(e) => match &e.via {
                Some(p) => Some(p.clone()),
                None => None,
            },
            None => None,
        }
    }

    /// Store the message itself with `id`; an ID not yet remembered is added as seen at time `now`.
    pub fn store_at(&mut self, id: &str, data: Json, now: u64)
        ensures
            final(self).max_age() == old(self).max_age(),
            final(self).max_size() == old(self).max_size(),
            final(self).messages() == stored_at(old(self).messages(), id@, data, now),
    {
        let ghost m0 = self.messages@;
        match self.messages.remove(id) {
            Some(e) => {
                let MessageEntry { was, via, it: _ } = e;
                self.messages.insert(id.to_owned(), MessageEntry { was, via, it: Some(data) });
            },
            None => {
                self.messages.insert(id.to_owned(), MessageEntry { was: now, via: None, it: Some(data) });
            },
        }
        proof {
            assert(self.messages@ =~= stored_at(m0, id@, data, now));
        }
    }

    /// Store the message itself with `id`, reading the system clock for a new ID.
    pub fn store(&mut self, id: &str, data: Json)
        ensures
            final(self).max_age() == old(self).max_age(),
            final(self).max_size() == old(self).max_size(),
            exists|now: u64| final(self).messages() == #[trigger] stored_at(old(self).messages(), id@, data, now),
    {
        let now = now_millis();
        self.store_at(id, data, now);
    }

    /// The message stored with `id`.
    pub fn get(&self, id: &str) -> (r: Option<&Json>)
        ensures
            match r {
                Some(d) => self.messages().contains_key(id@) && self.messages()[id@].it == Some(*d),
                None => !self.messages().contains_key(id@) || self.messages()[id@].it is None,
            },
    {
        match self.messages.get(id) {
            Some(e) => match &e.it {
                Some(d) => Some(d),
                None => None,
            },
            None => None,
        }
    }

    /// Forget message `id`.
    pub fn remove(&mut self, id: &str)
        ensures
            final(self).messages() == old(self).messages().remove(id@),
            final(self).max_age() == old(self).max_age(),
            final(self).max_size() == old(self).max_size(),
    {
        let _ = self.messages.remove(id);
    }
}

/// A tracked message is a duplicate until it expires: seen at `t`, it is a duplicate
/// at every time from `t` until `max_age` milliseconds later, and not after.
pub proof fn lemma_tracked_is_duplicate_until_expiry(
    messages: Map<Seq<char>, MessageEntry>,
    max_size: usize,
    max_age: u64,
    id: Seq<char>,
    t: u64,
    later: u64,
)
    requires
        t <= later,
    ensures
        is_duplicate(tracked_at(messages, max_size, max_age, id, t), id, later, max_age) <==> later - t < max_age,
{
}

/// Tracking a message leaves every other fresh message a duplicate.
pub proof fn lemma_track_keeps_fresh_duplicates(
    messages: Map<Seq<char>, MessageEntry>,
    max_size: usize,
    max_age: u64,
    id: Seq<char>,
    other: Seq<char>,
    now: u64,
)
    requires
        other != id,
        is_duplicate(messages, other, now, max_age),
    ensures
        is_duplicate(tracked_at(messages, max_size, max_age, id, now), other, now, max_age),
{
}

} // verus!

verus! {

impl Default for Dup {
    /// The tracker with the default limits, as `Dup::new_default` gives.
    fn default() -> (d: Dup)
        ensures
            d.messages() == Map::<Seq<char>, MessageEntry>::empty(),
            d.max_age() == 9000,
            d.max_size() == 999,
    {
        Dup::new_default()
    }
}

impl Dup {
    /// Mark `id` as seen now, reading the system clock, sent by `peer_id` when one is given.
    pub fn track_with_peer(&mut self, id: &str, peer_id: Option<&str>)
        ensures
            final(self).max_age() == old(self).max_age(),
            final(self).max_size() == old(self).max_size(),
            final(self).messages().dom() == old(self).messages().dom().insert(id@),
            forall|k: Seq<char>| k != id@ && #[trigger] old(self).messages().contains_key(k)
                ==> final(self).messages()[k] == old(self).messages()[k],
            exists|now: u64| {
                &&& final(self).messages()[id@].was == now
                &&& #[trigger] seen_at(old(self).messages(), id@, now)[id@].it == final(self).messages()[id@].it
                &&& match peer_id {
                    Some(p) => final(self).messages()[id@].via matches Some(v) && v@ == p@,
                    None => final(self).messages()[id@].via == seen_at(old(self).messages(), id@, now)[id@].via,
                }
            },
    {
        let now = now_millis();
        self.track_with_peer_at(id, peer_id, now);
    }
}

} // verus!
