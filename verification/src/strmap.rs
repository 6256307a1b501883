//! A finite map keyed by strings, kept as a list of entries with distinct keys.
//!
//! The library's objects, graphs, state tables and listener tables all store
//! their contents in a `StrMap`. Its abstract view is a `Map` from the key's
//! characters to the stored value.
use vstd::prelude::*;

verus! {

/// The view of an entry list: every key that occurs maps to the value stored with it.
pub open spec fn entries_view<V>(s: Seq<(String, V)>) -> Map<Seq<char>, V> {
    Map::new(
        |k: Seq<char>| exists|i: int| 0 <= i < s.len() && #[trigger] s[i].0@ == k,
        |k: Seq<char>| s[choose|i: int| 0 <= i < s.len() && #[trigger] s[i].0@ == k].1,
    )
}

/// No key occurs twice in the entry list.
pub open spec fn distinct_keys<V>(s: Seq<(String, V)>) -> bool {
    forall|i: int, j: int|
        0 <= i < s.len() && 0 <= j < s.len() && i != j ==> #[trigger] s[i].0@ != #[trigger] s[j].0@
}

pub proof fn lemma_entries_view_at<V>(s: Seq<(String, V)>, i: int)
    requires
        distinct_keys(s),
        0 <= i < s.len(),
    ensures
        entries_view(s).contains_key(s[i].0@),
        entries_view(s)[s[i].0@] == s[i].1,
{
    let k = s[i].0@;
    assert(s[i].0@ == k);
    let j = choose|j: int| 0 <= j < s.len() && #[trigger] s[j].0@ == k;
    assert(j == i);
}

pub proof fn lemma_entries_view_push<V>(s: Seq<(String, V)>, key: String, v: V)
    requires
        distinct_keys(s),
        !entries_view(s).contains_key(key@),
    ensures
        distinct_keys(s.push((key, v))),
        entries_view(s.push((key, v))) =~= entries_view(s).insert(key@, v),
{
    let t = s.push((key, v));
    assert forall|i: int, j: int|
        0 <= i < t.len() && 0 <= j < t.len() && i != j implies #[trigger] t[i].0@ != #[trigger] t[j].0@ by {
        if i < s.len() && j < s.len() {
            assert(t[i] == s[i] && t[j] == s[j]);
        } else if i < s.len() {
            assert(t[i] == s[i]);
            assert(s[i].0@ == s[i].0@);
        } else {
            assert(t[j] == s[j]);
            assert(s[j].0@ == s[j].0@);
        }
    }
    assert forall|k: Seq<char>| #[trigger] entries_view(t).contains_key(k) == entries_view(s).insert(key@, v).contains_key(k) by {
        if entries_view(s).contains_key(k) {
            let i = choose|i: int| 0 <= i < s.len() && #[trigger] s[i].0@ == k;
            assert(t[i] == s[i]);
        }
        if k == key@ {
            assert(t[s.len() as int].0@ == k);
        }
        if entries_view(t).contains_key(k) {
            let i = choose|i: int| 0 <= i < t.len() && #[trigger] t[i].0@ == k;
            if i < s.len() {
                assert(t[i] == s[i]);
            }
        }
    }
    assert forall|k: Seq<char>| #[trigger] entries_view(t).contains_key(k) implies entries_view(t)[k] == entries_view(s).insert(key@, v)[k] by {
        let i = choose|i: int| 0 <= i < t.len() && #[trigger] t[i].0@ == k;
        lemma_entries_view_at(t, i);
        if i < s.len() {
            assert(t[i] == s[i]);
            lemma_entries_view_at(s, i);
        }
    }
}

pub proof fn lemma_entries_view_update<V>(s: Seq<(String, V)>, i: int, key: String, v: V)
    requires
        distinct_keys(s),
        0 <= i < s.len(),
        s[i].0@ == key@,
    ensures
        distinct_keys(s.update(i, (key, v))),
        entries_view(s.update(i, (key, v))) =~= entries_view(s).insert(key@, v),
{
    let t = s.update(i, (key, v));
    assert forall|a: int, b: int|
        0 <= a < t.len() && 0 <= b < t.len() && a != b implies #[trigger] t[a].0@ != #[trigger] t[b].0@ by {
        assert(s[a].0@ != s[b].0@);
    }
    assert forall|k: Seq<char>| #[trigger] entries_view(t).contains_key(k) == entries_view(s).insert(key@, v).contains_key(k) by {
        if entries_view(s).contains_key(k) {
            let j = choose|j: int| 0 <= j < s.len() && #[trigger] s[j].0@ == k;
            assert(t[j].0@ == k);
        }
        if k == key@ {
            assert(t[i].0@ == k);
        }
        if entries_view(t).contains_key(k) {
            let j = choose|j: int| 0 <= j < t.len() && #[trigger] t[j].0@ == k;
            assert(s[j].0@ == k);
        }
    }
    assert forall|k: Seq<char>| #[trigger] entries_view(t).contains_key(k) implies entries_view(t)[k] == entries_view(s).insert(key@, v)[k] by {
        let j = choose|j: int| 0 <= j < t.len() && #[trigger] t[j].0@ == k;
        lemma_entries_view_at(t, j);
        if j != i {
            lemma_entries_view_at(s, j);
        }
    }
}

pub proof fn lemma_entries_view_remove<V>(s: Seq<(String, V)>, i: int)
    requires
        distinct_keys(s),
        0 <= i < s.len(),
    ensures
        distinct_keys(s.remove(i)),
        entries_view(s.remove(i)) =~= entries_view(s).remove(s[i].0@),
{
    let t = s.remove(i);
    let key = s[i].0@;
    assert forall|a: int, b: int|
        0 <= a < t.len() && 0 <= b < t.len() && a != b implies #[trigger] t[a].0@ != #[trigger] t[b].0@ by {
        let a2 = if a < i { a } else { a + 1 };
        let b2 = if b < i { b } else { b + 1 };
        assert(t[a] == s[a2] && t[b] == s[b2]);
        assert(s[a2].0@ != s[b2].0@);
    }
    assert forall|k: Seq<char>| #[trigger] entries_view(t).contains_key(k) == entries_view(s).remove(key).contains_key(k) by {
        if entries_view(s).contains_key(k) && k != key {
            let j = choose|j: int| 0 <= j < s.len() && #[trigger] s[j].0@ == k;
            assert(j != i);
            let j2 = if j < i { j } else { j - 1 };
            assert(t[j2] == s[j]);
        }
        if entries_view(t).contains_key(k) {
            let j = choose|j: int| 0 <= j < t.len() && #[trigger] t[j].0@ == k;
            let j2 = if j < i { j } else { j + 1 };
            assert(t[j] == s[j2]);
            assert(s[j2].0@ != s[i].0@);
        }
    }
    assert forall|k: Seq<char>| #[trigger] entries_view(t).contains_key(k) implies entries_view(t)[k] == entries_view(s).remove(key)[k] by {
        let j = choose|j: int| 0 <= j < t.len() && #[trigger] t[j].0@ == k;
        let j2 = if j < i { j } else { j + 1 };
        assert(t[j] == s[j2]);
        lemma_entries_view_at(t, j);
        lemma_entries_view_at(s, j2);
    }
}

/// A map from strings to values that keeps its entries in the order they were first inserted.
#[derive(Debug, PartialEq)]
pub struct StrMap<V> {
    pub(crate) entries: Vec<(String, V)>,
}

impl<V> View for StrMap<V> {
    type V = Map<Seq<char>, V>;

    open spec fn view(&self) -> Map<Seq<char>, V> {
        entries_view(self.entries())
    }
}

impl<V> StrMap<V> {
    /// The entries in insertion order.
    pub closed spec fn entries(&self) -> Seq<(String, V)> {
        self.entries@
    }

    /// The map whose entries, in order, are the given ones (with distinct keys).
    pub fn from_entries(es: Vec<(String, V)>) -> (m: StrMap<V>)
        requires
            distinct_keys(es@),
        ensures
            m.entries() == es@,
            m@ == entries_view(es@),
    {
        StrMap { entries: es }
    }

    pub(crate) proof fn lemma_entries_field(&self)
        ensures
            self.entries() == self.entries@,
    {
    }

    /// The keys of the entries are distinct.
    #[verifier::type_invariant]
    pub closed spec fn wf(&self) -> bool {
        distinct_keys(self.entries@)
    }

    pub proof fn lemma_wf(&self)
        requires
            self.wf(),
        ensures
            distinct_keys(self.entries()),
            self@.dom().finite(),
            self@.dom().len() == self.entries().len(),
    {
        self.lemma_dom_len();
    }

    proof fn lemma_dom_len(&self)
        requires
            distinct_keys(self.entries@),
        ensures
            self@.dom().finite(),
            self@.dom().len() == self.entries@.len(),
    {
        let s = self.entries@;
        let keys = s.map_values(|e: (String, V)| e.0@);
        assert(keys.no_duplicates()) by {
            assert forall|i: int, j: int| 0 <= i < keys.len() && 0 <= j < keys.len() && i != j implies keys[i] != keys[j] by {
                assert(s[i].0@ != s[j].0@);
            }
        }
        keys.unique_seq_to_set();
        assert(self@.dom() =~= keys.to_set()) by {
            assert forall|k: Seq<char>| self@.dom().contains(k) implies keys.to_set().contains(k) by {
                let i = choose|i: int| 0 <= i < s.len() && #[trigger] s[i].0@ == k;
                assert(keys[i] == k);
            }
            assert forall|k: Seq<char>| keys.to_set().contains(k) implies self@.dom().contains(k) by {
                let i = choose|i: int| 0 <= i < keys.len() && keys[i] == k;
                assert(s[i].0@ == k);
            }
        }
    }

    /// An empty map.
    pub fn new() -> (m: Self)
        ensures
            m@ == Map::<Seq<char>, V>::empty(),
            m.entries().len() == 0,
    {
        let m = StrMap { entries: Vec::new() };
        assert(m@ =~= Map::<Seq<char>, V>::empty());
        m
    }

    /// Number of keys.
    pub fn len(&self) -> (n: usize)
        ensures
            n == self.entries().len(),
            n == self@.dom().len(),
    {
        proof { use_type_invariant(self); self.lemma_wf(); }
        self.entries.len()
    }

    /// Whether the map has no keys.
    pub fn is_empty(&self) -> (b: bool)
        ensures
            b == (self@.dom().len() == 0),
            b == (self@ == Map::<Seq<char>, V>::empty()),
    {
        proof {
            use_type_invariant(self);
            self.lemma_wf();
            if self@.dom().len() == 0 {
                assert(self@.dom() =~= Set::<Seq<char>>::empty());
                assert(self@ =~= Map::<Seq<char>, V>::empty());
            }
        }
        self.entries.len() == 0
    }

    /// The entry at a position of the insertion order.
    pub fn entry_at(&self, i: usize) -> (e: &(String, V))
        requires
            i < self.entries().len(),
        ensures
            *e == self.entries()[i as int],
            self@.contains_key(e.0@),
            self@[e.0@] == e.1,
    {
        proof {
            use_type_invariant(self);
            lemma_entries_view_at(self.entries@, i as int);
        }
        &self.entries[i]
    }

    /// Position of a key in the insertion order.
    pub fn index_of(&self, key: &str) -> (r: Option<usize>)
        ensures
            match r {
                Some(i) => i < self.entries().len() && self.entries()[i as int].0@ == key@
                    && self@.contains_key(key@),
                None => !self@.contains_key(key@),
            },
    {
        proof { use_type_invariant(self); }
        let mut i: usize = 0;
        while i < self.entries.len()
            invariant
                i <= self.entries@.len(),
                forall|j: int| 0 <= j < i ==> #[trigger] self.entries@[j].0@ != key@,
            decreases self.entries@.len() - i,
        {
            if str_eq(self.entries[i].0.as_str(), key) {
                proof {
                    assert(self.entries@[i as int].0@ == key@);
                }
                return Some(i);
            }
            i = i + 1;
        }
        proof {
            if self@.contains_key(key@) {
                let j = choose|j: int| 0 <= j < self.entries@.len() && #[trigger] self.entries@[j].0@ == key@;
                assert(self.entries@[j].0@ != key@);
            }
        }
        None
    }

    /// Whether the key is present.
    pub fn contains_key(&self, key: &str) -> (b: bool)
        ensures
            b == self@.contains_key(key@),
    {
        self.index_of(key).is_some()
    }

    /// The value stored under the key.
    pub fn get(&self, key: &str) -> (r: Option<&V>)
        ensures
            match r {
                Some(v) => self@.contains_key(key@) && *v == self@[key@],
                None => !self@.contains_key(key@),
            },
    {
        match self.index_of(key) {
            Some(i) => {
                proof {
                    use_type_invariant(self);
                    lemma_entries_view_at(self.entries@, i as int);
                }
                Some(&self.entries[i].1)
            },
            None => None,
        }
    }

    /// Store a value under the key, replacing any value stored there.
    /// A new key goes to the end of the insertion order; a present key keeps its place.
    pub fn insert(&mut self, key: String, value: V)
        ensures
            final(self)@ == old(self)@.insert(key@, value),
            old(self)@.contains_key(key@) ==> final(self).entries().len() == old(self).entries().len(),
            !old(self)@.contains_key(key@) ==> final(self).entries() == old(self).entries().push((key, value)),
    {
        proof { use_type_invariant(&*self); }
        match self.index_of(key.as_str()) {
            Some(i) => {
                proof {
                    lemma_entries_view_update(self.entries@, i as int, key, value);
                }
                let mut es: Vec<(String, V)> = Vec::new();
                std::mem::swap(&mut es, &mut self.entries);
                es.set(i, (key, value));
                self.entries = es;
            },
            None => {
                proof {
                    lemma_entries_view_push(self.entries@, key, value);
                }
                let mut es: Vec<(String, V)> = Vec::new();
                std::mem::swap(&mut es, &mut self.entries);
                es.push((key, value));
                self.entries = es;
            },
        }
    }

    /// Remove the key, handing back the value that was stored under it.
    pub fn remove(&mut self, key: &str) -> (r: Option<V>)
        ensures
            final(self)@ == old(self)@.remove(key@),
            match r {
                Some(v) => old(self)@.contains_key(key@) && v == old(self)@[key@],
                None => !old(self)@.contains_key(key@),
            },
            r is None ==> final(self).entries() == old(self).entries(),
    {
        proof { use_type_invariant(&*self); }
        match self.index_of(key) {
            Some(i) => {
                proof {
                    lemma_entries_view_remove(self.entries@, i as int);
                    lemma_entries_view_at(self.entries@, i as int);
                }
                let mut es: Vec<(String, V)> = Vec::new();
                std::mem::swap(&mut es, &mut self.entries);
                let e = es.remove(i);
                self.entries = es;
                Some(e.1)
            },
            None => {
                proof {
                    assert(old(self)@.remove(key@) =~= old(self)@);
                }
                None
            },
        }
    }

    /// Remove every entry.
    pub fn clear(&mut self)
        ensures
            final(self)@ == Map::<Seq<char>, V>::empty(),
    {
        self.entries = Vec::new();
        assert(self@ =~= Map::<Seq<char>, V>::empty());
    }
}

/// Character-wise equality of two strings.
pub fn str_eq(a: &str, b: &str) -> (r: bool)
    ensures
        r == (a@ == b@),
{
    let n = a.unicode_len();
    let m = b.unicode_len();
    if n != m {
        return false;
    }
    let mut i: usize = 0;
    while i < n
        invariant
            n == a@.len(),
            m == b@.len(),
            n == m,
            i <= n,
            forall|j: int| 0 <= j < i ==> a@[j] == b@[j],
        decreases n - i,
    {
        if a.get_char(i) != b.get_char(i) {
            return false;
        }
        i = i + 1;
    }
    assert(a@ =~= b@);
    true
}

} // verus!

verus! {

pub proof fn lemma_entries_view_subrange_step<V>(s: Seq<(String, V)>, i: int, n: int)
    requires
        distinct_keys(s),
        0 < i <= n <= s.len(),
    ensures
        !entries_view(s.subrange(i, n)).contains_key(s[i - 1].0@),
        entries_view(s.subrange(i - 1, n)) =~= entries_view(s.subrange(i, n)).insert(s[i - 1].0@, s[i - 1].1),
{
    let a = s.subrange(i - 1, n);
    let b = s.subrange(i, n);
    assert(distinct_keys(a)) by {
        assert forall|x: int, y: int| 0 <= x < a.len() && 0 <= y < a.len() && x != y implies #[trigger] a[x].0@ != #[trigger] a[y].0@ by {
            assert(a[x] == s[x + i - 1] && a[y] == s[y + i - 1]);
        }
    }
    assert(distinct_keys(b)) by {
        assert forall|x: int, y: int| 0 <= x < b.len() && 0 <= y < b.len() && x != y implies #[trigger] b[x].0@ != #[trigger] b[y].0@ by {
            assert(b[x] == s[x + i] && b[y] == s[y + i]);
        }
    }
    let key = s[i - 1].0@;
    if entries_view(b).contains_key(key) {
        let j = choose|j: int| 0 <= j < b.len() && #[trigger] b[j].0@ == key;
        assert(b[j] == s[j + i]);
        assert(s[j + i].0@ != s[i - 1].0@);
    }
    assert forall|k: Seq<char>| #[trigger] entries_view(a).contains_key(k) == entries_view(b).insert(key, s[i - 1].1).contains_key(k) by {
        if entries_view(b).contains_key(k) {
            let j = choose|j: int| 0 <= j < b.len() && #[trigger] b[j].0@ == k;
            assert(a[j + 1] == b[j]);
        }
        if k == key {
            assert(a[0].0@ == k);
        }
        if entries_view(a).contains_key(k) {
            let j = choose|j: int| 0 <= j < a.len() && #[trigger] a[j].0@ == k;
            if j > 0 {
                assert(b[j - 1] == a[j]);
            }
        }
    }
    assert forall|k: Seq<char>| #[trigger] entries_view(a).contains_key(k) implies entries_view(a)[k] == entries_view(b).insert(key, s[i - 1].1)[k] by {
        let j = choose|j: int| 0 <= j < a.len() && #[trigger] a[j].0@ == k;
        lemma_entries_view_at(a, j);
        if j > 0 {
            assert(b[j - 1] == a[j]);
            lemma_entries_view_at(b, j - 1);
        }
    }
}

pub proof fn lemma_entries_view_prefix_step<V>(s: Seq<(String, V)>, i: int)
    requires
        distinct_keys(s),
        0 <= i < s.len(),
    ensures
        distinct_keys(s.subrange(0, i)),
        !entries_view(s.subrange(0, i)).contains_key(s[i].0@),
        entries_view(s.subrange(0, i + 1)) =~= entries_view(s.subrange(0, i)).insert(s[i].0@, s[i].1),
{
    let a = s.subrange(0, i);
    assert(distinct_keys(a)) by {
        assert forall|x: int, y: int| 0 <= x < a.len() && 0 <= y < a.len() && x != y implies #[trigger] a[x].0@ != #[trigger] a[y].0@ by {
            assert(a[x] == s[x] && a[y] == s[y]);
        }
    }
    if entries_view(a).contains_key(s[i].0@) {
        let j = choose|j: int| 0 <= j < a.len() && #[trigger] a[j].0@ == s[i].0@;
        assert(a[j] == s[j]);
    }
    assert(s.subrange(0, i + 1) =~= a.push(s[i]));
    lemma_entries_view_push(a, s[i].0, s[i].1);
}

impl<V> StrMap<V> {
    /// The entries, in insertion order, as a vector.
    pub fn into_entries(self) -> (es: Vec<(String, V)>)
        ensures
            es@ == self.entries(),
            distinct_keys(es@),
            entries_view(es@) == self@,
    {
        proof { use_type_invariant(&self); }
        self.entries
    }
}

} // verus!
