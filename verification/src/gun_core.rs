//! The core of a Gun instance: the graph, the state clock, message deduplication,
//! and the counter that numbers chains.
use vstd::prelude::*;
use crate::graph::Graph;
use crate::state::{State, spec_next, STATE_PER_MS};
use crate::dup::Dup;
use crate::crypto::random_below;
use crate::text::push_char;

verus! {

/// The characters random IDs are drawn from: digits, then upper-case, then lower-case letters.
pub open spec fn id_alphabet() -> Seq<char> {
    seq!['0', '1', '2', '3', '4', '5', '6', '7', '8', '9',
        'A', 'B', 'C', 'D', 'E', 'F', 'G', 'H', 'I', 'J', 'K', 'L', 'M', 'N', 'O', 'P', 'Q', 'R', 'S', 'T', 'U', 'V', 'W', 'X', 'Y', 'Z',
        'a', 'b', 'c', 'd', 'e', 'f', 'g', 'h', 'i', 'j', 'k', 'l', 'm', 'n', 'o', 'p', 'q', 'r', 's', 't', 'u', 'v', 'w', 'x', 'y', 'z']
}

/// Every character of a text is drawn from the ID alphabet.
pub open spec fn is_random_id(s: Seq<char>) -> bool {
    forall|i: int| 0 <= i < s.len() ==> id_alphabet().contains(#[trigger] s[i])
}

/// The lower-case hexadecimal digit of a number below 16.
pub open spec fn hex_digit_char(d: nat) -> char {
    if d < 10 { (48 + d) as char } else { (87 + d) as char }
}

/// The lower-case hexadecimal text of a number, without leading zeros (`"0"` for zero).
pub open spec fn hex_text(n: nat) -> Seq<char>
    decreases n,
{
    if n < 16 {
        seq![hex_digit_char(n)]
    } else {
        hex_text(n / 16) + seq![hex_digit_char(n % 16)]
    }
}

fn id_char(i: usize) -> (c: char)
    requires
        i < 62,
    ensures
        c == id_alphabet()[i as int],
{
    if i < 10 {
        ((48 + i) as u8) as char
    } else if i < 36 {
        ((55 + i) as u8) as char
    } else {
        ((61 + i) as u8) as char
    }
}

/// Append `length` random characters of the ID alphabet to `out`.
fn push_random_chars(out: &mut String, length: usize)
    ensures
        final(out)@.len() == old(out)@.len() + length,
        final(out)@.subrange(0, old(out)@.len() as int) == old(out)@,
        is_random_id(final(out)@.subrange(old(out)@.len() as int, final(out)@.len() as int)),
{
    let ghost start = out@;
    let mut i: usize = 0;
    while i < length
        invariant
            i <= length,
            out@.len() == start.len() + i,
            out@.subrange(0, start.len() as int) == start,
            is_random_id(out@.subrange(start.len() as int, out@.len() as int)),
        decreases length - i,
    {
        let idx = random_below(62);
        let ghost before = out@;
        push_char(out, id_char(idx));
        proof {
            assert(out@.subrange(0, start.len() as int) =~= before.subrange(0, start.len() as int));
            let tail = out@.subrange(start.len() as int, out@.len() as int);
            let old_tail = before.subrange(start.len() as int, before.len() as int);
            assert forall|j: int| 0 <= j < tail.len() implies id_alphabet().contains(#[trigger] tail[j]) by {
                if j < old_tail.len() {
                    assert(tail[j] == old_tail[j]);
                } else {
                    assert(tail[j] == id_alphabet()[idx as int]);
                }
            }
        }
        i = i + 1;
    }
}

/// The lower-case hexadecimal text of a number.
pub fn hex_string(n: u64) -> (s: String)
    ensures
        s@ == hex_text(n as nat),
    decreases n,
{
    let d = (n % 16) as usize;
    let digit = if d < 10 { ((48 + d) as u8) as char } else { ((87 + d) as u8) as char };
    if n < 16 {
        let mut s = String::new();
        push_char(&mut s, digit);
        assert(s@ =~= hex_text(n as nat));
        s
    } else {
        let mut s = hex_string(n / 16);
        push_char(&mut s, digit);
        assert(s@ =~= hex_text(n as nat));
        s
    }
}

/// The counter value that follows `n`: one more, wrapping round to zero after `u64::MAX`.
pub open spec fn next_id(n: u64) -> u64 {
    if n == u64::MAX { 0 } else { (n + 1) as u64 }
}

/// The core of a Gun instance.
pub struct GunCore {
    pub graph: Graph,
    pub state: State,
    pub dup: Dup,
    pub id_counter: u64,
}

impl GunCore {
    /// A core with an empty graph, a fresh clock, a default deduplication tracker,
    /// and the chain counter at zero.
    pub fn new() -> (c: GunCore)
        ensures
            c.graph@ == Map::<Seq<char>, crate::state::Node>::empty(),
            c.state.n == 0,
            c.state.last is None,
            c.dup.messages() == Map::<Seq<char>, crate::dup::MessageEntry>::empty(),
            c.dup.max_age() == 9000,
            c.dup.max_size() == 999,
            c.id_counter == 0,
    {
        GunCore { graph: Graph::new(), state: State::new(), dup: Dup::new_default(), id_counter: 0 }
    }

    /// A new soul: the hexadecimal text of the whole milliseconds of a new state,
    /// followed by `length` random characters (12 when no length is given).
    pub fn uuid(&mut self, length: Option<usize>) -> (soul: String)
        ensures
            final(self).graph == old(self).graph,
            final(self).dup == old(self).dup,
            final(self).id_counter == old(self).id_counter,
            exists|t: u64| {
                &&& #[trigger] spec_next(old(self).state, t).0 == final(self).state
                &&& {
                    let prefix = hex_text(spec_next(old(self).state, t).1 as nat / STATE_PER_MS as nat);
                    let len = match length { Some(l) => l as nat, None => 12 };
                    &&& soul@.len() == prefix.len() + len
                    &&& soul@.subrange(0, prefix.len() as int) == prefix
                    &&& is_random_id(soul@.subrange(prefix.len() as int, soul@.len() as int))
                }
            },
    {
        let len = match length {
            Some(l) => l,
            None => 12,
        };
        let ghost old_state = self.state;
        let state = self.state.next();
        let ghost t = choose|t: u64| (self.state, state) == spec_next(old_state, t);
        let mut soul = hex_string(state / STATE_PER_MS);
        let ghost prefix = soul@;
        push_random_chars(&mut soul, len);
        proof {
            assert(spec_next(old_state, t).0 == self.state);
            assert(prefix == hex_text(spec_next(old_state, t).1 as nat / STATE_PER_MS as nat));
        }
        soul
    }

    /// A random ID of `length` characters drawn from the ID alphabet.
    pub fn random_id(&self, length: usize) -> (id: String)
        ensures
            id@.len() == length,
            is_random_id(id@),
    {
        let mut id = String::new();
        push_random_chars(&mut id, length);
        assert(id@.subrange(0, id@.len() as int) =~= id@);
        id
    }

    /// The next chain ID: the counter's value, after which the counter goes up by one
    /// (wrapping round to zero after `u64::MAX`).
    pub fn next_chain_id(&mut self) -> (id: u64)
        ensures
            id == old(self).id_counter,
            final(self).id_counter == next_id(old(self).id_counter),
            final(self).graph == old(self).graph,
            final(self).state == old(self).state,
            final(self).dup == old(self).dup,
    {
        let id = self.id_counter;
        self.id_counter = if id == u64::MAX { 0 } else { id + 1 };
        id
    }
}

} // verus!

verus! {

impl Default for GunCore {
    /// A new core, as `GunCore::new` gives.
    fn default() -> (c: GunCore)
        ensures
            c.graph@ == Map::<Seq<char>, crate::state::Node>::empty(),
            c.state.n == 0,
            c.state.last is None,
            c.dup.messages() == Map::<Seq<char>, crate::dup::MessageEntry>::empty(),
            c.dup.max_age() == 9000,
            c.dup.max_size() == 999,
            c.id_counter == 0,
    {
        GunCore::new()
    }
}

} // verus!
