//! The DAM mesh: the peers of an instance, what is sent to them, and what is done
//! with the messages they send.
//!
//! The connections are the program's around the library; the mesh keeps, for each
//! peer, whether it is connected and the messages waiting for it, decides where a
//! message goes, checks and signs messages, and applies what they carry to the core.
use vstd::prelude::*;
use crate::json::{Json, spec_field, spec_str, json_text};
use crate::strmap::{StrMap, str_eq};
use crate::dup::{Dup, is_duplicate, tracked_at};
use crate::gun_core::GunCore;
use crate::error::{GunError, GunResult};
use crate::text::concat;
use crate::json::{object_string_without, object_text_without};
use crate::crypto::{sha256, hex_encode, hex_decode, bls_sign, bls_verify, sha256_spec, hex_spec, hex_decode_spec,
    bls_secret_key_ok, bls_public_of,
    bls_signature, bls_valid};
use crate::valid::soul_key;
use crate::state::{Node, State, spec_node_soul};
use crate::chain::{only_soul_changed, soul_written, base_data, base_states, take_or_new};
use crate::strmap::{entries_view, distinct_keys};

verus! {

/// Limits and timings of a mesh.
#[derive(Clone, Copy, Debug)]
pub struct MeshOptions {
    /// Largest message accepted, in bytes.
    pub max_message_size: usize,
    /// Size of a batch of messages.
    pub pack_size: usize,
    /// Delay before a batch is sent, in milliseconds.
    pub gap: u64,
    /// Retries of a connection.
    pub retry: i32,
    /// How long to wait for an answer, in milliseconds.
    pub lack: u64,
}

impl Default for MeshOptions {
    /// Messages of up to 90,000,000 bytes, batches of 9000, no gap, 60 retries, 9 s to answer.
    fn default() -> (o: MeshOptions)
        ensures
            o.max_message_size == 90_000_000,
            o.pack_size == 9000,
            o.gap == 0,
            o.retry == 60,
            o.lack == 9000,
    {
        MeshOptions { max_message_size: 90_000_000, pack_size: 9000, gap: 0, retry: 60, lack: 9000 }
    }
}

/// A peer of the mesh.
pub struct Peer {
    /// The mesh's name for the peer: `"peer_"` and a number.
    pub id: String,
    pub url: String,
    /// The peer's own ID in the DAM protocol, once it told it.
    pub pid: Option<String>,
    /// Whether a connection to the peer is open.
    pub connected: bool,
    pub batch: Option<String>,
    pub tail: usize,
    /// Messages waiting for the connection.
    pub queue: Vec<String>,
    /// The ID of the last message sent.
    pub last: Option<String>,
    pub retry: i32,
    /// When a connection was last tried.
    pub tried: Option<u64>,
}

/// The decimal text of a number.
pub open spec fn decimal_text(n: nat) -> Seq<char>
    decreases n,
{
    if n < 10 {
        seq![(48 + n) as char]
    } else {
        decimal_text(n / 10) + seq![(48 + n % 10) as char]
    }
}

/// The decimal text of a number.
pub fn decimal_string(n: u64) -> (s: String)
    ensures
        s@ == decimal_text(n as nat),
    decreases n,
{
    let d = (n % 10) as u8;
    let c = ((48 + d) as u8) as char;
    let mut s = if n < 10 { String::new() } else { decimal_string(n / 10) };
    crate::text::push_char(&mut s, c);
    proof { assert(s@ =~= decimal_text(n as nat)); }
    s
}

/// The name of the peer with the given number, `"peer_"` and the number.
pub open spec fn peer_name(number: u64) -> Seq<char> {
    seq!['p', 'e', 'e', 'r', '_'] + decimal_text(number as nat)
}

impl Peer {
    /// A new, unconnected peer at `url`, named after its number: no PID, nothing queued,
    /// 60 retries.
    pub fn new(url: String, number: u64) -> (p: Peer)
        ensures
            p.id@ == peer_name(number),
            p.url == url,
            p.pid is None,
            !p.connected,
            p.batch is None,
            p.tail == 0,
            p.queue@.len() == 0,
            p.last is None,
            p.retry == 60,
            p.tried is None,
    {
        proof { reveal_strlit("peer_"); assert("peer_"@ =~= seq!['p', 'e', 'e', 'r', '_']); }
        let n = decimal_string(number);
        let id = concat("peer_", n.as_str());
        Peer {
            id,
            url,
            pid: None,
            connected: false,
            batch: None,
            tail: 0,
            queue: Vec::new(),
            last: None,
            retry: 60,
            tried: None,
        }
    }
}

/// Where a message for a peer goes.
pub enum Delivery {
    /// Down the peer's open connection.
    Send,
    /// Into the peer's queue, until it connects.
    Queued,
    /// Nowhere: the mesh has no such peer.
    Dropped,
}

/// The mesh of an instance.
pub struct Mesh {
    pub dup: Dup,
    /// The peers, by name.
    pub peers: StrMap<Peer>,
    /// Our ID in the DAM protocol.
    pub pid: String,
    pub opt: MeshOptions,
    /// Our BLS secret key (32 bytes).
    pub secret_key: Vec<u8>,
    /// Our BLS public key (48 bytes).
    pub public_key: Vec<u8>,
    /// Public keys that signed messages from peers, under `"peer_id:public_key_hex"`.
    pub peer_public_keys: StrMap<Vec<u8>>,
}

impl Mesh {
    /// A mesh with no peers, a new deduplication tracker and default options, whose
    /// DAM ID is 9 random characters.
    pub fn new(core: &GunCore, secret_key: Vec<u8>, public_key: Vec<u8>) -> (m: Mesh)
        ensures
            m.peers@ == Map::<Seq<char>, Peer>::empty(),
            m.pid@.len() == 9,
            crate::gun_core::is_random_id(m.pid@),
            m.secret_key == secret_key,
            m.public_key == public_key,
            m.peer_public_keys@ == Map::<Seq<char>, Vec<u8>>::empty(),
            m.opt.max_message_size == 90_000_000,
    {
        let pid = core.random_id(9);
        Mesh {
            dup: Dup::new_default(),
            peers: StrMap::new(),
            pid,
            opt: MeshOptions::default(),
            secret_key,
            public_key,
            peer_public_keys: StrMap::new(),
        }
    }

    /// A mesh as `new` makes it, for a secret key and the public key it has; `None` when the
    /// bytes are not a BLS secret key.
    pub fn from_secret_key(core: &GunCore, secret_key: Vec<u8>) -> (r: Option<Mesh>)
        requires
            secret_key@.len() == 32,
        ensures
            r is Some <==> bls_secret_key_ok(secret_key@),
            r matches Some(m) ==> m.secret_key == secret_key && m.public_key@ == bls_public_of(secret_key@)
                && m.public_key@.len() == 48 && m.peers@ == Map::<Seq<char>, Peer>::empty()
                && m.pid@.len() == 9 && crate::gun_core::is_random_id(m.pid@)
                && m.peer_public_keys@ == Map::<Seq<char>, Vec<u8>>::empty(),
    {
        match crate::crypto::bls_public_key(secret_key.as_slice()) {
            Some(public_key) => Some(Mesh::new(core, secret_key, public_key)),
            None => None,
        }
    }

    /// The peers to pass a screened message on to at time `now` (milliseconds): the targets
    /// `screen` named, or none when the message's ID was seen within the tracker's age, so
    /// that a duplicate is neither passed on nor taken again.
    pub fn relay_targets(&self, targets: Vec<String>, id: &str, now: u64) -> (r: Vec<String>)
        ensures
            is_duplicate(self.dup.messages(), id@, now, self.dup.max_age()) ==> r@.len() == 0,
            !is_duplicate(self.dup.messages(), id@, now, self.dup.max_age()) ==> r@ == targets@,
    {
        if self.dup.check_at(id, now) {
            Vec::new()
        } else {
            targets
        }
    }

    /// The number of peers.
    pub fn near(&self) -> (n: usize)
        ensures
            n == self.peers@.dom().len(),
    {
        proof {
            use_type_invariant(&self.peers);
            self.peers.lemma_wf();
        }
        self.peers.len()
    }

    /// The peer with the given name.
    pub fn get_peer(&self, peer_id: &str) -> (r: Option<&Peer>)
        ensures
            match r {
                Some(p) => self.peers@.contains_key(peer_id@) && *p == self.peers@[peer_id@],
                None => !self.peers@.contains_key(peer_id@),
            },
    {
        self.peers.get(peer_id)
    }

    /// Add a peer, replacing one of the same name. When it is new, the message to greet it
    /// with is handed back: `{"dam": "?", "pid": our ID}`.
    pub fn hi(&mut self, peer: Peer) -> (greeting: Option<Json>)
        ensures
            final(self).peers@ == old(self).peers@.insert(peer.id@, peer),
            final(self).pid == old(self).pid,
            greeting is Some == !old(self).peers@.contains_key(peer.id@),
            greeting matches Some(g) ==> is_greeting(g, old(self).pid@),
    {
        let was_new = !self.peers.contains_key(peer.id.as_str());
        let id = peer.id.clone();
        self.peers.insert(id, peer);
        if was_new {
            Some(greeting_message(self.pid.as_str()))
        } else {
            None
        }
    }

    /// Remove a peer; whether there was one.
    pub fn bye(&mut self, peer_id: &str) -> (removed: bool)
        ensures
            final(self).peers@ == old(self).peers@.remove(peer_id@),
            removed == old(self).peers@.contains_key(peer_id@),
            final(self).pid == old(self).pid,
    {
        self.peers.remove(peer_id).is_some()
    }

    /// Route a message to a peer: send it when the peer is connected, queue it when the
    /// peer is known but not connected, drop it otherwise.
    pub fn route(&mut self, peer_id: &str, raw: String) -> (d: Delivery)
        ensures
            final(self).pid == old(self).pid,
            match d {
                Delivery::Send => old(self).peers@.contains_key(peer_id@) && old(self).peers@[peer_id@].connected
                    && final(self).peers@ == old(self).peers@,
                Delivery::Queued => old(self).peers@.contains_key(peer_id@) && !old(self).peers@[peer_id@].connected
                    && final(self).peers@ == old(self).peers@.insert(peer_id@, Peer {
                        queue: final(self).peers@[peer_id@].queue,
                        ..old(self).peers@[peer_id@]
                    })
                    && final(self).peers@[peer_id@].queue@ == old(self).peers@[peer_id@].queue@.push(raw),
                Delivery::Dropped => !old(self).peers@.contains_key(peer_id@) && final(self).peers@ == old(self).peers@,
            },
    {
        match self.peers.remove(peer_id) {
            None => Delivery::Dropped,
            Some(mut p) => {
                let key = p.id.clone();
                if p.connected {
                    self.peers.insert(peer_id.to_owned(), p);
                    proof { assert(self.peers@ =~= old(self).peers@); }
                    Delivery::Send
                } else {
                    p.queue.push(raw);
                    self.peers.insert(peer_id.to_owned(), p);
                    Delivery::Queued
                }
            },
        }
    }

    /// A connection to the peer opened: the peer is marked connected and the messages
    /// that waited for it are handed back, in order. An unknown peer is an error.
    pub fn set_peer_connected(&mut self, peer_id: &str) -> (r: GunResult<Vec<String>>)
        ensures
            final(self).pid == old(self).pid,
            match r {
                Ok(q) => old(self).peers@.contains_key(peer_id@)
                    && q@ == old(self).peers@[peer_id@].queue@
                    && final(self).peers@ == old(self).peers@.insert(peer_id@, Peer {
                        connected: true,
                        queue: final(self).peers@[peer_id@].queue,
                        ..old(self).peers@[peer_id@]
                    })
                    && final(self).peers@[peer_id@].queue@.len() == 0,
                Err(e) => e is Network && !old(self).peers@.contains_key(peer_id@)
                    && final(self).peers@ == old(self).peers@,
            },
    {
        match self.peers.remove(peer_id) {
            None => {
                let m1 = concat("Peer ", peer_id);
                let msg = concat(m1.as_str(), " not found in mesh, call hi() first");
                Err(GunError::Network(msg))
            },
            Some(mut p) => {
                p.connected = true;
                let mut queue: Vec<String> = Vec::new();
                std::mem::swap(&mut queue, &mut p.queue);
                self.peers.insert(peer_id.to_owned(), p);
                Ok(queue)
            },
        }
    }

    /// Whether any peer is connected.
    pub fn has_connected_peers(&self) -> (b: bool)
        ensures
            b == (self.connected_count() > 0),
    {
        self.connected_peer_count() > 0
    }

    /// The number of connected peers.
    pub fn connected_peer_count(&self) -> (n: usize)
        ensures
            n == self.connected_count(),
    {
        let ghost es = self.peers.entries();
        proof { self.peers.lemma_entries_field(); }
        let len = self.peers.entries.len();
        let mut i: usize = 0;
        let mut n: usize = 0;
        proof { assert(es.subrange(0, 0) =~= Seq::<(String, Peer)>::empty()); }
        while i < len
            invariant
                len == es.len(),
                es == self.peers.entries@,
                i <= len,
                n <= i,
                n == count_connected(es.subrange(0, i as int)),
            decreases len - i,
        {
            proof {
                assert(es.subrange(0, i + 1).drop_last() =~= es.subrange(0, i as int));
            }
            if self.peers.entries[i].1.connected {
                n = n + 1;
            }
            i = i + 1;
        }
        proof { assert(es.subrange(0, len as int) =~= es); }
        n
    }

    /// The number of connected peers.
    pub closed spec fn connected_count(&self) -> nat {
        count_connected(self.peers.entries())
    }
}

/// How many of the peers in the entries are connected.
pub open spec fn count_connected(es: Seq<(String, Peer)>) -> nat
    decreases es.len(),
{
    if es.len() == 0 {
        0
    } else {
        count_connected(es.drop_last()) + if es.last().1.connected { 1nat } else { 0nat }
    }
}

/// The greeting `{"dam": "?", "pid": pid}`.
pub open spec fn is_greeting(g: Json, pid: Seq<char>) -> bool {
    &&& g matches Json::Object(m) && m@.dom() == set![seq!['d', 'a', 'm'], seq!['p', 'i', 'd']]
    &&& spec_field(g, seq!['d', 'a', 'm']) matches Some(d) && spec_str(d) == Some(seq!['?'])
    &&& spec_field(g, seq!['p', 'i', 'd']) matches Some(p) && spec_str(p) == Some(pid)
}

/// The greeting `{"dam": "?", "pid": pid}`.
pub fn greeting_message(pid: &str) -> (g: Json)
    ensures
        is_greeting(g, pid@),
{
    proof {
        reveal_strlit("dam");
        reveal_strlit("pid");
        reveal_strlit("?");
        assert("dam"@ =~= seq!['d', 'a', 'm']);
        assert("pid"@ =~= seq!['p', 'i', 'd']);
        assert("?"@ =~= seq!['?']);
    }
    let mut m: StrMap<Json> = StrMap::new();
    m.insert("dam".to_owned(), Json::String("?".to_owned()));
    m.insert("pid".to_owned(), Json::String(pid.to_owned()));
    proof { assert(m@.dom() =~= set![seq!['d', 'a', 'm'], seq!['p', 'i', 'd']]); }
    Json::Object(m)
}

} // verus!

verus! {

/// The key of a message's signatures, `"sigs"`.
pub open spec fn sigs_key() -> Seq<char> { seq!['s', 'i', 'g', 's'] }
/// The key of a signature, `"sig"`.
pub open spec fn sig_key() -> Seq<char> { seq!['s', 'i', 'g'] }
/// The key of a signer's public key, `"pubkey"`.
pub open spec fn pubkey_key() -> Seq<char> { seq!['p', 'u', 'b', 'k', 'e', 'y'] }

/// The bytes that a message's ID and signatures cover: its compact JSON text without its ID
/// (`"#"`) and its `sigs`.
pub open spec fn signed_bytes(m: StrMap<Json>) -> Seq<u8> {
    vstd::utf8::encode_utf8(object_text_without(m, soul_key(), sigs_key()))
}

/// The ID a message must carry: the hexadecimal SHA-256 digest of its signed bytes.
pub open spec fn message_hash(m: StrMap<Json>) -> Seq<char> {
    hex_spec(sha256_spec(signed_bytes(m)))
}

/// The string ID a message carries under `"#"`.
pub open spec fn message_id_field(msg: Json) -> Option<Seq<char>> {
    match spec_field(msg, soul_key()) {
        Some(i) => spec_str(i),
        None => None,
    }
}

/// The hexadecimal texts of a signature entry `{"sig": ..., "pubkey": ...}`.
pub open spec fn entry_texts(e: Json) -> Option<(Seq<char>, Seq<char>)> {
    match (spec_field(e, sig_key()), spec_field(e, pubkey_key())) {
        (Some(s), Some(p)) => match (spec_str(s), spec_str(p)) {
            (Some(st), Some(pt)) => Some((st, pt)),
            _ => None,
        },
        _ => None,
    }
}

/// A signature entry whose texts decode to 96 and 48 bytes that verify over `bytes`.
pub open spec fn sig_entry_valid(e: Json, bytes: Seq<u8>) -> bool {
    match entry_texts(e) {
        Some((st, pt)) => match (hex_decode_spec(vstd::utf8::encode_utf8(st)), hex_decode_spec(vstd::utf8::encode_utf8(pt))) {
            (Some(sb), Some(pb)) => sb.len() == 96 && pb.len() == 48 && bls_valid(sb, pb, bytes),
            _ => false,
        },
        None => false,
    }
}

/// A message the mesh takes: an object whose ID is its hash, with a non-empty array of
/// signatures that all verify over its signed bytes.
pub open spec fn message_passes(msg: Json) -> bool {
    &&& msg matches Json::Object(m) && message_id_field(msg) == Some(message_hash(m))
    &&& spec_field(msg, sigs_key()) matches Some(Json::Array(sigs)) && sigs@.len() > 0
        && forall|j: int| 0 <= j < sigs@.len() ==> #[trigger] sig_entry_valid(sigs@[j], signed_bytes(msg->Object_0))
}

/// A signature entry names the public key with the hexadecimal text `pk`.
pub open spec fn names_key(e: Json, pk: Seq<char>) -> bool {
    spec_field(e, pubkey_key()) matches Some(p) && spec_str(p) == Some(pk)
}

/// Some signature entry of the message names the public key with the hexadecimal text `pk`.
pub open spec fn signed_by(msg: Json, pk: Seq<char>) -> bool {
    spec_field(msg, sigs_key()) matches Some(Json::Array(sigs))
        && exists|j: int| 0 <= j < sigs@.len() && #[trigger] names_key(sigs@[j], pk)
}

/// The signature entry `{"pubkey": pk, "sig": sig}` (members in key order).
pub open spec fn is_sig_entry(e: Json, sig: Seq<char>, pk: Seq<char>) -> bool {
    &&& e matches Json::Object(m) && m@.dom().len() == 2
    &&& entry_texts(e) == Some((sig, pk))
}

/// The public key bytes that a signature entry names: its hexadecimal `pubkey`, decoded.
pub open spec fn entry_key(e: Json) -> Seq<u8> {
    match entry_texts(e) {
        Some((st, pt)) => match hex_decode_spec(vstd::utf8::encode_utf8(pt)) {
            Some(b) => b,
            None => Seq::empty(),
        },
        None => Seq::empty(),
    }
}

/// The name a signer's key is kept under for the peer `p`: `p`, `:`, and the key in hexadecimal.
pub open spec fn key_name(p: Seq<char>, key: Seq<u8>) -> Seq<char> {
    p + seq![':'] + hex_spec(key)
}

/// The names of the keys of the signers of a message from the peer `p`.
pub open spec fn signer_names(p: Seq<char>, sigs: Seq<Json>) -> Set<Seq<char>> {
    Set::new(|n: Seq<char>| exists|j: int| 0 <= j < sigs.len() && n == #[trigger] key_name(p, entry_key(sigs[j])))
}

/// The kept keys `k1` are `k0` with the key of each signer added under its name.
pub open spec fn keys_recorded(k0: Map<Seq<char>, Vec<u8>>, k1: Map<Seq<char>, Vec<u8>>, p: Seq<char>, sigs: Seq<Json>) -> bool {
    &&& k1.dom() == k0.dom().union(signer_names(p, sigs))
    &&& forall|n: Seq<char>| #[trigger] signer_names(p, sigs).contains(n) ==> key_name(p, k1[n]@) == n
    &&& forall|n: Seq<char>| #[trigger] k0.contains_key(n) && !signer_names(p, sigs).contains(n) ==> k1[n] == k0[n]
}

/// What the mesh makes of a message from a peer.
pub enum Screened {
    /// Dropped: its ID is not its hash, or a signature is missing or does not verify.
    Rejected,
    /// Taken: its ID, and, when our signature is not among its signatures, our signature
    /// entry to add to them before the message is passed on to `targets`.
    Accepted { id: String, our_entry: Option<Json>, targets: Vec<String> },
}

/// The names of the peers but `from`, in order.
pub open spec fn names_but(es: Seq<(String, Peer)>, from: Option<Seq<char>>) -> Seq<Seq<char>>
    decreases es.len(),
{
    if es.len() == 0 {
        Seq::empty()
    } else {
        let r = names_but(es.drop_last(), from);
        if from == Some(es.last().0@) { r } else { r.push(es.last().0@) }
    }
}

/// A signature entry for our signature and public key.
fn sig_entry(sig: String, pk: String) -> (e: Json)
    ensures
        is_sig_entry(e, sig@, pk@),
{
    proof {
        reveal_strlit("sig");
        reveal_strlit("pubkey");
        assert("sig"@ =~= sig_key());
        assert("pubkey"@ =~= pubkey_key());
    }
    let mut m: StrMap<Json> = StrMap::new();
    m.insert("pubkey".to_owned(), Json::String(pk));
    m.insert("sig".to_owned(), Json::String(sig));
    proof { assert(m@.dom() =~= set![pubkey_key(), sig_key()]); }
    Json::Object(m)
}

/// The public key of a signature entry, decoded, when the entry is valid over `bytes`.
fn check_entry(e: &Json, bytes: &[u8]) -> (r: Option<Vec<u8>>)
    ensures
        r is Some <==> sig_entry_valid(*e, bytes@),
        r matches Some(pb) ==> entry_texts(*e) matches Some((st, pt))
            && hex_decode_spec(vstd::utf8::encode_utf8(pt)) == Some(pb@),
{
    proof {
        reveal_strlit("sig");
        reveal_strlit("pubkey");
        assert("sig"@ =~= sig_key());
        assert("pubkey"@ =~= pubkey_key());
    }
    let st = match e.get("sig") {
        Some(v) => match v.as_str() {
            Some(s) => s,
            None => {
                return None;
            },
        },
        None => {
            return None;
        },
    };
    let pt = match e.get("pubkey") {
        Some(v) => match v.as_str() {
            Some(s) => s,
            None => {
                return None;
            },
        },
        None => {
            return None;
        },
    };
    let sb = match hex_decode(st) {
        Some(b) => b,
        None => {
            return None;
        },
    };
    let pb = match hex_decode(pt) {
        Some(b) => b,
        None => {
            return None;
        },
    };
    if sb.len() != 96 || pb.len() != 48 {
        return None;
    }
    if !bls_verify(sb.as_slice(), pb.as_slice(), bytes) {
        return None;
    }
    Some(pb)
}

impl Mesh {
    /// The names of the peers but the one given, in order.
    pub fn peer_names_but(&self, from: Option<&str>) -> (r: Vec<String>)
        ensures
            r@.map_values(|s: String| s@) == names_but(self.peers.entries(), match from { Some(f) => Some(f@), None => None }),
    {
        proof { self.peers.lemma_entries_field(); }
        let ghost es = self.peers.entries@;
        let ghost f = match from { Some(f) => Some(f@), None => None::<Seq<char>> };
        let n = self.peers.entries.len();
        let mut r: Vec<String> = Vec::new();
        let mut i: usize = 0;
        proof { assert(es.subrange(0, 0) =~= Seq::<(String, Peer)>::empty()); assert(r@.map_values(|s: String| s@) =~= Seq::<Seq<char>>::empty()); }
        while i < n
            invariant
                n == es.len(),
                es == self.peers.entries@,
                i <= n,
                f == (match from { Some(f) => Some(f@), None => None::<Seq<char>> }),
                r@.map_values(|s: String| s@) == names_but(es.subrange(0, i as int), f),
            decreases n - i,
        {
            proof {
                assert(es.subrange(0, i + 1).drop_last() =~= es.subrange(0, i as int));
                assert(es.subrange(0, i + 1).last() == es[i as int]);
            }
            let name = &self.peers.entries[i].0;
            let skip = match from {
                Some(p) => str_eq(name.as_str(), p),
                None => false,
            };
            if !skip {
                let ghost before = r@;
                r.push(name.clone());
                proof {
                    assert(r@.map_values(|s: String| s@) =~= before.map_values(|s: String| s@).push(name@));
                }
            }
            i = i + 1;
        }
        proof { assert(es.subrange(0, n as int) =~= es); }
        r
    }

    /// Check a message from a peer (`from`, when known) and decide whether to take it.
    ///
    /// A message without a string ID under `"#"` is an error. A message whose ID is not the
    /// hash of its signed bytes, or whose signatures are missing or do not all verify, is
    /// dropped. Otherwise the public keys that signed it are recorded for the peer, and,
    /// when our signature is not among them, our signature entry and the peers to pass the
    /// message on to (all but the sender) are handed back with its ID.
    pub fn screen(&mut self, msg: &Json, from: Option<&str>) -> (r: GunResult<Screened>)
        requires
            old(self).secret_key@.len() == 32,
        ensures
            final(self).peers == old(self).peers,
            final(self).dup == old(self).dup,
            final(self).pid == old(self).pid,
            final(self).secret_key == old(self).secret_key,
            final(self).public_key == old(self).public_key,
            (message_passes(*msg) && from is Some) ==> keys_recorded(old(self).peer_public_keys@,
                final(self).peer_public_keys@, from->Some_0@, carried_sigs(*msg)),
            !(message_passes(*msg) && from is Some) ==> final(self).peer_public_keys@ == old(self).peer_public_keys@,
            match r {
                Err(e) => (e is Network && message_id_field(*msg) is None)
                    || (e is Crypto && message_passes(*msg) && !signed_by(*msg, hex_spec(old(self).public_key@))
                        && !bls_secret_key_ok(old(self).secret_key@)),
                Ok(Screened::Rejected) => message_id_field(*msg) is Some && !message_passes(*msg),
                Ok(Screened::Accepted { id, our_entry, targets }) => {
                    &&& message_id_field(*msg) == Some(id@)
                    &&& message_passes(*msg)
                    &&& (our_entry is None <==> signed_by(*msg, hex_spec(old(self).public_key@)))
                    &&& (our_entry matches Some(e) ==> is_sig_entry(e,
                            hex_spec(bls_signature(old(self).secret_key@, signed_bytes(msg->Object_0))),
                            hex_spec(old(self).public_key@))
                        && targets@.map_values(|s: String| s@) == names_but(old(self).peers.entries(),
                            match from { Some(f) => Some(f@), None => None }))
                    &&& (our_entry is None ==> targets@.len() == 0)
                },
            },
    {
        proof { reveal_strlit("#"); assert("#"@ =~= soul_key()); }
        let id = match msg.get("#") {
            Some(v) => match v.as_str() {
                Some(s) => s,
                None => {
                    return Err(GunError::Network("Message missing ID (#) field".to_owned()));
                },
            },
            None => {
                return Err(GunError::Network("Message missing ID (#) field".to_owned()));
            },
        };
        let m = match msg {
            Json::Object(m) => m,
            _ => {
                return Err(GunError::Network("Message missing ID (#) field".to_owned()));
            },
        };
        proof { reveal_strlit("sigs"); assert("sigs"@ =~= sigs_key()); reveal_strlit("#"); assert("#"@ =~= soul_key()); }
        let text = object_string_without(m, "#", "sigs");
        let bytes = text.as_str().as_bytes();
        let digest = sha256(bytes);
        let hash = hex_encode(digest.as_slice());
        if !str_eq(hash.as_str(), id) {
            return Ok(Screened::Rejected);
        }
        let sigs = match msg.get("sigs") {
            Some(Json::Array(v)) => v,
            _ => {
                return Ok(Screened::Rejected);
            },
        };
        if sigs.len() == 0 {
            return Ok(Screened::Rejected);
        }
        let my_pk = hex_encode(self.public_key.as_slice());
        let mut keys: Vec<Vec<u8>> = Vec::new();
        let mut has_mine = false;
        let n = sigs.len();
        let mut j: usize = 0;
        proof {
            reveal_strlit("sig");
            reveal_strlit("pubkey");
            assert("sig"@ =~= sig_key());
            assert("pubkey"@ =~= pubkey_key());
        }
        while j < n
            invariant
                n == sigs@.len(),
                j <= n,
                bytes@ == signed_bytes(*m),
                *msg == Json::Object(*m),
                message_id_field(*msg) == Some(id@),
                id@ == message_hash(*m),
                spec_field(*msg, sigs_key()) == Some(Json::Array(*sigs)),
                my_pk@ == hex_spec(old(self).public_key@),
                *self == *old(self),
                "sig"@ == sig_key(),
                "pubkey"@ == pubkey_key(),
                forall|k: int| 0 <= k < j ==> #[trigger] sig_entry_valid(sigs@[k], signed_bytes(*m)),
                has_mine == exists|k: int| 0 <= k < j && #[trigger] names_key(sigs@[k], my_pk@),
                keys@.len() == j,
                forall|k: int| 0 <= k < j ==> (#[trigger] keys@[k])@ == entry_key(sigs@[k]),
            decreases n - j,
        {
            let e = &sigs[j];
            let pb = match check_entry(e, bytes) {
                Some(pb) => pb,
                None => {
                    proof { assert(!sig_entry_valid(sigs@[j as int], signed_bytes(*m))); }
                    return Ok(Screened::Rejected);
                },
            };
            let names_mine = match e.get("pubkey") {
                Some(v) => match v.as_str() {
                    Some(pt) => str_eq(pt, my_pk.as_str()),
                    None => false,
                },
                None => false,
            };
            proof { assert(names_mine == names_key(sigs@[j as int], my_pk@)); }
            if names_mine {
                has_mine = true;
            }
            keys.push(pb);
            j = j + 1;
        }
        proof {
            assert(message_passes(*msg)) by {
                assert forall|k: int| 0 <= k < sigs@.len() implies #[trigger] sig_entry_valid(sigs@[k],
                    signed_bytes(msg->Object_0)) by {}
            }
            assert(carried_sigs(*msg) == sigs@);
        }
        match from {
            Some(p) => {
                let ghost keys0 = keys@;
                let ghost k0 = old(self).peer_public_keys@;
                proof {
                    reveal_strlit(":");
                    assert(sigs@.subrange(n as int, n as int) =~= Seq::<Json>::empty());
                    assert(signer_names(p@, Seq::<Json>::empty()) =~= Set::<Seq<char>>::empty());
                    assert(self.peer_public_keys@.dom() =~= k0.dom().union(Set::<Seq<char>>::empty()));
                }
                while keys.len() > 0
                    invariant
                        self.peers == old(self).peers,
                        self.dup == old(self).dup,
                        self.pid == old(self).pid,
                        self.secret_key == old(self).secret_key,
                        self.public_key == old(self).public_key,
                        n == sigs@.len(),
                        keys0.len() == n,
                        keys.len() <= n,
                        keys@ == keys0.subrange(0, keys.len() as int),
                        forall|k: int| 0 <= k < n ==> (#[trigger] keys0[k])@ == entry_key(sigs@[k]),
                        k0 == old(self).peer_public_keys@,
                        ":"@ == seq![':'],
                        keys_recorded(k0, self.peer_public_keys@, p@, sigs@.subrange(keys.len() as int, n as int)),
                    decreases keys.len(),
                {
                    let ghost c = keys.len() as int;
                    let ghost before = self.peer_public_keys@;
                    let pk = match keys.pop() {
                        Some(k) => k,
                        None => Vec::new(),
                    };
                    proof { assert(pk == keys0[c - 1]); }
                    let kh = hex_encode(pk.as_slice());
                    let a = concat(p, ":");
                    let name = concat(a.as_str(), kh.as_str());
                    let ghost pkv = pk@;
                    self.peer_public_keys.insert(name, pk);
                    proof {
                        let done = sigs@.subrange(c, n as int);
                        let now = sigs@.subrange(c - 1, n as int);
                        assert(name@ == key_name(p@, entry_key(sigs@[c - 1])));
                        assert(key_name(p@, pkv) == name@);
                        assert(signer_names(p@, now) =~= signer_names(p@, done).insert(name@)) by {
                            assert forall|x: Seq<char>| signer_names(p@, now).contains(x)
                                implies #[trigger] signer_names(p@, done).insert(name@).contains(x) by {
                                let j = choose|j: int| 0 <= j < now.len() && x == #[trigger] key_name(p@, entry_key(now[j]));
                                if j > 0 {
                                    assert(now[j] == done[j - 1]);
                                    assert(signer_names(p@, done).contains(x));
                                }
                            }
                            assert forall|x: Seq<char>| #[trigger] signer_names(p@, done).insert(name@).contains(x)
                                implies signer_names(p@, now).contains(x) by {
                                if x == name@ {
                                    assert(now[0] == sigs@[c - 1]);
                                    assert(x == key_name(p@, entry_key(now[0])));
                                } else {
                                    let j = choose|j: int| 0 <= j < done.len() && x == #[trigger] key_name(p@, entry_key(done[j]));
                                    assert(done[j] == now[j + 1]);
                                    assert(x == key_name(p@, entry_key(now[j + 1])));
                                }
                            }
                        }
                        assert(self.peer_public_keys@.dom() =~= k0.dom().union(signer_names(p@, now)));
                    }
                }
                proof { assert(sigs@.subrange(0, n as int) =~= sigs@); }
            },
            None => {},
        }
        if has_mine {
            return Ok(Screened::Accepted { id: id.to_owned(), our_entry: None, targets: Vec::new() });
        }
        let sig = match bls_sign(self.secret_key.as_slice(), bytes) {
            Some(s) => s,
            None => {
                return Err(GunError::Crypto("Invalid secret key".to_owned()));
            },
        };
        let entry = sig_entry(hex_encode(sig.as_slice()), my_pk);
        let targets = self.peer_names_but(from);
        Ok(Screened::Accepted { id: id.to_owned(), our_entry: Some(entry), targets })
    }
}

} // verus!

verus! {

/// The node under `soul` took the members of `obj` that a peer sent, each with the state
/// the peer gave it in `incoming` or else a new one; the rest of the graph is unchanged.
pub open spec fn incoming_merged(g0: Map<Seq<char>, Node>, g1: Map<Seq<char>, Node>, soul: Seq<char>,
    obj: Map<Seq<char>, Json>, incoming: Map<Seq<char>, u64>) -> bool {
    let n = g1[soul];
    &&& only_soul_changed(g0, g1, soul)
    &&& n.data@ == base_data(g0, soul).union_prefer_right(obj)
    &&& n.states@.dom() == base_states(g0, soul).dom().union(obj.dom())
    &&& forall|k: Seq<char>| #[trigger] obj.contains_key(k) && incoming.contains_key(k) ==> n.states@[k] == incoming[k]
    &&& forall|k: Seq<char>| #[trigger] n.states@.contains_key(k) && !obj.contains_key(k) ==> n.states@[k] == base_states(g0, soul)[k]
    &&& if obj == Map::<Seq<char>, Json>::empty() && g0.contains_key(soul) {
        n.meta@ == g0[soul].meta@
    } else {
        soul_written(g0, n, soul)
    }
}

/// Merge the members a peer sent for the node under `soul` (no `"_"` among them): each
/// takes the state the peer gave it, or a new one.
pub fn merge_incoming(core: &mut GunCore, soul: &str, obj: StrMap<Json>, incoming: &StrMap<u64>)
    requires
        !obj@.contains_key(seq!['_']),
    ensures
        incoming_merged(old(core).graph@, final(core).graph@, soul@, obj@, incoming@),
        final(core).dup == old(core).dup,
        final(core).id_counter == old(core).id_counter,
{
    let ghost g0 = core.graph@;
    let ghost ov = obj@;
    let mut node = take_or_new(core, soul);
    let ghost node0 = node;
    let mut es = obj.into_entries();
    let ghost es0 = es@;
    let n = es.len();
    let mut i: usize = 0;
    proof {
        reveal_strlit("_");
        assert("_"@ =~= seq!['_']);
        assert(es0.subrange(0, 0) =~= Seq::<(String, Json)>::empty());
        assert(entries_view(es0.subrange(0, 0)) =~= Map::<Seq<char>, Json>::empty());
        assert(node0.data@.union_prefer_right(Map::<Seq<char>, Json>::empty()) =~= node0.data@);
        assert(node0.states@.dom().union(Set::<Seq<char>>::empty()) =~= node0.states@.dom());
    }
    while i < n
        invariant
            n == es0.len(),
            i <= n,
            es@ == es0.subrange(i as int, n as int),
            distinct_keys(es0),
            entries_view(es0) == ov,
            !ov.contains_key(seq!['_']),
            node0.data@ == base_data(g0, soul@),
            node0.states@ == base_states(g0, soul@),
            node.data@ == node0.data@.union_prefer_right(entries_view(es0.subrange(0, i as int))),
            node.states@.dom() == node0.states@.dom().union(entries_view(es0.subrange(0, i as int)).dom()),
            forall|k: Seq<char>| #[trigger] entries_view(es0.subrange(0, i as int)).contains_key(k)
                && incoming@.contains_key(k) ==> node.states@[k] == incoming@[k],
            forall|k: Seq<char>| #[trigger] node.states@.contains_key(k)
                && !entries_view(es0.subrange(0, i as int)).contains_key(k) ==> node.states@[k] == node0.states@[k],
            i > 0 ==> spec_node_soul(node) == Some(soul@) && node.meta@.remove(soul_key()) == node0.meta@.remove(soul_key()),
            i == 0 ==> node.meta@ == node0.meta@,
            g0.contains_key(soul@) ==> node0 == g0[soul@],
            !g0.contains_key(soul@) ==> node0.meta@.remove(soul_key()) == Map::<Seq<char>, Json>::empty()
                && spec_node_soul(node0) == Some(soul@),
            core.graph@ == g0.remove(soul@),
            core.dup == old(core).dup,
            core.id_counter == old(core).id_counter,
        decreases n - i,
    {
        let ghost pm = entries_view(es0.subrange(0, i as int));
        proof {
            crate::strmap::lemma_entries_view_prefix_step(es0, i as int);
            assert(es@[0] == es0[i as int]);
            crate::strmap::lemma_entries_view_at(es0, i as int);
        }
        let (k, v) = es.remove(0);
        proof {
            assert(es@ =~= es0.subrange(i + 1, n as int));
            assert(k@ != seq!['_']);
        }
        let st = match incoming.get(k.as_str()) {
            Some(s) => *s,
            None => core.state.next(),
        };
        node.data.insert(k.clone(), v);
        State::ify(&mut node, Some(k.as_str()), Some(st), None, Some(soul));
        proof {
            let pm2 = pm.insert(k@, v);
            assert(node.data@ =~= node0.data@.union_prefer_right(pm2));
            assert(node.states@.dom() =~= node0.states@.dom().union(pm2.dom()));
        }
        i = i + 1;
    }
    proof {
        assert(es0.subrange(0, n as int) =~= es0);
        if n == 0 {
            assert(ov =~= Map::<Seq<char>, Json>::empty());
        } else {
            crate::strmap::lemma_entries_view_at(es0, 0);
        }
        if g0.contains_key(soul@) {
            assert(node0.meta@.remove(soul_key()) == crate::chain::base_meta_rest(g0, soul@));
        }
    }
    let _ = core.graph.put(soul, node);
    proof {
        assert(core.graph@.dom() =~= g0.dom().insert(soul@));
    }
}

} // verus!

verus! {

/// The soul a node of a `put` is merged under: the string under `"#"` in its `"_"`, or else
/// the key it came under.
pub open spec fn put_soul(key: Seq<char>, obj: Map<Seq<char>, Json>) -> Seq<char> {
    if obj.contains_key(seq!['_']) {
        match spec_field(obj[seq!['_']], soul_key()) {
            Some(sv) => match spec_str(sv) {
                Some(s) => s,
                None => key,
            },
            None => key,
        }
    } else {
        key
    }
}

/// The states a peer gave for the node it sent under `key` (none when it gave none).
pub open spec fn states_given(incoming: Map<Seq<char>, StrMap<u64>>, key: Seq<char>) -> Map<Seq<char>, u64> {
    if incoming.contains_key(key) { incoming[key]@ } else { Map::empty() }
}

/// The graphs `gs` are the graph before each node of a `put` was merged and, last, after
/// the last one (see `put_step`).
pub open spec fn put_steps(gs: Seq<Map<Seq<char>, Node>>, es: Seq<(String, Json)>, incoming: Map<Seq<char>, StrMap<u64>>) -> bool {
    &&& gs.len() == es.len() + 1
    &&& forall|j: int| 0 <= j < es.len() ==> #[trigger] put_step(gs[j], gs[j + 1], es[j], incoming)
}

/// The graph `g1` is `g0` after the nodes of a `put` were merged in order: each object
/// under its soul (its `"_"` left out), with the states the peer gave for its key; other
/// members change nothing.
pub open spec fn puts_merged(g0: Map<Seq<char>, Node>, g1: Map<Seq<char>, Node>, es: Seq<(String, Json)>,
    incoming: Map<Seq<char>, StrMap<u64>>) -> bool {
    exists|gs: Seq<Map<Seq<char>, Node>>| #[trigger] put_steps(gs, es, incoming) && gs[0] == g0 && gs.last() == g1
}

/// The graph `g1` is `gm` after one node of a `put` was merged (see `puts_merged`).
pub open spec fn put_step(gm: Map<Seq<char>, Node>, g1: Map<Seq<char>, Node>, e: (String, Json),
    incoming: Map<Seq<char>, StrMap<u64>>) -> bool {
    match e.1 {
        Json::Object(obj) => incoming_merged(gm, g1, put_soul(e.0@, obj@), obj@.remove(seq!['_']),
            states_given(incoming, e.0@)),
        _ => g1 == gm,
    }
}

/// The souls of the nodes of a `put`, in order (members that are not objects left out).
pub open spec fn put_souls(es: Seq<(String, Json)>) -> Seq<Seq<char>>
    decreases es.len(),
{
    if es.len() == 0 {
        Seq::empty()
    } else {
        match es.last().1 {
            Json::Object(obj) => put_souls(es.drop_last()).push(put_soul(es.last().0@, obj@)),
            _ => put_souls(es.drop_last()),
        }
    }
}

/// The reaction reports the node under `soul` as updated.
pub open spec fn is_updated(x: Reaction, soul: Seq<char>) -> bool {
    match x {
        Reaction::Updated(s) => s@ == soul,
        _ => false,
    }
}

/// The reactions report exactly the given souls as updated, in order.
pub open spec fn reports_updated(r: Seq<Reaction>, souls: Seq<Seq<char>>) -> bool {
    &&& r.len() == souls.len()
    &&& forall|j: int| 0 <= j < r.len() ==> is_updated(#[trigger] r[j], souls[j])
}

/// Merge the nodes of a `put`, in order, and report each.
fn merge_puts(core: &mut GunCore, souls: StrMap<Json>, incoming: &StrMap<StrMap<u64>>) -> (r: Vec<Reaction>)
    ensures
        puts_merged(old(core).graph@, final(core).graph@, souls.entries(), incoming@),
        reports_updated(r@, put_souls(souls.entries())),
        final(core).dup == old(core).dup,
        final(core).id_counter == old(core).id_counter,
{
    proof { reveal_strlit("_"); assert("_"@ =~= seq!['_']); reveal_strlit("#"); assert("#"@ =~= soul_key()); }
    let ghost g0 = core.graph@;
    let ghost es0 = souls.entries();
    let mut entries = souls.into_entries();
    let n = entries.len();
    let mut out: Vec<Reaction> = Vec::new();
    let mut i: usize = 0;
    let ghost mut gs: Seq<Map<Seq<char>, Node>> = seq![g0];
    proof {
        assert(es0.subrange(0, 0) =~= Seq::<(String, Json)>::empty());
    }
    while i < n
        invariant
            n == es0.len(),
            i <= n,
            entries@ == es0.subrange(i as int, n as int),
            put_steps(gs, es0.subrange(0, i as int), incoming@),
            gs[0] == g0,
            gs.last() == core.graph@,
            reports_updated(out@, put_souls(es0.subrange(0, i as int))),
            core.dup == old(core).dup,
            core.id_counter == old(core).id_counter,
            "_"@ == seq!['_'],
            "#"@ == soul_key(),
        decreases n - i,
    {
        let ghost gprev = core.graph@;
        let ghost pre = es0.subrange(0, i as int);
        let ghost cur = es0.subrange(0, i + 1);
        proof {
            assert(cur.drop_last() =~= pre);
            assert(cur.last() == es0[i as int]);
            assert(entries@[0] == es0[i as int]);
        }
        let (key, data) = entries.remove(0);
        let ghost d0 = data;
        proof {
            assert(entries@ =~= es0.subrange(i + 1, n as int));
            assert(cur.last().0 == key && cur.last().1 == d0);
        }
        match data {
            Json::Object(mut obj) => {
                let ghost ov = obj@;
                proof { assert(d0 == Json::Object(obj)); }
                let meta = obj.remove("_");
                let soul = match &meta {
                    Some(mv) => match mv.get("#") {
                        Some(sv) => match sv.as_str() {
                            Some(s) => s.to_owned(),
                            None => key.clone(),
                        },
                        None => key.clone(),
                    },
                    None => key.clone(),
                };
                proof { assert(soul@ == put_soul(key@, ov)); }
                let empty: StrMap<u64> = StrMap::new();
                let states = match incoming.get(key.as_str()) {
                    Some(st) => st,
                    None => &empty,
                };
                proof { assert(states@ == states_given(incoming@, key@)); }
                merge_incoming(core, soul.as_str(), obj, states);
                let ghost before = out@;
                out.push(Reaction::Updated(soul));
                proof {
                    assert(incoming_merged(gprev, core.graph@, put_soul(key@, ov), ov.remove(seq!['_']),
                        states_given(incoming@, key@)));
                    assert(put_step(gprev, core.graph@, cur.last(), incoming@));
                    assert(put_souls(cur) == put_souls(pre).push(put_soul(key@, ov)));
                    assert forall|j: int| 0 <= j < out@.len() implies is_updated(#[trigger] out@[j], put_souls(cur)[j]) by {
                        if j < before.len() {
                            assert(out@[j] == before[j]);
                        }
                    }
                }
            },
            _ => {
                proof {
                    assert(put_step(gprev, core.graph@, cur.last(), incoming@));
                    assert(put_souls(cur) == put_souls(pre));
                }
            },
        }
        proof {
            let gs2 = gs.push(core.graph@);
            assert forall|j: int| 0 <= j < cur.len() implies #[trigger] put_step(gs2[j], gs2[j + 1], cur[j], incoming@) by {
                if j < i {
                    assert(cur[j] == pre[j]);
                    assert(put_step(gs[j], gs[j + 1], pre[j], incoming@));
                }
            }
            gs = gs2;
        }
        i = i + 1;
    }
    proof {
        assert(es0.subrange(0, n as int) =~= es0);
        assert(put_steps(gs, es0, incoming@));
    }
    out
}

} // verus!

verus! {

/// What the mesh does after taking a message.
pub enum Reaction {
    /// Say this message to the peer that sent the one taken.
    Reply(Json),
    /// Say this message to every peer.
    Broadcast(Json),
    /// The node under this soul changed: its listeners are to be told.
    Updated(String),
    /// The peer that sent the message reported this error.
    PeerError(String),
}

/// The `"dam"` key.
pub open spec fn dam_key() -> Seq<char> { seq!['d', 'a', 'm'] }
/// The `"put"` key.
pub open spec fn put_key() -> Seq<char> { seq!['p', 'u', 't'] }
/// The `"get"` key.
pub open spec fn get_key() -> Seq<char> { seq!['g', 'e', 't'] }

/// The kind of DAM message, when the message has a string `"dam"` member.
pub open spec fn dam_kind(msg: Json) -> Option<Seq<char>> {
    match spec_field(msg, dam_key()) {
        Some(d) => spec_str(d),
        None => None,
    }
}

/// The text of the string under a key of a value.
pub open spec fn str_member(j: Json, key: Seq<char>) -> Option<Seq<char>> {
    match spec_field(j, key) {
        Some(v) => spec_str(v),
        None => None,
    }
}

/// The answer `{"put": {"#": soul, ...data}}` for a node: its members carry the texts of the
/// node's data, and `"#"` names the soul unless the data has a `"#"` of its own.
pub open spec fn is_node_answer(j: Json, soul: Seq<char>, data: Map<Seq<char>, Json>) -> bool {
    &&& j matches Json::Object(top) && top@.dom() == set![put_key()]
    &&& match spec_field(j, put_key()) {
        Some(Json::Object(o)) => {
            &&& o@.dom() == data.dom().insert(soul_key())
            &&& forall|k: Seq<char>| #[trigger] data.contains_key(k) ==> json_text(o@[k]) == json_text(data[k])
            &&& !data.contains_key(soul_key()) ==> spec_str(o@[soul_key()]) == Some(soul)
        },
        _ => false,
    }
}

/// The answer `{"put": {"#": soul, key: value}}` for one key: the member carries the text of
/// the value, and `"#"` names the soul unless the key is `"#"`.
pub open spec fn is_key_answer(j: Json, soul: Seq<char>, key: Seq<char>, value: Json) -> bool {
    &&& j matches Json::Object(top) && top@.dom() == set![put_key()]
    &&& match spec_field(j, put_key()) {
        Some(Json::Object(o)) => {
            &&& o@.dom() == set![soul_key(), key]
            &&& json_text(o@[key]) == json_text(value)
            &&& key != soul_key() ==> spec_str(o@[soul_key()]) == Some(soul)
        },
        _ => false,
    }
}

/// The message `{"put": {"#": soul, ...data}}` that answers a request for a node.
fn put_answer(soul: &str, data: &StrMap<Json>) -> (j: Json)
    ensures
        is_node_answer(j, soul@, data@),
{
    proof {
        reveal_strlit("#");
        reveal_strlit("put");
        assert("#"@ =~= soul_key());
        assert("put"@ =~= put_key());
        use_type_invariant(data);
        data.lemma_wf();
    }
    let mut obj: StrMap<Json> = StrMap::new();
    let s = soul.to_owned();
    let ghost sj = Json::String(s);
    obj.insert("#".to_owned(), Json::String(s));
    let n = data.len();
    let mut i: usize = 0;
    proof {
        assert(data.entries().subrange(0, 0) =~= Seq::<(String, Json)>::empty());
        assert(obj@.dom() =~= entries_view(data.entries().subrange(0, 0)).dom().insert(soul_key()));
    }
    while i < n
        invariant
            n == data.entries().len(),
            i <= n,
            distinct_keys(data.entries()),
            entries_view(data.entries()) == data@,
            "#"@ == soul_key(),
            obj@.dom() == entries_view(data.entries().subrange(0, i as int)).dom().insert(soul_key()),
            forall|k: Seq<char>| #[trigger] entries_view(data.entries().subrange(0, i as int)).contains_key(k)
                ==> json_text(obj@[k]) == json_text(entries_view(data.entries().subrange(0, i as int))[k]),
            !entries_view(data.entries().subrange(0, i as int)).contains_key(soul_key()) ==> obj@[soul_key()] == sj,
            spec_str(sj) == Some(soul@),
        decreases n - i,
    {
        let e = data.entry_at(i);
        proof { crate::strmap::lemma_entries_view_prefix_step(data.entries(), i as int); }
        let c = e.1.copy();
        obj.insert(e.0.clone(), c);
        proof {
            let pm = entries_view(data.entries().subrange(0, i + 1));
            assert(obj@.dom() =~= pm.dom().insert(soul_key()));
        }
        i = i + 1;
    }
    proof { assert(data.entries().subrange(0, n as int) =~= data.entries()); }
    let mut top: StrMap<Json> = StrMap::new();
    top.insert("put".to_owned(), Json::Object(obj));
    proof { assert(top@.dom() =~= set![put_key()]); }
    Json::Object(top)
}

/// The message `{"put": {"#": soul, key: value}}` that answers a request for one key.
fn put_key_answer(soul: &str, key: &str, value: &Json) -> (j: Json)
    ensures
        is_key_answer(j, soul@, key@, *value),
{
    proof {
        reveal_strlit("#");
        reveal_strlit("put");
        assert("#"@ =~= soul_key());
        assert("put"@ =~= put_key());
    }
    let mut obj: StrMap<Json> = StrMap::new();
    let s = soul.to_owned();
    let ghost sj = Json::String(s);
    obj.insert("#".to_owned(), Json::String(s));
    obj.insert(key.to_owned(), value.copy());
    proof { assert(obj@.dom() =~= set![soul_key(), key@]); }
    let mut top: StrMap<Json> = StrMap::new();
    top.insert("put".to_owned(), Json::Object(obj));
    proof { assert(top@.dom() =~= set![put_key()]); }
    Json::Object(top)
}

/// What a request `{"#": soul, ".": key}` is answered with. For a node the graph holds and
/// no key: its data, to every peer. For a key of it whose value links to a node the graph
/// holds: that node's data, back to the sender; for a key whose value is an object without a
/// `"#"` member: that value, back to the sender. Nothing otherwise.
pub open spec fn get_answered(g: Map<Seq<char>, Node>, get: Json, from: Option<Seq<char>>, r: Seq<Reaction>) -> bool {
    match str_member(get, soul_key()) {
        None => r.len() == 0,
        Some(soul) => if !g.contains_key(soul) {
            r.len() == 0
        } else {
            match spec_field(get, crate::wire::dot_key()) {
                None => r.len() == 1 && match r[0] {
                    Reaction::Broadcast(j) => is_node_answer(j, soul, g[soul].data@),
                    _ => false,
                },
                Some(kv) => match spec_str(kv) {
                    None => r.len() == 0,
                    Some(key) => if !g[soul].data@.contains_key(key) || !(g[soul].data@[key] is Object) || from is None {
                        r.len() == 0
                    } else if crate::read::has_soul_member(g[soul].data@[key]) {
                        match crate::read::link_target(g[soul].data@[key]) {
                            Some(rs) => if g.contains_key(rs) {
                                r.len() == 1 && match r[0] {
                                    Reaction::Reply(j) => is_node_answer(j, rs, g[rs].data@),
                                    _ => false,
                                }
                            } else {
                                r.len() == 0
                            },
                            None => r.len() == 0,
                        }
                    } else {
                        r.len() == 1 && match r[0] {
                            Reaction::Reply(j) => is_key_answer(j, soul, key, g[soul].data@[key]),
                            _ => false,
                        }
                    },
                },
            }
        },
    }
}

/// The reaction reports the peer's error text.
pub open spec fn is_peer_error(x: Reaction, text: Seq<char>) -> bool {
    match x {
        Reaction::PeerError(s) => s@ == text,
        _ => false,
    }
}

/// The answer to a greeting: `{"dam": "?", "pid": our ID, "@": the greeting's ID}`.
pub open spec fn is_greeting_reply(j: Json, pid: Seq<char>, id: Seq<char>) -> bool {
    &&& j matches Json::Object(m) && m@.dom() == set![seq!['d', 'a', 'm'], seq!['p', 'i', 'd'], seq!['@']]
    &&& str_member(j, seq!['d', 'a', 'm']) == Some(seq!['?'])
    &&& str_member(j, seq!['p', 'i', 'd']) == Some(pid)
    &&& str_member(j, seq!['@']) == Some(id)
}

/// The peers after the peer `p` said its DAM ID is `theirs`: a known peer records it.
pub open spec fn pid_recorded(p0: Map<Seq<char>, Peer>, p1: Map<Seq<char>, Peer>, p: Seq<char>, theirs: Seq<char>) -> bool {
    if p0.contains_key(p) {
        &&& p1 == p0.insert(p, Peer { pid: p1[p].pid, ..p0[p] })
        &&& p1[p].pid matches Some(s) && s@ == theirs
    } else {
        p1 == p0
    }
}

/// What taking a DAM message of kind `kind` did: `"!"` from a peer with an `"err"` text reports
/// that text; `"?"` from a peer with a `"pid"` text records the peer's DAM ID and is answered
/// with our greeting naming the message's ID; anything else does nothing.
pub open spec fn dam_taken(kind: Seq<char>, msg: Json, id: Seq<char>, from: Option<Seq<char>>, pid: Seq<char>,
    p0: Map<Seq<char>, Peer>, p1: Map<Seq<char>, Peer>, r: Seq<Reaction>) -> bool {
    if kind == seq!['!'] {
        &&& p1 == p0
        &&& match (from, str_member(msg, seq!['e', 'r', 'r'])) {
            (Some(_), Some(t)) => r.len() == 1 && is_peer_error(r[0], t),
            _ => r.len() == 0,
        }
    } else if kind == seq!['?'] {
        match (from, str_member(msg, seq!['p', 'i', 'd'])) {
            (Some(p), Some(theirs)) => {
                &&& pid_recorded(p0, p1, p, theirs)
                &&& r.len() == 1
                &&& match r[0] {
                    Reaction::Reply(j) => is_greeting_reply(j, pid, id),
                    _ => false,
                }
            },
            _ => p1 == p0 && r.len() == 0,
        }
    } else {
        p1 == p0 && r.len() == 0
    }
}

/// What taking a message that is not a duplicate did, besides tracking its ID: a DAM
/// message as `dam_taken` says, leaving the graph alone; a `put` object merges its nodes in
/// order and reports each (a `put` that is not an object does nothing); a `get` is answered as
/// `get_answered` says; anything else does nothing.
pub open spec fn delivered(msg: Json, id: Seq<char>, from: Option<Seq<char>>, pid: Seq<char>,
    p0: Map<Seq<char>, Peer>, p1: Map<Seq<char>, Peer>, g0: Map<Seq<char>, Node>, g1: Map<Seq<char>, Node>,
    incoming: Map<Seq<char>, StrMap<u64>>, r: Seq<Reaction>) -> bool {
    match dam_kind(msg) {
        Some(k) => g1 == g0 && dam_taken(k, msg, id, from, pid, p0, p1, r),
        None => p1 == p0 && match spec_field(msg, put_key()) {
            Some(Json::Object(souls)) => puts_merged(g0, g1, souls.entries(), incoming)
                && reports_updated(r, put_souls(souls.entries())),
            Some(_) => g1 == g0 && r.len() == 0,
            None => g1 == g0 && match spec_field(msg, get_key()) {
                Some(get) => get_answered(g0, get, from, r),
                None => r.len() == 0,
            },
        },
    }
}

impl Mesh {
    /// Answer a request `{"#": soul, ".": key}` for a node or for one key of it.
    ///
    /// For a whole node the graph has, its data goes to every peer. For a key whose value
    /// is a link to a node the graph has, that node's data goes back to the sender; for a
    /// key whose value is an object without a `"#"` member, that value. Nothing otherwise.
    fn answer_get(&self, core: &GunCore, get: &Json, from: Option<&str>) -> (r: Vec<Reaction>)
        ensures
            get_answered(core.graph@, *get, match from { Some(f) => Some(f@), None => None }, r@),
    {
        proof {
            reveal_strlit("#");
            reveal_strlit(".");
            assert("#"@ =~= soul_key());
            assert("."@ =~= crate::wire::dot_key());
        }
        let mut out: Vec<Reaction> = Vec::new();
        let soul = match get.get("#") {
            Some(v) => match v.as_str() {
                Some(s) => s,
                None => {
                    return out;
                },
            },
            None => {
                return out;
            },
        };
        let node = match core.graph.get(soul) {
            Some(n) => n,
            None => {
                return out;
            },
        };
        match get.get(".") {
            Some(kv) => {
                let key = match kv.as_str() {
                    Some(k) => k,
                    None => {
                        return out;
                    },
                };
                let value = match node.data.get(key) {
                    Some(v) => v,
                    None => {
                        return out;
                    },
                };
                if !value.is_object() {
                    return out;
                }
                if crate::read::has_soul_member_of(value) {
                    match crate::read::link_target_of(value) {
                        Some(rs) => match core.graph.get(rs) {
                            Some(rn) => {
                                if from.is_some() {
                                    out.push(Reaction::Reply(put_answer(rs, &rn.data)));
                                }
                            },
                            None => {},
                        },
                        None => {},
                    }
                } else {
                    if from.is_some() {
                        out.push(Reaction::Reply(put_key_answer(soul, key, value)));
                    }
                }
            },
            None => {
                out.push(Reaction::Broadcast(put_answer(soul, &node.data)));
            },
        }
        out
    }

    /// Take a DAM message of the given kind (see `dam_taken`).
    fn take_dam(&mut self, msg: &Json, kind: &str, id: &str, from: Option<&str>) -> (r: Vec<Reaction>)
        ensures
            final(self).pid == old(self).pid,
            final(self).secret_key == old(self).secret_key,
            final(self).public_key == old(self).public_key,
            final(self).dup == old(self).dup,
            dam_taken(kind@, *msg, id@, match from { Some(f) => Some(f@), None => None }, old(self).pid@,
                old(self).peers@, final(self).peers@, r@),
    {
        proof {
            reveal_strlit("!");
            reveal_strlit("?");
            reveal_strlit("err");
            reveal_strlit("pid");
            reveal_strlit("@");
            reveal_strlit("dam");
            assert("!"@ =~= seq!['!']);
            assert("?"@ =~= seq!['?']);
            assert("err"@ =~= seq!['e', 'r', 'r']);
            assert("pid"@ =~= seq!['p', 'i', 'd']);
            assert("@"@ =~= seq!['@']);
            assert("dam"@ =~= dam_key());
        }
        let mut out: Vec<Reaction> = Vec::new();
        if str_eq(kind, "!") {
            match from {
                Some(_) => match msg.get("err") {
                    Some(e) => match e.as_str() {
                        Some(text) => {
                            out.push(Reaction::PeerError(text.to_owned()));
                        },
                        None => {},
                    },
                    None => {},
                },
                None => {},
            }
        } else if str_eq(kind, "?") {
            match from {
                Some(p) => match msg.get("pid") {
                    Some(pv) => match pv.as_str() {
                        Some(pid) => {
                            match self.peers.remove(p) {
                                Some(mut peer) => {
                                    peer.pid = Some(pid.to_owned());
                                    self.peers.insert(p.to_owned(), peer);
                                    proof {
                                        assert(self.peers@ =~= old(self).peers@.insert(p@, Peer {
                                            pid: self.peers@[p@].pid, ..old(self).peers@[p@] }));
                                    }
                                },
                                None => {
                                    proof { assert(self.peers@ =~= old(self).peers@); }
                                },
                            }
                            let g = greeting_message(self.pid.as_str());
                            let mut reply = match g {
                                Json::Object(m) => m,
                                _ => StrMap::new(),
                            };
                            proof { assert(reply@.dom() =~= set![seq!['d', 'a', 'm'], seq!['p', 'i', 'd']]); }
                            let i = id.to_owned();
                            let ghost ij = Json::String(i);
                            reply.insert("@".to_owned(), Json::String(i));
                            let j = Json::Object(reply);
                            proof {
                                assert(seq!['@'][0] != seq!['d', 'a', 'm'][0]);
                                assert(seq!['@'][0] != seq!['p', 'i', 'd'][0]);
                                assert(reply@.dom() =~= set![seq!['d', 'a', 'm'], seq!['p', 'i', 'd'], seq!['@']]);
                                assert(is_greeting_reply(j, old(self).pid@, id@));
                            }
                            out.push(Reaction::Reply(j));
                        },
                        None => {},
                    },
                    None => {},
                },
                None => {},
            }
        }
        out
    }

    /// Take what a checked message carries (see `screen`), unless it is a duplicate, reading
    /// the system clock (see `deliver_at`).
    pub fn deliver(&mut self, core: &mut GunCore, msg: Json, id: &str, from: Option<&str>,
        incoming_states: &StrMap<StrMap<u64>>) -> (r: Vec<Reaction>)
        ensures
            final(self).pid == old(self).pid,
            final(self).secret_key == old(self).secret_key,
            final(self).public_key == old(self).public_key,
            final(core).dup == old(core).dup,
            final(core).id_counter == old(core).id_counter,
            (exists|now: u64| is_duplicate(old(self).dup.messages(), id@, now, old(self).dup.max_age()))
                && r@.len() == 0 && final(core).graph == old(core).graph && final(self).dup == old(self).dup
                && final(self).peers@ == old(self).peers@
            || (exists|now: u64| !is_duplicate(old(self).dup.messages(), id@, now, old(self).dup.max_age()))
                && (exists|now: u64| final(self).dup.messages() == #[trigger] tracked_at(old(self).dup.messages(),
                    old(self).dup.max_size(), old(self).dup.max_age(), id@, now))
                && delivered(msg, id@, match from { Some(f) => Some(f@), None => None }, old(self).pid@,
                    old(self).peers@, final(self).peers@, old(core).graph@, final(core).graph@, incoming_states@, r@),
    {
        let now = crate::clock::now_millis();
        self.deliver_at(core, msg, id, from, incoming_states, now)
    }

    /// Take what a checked message carries (see `screen`) at time `now` (milliseconds),
    /// unless it is a duplicate.
    ///
    /// A message whose ID was seen within the tracker's age is ignored; otherwise its ID is
    /// tracked at `now` and the message is taken as `delivered` says: a DAM message records or
    /// reports what the peer said about itself, a `put` merges each node it carries, and a
    /// `get` is answered.
    pub fn deliver_at(&mut self, core: &mut GunCore, msg: Json, id: &str, from: Option<&str>,
        incoming_states: &StrMap<StrMap<u64>>, now: u64) -> (r: Vec<Reaction>)
        ensures
            final(self).pid == old(self).pid,
            final(self).secret_key == old(self).secret_key,
            final(self).public_key == old(self).public_key,
            final(core).dup == old(core).dup,
            final(core).id_counter == old(core).id_counter,
            is_duplicate(old(self).dup.messages(), id@, now, old(self).dup.max_age()) ==> {
                &&& r@.len() == 0
                &&& final(core).graph == old(core).graph
                &&& final(self).dup == old(self).dup
                &&& final(self).peers@ == old(self).peers@
            },
            !is_duplicate(old(self).dup.messages(), id@, now, old(self).dup.max_age()) ==> {
                &&& final(self).dup.messages() == tracked_at(old(self).dup.messages(),
                    old(self).dup.max_size(), old(self).dup.max_age(), id@, now)
                &&& delivered(msg, id@, match from { Some(f) => Some(f@), None => None }, old(self).pid@,
                    old(self).peers@, final(self).peers@, old(core).graph@, final(core).graph@, incoming_states@, r@)
            },
    {
        if self.dup.check_at(id, now) {
            return Vec::new();
        }
        let _ = self.dup.track_at(id, now);
        proof {
            reveal_strlit("dam");
            reveal_strlit("put");
            reveal_strlit("get");
            assert("dam"@ =~= dam_key());
            assert("put"@ =~= put_key());
            assert("get"@ =~= get_key());
        }
        let dam = match msg.get("dam") {
            Some(d) => d.as_str(),
            None => None,
        };
        match dam {
            Some(kind) => {
                return self.take_dam(&msg, kind, id, from);
            },
            None => {},
        }
        let ghost m0 = msg;
        let mut msg = msg;
        let put = match &mut msg {
            Json::Object(m) => m.remove("put"),
            _ => None,
        };
        match put {
            Some(Json::Object(souls)) => {
                return merge_puts(core, souls, incoming_states);
            },
            Some(_) => {
                return Vec::new();
            },
            None => {},
        }
        proof { assert(spec_field(msg, get_key()) == spec_field(m0, get_key())); }
        match msg.get("get") {
            Some(get) => self.answer_get(core, get, from),
            None => Vec::new(),
        }
    }
}

} // verus!

verus! {

/// The signatures a message carries: its `sigs` array, or none.
pub open spec fn carried_sigs(msg: Json) -> Seq<Json> {
    match spec_field(msg, sigs_key()) {
        Some(Json::Array(v)) => v@,
        _ => Seq::empty(),
    }
}

/// A framed message `f` of `msg` for the secret key `sk` and the public key `pk`: the
/// members of `msg` but its ID and signatures, its ID or the hash of its signed bytes, and
/// its signatures with our entry added when ours is not among them.
pub open spec fn framed(msg: Json, sk: Seq<u8>, pk: Seq<u8>, f: Json) -> bool {
    let m = msg->Object_0;
    &&& f is Object
    &&& forall|k: Seq<char>| k != soul_key() && k != sigs_key() ==> #[trigger] spec_field(f, k) == spec_field(msg, k)
    &&& (spec_field(msg, soul_key()) is Some ==> spec_field(f, soul_key()) == spec_field(msg, soul_key()))
    &&& (spec_field(msg, soul_key()) is None ==> message_id_field(f) == Some(message_hash(m)))
    &&& (spec_field(msg, sigs_key()) is None ==> (f matches Json::Object(fm) && signed_bytes(fm) == signed_bytes(m)))
    &&& spec_field(f, sigs_key()) matches Some(Json::Array(v)) && {
        let mine = (spec_field(msg, sigs_key()) matches Some(Json::Array(old_v))
            && exists|j: int| 0 <= j < old_v@.len() && #[trigger] names_key(old_v@[j], hex_spec(pk)));
        if mine {
            v@ == carried_sigs(msg)
        } else {
            v@.len() == carried_sigs(msg).len() + 1
            && v@.subrange(0, carried_sigs(msg).len() as int) == carried_sigs(msg)
            && is_sig_entry(v@.last(), hex_spec(bls_signature(sk, signed_bytes(m))),
                hex_spec(pk))
            && bls_signature(sk, signed_bytes(m)).len() == 96
            && (!crate::crypto::bls_zero_key(sk) ==> bls_valid(bls_signature(sk, signed_bytes(m)),
                bls_public_of(sk), signed_bytes(m)))
        }
    }
}

impl Mesh {
    /// Frame a message to say to peers: give it its ID when it has none (the hash of its
    /// signed bytes, which leave out the ID and the signatures), and add our signature entry to its
    /// signatures when ours is not among them.
    pub fn frame(&self, msg: Json) -> (r: GunResult<Json>)
        requires
            msg is Object,
            self.secret_key@.len() == 32,
        ensures
            match r {
                Ok(f) => framed(msg, self.secret_key@, self.public_key@, f),
                Err(e) => e is Crypto && !bls_secret_key_ok(self.secret_key@)
                    && !(spec_field(msg, sigs_key()) matches Some(Json::Array(old_v))
                        && exists|j: int| 0 <= j < old_v@.len() && #[trigger] names_key(old_v@[j], hex_spec(self.public_key@))),
            },
    {
        proof {
            reveal_strlit("#");
            reveal_strlit("sigs");
            reveal_strlit("pubkey");
            assert("#"@ =~= soul_key());
            assert("sigs"@ =~= sigs_key());
            assert("pubkey"@ =~= pubkey_key());
        }
        let ghost msg0 = msg;
        let mut m = match msg {
            Json::Object(m) => m,
            _ => StrMap::new(),
        };
        let ghost m0 = m;
        let text = object_string_without(&m, "#", "sigs");
        let bytes = text.as_str().as_bytes();
        if !m.contains_key("#") {
            let digest = sha256(bytes);
            let hash = hex_encode(digest.as_slice());
            let key = "#".to_owned();
            let ghost kv = key;
            m.insert(key, Json::String(hash));
            proof {
                crate::json::lemma_text_without_push(m0, m, (kv, Json::String(hash)), soul_key(), sigs_key());
            }
        }
        let ghost m1 = m;
        proof {
            assert(object_text_without(m1, soul_key(), sigs_key()) == object_text_without(m0, soul_key(), sigs_key()));
        }
        let removed = m.remove("sigs");
        let ghost m2 = m;
        proof {
            if removed is None {
                crate::json::lemma_text_without_same(m1, m2, soul_key(), sigs_key());
            }
        }
        let mut sigs: Vec<Json> = match removed {
            Some(Json::Array(v)) => v,
            _ => Vec::new(),
        };
        let ghost old_sigs = sigs@;
        proof {
            assert(old_sigs == carried_sigs(msg0));
        }
        let my_pk = hex_encode(self.public_key.as_slice());
        let n = sigs.len();
        let mut j: usize = 0;
        let mut mine = false;
        while j < n
            invariant
                n == sigs@.len(),
                j <= n,
                "pubkey"@ == pubkey_key(),
                mine == exists|k: int| 0 <= k < j && #[trigger] names_key(sigs@[k], my_pk@),
            decreases n - j,
        {
            let names = match sigs[j].get("pubkey") {
                Some(v) => match v.as_str() {
                    Some(pt) => str_eq(pt, my_pk.as_str()),
                    None => false,
                },
                None => false,
            };
            proof { assert(names == names_key(sigs@[j as int], my_pk@)); }
            if names {
                mine = true;
            }
            j = j + 1;
        }
        if !mine {
            let sig = match bls_sign(self.secret_key.as_slice(), bytes) {
                Some(s) => s,
                None => {
                    return Err(GunError::Crypto("Invalid secret key".to_owned()));
                },
            };
            sigs.push(sig_entry(hex_encode(sig.as_slice()), my_pk));
        }
        let ghost final_sigs = sigs@;
        let ghost sv = Json::Array(sigs);
        let skey = "sigs".to_owned();
        let ghost skv = skey;
        m.insert(skey, Json::Array(sigs));
        proof {
            if removed is None {
                crate::json::lemma_text_without_push(m2, m, (skv, sv), soul_key(), sigs_key());
            }
        }
        let f = Json::Object(m);
        proof {
            assert(spec_field(f, sigs_key()) == Some(Json::Array(sigs)));
            if !mine {
                assert(final_sigs.subrange(0, old_sigs.len() as int) =~= old_sigs);
            }
            match spec_field(msg0, sigs_key()) {
                Some(Json::Array(old_v)) => { assert(old_v@ == old_sigs); },
                _ => {},
            }
        }
        Ok(f)
    }
}

} // verus!

verus! {

/// What a raw message from a peer is.
pub enum RawKind {
    /// Nothing to do: it is empty.
    Empty,
    /// Longer than the mesh takes: the sender is told so.
    TooBig,
    /// A batch: a JSON array of messages.
    Batch,
    /// A single message.
    Single,
}

/// What a raw message is: empty, longer (in bytes) than `max_size`, a batch (it starts
/// with `[`), or a single message.
pub fn classify_raw(raw: &str, max_size: usize) -> (k: RawKind)
    ensures
        match k {
            RawKind::Empty => raw@.len() == 0,
            RawKind::TooBig => raw@.len() > 0 && raw.len() > max_size,
            RawKind::Batch => raw@.len() > 0 && raw.len() <= max_size && raw@[0] == '[',
            RawKind::Single => raw@.len() > 0 && raw.len() <= max_size && raw@[0] != '[',
        },
{
    if raw.is_empty() {
        return RawKind::Empty;
    }
    if raw.len() > max_size {
        return RawKind::TooBig;
    }
    if raw.get_char(0) == '[' {
        RawKind::Batch
    } else {
        RawKind::Single
    }
}

/// The message that tells a peer its message was too big: `{"dam": "!", "err": "Message too big!"}`.
pub fn too_big_message() -> (j: Json)
    ensures
        j matches Json::Object(m) && m@.dom() == set![dam_key(), seq!['e', 'r', 'r']],
        dam_kind(j) == Some(seq!['!']),
        str_member(j, seq!['e', 'r', 'r']) == Some("Message too big!"@),
{
    proof {
        reveal_strlit("dam");
        reveal_strlit("!");
        assert("dam"@ =~= dam_key());
        assert("!"@ =~= seq!['!']);
    }
    let mut m: StrMap<Json> = StrMap::new();
    m.insert("dam".to_owned(), Json::String("!".to_owned()));
    m.insert("err".to_owned(), Json::String("Message too big!".to_owned()));
    proof {
        reveal_strlit("err");
        assert("err"@ =~= seq!['e', 'r', 'r']);
        assert(seq!['e', 'r', 'r'][0] != dam_key()[0]);
        assert(m@.dom() =~= set![dam_key(), seq!['e', 'r', 'r']]);
    }
    Json::Object(m)
}

} // verus!
