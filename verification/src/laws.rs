//! What a read through a chain gives back of a write through it, what opening a user
//! record gives back of what creating it locked, what verifying gives back of signing, what
//! decrypting gives back of encrypting, the secret that two parties agree on, that a
//! message a peer framed is taken by the mesh, that states increase, what a certificate
//! refuses, what proof of work writes, which keys an expiry refuses, what key encryption
//! derives from a secret, and that a request for a linked key is answered with the linked node.
use vstd::prelude::*;
use crate::json::Json;
use crate::chain::{Chain, key_written};
use crate::gun_core::GunCore;
use crate::put::{PutOutcome, value_put_done, object_put_done, object_put, object_written, value_written,
    lands_on_parent, spec_split_expiry, object_soul, link_written};
use crate::read::{spec_once, OnceAnswer, link_target};
use crate::valid::{spec_is_plain, spec_soul_ref};
use crate::state::Node;
use crate::sea::KeyPair;
use crate::sea::account::{is_user_record, record_opens, open_stalls, str_field, unlocked_text, password_key,
    single_text, locked_epriv, lemma_locked_secret_opens};
use crate::json::{spec_field, spec_str, json_text};
use crate::crypto::base64_spec;
use crate::sea::pair::{is_fresh_pair, public_key_text, shared_secret, agrees_with_every_key, encryption_of, opened_text};
use crate::sea::sign::{signed_with, signature_holds, signed_parts, public_key_sec1, private_key_bytes, signing_key_ok,
    private_key_ok};
use crate::sea::keys::{p256_public_of, p256_verifying_key_ok, p256_ecdh_public_of, p256_secret_key_ok,
    p256_public_key_ok, p256_shared_secret};
use crate::crypto::base64_decode_spec;
use crate::sea::sign::utf8;
use crate::state::{State, spec_next, state_of_millis, STATE_PER_MS};
use crate::sea::certify::{Certificate, spec_check_permission};
use crate::text::{spec_contains, spec_starts_with};
use crate::sea::work::{WorkOptions, work_output};
use crate::crypto::{hex_spec, pbkdf2_sha256_spec, lowercase_spec, lemma_base64_decodes_encoding};
use crate::sea::pair::aes_key_of;
use crate::put::{object_put_result_at};
use crate::error::GunResult;
use crate::dam::{get_answered, str_member, put_key, Reaction};
use crate::valid::soul_key;

verus! {

/// A plain value put through the chain for a key of a node (`gun.get(soul).get(key)`)
/// is what `once` then finds through that chain.
pub proof fn lemma_put_value_then_once(c: Chain, data: Json, c0: GunCore, c1: GunCore, out: PutOutcome)
    requires
        c.soul is None,
        c.key is Some,
        c.parent matches Some(p) && p.soul is Some,
        spec_is_plain(data),
        value_put_done(c, data, c0, c1, out),
    ensures
        spec_once(c, c1.graph@) == OnceAnswer::Value(data),
{
    let p = *c.parent->Some_0;
    let ps = p.soul->Some_0@;
    let k = c.key->Some_0@;
    assert(lands_on_parent(c));
    let st = choose|st: u64| #[trigger] key_written(c0.graph@, c1.graph@, ps, k, data, st);
    assert(c1.graph@.contains_key(ps));
    assert(c1.graph@[ps].data@[k] == data);
    assert(link_target(data) is None);
}

/// A plain value put down a path (`gun.get(soul).get(a).get(x)`, any depth, with the keys on
/// the path distinct from each other and from the chain's key) is what `once` then finds
/// through that chain.
pub proof fn lemma_put_value_through_path_then_once(c: Chain, data: Json, c0: GunCore, c1: GunCore, out: PutOutcome)
    requires
        c.soul is None,
        c.key is Some,
        c.parent matches Some(p) && p.soul is None,
        crate::put::anchored(c.parent),
        crate::put::path_keys(c.parent).push(c.key->Some_0@).no_duplicates(),
        spec_is_plain(data),
        value_put_done(c, data, c0, c1, out),
    ensures
        spec_once(c, c1.graph@) == OnceAnswer::Value(data),
{
    let k = c.key->Some_0@;
    let keys = crate::put::path_keys(c.parent);
    assert(crate::put::lands_through_path(c));
    let ps = out.updates@.last().soul@;
    let g1 = choose|g1: Map<Seq<char>, Node>| #[trigger] value_written(g1, c1.graph@, ps, k, data)
        && (keys.no_duplicates() ==> crate::put::chain_node(c.parent, g1) == Some(ps))
        && (crate::put::chain_node(c.parent, c0.graph@) matches Some(x) ==> (ps == x && g1 == c0.graph@ && out.updates@.len() == 1));
    assert(keys.no_duplicates()) by {
        let all = keys.push(k);
        assert forall|i: int, j: int| 0 <= i < keys.len() && 0 <= j < keys.len() && i != j implies keys[i] != keys[j] by {
            assert(all[i] == keys[i] && all[j] == keys[j]);
        }
    }
    assert(!keys.contains(k)) by {
        let all = keys.push(k);
        if keys.contains(k) {
            let i = choose|i: int| 0 <= i < keys.len() && keys[i] == k;
            assert(all[i] == k && all[keys.len() as int] == k);
        }
    }
    let st = choose|st: u64| #[trigger] key_written(g1, c1.graph@, ps, k, data, st);
    crate::put::lemma_chain_node_kept(c.parent, g1, c1.graph@, ps, k, data, st);
    assert(c1.graph@.contains_key(ps));
    assert(c1.graph@[ps].data@[k] == data);
    assert(link_target(data) is None);
}

/// An object put through the chain of a soul (`gun.get(soul)`, with no expiry in the soul)
/// is what `once` then finds there: the node's data holds every member of the object. (A node
/// that holds a value of its own, under `"="`, answers that value instead.)
pub proof fn lemma_put_object_then_once(c: Chain, m: Map<Seq<char>, Json>, c0: GunCore, c1: GunCore, out: PutOutcome)
    requires
        c.soul matches Some(s) && spec_split_expiry(s@).1 is None,
        c.key is None,
        c.parent is None,
        object_put_done(c, m, c0.graph@, c1.graph@, out),
        !m.contains_key(crate::valid::value_key()),
        !(c0.graph@.contains_key(c.soul->Some_0@)
            && c0.graph@[c.soul->Some_0@].data@.contains_key(crate::valid::value_key())),
    ensures
        spec_once(c, c1.graph@) matches OnceAnswer::NodeData(d)
            && forall|k: Seq<char>| #[trigger] m.contains_key(k) ==> d@.contains_key(k) && d@[k] == m[k],
{
    let s = c.soul->Some_0@;
    assert(object_soul(s) == s);
    assert(object_put(c0.graph@, c1.graph@, s, m));
    assert(c1.graph@.contains_key(s));
    assert(!c1.graph@[s].data@.contains_key(crate::valid::value_key()));
}

/// A plain value put through the chain of a soul (`gun.get(soul).put(value)`) is the node's
/// own value, and `once` through that chain then finds it.
pub proof fn lemma_put_value_at_soul_then_once(c: Chain, data: Json, c0: GunCore, c1: GunCore, out: PutOutcome)
    requires
        c.soul is Some,
        c.key is None,
        c.parent is None,
        spec_is_plain(data),
        value_put_done(c, data, c0, c1, out),
    ensures
        spec_once(c, c1.graph@) == OnceAnswer::Value(data),
{
    let s = c.soul->Some_0@;
    assert(!lands_on_parent(c));
    assert(out.chain.soul->Some_0@ == s);
    let st = choose|st: u64| #[trigger] key_written(c0.graph@, c1.graph@, s, crate::valid::value_key(), data, st);
    assert(c1.graph@.contains_key(s));
    assert(c1.graph@[s].data@[crate::valid::value_key()] == data);
}

/// An object put through the chain for a key of a node (`gun.get(soul).get(key)`) is
/// linked under the key, and `once` through that chain then finds the linked node, whose
/// data holds every member of the object (when the new node's soul is not the parent's).
pub proof fn lemma_put_nested_object_then_once(c: Chain, m: Map<Seq<char>, Json>, c0: GunCore, c1: GunCore, out: PutOutcome)
    requires
        c.soul is None,
        c.key is Some,
        c.parent matches Some(p) && p.soul is Some,
        object_put_done(c, m, c0.graph@, c1.graph@, out),
        out.chain.soul->Some_0@ != c.parent->Some_0.soul->Some_0@,
    ensures
        spec_once(c, c1.graph@) matches OnceAnswer::NodeData(d)
            && forall|k: Seq<char>| #[trigger] m.contains_key(k) ==> d@.contains_key(k) && d@[k] == m[k],
{
    let p = *c.parent->Some_0;
    let ps = p.soul->Some_0@;
    let k = c.key->Some_0@;
    let soul = out.chain.soul->Some_0@;
    let g2 = choose|g2: Map<Seq<char>, Node>| #[trigger] object_put(c0.graph@, g2, soul, m) && link_written(g2, c1.graph@, ps, k, soul);
    let (v, st) = choose|v: Json, st: u64| spec_soul_ref(v) == Some(soul) && #[trigger] key_written(g2, c1.graph@, ps, k, v, st);
    assert(c1.graph@.contains_key(ps));
    assert(c1.graph@[ps].data@[k] == v);
    assert(link_target(v) == Some(soul));
    assert(c1.graph@.contains_key(soul));
    assert(c1.graph@[soul] == g2[soul]);
}

} // verus!

verus! {

/// A user record as `create_user` stores it opens with the password it was made with: the
/// password checks against the stored hash, nothing in it stalls the cipher, the public key is
/// the user's, and the locked private keys decrypt to the texts `{"priv": ...}` and
/// `{"epriv": ...}` of the user's keys (no locked key for agreement where the user has none).
pub proof fn lemma_created_record_opens(rec: Json, kp: KeyPair, alias: Option<String>, salt: Seq<u8>, password: Seq<char>)
    requires
        is_user_record(rec, kp, alias, salt, password),
    ensures
        record_opens(rec, password),
        !open_stalls(rec, password),
        str_field(rec, seq!['p', 'u', 'b']) == Some(kp.pub_key@),
        unlocked_text(spec_field(rec, seq!['p', 'r', 'i', 'v'])->Some_0, password_key(password, salt))
            == Some(single_text(seq!['p', 'r', 'i', 'v'], kp.priv_key@)),
        match kp.epriv_key {
            Some(k) => locked_epriv(rec) is Some && unlocked_text(locked_epriv(rec)->Some_0, password_key(password, salt))
                == Some(single_text(seq!['e', 'p', 'r', 'i', 'v'], k@)),
            None => locked_epriv(rec) is None,
        },
{
    let key = password_key(password, salt);
    let pv = spec_field(rec, seq!['p', 'r', 'i', 'v'])->Some_0;
    lemma_locked_secret_opens(pv, key, single_text(seq!['p', 'r', 'i', 'v'], kp.priv_key@), salt);
    let ev = spec_field(rec, seq!['e', 'p', 'r', 'i', 'v'])->Some_0;
    match kp.epriv_key {
        Some(k) => {
            lemma_locked_secret_opens(ev, key, single_text(seq!['e', 'p', 'r', 'i', 'v'], k@), salt);
            assert(locked_epriv(rec) == Some(ev));
        },
        None => {},
    }
}

} // verus!

verus! {

/// Data signed with a pair that `generate_pair` made verifies under the pair's public key,
/// and the message that verification hands back is the JSON text of the data.
pub proof fn lemma_signed_data_verifies(j: Json, data: Json, kp: KeyPair)
    requires
        is_fresh_pair(kp),
        signed_with(j, data, kp),
    ensures
        signature_holds(j, kp.pub_key@),
        p256_verifying_key_ok(public_key_sec1(kp.pub_key@)->Some_0),
        signed_parts(j) matches Some((m, _)) && m == json_text(data),
{
    let (sk, pk) = choose|sk: Seq<u8>, pk: Seq<u8>| sk.len() == 32 && pk.len() == 65 && pk[0] == 4
        && kp.priv_key@ == #[trigger] base64_spec(sk) && kp.pub_key@ == #[trigger] public_key_text(pk)
        && private_key_bytes(kp) == Some(sk) && public_key_sec1(kp.pub_key@) == Some(pk)
        && pk == p256_public_of(sk) && p256_verifying_key_ok(pk);
    assert(spec_field(j, seq!['m']) matches Some(mv) && spec_str(mv) == Some(json_text(data)));
}

} // verus!

verus! {

/// Two parties with pairs that `generate_pair` made derive the same shared secret, each from
/// the other's public key for key agreement and its own keys.
pub proof fn lemma_shared_secrets_agree(a: KeyPair, b: KeyPair)
    requires
        is_fresh_pair(a),
        is_fresh_pair(b),
    ensures
        shared_secret(b.epub_key->Some_0@, a.epriv_key->Some_0@, a.epub_key->Some_0@) is Some,
        shared_secret(b.epub_key->Some_0@, a.epriv_key->Some_0@, a.epub_key->Some_0@)
            == shared_secret(a.epub_key->Some_0@, b.epriv_key->Some_0@, b.epub_key->Some_0@),
{
    let (ask, apk) = choose|esk: Seq<u8>, epk: Seq<u8>| esk.len() == 32 && epk.len() == 65 && epk[0] == 4
        && a.epriv_key->Some_0@ == #[trigger] base64_spec(esk)
        && a.epub_key->Some_0@ == #[trigger] public_key_text(epk)
        && base64_decode_spec(utf8(a.epriv_key->Some_0@)) == Some(esk)
        && public_key_sec1(a.epub_key->Some_0@) == Some(epk)
        && epk == p256_ecdh_public_of(esk) && p256_secret_key_ok(esk) && p256_public_key_ok(epk)
        && agrees_with_every_key(esk);
    let (bsk, bpk) = choose|esk: Seq<u8>, epk: Seq<u8>| esk.len() == 32 && epk.len() == 65 && epk[0] == 4
        && b.epriv_key->Some_0@ == #[trigger] base64_spec(esk)
        && b.epub_key->Some_0@ == #[trigger] public_key_text(epk)
        && base64_decode_spec(utf8(b.epriv_key->Some_0@)) == Some(esk)
        && public_key_sec1(b.epub_key->Some_0@) == Some(epk)
        && epk == p256_ecdh_public_of(esk) && p256_secret_key_ok(esk) && p256_public_key_ok(epk)
        && agrees_with_every_key(esk);
    assert(p256_shared_secret(ask, p256_ecdh_public_of(bsk)) == p256_shared_secret(bsk, p256_ecdh_public_of(ask)));
}

} // verus!

verus! {

/// A fresh pair signs: its private key is a P-256 signing key, so `sign` with it succeeds.
pub proof fn lemma_fresh_pair_signs(kp: KeyPair)
    requires
        is_fresh_pair(kp),
    ensures
        signing_key_ok(kp),
        private_key_ok(kp),
{
}

/// Data encrypted for a pair opens again for that pair: decrypting gives back the text
/// that was encrypted.
pub proof fn lemma_encryption_opens(enc: Json, pair: KeyPair, their_epub: Option<Seq<char>>, text: Seq<char>)
    requires
        encryption_of(enc, pair, their_epub, text),
    ensures
        opened_text(enc, pair, their_epub) == Some(text),
{
    vstd::utf8::encode_utf8_valid_utf8(text);
    vstd::utf8::encode_utf8_decode_utf8(text);
}

/// What one party with a fresh pair encrypts for another (with the other's public key for key
/// agreement) the other opens with the first party's public key for key agreement.
pub proof fn lemma_encryption_for_other_opens(enc: Json, sender: KeyPair, receiver: KeyPair, text: Seq<char>)
    requires
        is_fresh_pair(sender),
        is_fresh_pair(receiver),
        encryption_of(enc, sender, Some(receiver.epub_key->Some_0@), text),
    ensures
        opened_text(enc, receiver, Some(sender.epub_key->Some_0@)) == Some(text),
{
    lemma_shared_secrets_agree(sender, receiver);
    lemma_encryption_opens(enc, sender, Some(receiver.epub_key->Some_0@), text);
}

} // verus!

verus! {

/// A message that a peer framed (with no ID or signatures of its own) is taken by the mesh:
/// its ID is the hash of its signed bytes, and the peer's signature verifies over them under
/// the peer's public key (that of its secret key, which is not the all-zero key).
pub proof fn lemma_framed_message_passes(msg: Json, sk: Seq<u8>, pk: Seq<u8>, f: Json)
    requires
        msg is Object,
        !crate::crypto::bls_zero_key(sk),
        spec_field(msg, crate::valid::soul_key()) is None,
        spec_field(msg, crate::dam::sigs_key()) is None,
        pk == crate::crypto::bls_public_of(sk),
        pk.len() == 48,
        crate::dam::framed(msg, sk, pk, f),
    ensures
        crate::dam::message_passes(f),
{
    let m = msg->Object_0;
    let fm = f->Object_0;
    let bytes = crate::dam::signed_bytes(m);
    assert(crate::dam::signed_bytes(fm) == bytes);
    assert(crate::dam::carried_sigs(msg).len() == 0);
    let v = spec_field(f, crate::dam::sigs_key())->Some_0->Array_0;
    assert(v@.len() == 1);
    let e = v@[0];
    assert(e == v@.last());
    let sig = crate::crypto::bls_signature(sk, bytes);
    crate::crypto::lemma_hex_roundtrip(sig);
    crate::crypto::lemma_hex_roundtrip(pk);
    assert(crate::dam::entry_texts(e) == Some((crate::crypto::hex_spec(sig), crate::crypto::hex_spec(pk))));
    assert(crate::dam::sig_entry_valid(e, crate::dam::signed_bytes(fm)));
    assert forall|j: int| 0 <= j < v@.len() implies #[trigger] crate::dam::sig_entry_valid(v@[j], crate::dam::signed_bytes(fm)) by {
        assert(j == 0);
    }
}

/// Each state the clock hands out is past the state it handed out before, whatever the
/// clock reads at either call (short of the largest state); and a state taken at a reading
/// after the epoch is past zero.
pub proof fn lemma_states_increase(clock: State, t1: u64, t2: u64)
    ensures
        spec_next(clock, t1).1 < u64::MAX ==> spec_next(clock, t1).1 < spec_next(spec_next(clock, t1).0, t2).1,
        t1 > 0 ==> spec_next(clock, t1).1 > 0,
{
    assert(t1 > 0 ==> state_of_millis(t1) > 0) by (nonlinear_arith) requires t1 >= 0;
}

/// A certificate never grants an operation on a path that contains the block for that
/// operation, whatever its policy says; and whatever it grants, it grants before its expiry,
/// under a policy for that operation.
pub proof fn lemma_blocked_paths_are_refused(cert: Certificate, path: Seq<char>, operation: Seq<char>, now: i64)
    ensures
        operation == seq!['w', 'r', 'i', 't', 'e'] && cert.write_block is Some
            && spec_contains(path, cert.write_block->Some_0@) ==> !spec_check_permission(cert, path, operation, now),
        operation == seq!['r', 'e', 'a', 'd'] && cert.read_block is Some
            && spec_contains(path, cert.read_block->Some_0@) ==> !spec_check_permission(cert, path, operation, now),
        spec_check_permission(cert, path, operation, now) ==> {
            &&& cert.expiry matches Some(e) ==> now <= e
            &&& operation == seq!['w', 'r', 'i', 't', 'e'] ==> cert.write_policy is Some
            &&& operation == seq!['r', 'e', 'a', 'd'] ==> cert.read_policy is Some
            &&& operation == seq!['w', 'r', 'i', 't', 'e'] || operation == seq!['r', 'e', 'a', 'd']
        },
{
}

/// In PBKDF2 mode (a name that does not start with "sha" in any case) the output is the key
/// that PBKDF2-HMAC-SHA-256 derives from the data and salt, in the rounds and the length
/// the options ask for (100000 rounds and 512 bits by default), written in lower-case hex
/// when the options ask for "hex" and in unpadded base64 otherwise. Two option sets that
/// differ only in that choice give the hex and the base64 text of one same key.
pub proof fn lemma_work_key_encoding(data: Seq<u8>, salt: Seq<u8>, opt: WorkOptions, other: WorkOptions)
    requires
        !(opt.name matches Some(n) && spec_starts_with(lowercase_spec(n@), seq!['s', 'h', 'a'])),
        other.name == opt.name,
        other.iterations == opt.iterations,
        other.length == opt.length,
        opt.encode matches Some(e) && e@ == seq!['h', 'e', 'x'],
        !(other.encode matches Some(e) && e@ == seq!['h', 'e', 'x']),
    ensures
        ({
            let rounds: u32 = match opt.iterations { Some(n) => n, None => 100_000u32 };
            let bits: int = match opt.length { Some(b) => b as int, None => 512 };
            let key = pbkdf2_sha256_spec(data, salt, rounds, (bits / 8) as nat);
            &&& work_output(data, salt, opt) == hex_spec(key)
            &&& work_output(data, salt, other) == crate::crypto::base64_spec(key)
        }),
{
}

/// In SHA mode (a name that starts with "sha" in any case) the output is the SHA-256 digest
/// of the data, written in lower-case hex when the options ask for "hex" and in unpadded
/// base64 otherwise, whatever the salt.
pub proof fn lemma_work_sha_digest(data: Seq<u8>, salt: Seq<u8>, opt: WorkOptions)
    requires
        opt.name matches Some(n) && spec_starts_with(lowercase_spec(n@), seq!['s', 'h', 'a']),
    ensures
        opt.encode matches Some(e) && e@ == seq!['h', 'e', 'x']
            ==> work_output(data, salt, opt) == hex_spec(crate::crypto::sha256_spec(data)),
        !(opt.encode matches Some(e) && e@ == seq!['h', 'e', 'x'])
            ==> work_output(data, salt, opt) == crate::crypto::base64_spec(crate::crypto::sha256_spec(data)),
{
}

/// A put of an object through a soul with an expiry of `ms` milliseconds, at clock reading
/// `now`, is refused exactly when the node already records, for some key of the object, a
/// state older than the state of the reading `now - ms`; a key written after `now - ms` never
/// makes it refuse.
pub proof fn lemma_expiry_refuses_only_old_keys(c: Chain, m: Map<Seq<char>, Json>, c0: GunCore, c1: GunCore,
    r: GunResult<PutOutcome>, now: i64, ms: u64)
    requires
        object_put_result_at(c, m, c0, c1, r, now),
        c.soul matches Some(s) && spec_split_expiry(s@).1 == Some(ms),
    ensures
        r is Err <==> ({
            let soul = object_soul(c.soul->Some_0@);
            &&& c0.graph@.contains_key(soul)
            &&& exists|k: Seq<char>| #[trigger] m.contains_key(k) && c0.graph@[soul].states@.contains_key(k)
                && c0.graph@[soul].states@[k] < (now - ms) * STATE_PER_MS
        }),
{
}

/// The AES key made from a secret is PBKDF2-HMAC-SHA-256 (100000 rounds, 32 bytes) over the
/// bytes that the secret's base64 text encodes; only a secret that is the base64 text of no
/// bytes is taken by its UTF-8 bytes.
pub proof fn lemma_aes_key_from_decoded_secret(d: Seq<u8>, secret: Seq<char>, salt: Seq<u8>)
    ensures
        aes_key_of(base64_spec(d), salt) == pbkdf2_sha256_spec(d, salt, 100_000u32, 32),
        (forall|e: Seq<u8>| #[trigger] base64_spec(e) != secret)
            ==> aes_key_of(secret, salt) == pbkdf2_sha256_spec(utf8(secret), salt, 100_000u32, 32),
{
    lemma_base64_decodes_encoding(d, secret);
}

/// A request for a key of a node whose value links to a node the graph holds is answered,
/// to the sender alone, with the linked node: the answer is `{"put": ...}` whose members are
/// those of the linked node's data (with the same texts) and whose `"#"` names the link's
/// target.
pub proof fn lemma_get_follows_links(g: Map<Seq<char>, Node>, get: Json, from: Seq<char>, r: Seq<Reaction>,
    soul: Seq<char>, key: Seq<char>, target: Seq<char>)
    requires
        get_answered(g, get, Some(from), r),
        str_member(get, soul_key()) == Some(soul),
        spec_field(get, crate::wire::dot_key()) matches Some(kv) && spec_str(kv) == Some(key),
        g.contains_key(soul),
        g[soul].data@.contains_key(key),
        g[soul].data@[key] matches Json::Object(link) && link@.contains_key(soul_key())
            && spec_str(link@[soul_key()]) == Some(target),
        g.contains_key(target),
    ensures
        r.len() == 1,
        r[0] matches Reaction::Reply(j) && (spec_field(j, put_key()) matches Some(Json::Object(o)) && {
            &&& o@.dom() == g[target].data@.dom().insert(soul_key())
            &&& forall|k: Seq<char>| #[trigger] g[target].data@.contains_key(k)
                ==> json_text(o@[k]) == json_text(g[target].data@[k])
            &&& !g[target].data@.contains_key(soul_key()) ==> spec_str(o@[soul_key()]) == Some(target)
        }),
{
}

} // verus!
