//! User accounts: creating a user in the graph, finding one by alias, and opening its
//! record with the password.
use vstd::prelude::*;
use crate::json::{Json, quoted, write_quoted, spec_field, spec_str};
use crate::strmap::{StrMap, str_eq};
use crate::text::{push_char, concat};
use crate::crypto::{base64_encode, base64_decode, base64_spec, base64_decode_spec, pbkdf2_sha256, pbkdf2_sha256_spec,
    random_bytes};
use crate::gun_core::GunCore;
use crate::graph::Graph;
use crate::chain::{Chain, NodeUpdate};
use crate::put::PutOutcome;
use super::keys::{aes_gcm_encrypt, aes_gcm_decrypt, aes_gcm_ciphertext, aes_gcm_plaintext, utf8_text};
use super::user::{hash_password, verify_password, generate_salt, spec_password_hash};
use super::sign::utf8;
use super::pair::pair;
use super::{KeyPair, UserAuth, SeaError};

verus! {

/// The AES key that locks a user's private keys: PBKDF2-HMAC-SHA-256 of the password and
/// the salt, 100000 rounds, 32 bytes.
pub open spec fn password_key(password: Seq<char>, salt: Seq<u8>) -> Seq<u8> {
    pbkdf2_sha256_spec(utf8(password), salt, 100_000u32, 32)
}

/// The JSON text `{"name":"value"}`.
pub open spec fn single_text(name: Seq<char>, value: Seq<char>) -> Seq<char> {
    seq!['{'] + quoted(name) + seq![':'] + quoted(value) + seq!['}']
}

fn single_string(name: &str, value: &str) -> (s: String)
    ensures
        s@ == single_text(name@, value@),
{
    let mut out = String::new();
    push_char(&mut out, '{');
    write_quoted(&mut out, name);
    push_char(&mut out, ':');
    write_quoted(&mut out, value);
    push_char(&mut out, '}');
    proof { assert(out@ =~= single_text(name@, value@)); }
    out
}

/// The text under a key of an object, when it is a string.
pub open spec fn str_field(j: Json, key: Seq<char>) -> Option<Seq<char>> {
    match spec_field(j, key) {
        Some(v) => spec_str(v),
        None => None,
    }
}

/// A locked secret `{"ct": ..., "iv": ..., "s": ...}` (unpadded base64): the AES-256-GCM
/// ciphertext of `plaintext` under `key` and a 12-byte nonce, the nonce, and the salt. The
/// texts decode to the ciphertext and the nonce, and the ciphertext decrypts under the key
/// and the nonce to the plaintext.
pub open spec fn is_locked(j: Json, key: Seq<u8>, plaintext: Seq<char>, salt: Seq<u8>) -> bool {
    &&& j matches Json::Object(m) && m@.dom().len() == 3
    &&& exists|nonce: Seq<u8>| {
        let ct = aes_gcm_ciphertext(key, nonce, utf8(plaintext));
        &&& nonce.len() == 12
        &&& str_field(j, seq!['c', 't']) == Some(#[trigger] base64_spec(aes_gcm_ciphertext(key, nonce, utf8(plaintext))))
        &&& str_field(j, seq!['i', 'v']) == Some(base64_spec(nonce))
        &&& locked_parts(j) == Some((ct, nonce))
        &&& aes_gcm_plaintext(key, nonce, ct) == Some(utf8(plaintext))
    }
    &&& str_field(j, seq!['s']) == Some(base64_spec(salt))
}

/// Lock a secret text under a key with a fresh random nonce.
fn lock(key: &Vec<u8>, plaintext: &str, salt: &Vec<u8>) -> (r: Result<Json, SeaError>)
    requires
        key@.len() == 32,
    ensures
        r matches Ok(j) ==> is_locked(j, key@, plaintext@, salt@),
        r matches Err(e) ==> e is Crypto,
        utf8(plaintext@).len() <= super::keys::aes_gcm_max_plaintext() ==> r is Ok,
{
    let nonce = random_bytes(12);
    let ct = match aes_gcm_encrypt(key.as_slice(), nonce.as_slice(), plaintext.as_bytes()) {
        Ok(c) => c,
        Err(e) => {
            return Err(SeaError::Crypto(concat("Encryption failed: ", e.as_str())));
        },
    };
    proof {
        reveal_strlit("ct");
        reveal_strlit("iv");
        reveal_strlit("s");
        assert("ct"@ =~= seq!['c', 't']);
        assert("iv"@ =~= seq!['i', 'v']);
        assert("s"@ =~= seq!['s']);
        assert(seq!['c', 't'][0] != seq!['i', 'v'][0]);
        assert(seq!['c', 't'][0] != seq!['s'][0]);
        assert(seq!['s'][0] != seq!['i', 'v'][0]);
    }
    let mut m: StrMap<Json> = StrMap::new();
    m.insert("ct".to_owned(), Json::String(base64_encode(ct.as_slice())));
    m.insert("iv".to_owned(), Json::String(base64_encode(nonce.as_slice())));
    m.insert("s".to_owned(), Json::String(base64_encode(salt.as_slice())));
    proof { assert(m@.dom() =~= set![seq!['c', 't'], seq!['i', 'v'], seq!['s']]); }
    let j = Json::Object(m);
    proof {
        assert(str_field(j, seq!['c', 't']) == Some(base64_spec(aes_gcm_ciphertext(key@, nonce@, utf8(plaintext@)))));
    }
    Ok(j)
}

/// The keys of a user record.
pub open spec fn record_keys() -> Set<Seq<char>> {
    set![seq!['a', 'l', 'i', 'a', 's'], seq!['e', 'p', 'r', 'i', 'v'], seq!['e', 'p', 'u', 'b'],
        seq!['h', 'a', 's', 'h'], seq!['p', 'r', 'i', 'v'], seq!['p', 'u', 'b'], seq!['s', 'a', 'l', 't']]
}

/// A user record, as stored: the alias (empty for none), the public keys, the password's
/// hash and salt, and the private keys locked with the password's key.
pub open spec fn is_user_record(r: Json, kp: KeyPair, alias: Option<String>, salt: Seq<u8>, password: Seq<char>) -> bool {
    let key = password_key(password, salt);
    &&& r matches Json::Object(m) && m@.dom() == record_keys()
    &&& str_field(r, seq!['a', 'l', 'i', 'a', 's']) == Some(match alias { Some(x) => x@, None => Seq::<char>::empty() })
    &&& str_field(r, seq!['p', 'u', 'b']) == Some(kp.pub_key@)
    &&& (match kp.epub_key {
        Some(k) => str_field(r, seq!['e', 'p', 'u', 'b']) == Some(k@),
        None => spec_field(r, seq!['e', 'p', 'u', 'b']) == Some(Json::Null),
    })
    &&& str_field(r, seq!['h', 'a', 's', 'h']) == Some(spec_password_hash(utf8(password), salt))
    &&& str_field(r, seq!['s', 'a', 'l', 't']) == Some(base64_spec(salt))
    &&& record_salt(r) == Some(salt)
    &&& spec_field(r, seq!['p', 'r', 'i', 'v']) is Some
    &&& is_locked(spec_field(r, seq!['p', 'r', 'i', 'v'])->Some_0, key, single_text(seq!['p', 'r', 'i', 'v'], kp.priv_key@), salt)
    &&& spec_field(r, seq!['e', 'p', 'r', 'i', 'v']) is Some
    &&& (match kp.epriv_key {
        Some(k) => is_locked(spec_field(r, seq!['e', 'p', 'r', 'i', 'v'])->Some_0, key,
            single_text(seq!['e', 'p', 'r', 'i', 'v'], k@), salt),
        None => spec_field(r, seq!['e', 'p', 'r', 'i', 'v'])->Some_0 is Object
            && spec_field(r, seq!['e', 'p', 'r', 'i', 'v'])->Some_0->Object_0@.dom().len() == 0,
    })
}

/// The private keys of a pair are short texts (at most 1000 characters).
pub open spec fn short_keys(kp: KeyPair) -> bool {
    &&& kp.priv_key@.len() <= 1000
    &&& kp.epriv_key matches Some(e) ==> e@.len() <= 1000
}

/// Build a user record. It is built whenever the private keys are short texts.
fn user_record(kp: &KeyPair, alias: &Option<String>, salt: &Vec<u8>, password: &str) -> (r: Result<Json, SeaError>)
    requires
        salt@.len() == 16,
    ensures
        r matches Ok(j) ==> is_user_record(j, *kp, *alias, salt@, password@),
        r matches Err(e) ==> e is Crypto,
        short_keys(*kp) ==> r is Ok,
{
    let hash = hash_password(password, salt.as_slice());
    let key = pbkdf2_sha256(password.as_bytes(), salt.as_slice(), 100_000, 32);
    let priv_text = single_string("priv", kp.priv_key.as_str());
    proof {
        reveal_strlit("priv");
        reveal_strlit("epriv");
        if short_keys(*kp) {
            lemma_single_text_short("priv"@, kp.priv_key@);
        }
    }
    let locked_priv = lock(&key, priv_text.as_str(), salt)?;
    let locked_epriv = match &kp.epriv_key {
        Some(e) => {
            let t = single_string("epriv", e.as_str());
            proof {
                if short_keys(*kp) {
                    lemma_single_text_short("epriv"@, e@);
                }
            }
            lock(&key, t.as_str(), salt)?
        },
        None => Json::Object(StrMap::new()),
    };
    proof {
        reveal_strlit("alias");
        reveal_strlit("epub");
        reveal_strlit("hash");
        reveal_strlit("pub");
        reveal_strlit("salt");
        assert("alias"@ =~= seq!['a', 'l', 'i', 'a', 's']);
        assert("epriv"@ =~= seq!['e', 'p', 'r', 'i', 'v']);
        assert("epub"@ =~= seq!['e', 'p', 'u', 'b']);
        assert("hash"@ =~= seq!['h', 'a', 's', 'h']);
        assert("priv"@ =~= seq!['p', 'r', 'i', 'v']);
        assert("pub"@ =~= seq!['p', 'u', 'b']);
        assert("salt"@ =~= seq!['s', 'a', 'l', 't']);
    }
    let mut m: StrMap<Json> = StrMap::new();
    let a = match alias {
        Some(x) => x.clone(),
        None => String::new(),
    };
    m.insert("alias".to_owned(), Json::String(a));
    m.insert("epriv".to_owned(), locked_epriv);
    let epub = match &kp.epub_key {
        Some(k) => Json::String(k.clone()),
        None => Json::Null,
    };
    m.insert("epub".to_owned(), epub);
    m.insert("hash".to_owned(), Json::String(hash));
    m.insert("priv".to_owned(), locked_priv);
    m.insert("pub".to_owned(), Json::String(kp.pub_key.clone()));
    m.insert("salt".to_owned(), Json::String(base64_encode(salt.as_slice())));
    proof {
        let names = seq![seq!['a', 'l', 'i', 'a', 's'], seq!['e', 'p', 'r', 'i', 'v'], seq!['e', 'p', 'u', 'b'],
            seq!['h', 'a', 's', 'h'], seq!['p', 'r', 'i', 'v'], seq!['p', 'u', 'b'], seq!['s', 'a', 'l', 't']];
        assert(seq!['a', 'l', 'i', 'a', 's'][0] != seq!['e', 'p', 'r', 'i', 'v'][0]);
        assert(seq!['e', 'p', 'r', 'i', 'v'][2] != seq!['e', 'p', 'u', 'b'][2]);
        assert(seq!['h', 'a', 's', 'h'][0] != seq!['p', 'r', 'i', 'v'][0]);
        assert(seq!['p', 'r', 'i', 'v'][1] != seq!['p', 'u', 'b'][1]);
        assert(seq!['s', 'a', 'l', 't'][0] != seq!['p', 'u', 'b'][0]);
        assert(m@.dom() =~= set![seq!['a', 'l', 'i', 'a', 's'], seq!['e', 'p', 'r', 'i', 'v'], seq!['e', 'p', 'u', 'b'],
            seq!['h', 'a', 's', 'h'], seq!['p', 'r', 'i', 'v'], seq!['p', 'u', 'b'], seq!['s', 'a', 'l', 't']]);
    }
    Ok(Json::Object(m))
}

} // verus!

verus! {

/// The alias node under `alias_soul` links to the user's node under `user_soul`, under the
/// user's soul as key.
pub open spec fn alias_links(g: Map<Seq<char>, crate::state::Node>, alias_soul: Seq<char>, user_soul: Seq<char>) -> bool {
    g.contains_key(alias_soul) && g[alias_soul].data@.contains_key(user_soul)
        && crate::valid::spec_soul_ref(g[alias_soul].data@[user_soul]) == Some(user_soul)
}

/// The graph's node under `s` holds every member of the record.
pub open spec fn record_under(g: Map<Seq<char>, crate::state::Node>, s: Seq<char>, rec: Json) -> bool {
    rec is Object && g.contains_key(s)
        && forall|k: Seq<char>| #[trigger] rec->Object_0@.contains_key(k) ==> g[s].data@.contains_key(k)
            && g[s].data@[k] == rec->Object_0@[k]
}


/// Create a user: a new key pair, a random salt, and a record with the alias, the public
/// keys, the password's hash and salt and the private keys locked with the password, put as
/// the node whose soul is `"~"` and the public key (below the chain). With an alias, the node
/// `"~"`, the public key, `"@"` and the alias links to the user's node under the user's soul.
/// Hands back the user and the nodes that changed. It always succeeds.
pub fn create_user(chain: &Chain, core: &mut GunCore, alias: Option<String>, password: &str)
    -> (r: Result<(UserAuth, Vec<NodeUpdate>), SeaError>)
    ensures
        r is Ok,
        match r {
            Ok((auth, _)) => auth.alias == alias && crate::sea::pair::is_fresh_pair(auth.pair)
                && exists|rec: Json, salt: Seq<u8>| #[trigger] is_user_record(rec, auth.pair, alias, salt, password@)
                && salt.len() == 16 && record_under(final(core).graph@, seq!['~'] + auth.pair.pub_key@, rec)
                && (alias matches Some(a) ==> alias_links(final(core).graph@, seq!['~'] + auth.pair.pub_key@ + seq!['@'] + a@,
                    seq!['~'] + auth.pair.pub_key@)),
            Err(e) => e is Crypto,
        },
{
    let kp = match pair() {
        Ok(k) => k,
        Err(e) => {
            return Err(e);
        },
    };
    let salt = generate_salt();
    let record = match user_record(&kp, &alias, &salt, password) {
        Ok(rec) => rec,
        Err(e) => {
            return Err(e);
        },
    };
    let ghost rec = record;
    proof { reveal_strlit("~"); reveal_strlit("@"); }
    let user_soul = concat("~", kp.pub_key.as_str());
    let user_chain = Chain::with_soul(core, user_soul.clone(), Some(chain.duplicate()));
    proof {
        let m = rec->Object_0@;
        assert(m.dom() == record_keys());
        assert(m.contains_key(seq!['p', 'u', 'b']) && m.contains_key(seq!['s', 'a', 'l', 't']));
        assert(crate::valid::spec_soul_ref(rec) is None) by {
            if m.dom().len() == 1 {
                assert(m.dom().contains(seq!['p', 'u', 'b']));
                assert(m.dom().remove(seq!['p', 'u', 'b']).len() == 0);
                assert(m.dom().remove(seq!['p', 'u', 'b']).contains(seq!['s', 'a', 'l', 't']));
            }
        }
        assert(user_soul@ =~= seq!['~'] + kp.pub_key@);
        assert(user_soul@[0] == '~');
        assert(!crate::text::spec_starts_with(user_soul@, seq!['#'])) by {
            if crate::text::spec_starts_with(user_soul@, seq!['#']) {
                assert(user_soul@.subrange(0, 1)[0] == seq!['#'][0]);
            }
        }
        assert(!crate::put::hash_refused(user_chain, rec));
        assert forall|i: int| 0 <= i < user_soul@.len() implies #[trigger] user_soul@[i] != '<' by {
            if i > 0 {
                assert(user_soul@[i] == kp.pub_key@[i - 1]);
                assert(crate::crypto::is_base64_char(kp.pub_key@[i - 1]) || kp.pub_key@[i - 1] == '.');
            }
        }
        lemma_no_expiry_marker(user_soul@, 0);
        assert(crate::put::spec_split_expiry(user_soul@).1 is None);
        assert(crate::put::object_soul(user_soul@) == user_soul@);
    }
    let out = match user_chain.put(core, record) {
        Ok(o) => o,
        Err(_) => {
            return Err(SeaError::Crypto("Failed to store user data".to_owned()));
        },
    };
    proof {
        let m = rec->Object_0@;
        assert(!m.contains_key(user_soul@)) by {
            if m.contains_key(user_soul@) {
                assert(user_soul@[0] == '~');
            }
        }
        crate::put::lemma_object_put_holds_members(user_chain, m, old(core).graph@, core.graph@, out);
    }
    let ghost g1 = core.graph@;
    let ghost stored = out.chain.soul->Some_0@;
    let mut updates = out.updates;
    match &alias {
        Some(a) => {
            let s1 = concat(user_soul.as_str(), "@");
            let alias_soul = concat(s1.as_str(), a.as_str());
            let link = crate::valid::soul_ref_json(user_soul.clone());
            let ghost lv = link;
            let st = crate::chain::write_key(core, alias_soul.as_str(), user_soul.as_str(), link);
            proof {
                assert(crate::chain::key_written(g1, core.graph@, alias_soul@, user_soul@, lv, st));
                assert(alias_soul@.len() > user_soul@.len());
                assert(alias_soul@ != stored);
                assert(core.graph@[alias_soul@].data@[user_soul@] == lv);
                reveal_strlit("@");
                assert(alias_soul@ =~= seq!['~'] + kp.pub_key@ + seq!['@'] + a@);
                assert(alias_links(core.graph@, seq!['~'] + kp.pub_key@ + seq!['@'] + a@, seq!['~'] + kp.pub_key@));
            }
            updates.push(NodeUpdate { soul: alias_soul, notify: true, persist: true });
        },
        None => {},
    }
    proof {
        assert(core.graph@.contains_key(stored) && core.graph@[stored] == g1[stored]);
        assert(stored == user_soul@);
        assert(record_under(core.graph@, seq!['~'] + kp.pub_key@, rec));
        assert(is_user_record(rec, kp, alias, salt@, password@));
    }
    Ok((UserAuth { pair: kp, alias }, updates))
}

} // verus!

verus! {

/// Some node of the graph names the alias under `"alias"`.
pub open spec fn names_alias(n: crate::state::Node, alias: Seq<char>) -> bool {
    n.data@.contains_key(seq!['a', 'l', 'i', 'a', 's']) && spec_str(n.data@[seq!['a', 'l', 'i', 'a', 's']]) == Some(alias)
}

/// The soul of a node that names the alias under `"alias"`, if any.
pub fn find_user_by_alias(graph: &Graph, alias: &str) -> (r: Option<String>)
    ensures
        match r {
            Some(s) => graph@.contains_key(s@) && names_alias(graph@[s@], alias@),
            None => forall|s: Seq<char>| #[trigger] graph@.contains_key(s) ==> !names_alias(graph@[s], alias@),
        },
{
    proof { reveal_strlit("alias"); assert("alias"@ =~= seq!['a', 'l', 'i', 'a', 's']); }
    let nodes = graph.all_nodes();
    proof {
        use_type_invariant(nodes);
        nodes.lemma_wf();
    }
    let n = nodes.len();
    let mut i: usize = 0;
    while i < n
        invariant
            n == nodes.entries().len(),
            i <= n,
            nodes@ == graph@,
            crate::strmap::distinct_keys(nodes.entries()),
            "alias"@ == seq!['a', 'l', 'i', 'a', 's'],
            forall|j: int| 0 <= j < i ==> !names_alias(#[trigger] nodes.entries()[j].1, alias@),
        decreases n - i,
    {
        let e = nodes.entry_at(i);
        let hit = match e.1.data.get("alias") {
            Some(v) => match v.as_str() {
                Some(a) => str_eq(a, alias),
                None => false,
            },
            None => false,
        };
        if hit {
            return Some(e.0.clone());
        }
        i = i + 1;
    }
    proof {
        assert forall|s: Seq<char>| #[trigger] graph@.contains_key(s) implies !names_alias(graph@[s], alias@) by {
            let j = choose|j: int| 0 <= j < nodes.entries().len() && #[trigger] nodes.entries()[j].0@ == s;
            crate::strmap::lemma_entries_view_at(nodes.entries(), j);
        }
    }
    None
}

/// The path under which an alias is looked up when no node names it: `"~@"` and the alias.
pub fn alias_path(alias: &str) -> (p: String)
    ensures
        p@ == seq!['~', '@'] + alias@,
{
    proof { reveal_strlit("~@"); assert("~@"@ =~= seq!['~', '@']); }
    concat("~@", alias)
}

/// The user soul that alias data names: its `"#"` member when a string, or the data itself
/// when a string.
pub fn soul_from_alias_data(data: &Json) -> (r: Option<String>)
    ensures
        match r {
            Some(s) => str_field(*data, seq!['#']) == Some(s@)
                || (str_field(*data, seq!['#']) is None && spec_str(*data) == Some(s@)),
            None => str_field(*data, seq!['#']) is None && spec_str(*data) is None,
        },
{
    proof { reveal_strlit("#"); assert("#"@ =~= seq!['#']); }
    match data.get("#") {
        Some(v) => match v.as_str() {
            Some(s) => {
                return Some(s.to_owned());
            },
            None => {},
        },
        None => {},
    }
    match data.as_str() {
        Some(s) => Some(s.to_owned()),
        None => None,
    }
}

/// A user record opened with the password: the public keys, and the decrypted texts of the
/// locked private keys (JSON texts `{"priv": ...}` and `{"epriv": ...}`).
pub struct OpenedUser {
    pub pub_key: String,
    pub priv_text: String,
    pub epub_key: Option<String>,
    pub epriv_text: Option<String>,
}

/// The bytes of the salt of a user record, when it has one in base64.
pub open spec fn record_salt(rec: Json) -> Option<Seq<u8>> {
    match str_field(rec, seq!['s', 'a', 'l', 't']) {
        Some(s) => base64_decode_spec(utf8(s)),
        None => None,
    }
}

/// The ciphertext and nonce of a locked secret, decoded; `Err(missing)` when the texts are
/// missing and `Err(invalid)` when they do not decode (the nonce checked first).
pub open spec fn locked_parts(j: Json) -> Option<(Seq<u8>, Seq<u8>)> {
    match (str_field(j, seq!['c', 't']), str_field(j, seq!['i', 'v'])) {
        (Some(ct), Some(iv)) => match (base64_decode_spec(utf8(iv)), base64_decode_spec(utf8(ct))) {
            (Some(ivb), Some(ctb)) => Some((ctb, ivb)),
            _ => None,
        },
        _ => None,
    }
}

fn unlock(locked: &Json, key: &Vec<u8>) -> (r: Result<String, SeaError>)
    requires
        key@.len() == 32,
        !nonce_bad(*locked),
    ensures
        match r {
            Ok(t) => unlocked_text(*locked, key@) == Some(t@),
            Err(e) => e is Decryption && unlocked_text(*locked, key@) is None,
        },
{
    proof {
        reveal_strlit("ct");
        reveal_strlit("iv");
        assert("ct"@ =~= seq!['c', 't']);
        assert("iv"@ =~= seq!['i', 'v']);
    }
    let ct = match locked.get("ct") {
        Some(v) => match v.as_str() {
            Some(s) => s,
            None => {
                return Err(SeaError::Decryption("Missing ciphertext".to_owned()));
            },
        },
        None => {
            return Err(SeaError::Decryption("Missing ciphertext".to_owned()));
        },
    };
    let iv = match locked.get("iv") {
        Some(v) => match v.as_str() {
            Some(s) => s,
            None => {
                return Err(SeaError::Decryption("Missing IV".to_owned()));
            },
        },
        None => {
            return Err(SeaError::Decryption("Missing IV".to_owned()));
        },
    };
    let ivb = match base64_decode(iv.as_bytes()) {
        Some(b) => b,
        None => {
            return Err(SeaError::Decryption("Invalid IV encoding".to_owned()));
        },
    };
    let ctb = match base64_decode(ct.as_bytes()) {
        Some(b) => b,
        None => {
            return Err(SeaError::Decryption("Invalid ciphertext encoding".to_owned()));
        },
    };
    let plain = match aes_gcm_decrypt(key.as_slice(), ivb.as_slice(), ctb.as_slice()) {
        Ok(p) => p,
        Err(e) => {
            return Err(SeaError::Decryption(concat("Decryption failed: ", e.as_str())));
        },
    };
    match utf8_text(plain) {
        Some(t) => Ok(t),
        None => Err(SeaError::Decryption("Invalid UTF-8".to_owned())),
    }
}

/// The password opens the record: the record has a hash and a salt in base64, and the
/// password hashes to the hash with the salt.
pub open spec fn password_opens(rec: Json, password: Seq<char>) -> bool {
    str_field(rec, seq!['h', 'a', 's', 'h']) is Some && record_salt(rec) is Some
        && spec_password_hash(utf8(password), record_salt(rec)->Some_0) == str_field(rec, seq!['h', 'a', 's', 'h'])->Some_0
}

/// The locked `epriv` member of a record, when it is a non-empty object.
pub open spec fn locked_epriv(rec: Json) -> Option<Json> {
    match spec_field(rec, seq!['e', 'p', 'r', 'i', 'v']) {
        Some(Json::Object(m)) => if m@.dom().len() > 0 { spec_field(rec, seq!['e', 'p', 'r', 'i', 'v']) } else { None },
        _ => None,
    }
}

/// The text a locked secret opens to under a key: it authenticates and is UTF-8.
pub open spec fn unlocked_text(locked: Json, key: Seq<u8>) -> Option<Seq<char>> {
    match locked_parts(locked) {
        Some((ct, iv)) => match aes_gcm_plaintext(key, iv, ct) {
            Some(p) => if vstd::utf8::valid_utf8(p) { Some(vstd::utf8::decode_utf8(p)) } else { None },
            None => None,
        },
        None => None,
    }
}

/// The nonce of a locked secret decodes to other than 12 bytes.
pub open spec fn nonce_bad(locked: Json) -> bool {
    match locked_parts(locked) {
        Some((ct, iv)) => iv.len() != 12,
        None => false,
    }
}

/// Opening the record would hand the cipher a nonce that is not 12 bytes, where the cipher
/// does not return.
pub open spec fn open_stalls(rec: Json, password: Seq<char>) -> bool {
    &&& password_opens(rec, password)
    &&& str_field(rec, seq!['p', 'u', 'b']) is Some
    &&& spec_field(rec, seq!['p', 'r', 'i', 'v']) is Some
    &&& {
        let pv = spec_field(rec, seq!['p', 'r', 'i', 'v'])->Some_0;
        let key = password_key(password, record_salt(rec)->Some_0);
        ||| nonce_bad(pv)
        ||| (unlocked_text(pv, key) is Some && match locked_epriv(rec) {
            Some(ev) => nonce_bad(ev),
            None => false,
        })
    }
}

/// What opening a record with the password gives: on success the password opens the
/// record, the public keys are the record's, and the texts are what the locked private keys
/// decrypt to under the password's key; otherwise a crypto error where the password does not
/// open the record, and a crypto or decryption error where it does.
pub open spec fn open_result(rec: Json, password: Seq<char>, r: Result<OpenedUser, SeaError>) -> bool {
    &&& (r is Ok <==> record_opens(rec, password))
    &&& match r {
        Ok(o) => {
            let key = password_key(password, record_salt(rec)->Some_0);
            &&& password_opens(rec, password)
            &&& str_field(rec, seq!['p', 'u', 'b']) == Some(o.pub_key@)
            &&& unlocked_text(spec_field(rec, seq!['p', 'r', 'i', 'v'])->Some_0, key) == Some(o.priv_text@)
            &&& (match o.epub_key {
                Some(e) => str_field(rec, seq!['e', 'p', 'u', 'b']) == Some(e@),
                None => str_field(rec, seq!['e', 'p', 'u', 'b']) is None,
            })
            &&& (match (locked_epriv(rec), o.epriv_text) {
                (Some(ev), Some(t)) => unlocked_text(ev, key) == Some(t@),
                (None, None) => true,
                _ => false,
            })
        },
        Err(e) => (e is Crypto || e is Decryption)
            && (!password_opens(rec, password) ==> e is Crypto),
    }
}

/// The password opens the record, which has a public key, and its locked private keys
/// decrypt under the password's key.
pub open spec fn record_opens(rec: Json, password: Seq<char>) -> bool {
    let key = password_key(password, record_salt(rec)->Some_0);
    &&& password_opens(rec, password)
    &&& str_field(rec, seq!['p', 'u', 'b']) is Some
    &&& spec_field(rec, seq!['p', 'r', 'i', 'v']) is Some
    &&& unlocked_text(spec_field(rec, seq!['p', 'r', 'i', 'v'])->Some_0, key) is Some
    &&& match locked_epriv(rec) {
        Some(ev) => unlocked_text(ev, key) is Some,
        None => true,
    }
}

/// Open a user record with the password (see `OpenedUser`).
///
/// A missing hash, salt, public key or locked private key, an undecodable salt and a wrong
/// password are crypto errors; a locked key that is missing parts, does not decode, does
/// not authenticate or is not UTF-8 is a decryption error.
pub fn open_user_record(rec: &Json, password: &str) -> (r: Result<OpenedUser, SeaError>)
    requires
        !open_stalls(*rec, password@),
    ensures
        open_result(*rec, password@, r),
{
    proof {
        reveal_strlit("hash");
        reveal_strlit("salt");
        reveal_strlit("pub");
        reveal_strlit("priv");
        reveal_strlit("epub");
        reveal_strlit("epriv");
        assert("hash"@ =~= seq!['h', 'a', 's', 'h']);
        assert("salt"@ =~= seq!['s', 'a', 'l', 't']);
        assert("pub"@ =~= seq!['p', 'u', 'b']);
        assert("priv"@ =~= seq!['p', 'r', 'i', 'v']);
        assert("epub"@ =~= seq!['e', 'p', 'u', 'b']);
        assert("epriv"@ =~= seq!['e', 'p', 'r', 'i', 'v']);
    }
    let hash = match rec.get("hash") {
        Some(v) => match v.as_str() {
            Some(s) => s,
            None => {
                return Err(SeaError::Crypto("Missing password hash in user data".to_owned()));
            },
        },
        None => {
            return Err(SeaError::Crypto("Missing password hash in user data".to_owned()));
        },
    };
    let salt_text = match rec.get("salt") {
        Some(v) => match v.as_str() {
            Some(s) => s,
            None => {
                return Err(SeaError::Crypto("Missing salt in user data".to_owned()));
            },
        },
        None => {
            return Err(SeaError::Crypto("Missing salt in user data".to_owned()));
        },
    };
    let salt = match base64_decode(salt_text.as_bytes()) {
        Some(b) => b,
        None => {
            return Err(SeaError::Crypto("Invalid salt encoding".to_owned()));
        },
    };
    if !verify_password(password, salt.as_slice(), hash) {
        return Err(SeaError::Crypto("Invalid password".to_owned()));
    }
    let pub_key = match rec.get("pub") {
        Some(v) => match v.as_str() {
            Some(s) => s.to_owned(),
            None => {
                return Err(SeaError::Crypto("Missing public key in user data".to_owned()));
            },
        },
        None => {
            return Err(SeaError::Crypto("Missing public key in user data".to_owned()));
        },
    };
    let locked_priv = match rec.get("priv") {
        Some(v) => v,
        None => {
            return Err(SeaError::Crypto("Missing encrypted private key".to_owned()));
        },
    };
    let key = pbkdf2_sha256(password.as_bytes(), salt.as_slice(), 100_000, 32);
    let priv_text = unlock(locked_priv, &key)?;
    let epub_key = match rec.get("epub") {
        Some(v) => match v.as_str() {
            Some(s) => Some(s.to_owned()),
            None => None,
        },
        None => None,
    };
    let epriv_text = match rec.get("epriv") {
        Some(Json::Object(m)) => {
            if m.len() > 0 {
                proof { use_type_invariant(m); m.lemma_wf(); }
                Some(unlock(rec.get("epriv").unwrap(), &key)?)
            } else {
                proof { use_type_invariant(m); m.lemma_wf(); }
                None
            }
        },
        _ => None,
    };
    Ok(OpenedUser { pub_key, priv_text, epub_key, epriv_text })
}

} // verus!

verus! {

/// Whether a locked secret's nonce decodes to other than 12 bytes.
fn nonce_is_bad(locked: &Json) -> (b: bool)
    ensures
        b == nonce_bad(*locked),
{
    proof {
        reveal_strlit("ct");
        reveal_strlit("iv");
        assert("ct"@ =~= seq!['c', 't']);
        assert("iv"@ =~= seq!['i', 'v']);
    }
    match (locked.get("ct"), locked.get("iv")) {
        (Some(c), Some(i)) => match (c.as_str(), i.as_str()) {
            (Some(ct), Some(iv)) => match (base64_decode(iv.as_bytes()), base64_decode(ct.as_bytes())) {
                (Some(ivb), Some(_)) => ivb.len() != 12,
                _ => false,
            },
            _ => false,
        },
        _ => false,
    }
}

/// `open_user_record`, or `None` where the cipher would be handed a nonce that is not 12 bytes.
pub fn try_open_user_record(rec: &Json, password: &str) -> (r: Option<Result<OpenedUser, SeaError>>)
    ensures
        r is None <==> open_stalls(*rec, password@),
        r matches Some(x) ==> open_result(*rec, password@, x),
{
    proof {
        reveal_strlit("hash");
        reveal_strlit("salt");
        reveal_strlit("pub");
        reveal_strlit("priv");
        reveal_strlit("epriv");
        assert("hash"@ =~= seq!['h', 'a', 's', 'h']);
        assert("salt"@ =~= seq!['s', 'a', 'l', 't']);
        assert("pub"@ =~= seq!['p', 'u', 'b']);
        assert("priv"@ =~= seq!['p', 'r', 'i', 'v']);
        assert("epriv"@ =~= seq!['e', 'p', 'r', 'i', 'v']);
    }
    let hash = match rec.get("hash") {
        Some(v) => v.as_str(),
        None => None,
    };
    let salt = match rec.get("salt") {
        Some(v) => match v.as_str() {
            Some(s) => base64_decode(s.as_bytes()),
            None => None,
        },
        None => None,
    };
    let opens = match (hash, &salt) {
        (Some(h), Some(sb)) => verify_password(password, sb.as_slice(), h),
        _ => false,
    };
    let has_pub = match rec.get("pub") {
        Some(v) => v.as_str().is_some(),
        None => false,
    };
    if opens && has_pub {
        match rec.get("priv") {
            Some(pv) => {
                if nonce_is_bad(pv) {
                    return None;
                }
                let sb = salt.unwrap();
                let key = pbkdf2_sha256(password.as_bytes(), sb.as_slice(), 100_000, 32);
                match unlock(pv, &key) {
                    Ok(_) => {
                        match rec.get("epriv") {
                            Some(Json::Object(m)) => {
                                proof { use_type_invariant(m); m.lemma_wf(); }
                                if m.len() > 0 && nonce_is_bad(rec.get("epriv").unwrap()) {
                                    return None;
                                }
                            },
                            _ => {},
                        }
                    },
                    Err(_) => {},
                }
            },
            None => {},
        }
    }
    Some(open_user_record(rec, password))
}

/// The user that an opened record and its decrypted private keys make: the private key is
/// the `"priv"` text of the first (a crypto error without it), the key for key agreement
/// the `"epriv"` text of the second, if any.
pub fn finish_user(opened: OpenedUser, priv_json: &Json, epriv_json: Option<&Json>, alias: &str) -> (r: Result<UserAuth, SeaError>)
    ensures
        match r {
            Ok(u) => str_field(*priv_json, seq!['p', 'r', 'i', 'v']) == Some(u.pair.priv_key@)
                && u.pair.pub_key == opened.pub_key && u.pair.epub_key == opened.epub_key
                && (match epriv_json {
                    Some(e) => match str_field(*e, seq!['e', 'p', 'r', 'i', 'v']) {
                        Some(t) => u.pair.epriv_key is Some && u.pair.epriv_key->Some_0@ == t,
                        None => u.pair.epriv_key is None,
                    },
                    None => u.pair.epriv_key is None,
                })
                && u.alias is Some && u.alias->Some_0@ == alias@,
            Err(e) => e is Crypto && str_field(*priv_json, seq!['p', 'r', 'i', 'v']) is None,
        },
{
    proof {
        reveal_strlit("priv");
        reveal_strlit("epriv");
        assert("priv"@ =~= seq!['p', 'r', 'i', 'v']);
        assert("epriv"@ =~= seq!['e', 'p', 'r', 'i', 'v']);
    }
    let priv_key = match priv_json.get("priv") {
        Some(v) => match v.as_str() {
            Some(s) => s.to_owned(),
            None => {
                return Err(SeaError::Crypto("Failed to decrypt private key".to_owned()));
            },
        },
        None => {
            return Err(SeaError::Crypto("Failed to decrypt private key".to_owned()));
        },
    };
    let epriv_key = match epriv_json {
        Some(e) => match e.get("epriv") {
            Some(v) => match v.as_str() {
                Some(s) => Some(s.to_owned()),
                None => None,
            },
            None => None,
        },
        None => None,
    };
    let pair = KeyPair { pub_key: opened.pub_key, priv_key, epub_key: opened.epub_key, epriv_key };
    Ok(UserAuth { pair, alias: Some(alias.to_owned()) })
}

} // verus!

verus! {

/// How long a stored session lasts after it was stored, in milliseconds (12 hours).
pub const SESSION_MS: i64 = 43_200_000;

/// A stored session has expired at `now`: its `"exp"` (milliseconds) is more than 12 hours ago.
pub open spec fn session_expired(data: Json, now: i64) -> bool {
    match spec_field(data, seq!['e', 'x', 'p']) {
        Some(Json::Number(t)) => match super::issue::spec_millis(t@) {
            Some(e) => now > e + SESSION_MS,
            None => false,
        },
        _ => false,
    }
}

/// The user of a stored session, read at `now` (milliseconds): none once it has expired;
/// otherwise its keys and alias. A missing `"pub"` or `"priv"` is a crypto error.
pub fn recall_from_json(data: &Json, now: i64) -> (r: Result<Option<UserAuth>, SeaError>)
    ensures
        session_expired(*data, now) ==> r matches Ok(None),
        !session_expired(*data, now) ==> match (str_field(*data, seq!['p', 'u', 'b']), str_field(*data, seq!['p', 'r', 'i', 'v'])) {
            (Some(p), Some(k)) => r matches Ok(Some(u)) && u.pair.pub_key@ == p && u.pair.priv_key@ == k
                && (match u.pair.epub_key { Some(e) => str_field(*data, seq!['e', 'p', 'u', 'b']) == Some(e@), None => str_field(*data, seq!['e', 'p', 'u', 'b']) is None })
                && (match u.pair.epriv_key { Some(e) => str_field(*data, seq!['e', 'p', 'r', 'i', 'v']) == Some(e@), None => str_field(*data, seq!['e', 'p', 'r', 'i', 'v']) is None })
                && (match u.alias { Some(a) => str_field(*data, seq!['a', 'l', 'i', 'a', 's']) == Some(a@), None => str_field(*data, seq!['a', 'l', 'i', 'a', 's']) is None }),
            _ => r matches Err(e) && e is Crypto,
        },
{
    proof {
        reveal_strlit("exp");
        reveal_strlit("pub");
        reveal_strlit("priv");
        reveal_strlit("epub");
        reveal_strlit("epriv");
        reveal_strlit("alias");
        assert("exp"@ =~= seq!['e', 'x', 'p']);
        assert("pub"@ =~= seq!['p', 'u', 'b']);
        assert("priv"@ =~= seq!['p', 'r', 'i', 'v']);
        assert("epub"@ =~= seq!['e', 'p', 'u', 'b']);
        assert("epriv"@ =~= seq!['e', 'p', 'r', 'i', 'v']);
        assert("alias"@ =~= seq!['a', 'l', 'i', 'a', 's']);
    }
    match data.get("exp") {
        Some(Json::Number(t)) => match super::issue::parse_millis(t.as_str()) {
            Some(e) => {
                if e <= i64::MAX - SESSION_MS && now > e + SESSION_MS {
                    return Ok(None);
                }
            },
            None => {},
        },
        _ => {},
    }
    let text_of = |j: Option<&Json>| -> (r: Option<String>)
        ensures
            match r {
                Some(s) => j matches Some(v) && spec_str(*v) == Some(s@),
                None => !(j matches Some(v) && spec_str(*v) is Some),
            },
    {
        match j {
            Some(v) => match v.as_str() {
                Some(s) => Some(s.to_owned()),
                None => None,
            },
            None => None,
        }
    };
    let pub_key = match text_of(data.get("pub")) {
        Some(s) => s,
        None => {
            return Err(SeaError::Crypto("Missing pub key in stored data".to_owned()));
        },
    };
    let priv_key = match text_of(data.get("priv")) {
        Some(s) => s,
        None => {
            return Err(SeaError::Crypto("Missing priv key in stored data".to_owned()));
        },
    };
    let epub_key = text_of(data.get("epub"));
    let epriv_key = text_of(data.get("epriv"));
    let alias = text_of(data.get("alias"));
    Ok(Some(UserAuth { pair: KeyPair { pub_key, priv_key, epub_key, epriv_key }, alias }))
}

} // verus!

verus! {

/// A locked secret opens under the key it was locked with, to the text that was locked, and
/// its nonce has the 12 bytes the cipher takes.
pub proof fn lemma_locked_secret_opens(j: Json, key: Seq<u8>, plaintext: Seq<char>, salt: Seq<u8>)
    requires
        is_locked(j, key, plaintext, salt),
    ensures
        unlocked_text(j, key) == Some(plaintext),
        !nonce_bad(j),
{
    let nonce = choose|nonce: Seq<u8>| {
        let ct = aes_gcm_ciphertext(key, nonce, utf8(plaintext));
        &&& nonce.len() == 12
        &&& str_field(j, seq!['c', 't']) == Some(#[trigger] base64_spec(aes_gcm_ciphertext(key, nonce, utf8(plaintext))))
        &&& str_field(j, seq!['i', 'v']) == Some(base64_spec(nonce))
        &&& locked_parts(j) == Some((ct, nonce))
        &&& aes_gcm_plaintext(key, nonce, ct) == Some(utf8(plaintext))
    };
    vstd::utf8::encode_utf8_valid_utf8(plaintext);
    vstd::utf8::encode_utf8_decode_utf8(plaintext);
}

} // verus!

verus! {

/// Escaping a text for a JSON string at most multiplies its length by six.
proof fn lemma_escape_len(s: Seq<char>)
    ensures
        crate::json::escape_text(s).len() <= 6 * s.len(),
    decreases s.len(),
{
    if s.len() > 0 {
        lemma_escape_len(s.drop_last());
    }
}

/// UTF-8 takes at most four bytes per character.
proof fn lemma_utf8_len(s: Seq<char>)
    ensures
        utf8(s).len() <= 4 * s.len(),
    decreases s.len(),
{
    if s.len() > 0 {
        lemma_utf8_len(s.drop_first());
    }
}

/// The JSON text `{"name":"value"}` of a short name and value is short enough for the cipher.
proof fn lemma_single_text_short(name: Seq<char>, value: Seq<char>)
    requires
        name.len() <= 8,
        value.len() <= 1000,
    ensures
        utf8(single_text(name, value)).len() <= super::keys::aes_gcm_max_plaintext(),
{
    lemma_escape_len(name);
    lemma_escape_len(value);
    lemma_utf8_len(single_text(name, value));
}

/// A text without `<` has no expiry marker `"<?"` from any position on.
proof fn lemma_no_expiry_marker(s: Seq<char>, from: int)
    requires
        forall|i: int| 0 <= i < s.len() ==> #[trigger] s[i] != '<',
    ensures
        crate::parse::find_from(s, crate::put::expiry_marker(), from) is None,
    decreases s.len() - from,
{
    let p = crate::put::expiry_marker();
    if from < 0 || from + p.len() > s.len() {
    } else {
        assert(s.subrange(from, from + p.len())[0] == s[from]);
        if from < s.len() {
            lemma_no_expiry_marker(s, from + 1);
        }
    }
}

} // verus!
