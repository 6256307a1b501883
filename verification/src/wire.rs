//! The messages a Gun instance sends to its peers when a node changes locally or when it
//! asks for a node it does not hold.
use vstd::prelude::*;
use crate::json::{Json, spec_field, spec_str};
use crate::strmap::{StrMap, entries_view, distinct_keys, lemma_entries_view_subrange_step};
use crate::valid::soul_key;
use crate::dam::{put_key, get_key};

verus! {

/// The `"."` key, under which a request names the key it asks for.
pub open spec fn dot_key() -> Seq<char> { seq!['.'] }

/// The `"_"` key of a node's metadata, and the `">"` key of its states.
pub open spec fn meta_key() -> Seq<char> { seq!['_'] }
pub open spec fn states_key() -> Seq<char> { seq!['>'] }

/// A request for the node with a soul, and for one of its keys when given:
/// `{"get": {"#": soul, ".": key}}`.
pub open spec fn is_get_request(m: Json, soul: Seq<char>, key: Option<Seq<char>>) -> bool {
    &&& m matches Json::Object(o) && o@.dom() == set![get_key()]
    &&& spec_field(m, get_key()) matches Some(g) && {
        &&& g matches Json::Object(go) && go@.dom() == (match key {
            Some(_) => set![soul_key(), dot_key()],
            None => set![soul_key()],
        })
        &&& spec_field(g, soul_key()) matches Some(s) && spec_str(s) == Some(soul)
        &&& (key matches Some(k) ==> spec_field(g, dot_key()) matches Some(kv) && spec_str(kv) == Some(k))
    }
}

/// The request a chain sends for the node under `soul` (and its key, when it has one).
pub fn get_request_message(soul: &str, key: Option<&str>) -> (m: Json)
    ensures
        is_get_request(m, soul@, match key { Some(k) => Some(k@), None => None }),
{
    proof {
        reveal_strlit("#");
        reveal_strlit(".");
        reveal_strlit("get");
        assert("#"@ =~= soul_key());
        assert("."@ =~= dot_key());
        assert("get"@ =~= get_key());
    }
    let mut g: StrMap<Json> = StrMap::new();
    let s = soul.to_owned();
    let ghost sv = s@;
    g.insert("#".to_owned(), Json::String(s));
    match key {
        Some(k) => {
            let kk = k.to_owned();
            let ghost kv = kk@;
            g.insert(".".to_owned(), Json::String(kk));
            proof {
                assert(soul_key() != dot_key()) by { assert(soul_key()[0] != dot_key()[0]); }
                assert(g@.dom() =~= set![soul_key(), dot_key()]);
                assert(g@[dot_key()] == Json::String(kk));
            }
        },
        None => {
            proof { assert(g@.dom() =~= set![soul_key()]); }
        },
    }
    let ghost gj = Json::Object(g);
    proof { assert(spec_field(gj, soul_key()) matches Some(x) && spec_str(x) == Some(soul@)); }
    let mut m: StrMap<Json> = StrMap::new();
    m.insert("get".to_owned(), Json::Object(g));
    proof { assert(m@.dom() =~= set![get_key()]); }
    let r = Json::Object(m);
    proof { assert(spec_field(r, get_key()) == Some(gj)); }
    r
}

/// The node a change is sent as: its data, with `"_"` holding the soul under `"#"` and the
/// given states under `">"` (a data key `"_"` takes the place of that metadata).
pub open spec fn is_synced_node(n: Json, soul: Seq<char>, data: Map<Seq<char>, Json>, states: Json) -> bool {
    &&& n matches Json::Object(o) && o@.dom() == data.dom().insert(meta_key())
    &&& forall|k: Seq<char>| #[trigger] data.contains_key(k) ==> spec_field(n, k) == Some(data[k])
    &&& !data.contains_key(meta_key()) ==> match spec_field(n, meta_key()) {
        Some(meta) => is_sync_meta(meta, soul, states),
        None => false,
    }
}

/// The metadata of a sent node: `{"#": soul, ">": states}`.
pub open spec fn is_sync_meta(meta: Json, soul: Seq<char>, states: Json) -> bool {
    &&& meta matches Json::Object(mo) && mo@.dom() == set![soul_key(), states_key()]
    &&& spec_field(meta, soul_key()) matches Some(s) && spec_str(s) == Some(soul)
    &&& spec_field(meta, states_key()) == Some(states)
}

/// The message `{"put": {soul: node}}` that sends one node.
pub open spec fn is_put_of(m: Json, soul: Seq<char>, node: Json) -> bool {
    &&& m matches Json::Object(o) && o@.dom() == set![put_key()]
    &&& match spec_field(m, put_key()) {
        Some(p) => p is Object && p->Object_0@.dom() == set![soul] && spec_field(p, soul) == Some(node),
        None => false,
    }
}

/// The message that sends a changed node to peers: `{"put": {soul: node}}`, the node as
/// `is_synced_node` describes it.
pub fn sync_put_message(soul: &str, data: StrMap<Json>, states: Json) -> (m: Json)
    ensures
        exists|n: Json| #[trigger] is_put_of(m, soul@, n) && is_synced_node(n, soul@, data@, states),
{
    proof {
        reveal_strlit("#");
        reveal_strlit(">");
        reveal_strlit("_");
        reveal_strlit("put");
        assert("#"@ =~= soul_key());
        assert(">"@ =~= states_key());
        assert("_"@ =~= meta_key());
        assert("put"@ =~= put_key());
    }
    let ghost dv = data@;
    let mut meta: StrMap<Json> = StrMap::new();
    let s = soul.to_owned();
    let ghost sj = Json::String(s);
    meta.insert("#".to_owned(), Json::String(s));
    let ghost st = states;
    meta.insert(">".to_owned(), states);
    proof {
        assert(soul_key() != states_key()) by { assert(soul_key()[0] != states_key()[0]); }
        assert(meta@.dom() =~= set![soul_key(), states_key()]);
        assert(meta@[soul_key()] == sj);
        assert(meta@[states_key()] == st);
    }
    let ghost meta_json = Json::Object(meta);
    let mut node: StrMap<Json> = StrMap::new();
    node.insert("_".to_owned(), Json::Object(meta));
    let mut entries = data.into_entries();
    let ghost orig = entries@;
    let n = entries.len();
    proof {
        assert(orig.subrange(n as int, n as int) =~= Seq::<(String, Json)>::empty());
        assert(entries_view(Seq::<(String, Json)>::empty()) =~= Map::<Seq<char>, Json>::empty());
        assert(node@.dom() =~= Set::<Seq<char>>::empty().insert(meta_key()));
    }
    while entries.len() > 0
        invariant
            orig.len() == n,
            entries.len() <= n,
            entries@ == orig.subrange(0, entries.len() as int),
            distinct_keys(orig),
            entries_view(orig) == dv,
            node@.dom() == entries_view(orig.subrange(entries.len() as int, n as int)).dom().insert(meta_key()),
            forall|k: Seq<char>| #[trigger] entries_view(orig.subrange(entries.len() as int, n as int)).contains_key(k)
                ==> node@[k] == entries_view(orig.subrange(entries.len() as int, n as int))[k],
            !entries_view(orig.subrange(entries.len() as int, n as int)).contains_key(meta_key())
                ==> node@[meta_key()] == meta_json,
        decreases entries.len(),
    {
        let ghost i = entries.len() as int;
        proof { lemma_entries_view_subrange_step(orig, i, n as int); }
        let (k, v) = entries.pop().unwrap();
        proof { assert(orig[i - 1] == (k, v)); }
        node.insert(k, v);
        proof {
            let d2 = entries_view(orig.subrange(i - 1, n as int));
            assert(node@.dom() =~= d2.dom().insert(meta_key()));
        }
    }
    proof {
        assert(orig.subrange(0, n as int) =~= orig);
        assert(node@.dom() =~= dv.dom().insert(meta_key()));
    }
    let node_json = Json::Object(node);
    proof {
        assert forall|k: Seq<char>| #[trigger] dv.contains_key(k) implies spec_field(node_json, k) == Some(dv[k]) by {}
        assert(is_sync_meta(meta_json, soul@, states));
    }
    let mut p: StrMap<Json> = StrMap::new();
    p.insert(soul.to_owned(), node_json);
    proof { assert(p@.dom() =~= set![soul@]); }
    let mut m: StrMap<Json> = StrMap::new();
    m.insert("put".to_owned(), Json::Object(p));
    proof { assert(m@.dom() =~= set![put_key()]); }
    let r = Json::Object(m);
    proof { assert(is_put_of(r, soul@, node_json)); }
    r
}

} // verus!
