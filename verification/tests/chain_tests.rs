use base64::Engine as _;
use gun::chain::Chain;
use gun::gun_core::GunCore;
use gun::json::{to_json_string, Json};
use gun::put::{content_hash_matches, derive_soul, split_expiry};
use gun::read::{is_mapped_key, OnceStep};
use gun::strmap::StrMap;
use sha2::Digest as _;

fn chain_text(s: &str) -> Json {
    Json::String(s.to_string())
}

fn chain_object(pairs: Vec<(&str, Json)>) -> Json {
    let mut m = StrMap::new();
    for (k, v) in pairs {
        m.insert(k.to_string(), v);
    }
    Json::Object(m)
}

fn chain_found(step: OnceStep) -> Option<Json> {
    match step {
        OnceStep::Value(v) => Some(v.copy()),
        OnceStep::NodeData(d) => {
            let mut m = StrMap::new();
            for i in 0..d.len() {
                let e = d.entry_at(i);
                m.insert(e.0.clone(), e.1.copy());
            }
            Some(Json::Object(m))
        }
        OnceStep::Null => Some(Json::Null),
        _ => None,
    }
}

#[test]
fn put_then_once_gives_the_value() {
    let mut core = GunCore::new();
    let users = Chain::with_soul(&mut core, "users".to_string(), None);
    let alice = users.get(&mut core, "alice");
    let out = alice.put(&mut core, chain_text("Alice")).unwrap();
    assert!(out.updates.iter().any(|u| u.soul == "users" && u.notify));
    assert_eq!(core.graph.get("users").unwrap().data.get("alice"), Some(&chain_text("Alice")));
    assert_eq!(chain_found(alice.once_lookup(&core.graph)), Some(chain_text("Alice")));
}

#[test]
fn put_of_an_object_writes_each_member() {
    let mut core = GunCore::new();
    let user = Chain::with_soul(&mut core, "user1".to_string(), None);
    let data = chain_object(vec![("name", chain_text("Bob")), ("age", Json::Number("30".to_string()))]);
    user.put(&mut core, data).unwrap();
    let node = core.graph.get("user1").unwrap();
    assert_eq!(node.data.get("name"), Some(&chain_text("Bob")));
    assert_eq!(node.data.get("age"), Some(&Json::Number("30".to_string())));
    assert!(node.states.get("name").is_some());
    let name = user.get(&mut core, "name");
    assert_eq!(chain_found(name.once_lookup(&core.graph)), Some(chain_text("Bob")));
}

#[test]
fn nested_objects_are_kept_in_the_node() {
    let mut core = GunCore::new();
    let user = Chain::with_soul(&mut core, "u".to_string(), None);
    let data = chain_object(vec![("address", chain_object(vec![("city", chain_text("NYC"))]))]);
    user.put(&mut core, data).unwrap();
    let address = core.graph.get("u").unwrap().data.get("address").unwrap();
    assert_eq!(address.get("city"), Some(&chain_text("NYC")));
    let city = user.get(&mut core, "address").get(&mut core, "city");
    assert_eq!(chain_found(city.once_lookup(&core.graph)), Some(chain_text("NYC")));
}

#[test]
fn links_are_followed_by_once() {
    let mut core = GunCore::new();
    let target = Chain::with_soul(&mut core, "t".to_string(), None);
    target.put(&mut core, chain_object(vec![("city", chain_text("Oslo"))])).unwrap();
    let user = Chain::with_soul(&mut core, "u".to_string(), None);
    let out = user.get(&mut core, "other").put(&mut core, chain_object(vec![("#", chain_text("t"))])).unwrap();
    assert_eq!(out.chain.soul, Some("t".to_string()));
    assert!(!core.graph.has("u"));
    let link = chain_object(vec![("#", chain_text("t"))]);
    user.put(&mut core, chain_object(vec![("home", link)])).unwrap();
    let link_in_node = core.graph.get("u").unwrap().data.get("home").unwrap();
    assert_eq!(link_in_node.get("#"), Some(&chain_text("t")));
    let city = user.get(&mut core, "home").get(&mut core, "city");
    assert_eq!(chain_found(city.once_lookup(&core.graph)), Some(chain_text("Oslo")));
}

#[test]
fn arrays_are_refused() {
    let mut core = GunCore::new();
    let c = Chain::with_soul(&mut core, "a".to_string(), None);
    let r = c.put(&mut core, Json::Array(vec![Json::Null]));
    assert!(matches!(r, Err(gun::GunError::InvalidData(_))));
    assert!(!core.graph.has("a"));
}

#[test]
fn once_waits_for_a_missing_node() {
    let mut core = GunCore::new();
    let c = Chain::with_soul(&mut core, "nowhere".to_string(), None);
    assert!(matches!(c.once_lookup(&core.graph), OnceStep::AwaitSoul(ref s) if s == "nowhere"));
}

#[test]
fn set_links_each_item() {
    let mut core = GunCore::new();
    let list = Chain::with_soul(&mut core, "list".to_string(), None);
    let out = list.set(&mut core, chain_object(vec![("title", chain_text("one"))])).unwrap();
    let item_soul = out.updates[0].soul.clone();
    assert_eq!(out.chain.key, Some(item_soul.clone()));
    assert_eq!(out.chain.parent.as_ref().and_then(|p| p.soul.clone()), Some("list".to_string()));
    assert_eq!(core.graph.get(&item_soul).unwrap().data.get("title"), Some(&chain_text("one")));
    let link = core.graph.get("list").unwrap().data.get(&item_soul).unwrap();
    assert_eq!(link.get("#").and_then(|t| t.as_str()), Some(item_soul.as_str()));
    assert!(list.set(&mut core, Json::Bool(true)).is_err());
}

#[test]
fn back_walks_up_the_chain() {
    let mut core = GunCore::new();
    let a = Chain::with_soul(&mut core, "a".to_string(), None);
    let b = a.get(&mut core, "b");
    let c = b.get(&mut core, "c");
    assert_eq!(c.back(None).and_then(|p| p.soul.clone()), Some("a".to_string()));
    assert_eq!(c.back(Some(1)).and_then(|p| p.key.clone()), Some("b".to_string()));
    assert!(a.back(None).is_none());
    assert_eq!(c.back(Some(2)).and_then(|p| p.soul.clone()), Some("a".to_string()));
    assert!(c.back(Some(3)).is_none());
}

#[test]
fn derived_soul_is_root_and_hash_of_key() {
    let digest = sha2::Sha256::digest("users".as_bytes());
    let expected = format!("root_{}", base64::engine::general_purpose::STANDARD_NO_PAD.encode(digest));
    assert_eq!(derive_soul("users"), expected);
}

#[test]
fn content_addresses_are_checked() {
    let v = chain_object(vec![("x", Json::Number("1".to_string()))]);
    let text = to_json_string(&v);
    assert_eq!(text, "{\"x\":1}");
    let digest = sha2::Sha256::digest(text.as_bytes());
    let b64 = base64::engine::general_purpose::STANDARD_NO_PAD.encode(digest);
    let hex = hex::encode(digest);
    assert!(content_hash_matches(&b64, &v));
    assert!(content_hash_matches(&hex, &v));
    assert!(!content_hash_matches("nope", &v));
}

#[test]
fn content_addresses_hash_members_in_key_order() {
    let v = chain_object(vec![("b", Json::Number("2".to_string())), ("a", Json::Number("1".to_string()))]);
    let digest = sha2::Sha256::digest("{\"a\":1,\"b\":2}".as_bytes());
    let b64 = base64::engine::general_purpose::STANDARD_NO_PAD.encode(digest);
    assert!(content_hash_matches(&b64, &v));
    assert!(content_hash_matches(&hex::encode(digest), &v));
    let unsorted = sha2::Sha256::digest("{\"b\":2,\"a\":1}".as_bytes());
    assert!(!content_hash_matches(&base64::engine::general_purpose::STANDARD_NO_PAD.encode(unsorted), &v));
}

#[test]
fn expiry_suffix_is_split() {
    assert_eq!(split_expiry("notes<?3600"), ("notes".to_string(), Some(3_600_000)));
    assert_eq!(split_expiry("b<?1.5"), ("b".to_string(), Some(1_500)));
    assert_eq!(split_expiry("b<?0.0025"), ("b".to_string(), Some(2)));
    assert_eq!(split_expiry("b<?2."), ("b".to_string(), Some(2_000)));
    assert_eq!(split_expiry("b<?1.x"), ("b<?1.x".to_string(), None));
    assert_eq!(split_expiry("notes"), ("notes".to_string(), None));
    assert_eq!(split_expiry("notes<?x"), ("notes<?x".to_string(), None));
}

#[test]
fn mapped_keys_skip_metadata() {
    assert!(is_mapped_key("name"));
    assert!(!is_mapped_key("_"));
    assert!(!is_mapped_key(">state"));
}

#[test]
fn json_texts_are_compact() {
    let v = chain_object(vec![
        ("s", chain_text("a\"b")),
        ("n", Json::Null),
        ("l", Json::Array(vec![Json::Bool(true), Json::Number("2.5".to_string())])),
    ]);
    assert_eq!(to_json_string(&v), "{\"l\":[true,2.5],\"n\":null,\"s\":\"a\\\"b\"}");
}

#[test]
fn object_members_are_written_in_key_order() {
    let v = chain_object(vec![
        ("b", Json::Number("1".to_string())),
        ("aa", Json::Number("2".to_string())),
        ("a", chain_object(vec![("z", Json::Null), ("y", Json::Bool(false))])),
        ("B", Json::Number("3".to_string())),
    ]);
    assert_eq!(to_json_string(&v), "{\"B\":3,\"a\":{\"y\":false,\"z\":null},\"aa\":2,\"b\":1}");
}

#[test]
fn a_set_under_a_key_is_linked_from_the_parent() {
    let mut core = GunCore::new();
    let root = Chain::new(&mut core);
    let chat = root.get(&mut core, "chat");
    assert_eq!(chat.soul, Some("chat".to_string()));
    let messages = chat.get(&mut core, "messages");
    let first = messages.set(&mut core, chain_object(vec![("text", chain_text("Hello, world!"))])).unwrap();
    let set_soul = first.chain.parent.as_ref().and_then(|p| p.soul.clone()).unwrap();
    let link = core.graph.get("chat").unwrap().data.get("messages").unwrap();
    assert_eq!(link.get("#").and_then(|t| t.as_str()), Some(set_soul.as_str()));
    let item = first.chain.key.clone().unwrap();
    assert_eq!(core.graph.get(&item).unwrap().data.get("text"), Some(&chain_text("Hello, world!")));
    let second = messages.set(&mut core, chain_object(vec![("text", chain_text("again"))])).unwrap();
    assert_eq!(second.chain.parent.as_ref().and_then(|p| p.soul.clone()), Some(set_soul.clone()));
    assert_eq!(core.graph.get(&set_soul).unwrap().data.len(), 2);
}

#[test]
fn a_content_address_that_does_not_match_names_both_hashes() {
    let mut core = GunCore::new();
    let c = Chain::with_soul(&mut core, "#abc".to_string(), None);
    match c.put(&mut core, chain_text("hello")) {
        Err(gun::GunError::InvalidData(m)) => {
            assert!(m.starts_with("Content hash mismatch: expected abc, got "));
            assert!(m.len() > "Content hash mismatch: expected abc, got ".len());
        }
        _ => panic!("expected a refusal"),
    }
    let arr = Json::Array(vec![]);
    assert!(matches!(c.put(&mut core, arr), Err(gun::GunError::InvalidData(_))));
}

#[test]
fn a_value_put_through_a_soul_is_read_back() {
    let mut core = GunCore::new();
    let root = Chain::new(&mut core);
    let counter = root.get(&mut core, "counter");
    counter.put(&mut core, Json::Number("42".to_string())).unwrap();
    assert!(matches!(counter.once_lookup(&core.graph), OnceStep::Value(Json::Number(n)) if n == "42"));
    let mut copied = StrMap::new();
    let node = core.graph.get("counter").unwrap();
    for i in 0..node.data.len() {
        let e = node.data.entry_at(i);
        copied.insert(e.0.clone(), e.1.copy());
    }
    let data = Json::Object(copied);
    let first = gun::read::on_event_value(None, &data, &core.graph);
    assert!(matches!(first, gun::read::OnValue::Value(Json::Number(ref n)) if n == "42"));
    counter.put(&mut core, Json::Number("43".to_string())).unwrap();
    assert!(matches!(counter.once_lookup(&core.graph), OnceStep::Value(Json::Number(n)) if n == "43"));
    let forty_two = Json::Number("42".to_string());
    let forty_three = Json::Number("43".to_string());
    assert!(!gun::read::value_changed(Some(&forty_two), &forty_two));
    assert!(gun::read::value_changed(Some(&forty_two), &forty_three));
}

#[test]
fn a_fractional_expiry_refuses_old_keys() {
    let mut core = GunCore::new();
    let b = Chain::with_soul(&mut core, "b".to_string(), None);
    b.put(&mut core, chain_object(vec![("k", chain_text("old"))])).unwrap();
    let expiring = Chain::with_soul(&mut core, "b<?1.5".to_string(), None);
    let refused = expiring.put_at(&mut core, chain_object(vec![("k", chain_text("new"))]), i64::MAX / 1000);
    assert!(matches!(refused, Err(gun::GunError::InvalidData(m)) if m == "Data expired"));
    let taken = expiring.put_at(&mut core, chain_object(vec![("k", chain_text("new"))]), 0).unwrap();
    assert_eq!(taken.chain.soul, Some("b".to_string()));
    assert_eq!(core.graph.get("b").unwrap().data.get("k"), Some(&chain_text("new")));
}

#[test]
fn nested_paths_stay_apart() {
    let mut core = GunCore::new();
    let root = Chain::new(&mut core);
    let u = root.get(&mut core, "u");
    let a = u.get(&mut core, "a");
    let ax = a.get(&mut core, "x");
    ax.put(&mut core, Json::Number("1".to_string())).unwrap();
    let b = u.get(&mut core, "b");
    let bx = b.get(&mut core, "x");
    bx.put(&mut core, Json::Number("2".to_string())).unwrap();
    assert!(matches!(ax.once_lookup(&core.graph), OnceStep::Value(Json::Number(n)) if n == "1"));
    assert!(matches!(bx.once_lookup(&core.graph), OnceStep::Value(Json::Number(n)) if n == "2"));
    let a_node = gun::read::node_of(&a, &core.graph).unwrap();
    assert_eq!(core.graph.get("u").unwrap().data.get("a").and_then(|l| l.get("#")).and_then(|t| t.as_str()),
        Some(a_node.as_str()));
    ax.put(&mut core, Json::Number("3".to_string())).unwrap();
    assert_eq!(gun::read::node_of(&a, &core.graph).unwrap(), a_node);
    assert!(matches!(ax.once_lookup(&core.graph), OnceStep::Value(Json::Number(n)) if n == "3"));
    assert_eq!(ax.listen_event_in(&core.graph), format!("node_update:{}", a_node));
    assert_eq!(ax.listen_event(), "node_update:u".to_string());
    let deep = a.get(&mut core, "y").get(&mut core, "z");
    deep.put(&mut core, chain_text("deep")).unwrap();
    assert!(matches!(deep.once_lookup(&core.graph), OnceStep::Value(Json::String(s)) if s == "deep"));
}
