use chia_bls::SecretKey;
use gun::dam::{classify_raw, too_big_message, Delivery, Mesh, Peer, RawKind, Reaction, Screened};
use gun::gun_core::GunCore;
use gun::json::Json;
use gun::strmap::StrMap;
use gun::wire::{get_request_message, sync_put_message};

fn dam_object(pairs: Vec<(&str, Json)>) -> Json {
    let mut m = StrMap::new();
    for (k, v) in pairs {
        m.insert(k.to_string(), v);
    }
    Json::Object(m)
}

fn dam_text(s: &str) -> Json {
    Json::String(s.to_string())
}

fn dam_mesh(core: &GunCore) -> Mesh {
    let sk = SecretKey::from_seed(&[3u8; 32]);
    let pk = sk.public_key();
    Mesh::new(core, sk.to_bytes().to_vec(), pk.to_bytes().to_vec())
}

#[test]
fn peers_are_added_routed_and_removed() {
    let core = GunCore::new();
    let mut mesh = dam_mesh(&core);
    assert_eq!(mesh.pid.len(), 9);
    let peer = Peer::new("ws://a".to_string(), 1);
    let id = peer.id.clone();
    let greeting = mesh.hi(peer).unwrap();
    assert_eq!(greeting.get("dam"), Some(&dam_text("?")));
    assert_eq!(greeting.get("pid"), Some(&Json::String(mesh.pid.clone())));
    assert_eq!(mesh.near(), 1);
    assert!(matches!(mesh.route(&id, "first".to_string()), Delivery::Queued));
    assert!(matches!(mesh.route("unknown", "x".to_string()), Delivery::Dropped));
    assert_eq!(mesh.connected_peer_count(), 0);
    assert_eq!(mesh.set_peer_connected(&id).unwrap(), vec!["first".to_string()]);
    assert_eq!(mesh.connected_peer_count(), 1);
    assert!(matches!(mesh.route(&id, "second".to_string()), Delivery::Send));
    assert!(mesh.set_peer_connected("unknown").is_err());
    assert!(mesh.bye(&id));
    assert!(!mesh.bye(&id));
    assert_eq!(mesh.near(), 0);
}

#[test]
fn raw_texts_are_classified() {
    assert!(matches!(classify_raw("", 100), RawKind::Empty));
    assert!(matches!(classify_raw("[1]", 100), RawKind::Batch));
    assert!(matches!(classify_raw("{}", 100), RawKind::Single));
    assert!(matches!(classify_raw("{\"a\":1}", 3), RawKind::TooBig));
    assert!(too_big_message().get("dam").is_some());
}

#[test]
fn framing_gives_an_id_and_our_signature() {
    let core = GunCore::new();
    let mesh = dam_mesh(&core);
    let msg = dam_object(vec![("get", dam_object(vec![("#", dam_text("s"))]))]);
    let framed = mesh.frame(msg).unwrap();
    let id = framed.get("#").and_then(|i| i.as_str()).unwrap();
    assert_eq!(id.len(), 64);
    assert!(id.chars().all(|c| c.is_ascii_hexdigit()));
    match framed.get("sigs") {
        Some(Json::Array(sigs)) => {
            assert_eq!(sigs.len(), 1);
            let pk = sigs[0].get("pubkey").and_then(|p| p.as_str()).unwrap();
            assert_eq!(pk, hex::encode(SecretKey::from_seed(&[3u8; 32]).public_key().to_bytes()));
            assert_eq!(sigs[0].get("sig").and_then(|s| s.as_str()).unwrap().len(), 192);
        }
        _ => panic!("expected signatures"),
    }
    let again = mesh.frame(framed).unwrap();
    match again.get("sigs") {
        Some(Json::Array(sigs)) => assert_eq!(sigs.len(), 1),
        _ => panic!("expected signatures"),
    }
}

#[test]
fn a_framed_message_is_taken_by_another_peer() {
    let core = GunCore::new();
    let mut mesh = dam_mesh(&core);
    let msg = dam_object(vec![("get", dam_object(vec![("#", dam_text("s"))]))]);
    let framed = mesh.frame(msg).unwrap();
    let other_sk = SecretKey::from_seed(&[4u8; 32]);
    let mut other = Mesh::new(&core, other_sk.to_bytes().to_vec(), other_sk.public_key().to_bytes().to_vec());
    assert!(matches!(other.screen(&framed, Some("p")), Ok(Screened::Accepted { our_entry: Some(_), .. })));
    assert!(matches!(mesh.screen(&framed, Some("p")), Ok(Screened::Accepted { our_entry: None, .. })));
    let mut tampered = framed.copy();
    if let Json::Object(m) = &mut tampered {
        m.insert("get".to_string(), dam_object(vec![("#", dam_text("t"))]));
    }
    assert!(matches!(other.screen(&tampered, Some("p")), Ok(Screened::Rejected)));
    let no_id = dam_object(vec![("get", Json::Null)]);
    assert!(mesh.screen(&no_id, Some("p")).is_err());
}

#[test]
fn delivered_puts_merge_and_duplicates_are_ignored() {
    let mut core = GunCore::new();
    let mut mesh = dam_mesh(&core);
    let node = dam_object(vec![
        ("_", dam_object(vec![("#", dam_text("n1"))])),
        ("name", dam_text("Ann")),
    ]);
    let msg = dam_object(vec![("put", dam_object(vec![("n1", node)]))]);
    let mut states = StrMap::new();
    let mut st = StrMap::new();
    st.insert("name".to_string(), 5u64);
    states.insert("n1".to_string(), st);
    let r = mesh.deliver(&mut core, msg, "m1", Some("p"), &states);
    assert!(r.iter().any(|x| matches!(x, Reaction::Updated(s) if s == "n1")));
    assert_eq!(core.graph.get("n1").unwrap().data.get("name"), Some(&dam_text("Ann")));
    assert_eq!(core.graph.get("n1").unwrap().states.get("name"), Some(&5));
    let again = mesh.deliver(&mut core, Json::Null, "m1", Some("p"), &StrMap::new());
    assert!(again.is_empty());
}

#[test]
fn get_requests_for_held_nodes_are_sent_out() {
    let mut core = GunCore::new();
    let mut mesh = dam_mesh(&core);
    let mut node = gun::state::Node::with_soul("n2".to_string());
    node.data.insert("k".to_string(), dam_text("v"));
    core.graph.put("n2", node).unwrap();
    let r = mesh.deliver(&mut core, get_request_message("n2", None), "m2", Some("p"), &StrMap::new());
    assert!(r.iter().any(|x| matches!(x, Reaction::Broadcast(m) if m.get("put").and_then(|p| p.get("k")) == Some(&dam_text("v")))));
    let missing = mesh.deliver(&mut core, get_request_message("nope", None), "m4", Some("p"), &StrMap::new());
    assert!(missing.is_empty());
}

#[test]
fn dam_greetings_record_the_peer_id() {
    let mut core = GunCore::new();
    let mut mesh = dam_mesh(&core);
    let peer = Peer::new("ws://b".to_string(), 2);
    let id = peer.id.clone();
    mesh.hi(peer);
    let hello = dam_object(vec![("dam", dam_text("?")), ("pid", dam_text("theirs"))]);
    let r = mesh.deliver(&mut core, hello, "m3", Some(&id), &StrMap::new());
    assert_eq!(mesh.get_peer(&id).unwrap().pid, Some("theirs".to_string()));
    assert!(r.iter().any(|x| matches!(x, Reaction::Reply(_))));
}

#[test]
fn wire_messages_have_their_shape() {
    let g = get_request_message("soul1", Some("name"));
    let inner = g.get("get").unwrap();
    assert_eq!(inner.get("#"), Some(&dam_text("soul1")));
    assert_eq!(inner.get("."), Some(&dam_text("name")));
    let mut data = StrMap::new();
    data.insert("a".to_string(), dam_text("b"));
    let states = dam_object(vec![("a", Json::Number("1.5".to_string()))]);
    let p = sync_put_message("soul1", data, states);
    let n = p.get("put").and_then(|x| x.get("soul1")).unwrap();
    assert_eq!(n.get("a"), Some(&dam_text("b")));
    let meta = n.get("_").unwrap();
    assert_eq!(meta.get("#"), Some(&dam_text("soul1")));
    assert_eq!(meta.get(">").and_then(|s| s.get("a")), Some(&Json::Number("1.5".to_string())));
}

#[test]
fn a_duplicate_is_neither_passed_on_nor_taken_again() {
    let mut core = GunCore::new();
    let mut mesh = dam_mesh(&core);
    let msg = || dam_object(vec![("get", dam_object(vec![("#", dam_text("s"))]))]);
    let states = StrMap::new();
    let targets = vec!["a".to_string(), "b".to_string()];
    assert_eq!(mesh.relay_targets(targets.clone(), "m9", 1_000), targets);
    let _ = mesh.deliver_at(&mut core, msg(), "m9", Some("p"), &states, 1_000);
    assert!(mesh.relay_targets(targets.clone(), "m9", 1_500).is_empty());
    assert!(mesh.deliver_at(&mut core, msg(), "m9", Some("p"), &states, 1_500).is_empty());
}

#[test]
fn a_mesh_made_from_a_secret_key_frames_messages_others_take() {
    let core = GunCore::new();
    let sk = SecretKey::from_seed(&[5u8; 32]);
    let mesh = Mesh::from_secret_key(&core, sk.to_bytes().to_vec()).unwrap();
    assert_eq!(mesh.public_key, sk.public_key().to_bytes().to_vec());
    let framed = mesh.frame(dam_object(vec![("get", dam_object(vec![("#", dam_text("s"))]))])).unwrap();
    let mut other = dam_mesh(&core);
    assert!(matches!(other.screen(&framed, Some("p")), Ok(Screened::Accepted { .. })));
}
