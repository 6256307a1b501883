use gun::graph::{merge_nodes, Graph};
use gun::json::{json_eq, Json};
use gun::read::{map_source, on_event_value, value_changed, OnValue};
use gun::state::{Node, State};
use gun::strmap::StrMap;

fn read_object(pairs: Vec<(&str, Json)>) -> Json {
    let mut m = StrMap::new();
    for (k, v) in pairs {
        m.insert(k.to_string(), v);
    }
    Json::Object(m)
}

fn read_text(s: &str) -> Json {
    Json::String(s.to_string())
}

fn read_node(soul: &str, entries: Vec<(&str, u64, Json)>) -> Node {
    let mut node = Node::with_soul(soul.to_string());
    for (k, st, v) in entries {
        State::ify(&mut node, Some(k), Some(st), Some(v), Some(soul));
    }
    node
}

#[test]
fn changes_are_noticed_whatever_the_member_order() {
    let a = read_object(vec![("x", read_text("1")), ("y", Json::Null)]);
    let b = read_object(vec![("y", Json::Null), ("x", read_text("1"))]);
    let c = read_object(vec![("x", read_text("2")), ("y", Json::Null)]);
    assert!(json_eq(&a, &b));
    assert!(!json_eq(&a, &c));
    assert!(value_changed(None, &a));
    assert!(!value_changed(Some(&a), &b));
    assert!(value_changed(Some(&a), &c));
    assert!(value_changed(Some(&Json::Null), &Json::Bool(false)));
    assert!(!json_eq(&Json::Array(vec![Json::Null]), &Json::Array(vec![])));
}

#[test]
fn on_follows_links_of_the_key() {
    let mut graph = Graph::new();
    graph.put("one", read_node("one", vec![("only", 1, read_text("v"))])).unwrap();
    graph.put("two", read_node("two", vec![("a", 1, read_text("x")), ("b", 1, read_text("y"))])).unwrap();
    let data = read_object(vec![
        ("l1", read_object(vec![("#", read_text("one"))])),
        ("l2", read_object(vec![("#", read_text("two"))])),
        ("l3", read_object(vec![("#", read_text("missing"))])),
        ("p", read_text("plain")),
    ]);
    assert!(matches!(on_event_value(Some("l1"), &data, &graph), OnValue::Value(v) if *v == read_text("v")));
    assert!(matches!(on_event_value(Some("l2"), &data, &graph), OnValue::NodeData(d) if d.len() == 2));
    assert!(matches!(on_event_value(Some("l3"), &data, &graph), OnValue::Value(v) if v.get("#").is_some()));
    assert!(matches!(on_event_value(Some("p"), &data, &graph), OnValue::Value(v) if *v == read_text("plain")));
    assert!(matches!(on_event_value(Some("none"), &data, &graph), OnValue::Null));
    assert!(matches!(on_event_value(None, &data, &graph), OnValue::Value(v) if v.get("p").is_some()));
}

#[test]
fn map_goes_into_a_linked_node() {
    let mut graph = Graph::new();
    graph.put("two", read_node("two", vec![("a", 1, read_text("x"))])).unwrap();
    let mut data = StrMap::new();
    data.insert("list".to_string(), read_object(vec![("#", read_text("two"))]));
    data.insert("z".to_string(), read_text("w"));
    assert!(map_source(Some("list"), &data, &graph).get("a").is_some());
    assert!(map_source(Some("z"), &data, &graph).get("z").is_some());
    assert!(map_source(None, &data, &graph).get("list").is_some());
}

#[test]
fn merging_either_way_converges() {
    let a1 = read_node("s", vec![("k", 5, read_text("a")), ("m", 9, read_text("am"))]);
    let b1 = read_node("s", vec![("k", 7, read_text("b")), ("m", 2, read_text("bm"))]);
    let a2 = read_node("s", vec![("k", 5, read_text("a")), ("m", 9, read_text("am"))]);
    let b2 = read_node("s", vec![("k", 7, read_text("b")), ("m", 2, read_text("bm"))]);
    let ab = merge_nodes(a1, b1);
    let ba = merge_nodes(b2, a2);
    assert_eq!(ab.data.get("k"), ba.data.get("k"));
    assert_eq!(ab.data.get("m"), ba.data.get("m"));
    assert_eq!(ab.states.get("k"), Some(&7));
    assert_eq!(ba.states.get("m"), Some(&9));
}

#[test]
fn merging_twice_is_merging_once() {
    let a = read_node("s", vec![("k", 5, read_text("a"))]);
    let b = read_node("s", vec![("k", 7, read_text("b")), ("n", 1, Json::Null)]);
    let b_again = read_node("s", vec![("k", 7, read_text("b")), ("n", 1, Json::Null)]);
    let once = merge_nodes(a, b);
    let twice = merge_nodes(once, b_again);
    assert_eq!(twice.data.get("k"), Some(&read_text("b")));
    assert_eq!(twice.data.get("n"), Some(&Json::Null));
    assert_eq!(twice.states.get("k"), Some(&7));
}

#[test]
fn once_asks_peers_once_and_gives_up_after_twenty_seconds() {
    let first = gun::read::once_wait_step(Some("s".to_string()), false, 0);
    assert_eq!(first.ask, Some("s".to_string()));
    assert!(!first.give_up);
    let later = gun::read::once_wait_step(Some("s".to_string()), true, 20_000);
    assert_eq!(later.ask, None);
    assert!(!later.give_up);
    assert!(gun::read::once_wait_step(None, true, 20_001).give_up);
}
