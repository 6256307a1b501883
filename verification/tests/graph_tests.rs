use gun::graph::{merge_nodes, Graph};
use gun::json::Json;
use gun::state::{Node, State};

fn graph_str(s: &str) -> Json {
    Json::String(s.to_string())
}

fn graph_node(entries: Vec<(&str, u64, Json)>) -> Node {
    let mut node = Node::with_soul("soul1".to_string());
    for (k, st, v) in entries {
        State::ify(&mut node, Some(k), Some(st), Some(v), Some("soul1"));
    }
    node
}

#[test]
fn test_graph_new() {
    let graph = Graph::new();
    assert!(!graph.has("test"));
}

#[test]
fn test_graph_put_get() {
    let mut graph = Graph::new();
    let node = Node::with_soul("soul1".to_string());
    graph.put("soul1", node).unwrap();
    let retrieved = graph.get("soul1");
    assert!(retrieved.is_some());
    assert_eq!(retrieved.unwrap().get_soul(), Some("soul1".to_string()));
}

#[test]
fn test_graph_get_non_existent() {
    let graph = Graph::new();
    let retrieved = graph.get("nonexistent");
    assert!(retrieved.is_none());
}

#[test]
fn test_graph_has() {
    let mut graph = Graph::new();
    let node = Node::with_soul("soul1".to_string());
    assert!(!graph.has("soul1"));
    graph.put("soul1", node).unwrap();
    assert!(graph.has("soul1"));
}

#[test]
fn test_graph_update() {
    let mut graph = Graph::new();
    let mut node1 = Node::with_soul("soul1".to_string());
    node1.data.insert("name".to_string(), graph_str("Alice"));
    graph.put("soul1", node1).unwrap();
    let mut node2 = Node::with_soul("soul1".to_string());
    node2.data.insert("name".to_string(), graph_str("Bob"));
    graph.put("soul1", node2).unwrap();
    let retrieved = graph.get("soul1").unwrap();
    assert_eq!(retrieved.data.get("name"), Some(&graph_str("Bob")));
}

#[test]
fn test_graph_merge_same_timestamp() {
    let mut graph = Graph::new();
    let mut state = State::new();
    let existing = graph_node(vec![("name", 1000, graph_str("Alice"))]);
    let incoming = graph_node(vec![("name", 1000, graph_str("Bob"))]);
    graph.put("soul1", existing).unwrap();
    let merged = graph.merge("soul1", incoming, &mut state).unwrap();
    assert_eq!(merged.data.get("name"), Some(&graph_str("Bob")));
}

#[test]
fn test_graph_merge_different_timestamps() {
    let mut graph = Graph::new();
    let mut state = State::new();
    let existing = graph_node(vec![("name", 1000, graph_str("Alice"))]);
    let incoming = graph_node(vec![("name", 2000, graph_str("Bob"))]);
    graph.put("soul1", existing).unwrap();
    let merged = graph.merge("soul1", incoming, &mut state).unwrap();
    assert_eq!(merged.data.get("name"), Some(&graph_str("Bob")));
}

#[test]
fn test_graph_merge_older_timestamp() {
    let mut graph = Graph::new();
    let mut state = State::new();
    let existing = graph_node(vec![("name", 2000, graph_str("Alice"))]);
    let incoming = graph_node(vec![("name", 1000, graph_str("Bob"))]);
    graph.put("soul1", existing).unwrap();
    let merged = graph.merge("soul1", incoming, &mut state).unwrap();
    assert_eq!(merged.data.get("name"), Some(&graph_str("Alice")));
}

#[test]
fn test_graph_merge_multiple_keys() {
    let mut graph = Graph::new();
    let mut state = State::new();
    let existing = graph_node(vec![
        ("name", 1000, graph_str("Alice")),
        ("age", 1000, Json::Number("30".to_string())),
    ]);
    let incoming = graph_node(vec![
        ("name", 2000, graph_str("Bob")),
        ("city", 2000, graph_str("NYC")),
    ]);
    graph.put("soul1", existing).unwrap();
    let merged = graph.merge("soul1", incoming, &mut state).unwrap();
    assert_eq!(merged.data.get("name"), Some(&graph_str("Bob")));
    assert_eq!(merged.data.get("age"), Some(&Json::Number("30".to_string())));
    assert_eq!(merged.data.get("city"), Some(&graph_str("NYC")));
}

#[test]
fn test_graph_merge_new_node() {
    let mut graph = Graph::new();
    let mut state = State::new();
    let incoming = Node::with_soul("soul1".to_string());
    let merged = graph.merge("soul1", incoming, &mut state).unwrap();
    assert_eq!(merged.get_soul(), Some("soul1".to_string()));
    assert!(graph.has("soul1"));
}

#[test]
fn test_graph_all_nodes() {
    let mut graph = Graph::new();
    for i in 0..10 {
        let soul = format!("soul{}", i);
        let node = Node::with_soul(soul.clone());
        graph.put(&soul, node).unwrap();
    }
    let all = graph.all_nodes();
    assert_eq!(all.len(), 10);
}

#[test]
fn merge_keeps_states_of_winning_values() {
    let existing = graph_node(vec![("a", 5, graph_str("old")), ("b", 9, graph_str("keep"))]);
    let incoming = graph_node(vec![("a", 7, graph_str("new")), ("b", 3, graph_str("lose"))]);
    let merged = merge_nodes(existing, incoming);
    assert_eq!(merged.data.get("a"), Some(&graph_str("new")));
    assert_eq!(merged.states.get("a"), Some(&7));
    assert_eq!(merged.data.get("b"), Some(&graph_str("keep")));
    assert_eq!(merged.states.get("b"), Some(&9));
}

#[test]
fn merge_of_a_node_with_itself_changes_nothing() {
    let a = graph_node(vec![("x", 4, graph_str("v")), ("y", 6, Json::Bool(true))]);
    let b = graph_node(vec![("x", 4, graph_str("v")), ("y", 6, Json::Bool(true))]);
    let merged = merge_nodes(a, b);
    let again = graph_node(vec![("x", 4, graph_str("v")), ("y", 6, Json::Bool(true))]);
    assert_eq!(merged.data.get("x"), again.data.get("x"));
    assert_eq!(merged.data.get("y"), again.data.get("y"));
    assert_eq!(merged.states.get("y"), Some(&6));
}

#[test]
fn take_removes_a_node() {
    let mut graph = Graph::new();
    graph.put("s", Node::with_soul("s".to_string())).unwrap();
    assert!(graph.take("s").is_some());
    assert!(!graph.has("s"));
    assert!(graph.take("s").is_none());
}

#[test]
fn replicas_settle_on_the_same_value_for_equal_states() {
    let a = || graph_node(vec![("name", 1000, graph_str("Alice"))]);
    let b = || graph_node(vec![("name", 1000, graph_str("Bob"))]);
    let mut clock = State::new();
    let mut g1 = Graph::new();
    g1.merge("s", a(), &mut clock).unwrap();
    g1.merge("s", b(), &mut clock).unwrap();
    let mut g2 = Graph::new();
    g2.merge("s", b(), &mut clock).unwrap();
    g2.merge("s", a(), &mut clock).unwrap();
    assert_eq!(g1.get("s").unwrap().data.get("name"), Some(&graph_str("Bob")));
    assert_eq!(g2.get("s").unwrap().data.get("name"), Some(&graph_str("Bob")));
}
