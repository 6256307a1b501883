use gun::json::Json;
use gun::state::{Node, State, STATE_PER_MS};

fn state_str(s: &str) -> Json {
    Json::String(s.to_string())
}

fn state_num(s: &str) -> Json {
    Json::Number(s.to_string())
}

#[test]
fn test_state_new() {
    let mut state = State::new();
    let ts1 = state.next();
    assert!(ts1 > 0);
}

#[test]
fn test_state_next_monotonic() {
    let mut state = State::new();
    let ts1 = state.next();
    let ts2 = state.next();
    assert!(ts2 >= ts1, "State should increase monotonically");
    let ts3 = state.next();
    assert!(ts3 >= ts2, "State should continue to increase");
}

#[test]
fn test_state_next_rapid_calls() {
    let mut state = State::new();
    let mut timestamps = Vec::new();
    for _ in 0..100 {
        timestamps.push(state.next());
    }
    for i in 1..timestamps.len() {
        assert!(timestamps[i] >= timestamps[i - 1], "Timestamps should be non-decreasing");
    }
}

#[test]
fn test_state_is_none() {
    assert_eq!(State::is(&None, "key"), None);
}

#[test]
fn test_state_is_with_key() {
    let mut node = Node::new();
    let soul = "test_soul".to_string();
    State::ify(&mut node, Some("name"), Some(12345), Some(state_str("Alice")), Some(&soul));
    let state = State::is(&Some(node), "name");
    assert_eq!(state, Some(12345));
}

#[test]
fn test_state_is_non_existent_key() {
    let mut node = Node::new();
    let soul = "test_soul".to_string();
    State::ify(&mut node, Some("name"), Some(12345), Some(state_str("Alice")), Some(&soul));
    let state = State::is(&Some(node), "nonexistent");
    assert_eq!(state, None);
}

#[test]
fn test_state_ify_sets_soul() {
    let mut node = Node::new();
    let soul = "test_soul_123".to_string();
    State::ify(&mut node, None, None, None, Some(&soul));
    assert_eq!(node.get_soul(), Some(soul));
}

#[test]
fn test_state_ify_sets_data_and_state() {
    let mut node = Node::new();
    let soul = "test_soul".to_string();
    State::ify(&mut node, Some("age"), Some(67890), Some(state_num("30")), Some(&soul));
    assert_eq!(node.data.get("age"), Some(&state_num("30")));
    let state = State::is(&Some(node), "age");
    assert_eq!(state, Some(67890));
}

fn state_three_keys() -> Node {
    let mut node = Node::new();
    let soul = "test_soul".to_string();
    State::ify(&mut node, Some("name"), Some(1000), Some(state_str("Bob")), Some(&soul));
    State::ify(&mut node, Some("age"), Some(2000), Some(state_num("25")), Some(&soul));
    State::ify(&mut node, Some("city"), Some(3000), Some(state_str("NYC")), Some(&soul));
    node
}

#[test]
fn test_state_ify_multiple_keys() {
    let node = state_three_keys();
    assert_eq!(State::is(&Some(state_three_keys()), "name"), Some(1000));
    assert_eq!(State::is(&Some(state_three_keys()), "age"), Some(2000));
    assert_eq!(State::is(&Some(state_three_keys()), "city"), Some(3000));
    assert_eq!(node.data.get("name"), Some(&state_str("Bob")));
    assert_eq!(node.data.get("age"), Some(&state_num("25")));
    assert_eq!(node.data.get("city"), Some(&state_str("NYC")));
}

#[test]
fn test_state_ify_updates_existing_key() {
    let mut node = Node::new();
    let soul = "test_soul".to_string();
    State::ify(&mut node, Some("count"), Some(1000), Some(state_num("5")), Some(&soul));
    State::ify(&mut node, Some("count"), Some(2000), Some(state_num("10")), Some(&soul));
    assert_eq!(node.data.get("count"), Some(&state_num("10")));
    assert_eq!(State::is(&Some(node), "count"), Some(2000));
}

#[test]
fn test_state_ify_ignores_underscore_key() {
    let mut node = Node::new();
    let soul = "test_soul".to_string();
    State::ify(&mut node, Some("_"), Some(12345), Some(state_str("meta")), Some(&soul));
    let state = State::is(&Some(node), "_");
    assert_eq!(state, None);
}

#[test]
fn test_state_default() {
    let mut state = State::default();
    let ts = state.next();
    assert!(ts > 0);
}

#[test]
fn test_node_new() {
    let node = Node::new();
    assert!(node.data.is_empty());
    assert!(node.meta.is_empty());
}

#[test]
fn test_node_with_soul() {
    let soul = "test_soul_456".to_string();
    let node = Node::with_soul(soul.clone());
    assert_eq!(node.get_soul(), Some(soul));
    assert!(node.data.is_empty());
}

#[test]
fn test_node_default() {
    let node = Node::default();
    assert!(node.data.is_empty());
    assert!(node.meta.is_empty());
}

#[test]
fn clock_counts_within_one_millisecond() {
    let mut clock = State::new();
    let a = clock.next_at(5);
    let b = clock.next_at(5);
    let c = clock.next_at(5);
    assert_eq!(a, 5 * STATE_PER_MS);
    assert_eq!(b, 5 * STATE_PER_MS + 1);
    assert_eq!(c, 5 * STATE_PER_MS + 2);
    let d = clock.next_at(6);
    assert_eq!(d, 6 * STATE_PER_MS);
}

#[test]
fn states_increase_when_the_clock_goes_back() {
    let mut clock = State::new();
    let a = clock.next_at(10);
    let b = clock.next_at(3);
    assert!(a > 0);
    assert_eq!(a, 10 * STATE_PER_MS);
    assert_eq!(b, 10 * STATE_PER_MS + 1);
    assert!(b > a);
}
