use gun::dup::Dup;
use gun::json::Json;
use gun::strmap::StrMap;

fn dup_sample_object() -> Json {
    let mut m = StrMap::new();
    m.insert("key".to_string(), Json::String("value".to_string()));
    Json::Object(m)
}

#[test]
fn test_dup_new_default() {
    let dup = Dup::new_default();
    assert!(!dup.check("test_id"));
}

#[test]
fn test_dup_new_custom() {
    let dup = Dup::new(100, 5000);
    assert!(!dup.check("test_id"));
}

#[test]
fn test_dup_check_track() {
    let mut dup = Dup::new_default();
    assert!(!dup.check("msg1"));
    dup.track("msg1");
    assert!(dup.check("msg1"));
}

#[test]
fn test_dup_multiple_messages() {
    let mut dup = Dup::new_default();
    dup.track("msg1");
    dup.track("msg2");
    dup.track("msg3");
    assert!(dup.check("msg1"));
    assert!(dup.check("msg2"));
    assert!(dup.check("msg3"));
    assert!(!dup.check("msg4"));
}

#[test]
fn test_dup_track_with_peer() {
    let mut dup = Dup::new_default();
    dup.track_with_peer("msg1", Some("peer1"));
    assert!(dup.check("msg1"));
    assert_eq!(dup.get_via("msg1"), Some("peer1".to_string()));
}

#[test]
fn test_dup_get_via() {
    let mut dup = Dup::new_default();
    dup.track_with_peer("msg1", Some("peer1"));
    dup.track_with_peer("msg2", Some("peer2"));
    assert_eq!(dup.get_via("msg1"), Some("peer1".to_string()));
    assert_eq!(dup.get_via("msg2"), Some("peer2".to_string()));
    assert_eq!(dup.get_via("nonexistent"), None);
}

#[test]
fn test_dup_store_get() {
    let mut dup = Dup::new_default();
    dup.store("msg1", dup_sample_object());
    let retrieved = dup.get("msg1");
    assert!(retrieved.is_some());
    assert_eq!(retrieved.unwrap(), &dup_sample_object());
}

#[test]
fn test_dup_remove() {
    let mut dup = Dup::new_default();
    dup.track("msg1");
    assert!(dup.check("msg1"));
    dup.remove("msg1");
    assert!(!dup.check("msg1"));
}

#[test]
fn test_dup_default() {
    let dup = Dup::default();
    assert!(!dup.check("test"));
}

#[test]
fn dup_expires_after_max_age() {
    let mut dup = Dup::new(100, 100);
    dup.track_at("msg1", 1_000);
    assert!(dup.check_at("msg1", 1_050));
    assert!(dup.check_at("msg1", 1_099));
    assert!(!dup.check_at("msg1", 1_150));
}

#[test]
fn dup_drop_expired_keeps_fresh_messages() {
    let mut dup = Dup::new(100, 100);
    dup.track_at("msg1", 1_000);
    dup.track_at("msg2", 1_150);
    dup.drop_expired_at(1_160);
    assert!(!dup.check_at("msg1", 1_160));
    assert!(dup.check_at("msg2", 1_160));
}

#[test]
fn dup_peer_kept_when_tracked_again_without_one() {
    let mut dup = Dup::new_default();
    dup.track_with_peer_at("msg1", Some("peer1"), 10);
    dup.track_with_peer_at("msg1", None, 20);
    assert_eq!(dup.get_via("msg1"), Some("peer1".to_string()));
    assert!(dup.check_at("msg1", 25));
}

#[test]
fn dup_store_keeps_time_of_tracked_message() {
    let mut dup = Dup::new(100, 100);
    dup.track_at("msg1", 1_000);
    dup.store_at("msg1", Json::Null, 1_090);
    assert!(!dup.check_at("msg1", 1_120));
    assert_eq!(dup.get("msg1"), Some(&Json::Null));
}
