use gun::events::{Event, EventEmitter};
use gun::json::Json;
use gun::strmap::StrMap;
use std::sync::{Arc, Mutex};

type Listener = Box<dyn Fn(&Event)>;

fn events_object(pairs: Vec<(&str, Json)>) -> Json {
    let mut m = StrMap::new();
    for (k, v) in pairs {
        m.insert(k.to_string(), v);
    }
    Json::Object(m)
}

fn events_null_event(t: &str) -> Event {
    Event { event_type: t.to_string(), data: Json::Null }
}

#[test]
fn test_event_emitter_new() {
    let emitter: EventEmitter<Listener> = EventEmitter::new();
    assert_eq!(emitter.listener_count("test"), 0);
}

#[test]
fn test_event_emitter_on_emit() {
    let mut emitter: EventEmitter<Listener> = EventEmitter::new();
    let count = Arc::new(Mutex::new(0));
    let count_clone = count.clone();
    emitter.on("test", Box::new(move |_event| {
        *count_clone.lock().unwrap() += 1;
    }));
    let event = Event {
        event_type: "test".to_string(),
        data: events_object(vec![("value", Json::Number("42".to_string()))]),
    };
    emitter.emit(&event);
    assert_eq!(*count.lock().unwrap(), 1);
}

#[test]
fn test_event_emitter_multiple_listeners() {
    let mut emitter: EventEmitter<Listener> = EventEmitter::new();
    let count = Arc::new(Mutex::new(0));
    for _ in 0..5 {
        let count_clone = count.clone();
        emitter.on("test", Box::new(move |_event| {
            *count_clone.lock().unwrap() += 1;
        }));
    }
    emitter.emit(&events_null_event("test"));
    assert_eq!(*count.lock().unwrap(), 5);
}

#[test]
fn test_event_emitter_off() {
    let mut emitter: EventEmitter<Listener> = EventEmitter::new();
    let count = Arc::new(Mutex::new(0));
    let count_clone = count.clone();
    let id = emitter.on("test", Box::new(move |_event| {
        *count_clone.lock().unwrap() += 1;
    }));
    let event = events_null_event("test");
    emitter.emit(&event);
    assert_eq!(*count.lock().unwrap(), 1);
    emitter.off("test", id);
    emitter.emit(&event);
    assert_eq!(*count.lock().unwrap(), 1);
}

#[test]
fn test_event_emitter_off_all() {
    let mut emitter: EventEmitter<Listener> = EventEmitter::new();
    let count = Arc::new(Mutex::new(0));
    for _ in 0..3 {
        let count_clone = count.clone();
        emitter.on("test", Box::new(move |_event| {
            *count_clone.lock().unwrap() += 1;
        }));
    }
    emitter.off_all("test");
    emitter.emit(&events_null_event("test"));
    assert_eq!(*count.lock().unwrap(), 0);
}

#[test]
fn test_event_emitter_listener_count() {
    let mut emitter: EventEmitter<Listener> = EventEmitter::new();
    assert_eq!(emitter.listener_count("test"), 0);
    emitter.on("test", Box::new(|_event| {}));
    assert_eq!(emitter.listener_count("test"), 1);
    emitter.on("test", Box::new(|_event| {}));
    assert_eq!(emitter.listener_count("test"), 2);
    emitter.on("other", Box::new(|_event| {}));
    assert_eq!(emitter.listener_count("test"), 2);
    assert_eq!(emitter.listener_count("other"), 1);
}

#[test]
fn test_event_emitter_different_event_types() {
    let mut emitter: EventEmitter<Listener> = EventEmitter::new();
    let count1 = Arc::new(Mutex::new(0));
    let count2 = Arc::new(Mutex::new(0));
    let c1 = count1.clone();
    emitter.on("event1", Box::new(move |_event| {
        *c1.lock().unwrap() += 1;
    }));
    let c2 = count2.clone();
    emitter.on("event2", Box::new(move |_event| {
        *c2.lock().unwrap() += 1;
    }));
    emitter.emit(&events_null_event("event1"));
    assert_eq!(*count1.lock().unwrap(), 1);
    assert_eq!(*count2.lock().unwrap(), 0);
    emitter.emit(&events_null_event("event2"));
    assert_eq!(*count1.lock().unwrap(), 1);
    assert_eq!(*count2.lock().unwrap(), 1);
}

#[test]
fn test_event_emitter_event_data() {
    let mut emitter: EventEmitter<Listener> = EventEmitter::new();
    let received_data: Arc<Mutex<Option<Json>>> = Arc::new(Mutex::new(None));
    let data_clone = received_data.clone();
    emitter.on("test", Box::new(move |event| {
        *data_clone.lock().unwrap() = Some(event.data.copy());
    }));
    let event = Event {
        event_type: "test".to_string(),
        data: events_object(vec![
            ("key", Json::String("value".to_string())),
            ("number", Json::Number("42".to_string())),
        ]),
    };
    emitter.emit(&event);
    let data = received_data.lock().unwrap().take();
    assert!(data.is_some());
    let data_value = data.unwrap();
    assert_eq!(data_value.get("key").and_then(|v| v.as_str()), Some("value"));
    assert_eq!(data_value.get("number"), Some(&Json::Number("42".to_string())));
}

#[test]
fn test_event_emitter_default() {
    let emitter: EventEmitter<Listener> = EventEmitter::default();
    assert_eq!(emitter.listener_count("test"), 0);
}

#[test]
fn listeners_are_called_in_subscription_order() {
    let mut emitter: EventEmitter<Listener> = EventEmitter::new();
    let seen: Arc<Mutex<Vec<u32>>> = Arc::new(Mutex::new(Vec::new()));
    for n in 0..3u32 {
        let s = seen.clone();
        emitter.on("t", Box::new(move |_e| s.lock().unwrap().push(n)));
    }
    emitter.emit(&events_null_event("t"));
    assert_eq!(*seen.lock().unwrap(), vec![0, 1, 2]);
}

#[test]
fn off_undoes_on_and_ids_count_up() {
    let mut emitter: EventEmitter<Listener> = EventEmitter::new();
    let first = emitter.on("t", Box::new(|_e| {}));
    let second = emitter.on("t", Box::new(|_e| {}));
    assert_eq!(second, first + 1);
    emitter.off("t", second);
    assert_eq!(emitter.listener_count("t"), 1);
    emitter.off("t", first);
    assert_eq!(emitter.listener_count("t"), 0);
    emitter.off("missing", 99);
    assert_eq!(emitter.listener_count("missing"), 0);
    emitter.on("u", Box::new(|_e| {}));
    emitter.remove_all_listeners("u");
    assert_eq!(emitter.listener_count("u"), 0);
}
