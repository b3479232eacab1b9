use cata::telemetry::{
    derive_user_id, Event, Handler, Level, Meta, Props, Telemetry, Value, Visitor,
};

#[derive(Clone)]
struct NullHandler;

impl Handler for NullHandler {
    fn on_span(&self, user_id: String, meta: &Meta, _values: &Visitor) -> Event {
        Event {
            name: format!("span:{}", meta.name),
            user_id,
            properties: Props { entries: vec![] },
        }
    }

    fn on_event(&self, user_id: String, meta: &Meta, _values: &Visitor) -> Event {
        Event {
            name: format!("event:{}", meta.name),
            user_id,
            properties: Props { entries: vec![] },
        }
    }

    fn capture(&self, _event: Event) -> Result<(), cata::telemetry::Error> {
        Ok(())
    }
}

fn meta(has_activity: bool, has_error: bool) -> Meta {
    Meta {
        name: "record".to_string(),
        level: Level::Info,
        module: Some("my_tool::cmd".to_string()),
        has_activity_field: has_activity,
        has_error_field: has_error,
    }
}

#[test]
fn disabled_layer_captures_nothing() {
    let layer = Telemetry::new(NullHandler);
    assert!(!layer.emit_activity);
    assert!(!layer.emit_errors);
    let values = Visitor::new();
    // However eligible-looking the records are, nothing is captured.
    assert!(layer.on_new_span(&meta(true, true), &values).is_none());
    assert!(layer.on_event(&meta(true, true), &values).is_none());
    assert!(layer.on_new_span(&meta(true, false), &values).is_none());
    assert!(layer.on_event(&meta(false, true), &values).is_none());
}

#[test]
fn activity_only_captures_activity_records() {
    let layer = Telemetry::new(NullHandler).with_activity();
    let values = Visitor::new();
    assert!(layer.on_new_span(&meta(true, false), &values).is_some());
    assert!(layer.on_event(&meta(true, false), &values).is_some());
    // A record carrying only the error field is ignored.
    assert!(layer.on_new_span(&meta(false, true), &values).is_none());
    assert!(layer.on_event(&meta(false, true), &values).is_none());
}

#[test]
fn errors_only_captures_error_records() {
    let layer = Telemetry::new(NullHandler).with_errors();
    let values = Visitor::new();
    assert!(layer.on_event(&meta(false, true), &values).is_some());
    assert!(layer.on_new_span(&meta(false, true), &values).is_some());
    // A record carrying only the activity field is ignored.
    assert!(layer.on_event(&meta(true, false), &values).is_none());
    assert!(layer.on_new_span(&meta(true, false), &values).is_none());
}

#[test]
fn captured_event_comes_from_the_handler() {
    let layer = Telemetry::new(NullHandler).with_activity().with_errors();
    let values = Visitor::new();
    let ev = layer.on_new_span(&meta(true, false), &values).unwrap();
    assert_eq!(ev.name, "span:record");
    assert_eq!(ev.user_id, layer.user_id);
    let ev = layer.on_event(&meta(false, true), &values).unwrap();
    assert_eq!(ev.name, "event:record");
}

#[test]
fn user_id_is_deterministic_per_machine_and_tool() {
    let a = derive_user_id("my-tool", "machine-1234");
    let b = derive_user_id("my-tool", "machine-1234");
    assert_eq!(a, b);
    // Two layers on the same machine agree on the identifier.
    let one = Telemetry::new(NullHandler);
    let two = Telemetry::new(NullHandler);
    assert_eq!(one.user_id, two.user_id);
}

#[test]
fn user_id_changes_with_the_tool_name() {
    let a = derive_user_id("tool-a", "machine-1234");
    let b = derive_user_id("tool-b", "machine-1234");
    assert_ne!(a, b);
    let c = derive_user_id("tool-a", "machine-5678");
    assert_ne!(a, c);
}

#[test]
fn user_id_matches_a_known_hmac_vector() {
    // HMAC-SHA-256 with key "Jefe" over "what do ya want for nothing?"
    // begins 5bdcc146 bf60754e 6a042426 089575c7; the identifier is its
    // first sixteen bytes, hyphenated.
    let id = derive_user_id("Jefe", "what do ya want for nothing?");
    assert_eq!(id, "5bdcc146-bf60-754e-6a04-2426089575c7");
}

#[test]
fn user_id_is_a_hyphenated_identifier() {
    let id = derive_user_id("my-tool", "machine-1234");
    assert_eq!(id.len(), 36);
    let bytes = id.as_bytes();
    for (i, b) in bytes.iter().enumerate() {
        if i == 8 || i == 13 || i == 18 || i == 23 {
            assert_eq!(*b, b'-');
        } else {
            assert!(b.is_ascii_hexdigit() && !b.is_ascii_uppercase());
        }
    }
}

#[test]
fn visitor_records_scalars_and_skips_self() {
    let mut v = Visitor::new();
    v.record_str("activity", "list::all");
    v.record_u64("count", 7);
    v.record_i64("offset", -3);
    v.record_bool("verbose", true);
    v.record_debug("self", "Cmd { .. }".to_string());
    v.record_debug("extra", "Extra(1)".to_string());
    v.record_error("error", "file missing".to_string());
    assert_eq!(v.fields.len(), 6);
    assert_eq!(
        v.fields.get("activity"),
        Some(&Value::Str("list::all".to_string()))
    );
    assert_eq!(v.fields.get("count"), Some(&Value::U64(7)));
    assert_eq!(v.fields.get("offset"), Some(&Value::I64(-3)));
    assert_eq!(v.fields.get("verbose"), Some(&Value::Bool(true)));
    assert_eq!(v.fields.get("self"), None);
    assert_eq!(
        v.fields.get("extra"),
        Some(&Value::Str("Extra(1)".to_string()))
    );
    assert_eq!(
        v.fields.get("error"),
        Some(&Value::Str("file missing".to_string()))
    );
}

#[test]
fn props_overwrite_on_repeated_key() {
    let mut p = Props::new();
    p.insert("key".to_string(), Value::U64(1));
    p.insert("key".to_string(), Value::U64(2));
    assert_eq!(p.get("key"), Some(&Value::U64(2)));
    assert_eq!(p.get("other"), None);
}

#[test]
fn level_names_are_lowercase() {
    assert_eq!(Level::Trace.as_str(), "trace");
    assert_eq!(Level::Debug.as_str(), "debug");
    assert_eq!(Level::Info.as_str(), "info");
    assert_eq!(Level::Warn.as_str(), "warn");
    assert_eq!(Level::Error.as_str(), "error");
}
