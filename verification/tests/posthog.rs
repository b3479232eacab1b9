use cata::telemetry::posthog::{props, Posthog};
use cata::telemetry::{Level, Meta, Value, Visitor};

fn meta() -> Meta {
    Meta {
        name: "my_function".to_string(),
        level: Level::Info,
        module: Some("my_tool::cmd".to_string()),
        has_activity_field: true,
        has_error_field: false,
    }
}

#[test]
fn new_uses_default_event_names() {
    let ph = Posthog::new("api-key");
    assert_eq!(ph.api_key, "api-key");
    assert_eq!(ph.on_span, "cata::activity");
    assert_eq!(ph.on_event, "cata::error");
}

#[test]
fn with_names_overrides_event_names() {
    let ph = Posthog::new("api-key").with_names("tool::usage", "tool::blowup");
    assert_eq!(ph.api_key, "api-key");
    assert_eq!(ph.on_span, "tool::usage");
    assert_eq!(ph.on_event, "tool::blowup");
}

#[test]
fn props_carry_standard_identity_fields() {
    let mut v = Visitor::new();
    v.record_str("activity", "parent::child");
    let p = props(&meta(), &v);
    assert_eq!(p.get("name"), Some(&Value::Str("my_function".to_string())));
    assert_eq!(p.get("$lib"), Some(&Value::Str("telemetry/rust".to_string())));
    assert_eq!(p.get("level"), Some(&Value::Str("info".to_string())));
    assert_eq!(p.get("module"), Some(&Value::Str("my_tool::cmd".to_string())));
    assert_eq!(p.get("version"), Some(&Value::Str("0.1.0".to_string())));
    assert_eq!(
        p.get("$screen_name"),
        Some(&Value::Str("parent::child".to_string()))
    );
    assert_eq!(
        p.get("activity"),
        Some(&Value::Str("parent::child".to_string()))
    );
}

#[test]
fn props_without_activity_field_have_no_screen_name() {
    let v = Visitor::new();
    let p = props(&meta(), &v);
    assert_eq!(p.get("$screen_name"), None);
}

#[test]
fn captured_field_overwrites_standard_key() {
    let mut v = Visitor::new();
    v.record_str("name", "the ad hoc name");
    let p = props(&meta(), &v);
    // Last write wins: the ad hoc field's value is what the event carries.
    assert_eq!(p.get("name"), Some(&Value::Str("the ad hoc name".to_string())));
}

#[test]
fn on_span_and_on_event_build_named_events() {
    let ph = Posthog::new("api-key");
    let mut v = Visitor::new();
    v.record_str("activity", "parent::child");
    let ev = ph.on_span("user-1".to_string(), &meta(), &v);
    assert_eq!(ev.name, "cata::activity");
    assert_eq!(ev.user_id, "user-1");
    assert_eq!(
        ev.properties.get("$screen_name"),
        Some(&Value::Str("parent::child".to_string()))
    );
    let ev = ph.on_event("user-2".to_string(), &meta(), &v);
    assert_eq!(ev.name, "cata::error");
    assert_eq!(ev.user_id, "user-2");
}
