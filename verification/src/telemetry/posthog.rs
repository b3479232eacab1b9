//! Posthog telemetry handler: builds the events that are delivered to
//! Posthog.
//!
//! Activity events are named `cata::activity` and error events
//! `cata::error` by default; both names can be overridden. The payload
//! carries the standard identity properties (record name, library tag,
//! severity level, originating module, crate version), `$screen_name` when
//! the record carries the designated activity field, and every ad hoc field
//! captured from the record. An ad hoc field whose name collides with a
//! standard key overwrites it: the captured value wins.

use vstd::prelude::*;

use crate::telemetry::{level_chars, Event, Meta, Props, Value, ValueView, Visitor};

verus! {

/// The property map sent with an event: the standard identity properties,
/// `$screen_name` when the record carries the activity field, and then every
/// captured field, the captured fields overwriting on any key collision.
pub open spec fn props_spec(meta: Meta, fields: Map<Seq<char>, ValueView>) -> Map<
    Seq<char>,
    ValueView,
>
    recommends
        meta.module is Some,
{
    let base = Map::<Seq<char>, ValueView>::empty().insert("name"@, ValueView::Str(meta.name@))
        .insert("$lib"@, ValueView::Str("telemetry/rust"@)).insert(
        "level"@,
        ValueView::Str(level_chars(meta.level)),
    ).insert("module"@, ValueView::Str(meta.module->0@)).insert(
        "version"@,
        ValueView::Str("0.1.0"@),
    );
    let with_screen = if fields.contains_key("activity"@) {
        base.insert("$screen_name"@, fields["activity"@])
    } else {
        base
    };
    with_screen.union_prefer_right(fields)
}

/// Build the property map for one captured record.
pub fn props(meta: &Meta, visitor: &Visitor) -> (p: Props)
    requires
        meta.module is Some,
    ensures
        p@ == props_spec(*meta, visitor.fields@),
{
    let mut p = Props::new();
    p.insert(String::from_str("name"), Value::Str(meta.name.clone()));
    p.insert(String::from_str("$lib"), Value::Str(String::from_str("telemetry/rust")));
    p.insert(String::from_str("level"), Value::Str(meta.level.as_str().to_owned()));
    if let Some(m) = &meta.module {
        p.insert(String::from_str("module"), Value::Str(m.clone()));
    }
    p.insert(String::from_str("version"), Value::Str(String::from_str("0.1.0")));
    if let Some(v) = visitor.fields.get("activity") {
        p.insert(String::from_str("$screen_name"), v.clone());
    }
    visitor.merge(&mut p);
    proof {
        assert(p@ =~= props_spec(*meta, visitor.fields@));
    }
    p
}

/// On a key collision between a standard property and a captured ad hoc
/// field, the captured field's value wins: it is what the event carries.
pub proof fn lemma_captured_field_wins(meta: Meta, fields: Map<Seq<char>, ValueView>, k: Seq<char>)
    requires
        fields.contains_key(k),
    ensures
        props_spec(meta, fields).contains_key(k),
        props_spec(meta, fields)[k] == fields[k],
{
}

/// Posthog telemetry handler configuration: the API key used by the
/// delivery step, and the names under which activity and error events are
/// reported.
#[derive(Debug)]
pub struct Posthog {
    pub api_key: String,
    pub on_span: String,
    pub on_event: String,
}

impl Posthog {
    /// Create a new Posthog handler using the given API key, with the
    /// default event names.
    pub fn new(api_key: &str) -> (r: Self)
        ensures
            r.api_key@ == api_key@,
            r.on_span@ == "cata::activity"@,
            r.on_event@ == "cata::error"@,
    {
        Posthog {
            api_key: api_key.to_owned(),
            on_span: String::from_str("cata::activity"),
            on_event: String::from_str("cata::error"),
        }
    }

    /// Set the names of the events to use in place of the defaults.
    pub fn with_names(self, on_span: &str, on_event: &str) -> (r: Self)
        ensures
            r.api_key@ == self.api_key@,
            r.on_span@ == on_span@,
            r.on_event@ == on_event@,
    {
        Posthog { api_key: self.api_key, on_span: on_span.to_owned(), on_event: on_event.to_owned() }
    }
}

impl Posthog {
    /// Build the activity event for an eligible new span: named by this
    /// handler's span event name, attributed to `user_id`, carrying the
    /// full property map.
    pub fn on_span(&self, user_id: String, meta: &Meta, values: &Visitor) -> (ev: Event)
        requires
            meta.module is Some,
        ensures
            ev.name@ == self.on_span@,
            ev.user_id@ == user_id@,
            ev.properties@ == props_spec(*meta, values.fields@),
    {
        Event { name: self.on_span.clone(), user_id, properties: props(meta, values) }
    }

    /// Build the error event for an eligible tracing event: named by this
    /// handler's event name, attributed to `user_id`, carrying the full
    /// property map.
    pub fn on_event(&self, user_id: String, meta: &Meta, values: &Visitor) -> (ev: Event)
        requires
            meta.module is Some,
        ensures
            ev.name@ == self.on_event@,
            ev.user_id@ == user_id@,
            ev.properties@ == props_spec(*meta, values.fields@),
    {
        Event { name: self.on_event.clone(), user_id, properties: props(meta, values) }
    }
}

impl Clone for Posthog {
    fn clone(&self) -> (r: Self)
        ensures
            r.api_key@ == self.api_key@,
            r.on_span@ == self.on_span@,
            r.on_event@ == self.on_event@,
    {
        Posthog {
            api_key: self.api_key.clone(),
            on_span: self.on_span.clone(),
            on_event: self.on_event.clone(),
        }
    }
}

} // verus!
