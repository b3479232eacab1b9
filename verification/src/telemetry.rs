//! Activity and error reporting on top of a structured tracing pipeline.
//!
//! The [`Telemetry`] layer decides per record whether to act: a record is
//! eligible only when the matching opt-in flag is set *and* the record
//! carries the designated marker field. Both flags default to off, so by
//! default nothing at all is captured. On an eligible record the configured
//! [`Handler`] builds an [`Event`]; delivering it is the surrounding
//! application's concern (tracing callbacks must never block).
//!
//! Identifiers are stable for a single machine: the platform machine id is
//! run through a keyed one-way hash and formatted as a hyphenated
//! identifier, so the raw machine id itself is never part of an event.

use vstd::prelude::*;

use crate::str_eq;

pub mod posthog;

verus! {

/// An error reported by a handler's delivery step. Delivery failures are
/// logged and swallowed by the caller; they never abort the instrumented
/// program.
#[derive(Debug)]
pub struct Error {
    pub message: String,
}

/// The severity level of a captured span or event.
#[derive(Debug, Clone, Copy, PartialEq, Eq, Structural)]
pub enum Level {
    Trace,
    Debug,
    Info,
    Warn,
    Error,
}

/// The lowercase rendering of each severity level.
pub open spec fn level_chars(l: Level) -> Seq<char> {
    match l {
        Level::Trace => "trace"@,
        Level::Debug => "debug"@,
        Level::Info => "info"@,
        Level::Warn => "warn"@,
        Level::Error => "error"@,
    }
}

impl Level {
    /// The lowercase name of the level, as it appears among an event's
    /// properties.
    pub fn as_str(&self) -> (r: &str)
        ensures
            r@ == level_chars(*self),
    {
        match self {
            Level::Trace => "trace",
            Level::Debug => "debug",
            Level::Info => "info",
            Level::Warn => "warn",
            Level::Error => "error",
        }
    }
}

/// A property value attached to an event: the JSON-like scalars that field
/// recording produces.
#[derive(Debug, PartialEq, Eq)]
pub enum Value {
    Str(String),
    U64(u64),
    I64(i64),
    Bool(bool),
}

/// The mathematical shape of a [`Value`].
pub enum ValueView {
    Str(Seq<char>),
    U64(u64),
    I64(i64),
    Bool(bool),
}

impl View for Value {
    type V = ValueView;

    open spec fn view(&self) -> ValueView {
        match self {
            Value::Str(s) => ValueView::Str(s@),
            Value::U64(u) => ValueView::U64(*u),
            Value::I64(i) => ValueView::I64(*i),
            Value::Bool(b) => ValueView::Bool(*b),
        }
    }
}

impl Clone for Value {
    fn clone(&self) -> (r: Self)
        ensures
            r == *self,
    {
        match self {
            Value::Str(s) => Value::Str(s.clone()),
            Value::U64(u) => Value::U64(*u),
            Value::I64(i) => Value::I64(*i),
            Value::Bool(b) => Value::Bool(*b),
        }
    }
}

/// The mapping described by a list of key/value entries where a later entry
/// for a key overwrites an earlier one.
pub open spec fn entries_map(entries: Seq<(String, Value)>) -> Map<Seq<char>, ValueView>
    decreases entries.len(),
{
    if entries.len() == 0 {
        Map::empty()
    } else {
        entries_map(entries.drop_last()).insert(entries.last().0@, entries.last().1@)
    }
}

/// An event's property map: string keys to [`Value`]s, writes for an
/// existing key overwriting the earlier value. Entries keep their insertion
/// order, which is what a backend that consumes them one by one observes;
/// the abstract content is the [`entries_map`] view.
#[derive(Debug)]
pub struct Props {
    pub entries: Vec<(String, Value)>,
}

impl View for Props {
    type V = Map<Seq<char>, ValueView>;

    open spec fn view(&self) -> Map<Seq<char>, ValueView> {
        entries_map(self.entries@)
    }
}

/// Entries whose keys all differ from `k` describe a map without `k`.
proof fn lemma_entries_map_no_key(s: Seq<(String, Value)>, k: Seq<char>)
    requires
        forall|j: int| 0 <= j < s.len() ==> (#[trigger] s[j]).0@ != k,
    ensures
        !entries_map(s).contains_key(k),
    decreases s.len(),
{
    if s.len() > 0 {
        assert(forall|j: int| 0 <= j < s.len() - 1 ==> (#[trigger] s.drop_last()[j]).0@ != k);
        lemma_entries_map_no_key(s.drop_last(), k);
    }
}

/// The value bound to `k` is the one of the last entry carrying `k`.
proof fn lemma_entries_map_found(s: Seq<(String, Value)>, i: int, k: Seq<char>)
    requires
        0 <= i < s.len(),
        s[i].0@ == k,
        forall|j: int| i < j < s.len() ==> (#[trigger] s[j]).0@ != k,
    ensures
        entries_map(s).contains_key(k),
        entries_map(s)[k] == s[i].1@,
    decreases s.len(),
{
    if i == s.len() - 1 {
    } else {
        assert(forall|j: int| i < j < s.len() - 1 ==> (#[trigger] s.drop_last()[j]).0@ != k);
        lemma_entries_map_found(s.drop_last(), i, k);
    }
}

/// Concatenating entry lists unions their maps, the later list winning on
/// collisions.
pub proof fn lemma_entries_map_append(a: Seq<(String, Value)>, b: Seq<(String, Value)>)
    ensures
        entries_map(a + b) == entries_map(a).union_prefer_right(entries_map(b)),
    decreases b.len(),
{
    if b.len() == 0 {
        assert(a + b =~= a);
        assert(entries_map(a).union_prefer_right(entries_map(b)) =~= entries_map(a));
    } else {
        lemma_entries_map_append(a, b.drop_last());
        assert((a + b).drop_last() =~= a + b.drop_last());
        assert((a + b).last() == b.last());
        assert(entries_map(a).union_prefer_right(entries_map(b.drop_last())).insert(
            b.last().0@,
            b.last().1@,
        ) =~= entries_map(a).union_prefer_right(
            entries_map(b.drop_last()).insert(b.last().0@, b.last().1@),
        ));
    }
}

impl Props {
    /// An empty property map.
    pub fn new() -> (p: Props)
        ensures
            p@ == Map::<Seq<char>, ValueView>::empty(),
            p.entries@.len() == 0,
    {
        Props { entries: Vec::new() }
    }

    /// Bind `key` to `value`, overwriting any earlier binding of `key`.
    pub fn insert(&mut self, key: String, value: Value)
        ensures
            final(self)@ == old(self)@.insert(key@, value@),
            final(self).entries@ == old(self).entries@.push((key, value)),
    {
        self.entries.push((key, value));
        proof {
            assert(self.entries@.drop_last() =~= old(self).entries@);
        }
    }

    /// Look up `key`: the value of its last write, if any.
    pub fn get(&self, key: &str) -> (r: Option<&Value>)
        ensures
            match r {
                Some(v) => self@.contains_key(key@) && v@ == self@[key@],
                None => !self@.contains_key(key@),
            },
    {
        let n = self.entries.len();
        let mut idx: usize = n;
        while idx > 0
            invariant
                idx <= n,
                n == self.entries@.len(),
                forall|j: int| idx <= j < n ==> (#[trigger] self.entries@[j]).0@ != key@,
            decreases idx,
        {
            idx = idx - 1;
            if str_eq(self.entries[idx].0.as_str(), key) {
                proof {
                    lemma_entries_map_found(self.entries@, idx as int, key@);
                }
                return Some(&self.entries[idx].1);
            }
        }
        proof {
            lemma_entries_map_no_key(self.entries@, key@);
        }
        None
    }

    /// How many entries have been written (later writes to one key are kept
    /// as separate entries until a backend consumes them in order).
    pub fn len(&self) -> (n: usize)
        ensures
            n == self.entries@.len(),
    {
        self.entries.len()
    }
}

/// A visitor that extracts the fields attached to one span or event into a
/// property map, scoped to the construction of a single [`Event`].
///
/// Mirrors the recording callbacks of a tracing field visitor: scalars are
/// stored as themselves, anything else arrives already rendered to text.
/// The field named `self` is excluded when it arrives through the fallback
/// debug rendering, to avoid leaking internal object dumps.
#[derive(Debug)]
pub struct Visitor {
    pub fields: Props,
}

impl Visitor {
    /// A visitor with no fields recorded yet.
    pub fn new() -> (v: Visitor)
        ensures
            v.fields@ == Map::<Seq<char>, ValueView>::empty(),
            v.fields.entries@.len() == 0,
    {
        Visitor { fields: Props::new() }
    }

    /// Record a field only available through its debug rendering. The field
    /// named `self` is skipped.
    pub fn record_debug(&mut self, name: &str, rendered: String)
        ensures
            name@ == "self"@ ==> *final(self) == *old(self),
            name@ != "self"@ ==> final(self).fields@ == old(self).fields@.insert(
                name@,
                ValueView::Str(rendered@),
            ),
    {
        if str_eq(name, "self") {
            return ;
        }
        self.fields.insert(name.to_owned(), Value::Str(rendered));
    }

    /// Record an unsigned integer field.
    pub fn record_u64(&mut self, name: &str, value: u64)
        ensures
            final(self).fields@ == old(self).fields@.insert(name@, ValueView::U64(value)),
    {
        self.fields.insert(name.to_owned(), Value::U64(value));
    }

    /// Record a signed integer field.
    pub fn record_i64(&mut self, name: &str, value: i64)
        ensures
            final(self).fields@ == old(self).fields@.insert(name@, ValueView::I64(value)),
    {
        self.fields.insert(name.to_owned(), Value::I64(value));
    }

    /// Record a boolean field.
    pub fn record_bool(&mut self, name: &str, value: bool)
        ensures
            final(self).fields@ == old(self).fields@.insert(name@, ValueView::Bool(value)),
    {
        self.fields.insert(name.to_owned(), Value::Bool(value));
    }

    /// Record a string field.
    pub fn record_str(&mut self, name: &str, value: &str)
        ensures
            final(self).fields@ == old(self).fields@.insert(name@, ValueView::Str(value@)),
    {
        self.fields.insert(name.to_owned(), Value::Str(value.to_owned()));
    }

    /// Record an error field, already rendered to its display text.
    pub fn record_error(&mut self, name: &str, rendered: String)
        ensures
            final(self).fields@ == old(self).fields@.insert(name@, ValueView::Str(rendered@)),
    {
        self.fields.insert(name.to_owned(), Value::Str(rendered));
    }

    /// Write every recorded field into `props`, in recording order, so that
    /// on a key collision the recorded field overwrites what `props` held.
    pub fn merge(&self, props: &mut Props)
        ensures
            final(props)@ == old(props)@.union_prefer_right(self.fields@),
            final(props).entries@ == old(props).entries@ + self.fields.entries@,
    {
        let n = self.fields.entries.len();
        let mut i: usize = 0;
        while i < n
            invariant
                i <= n,
                n == self.fields.entries@.len(),
                props.entries@ =~= old(props).entries@ + self.fields.entries@.take(i as int),
            decreases n - i,
        {
            let key = self.fields.entries[i].0.clone();
            let value = self.fields.entries[i].1.clone();
            props.insert(key, value);
            proof {
                assert(self.fields.entries@.take(i + 1).drop_last() =~= self.fields.entries@.take(
                    i as int,
                ));
                assert(props.entries@ =~= old(props).entries@ + self.fields.entries@.take(i + 1));
            }
            i = i + 1;
        }
        proof {
            assert(self.fields.entries@.take(n as int) =~= self.fields.entries@);
            lemma_entries_map_append(old(props).entries@, self.fields.entries@);
        }
    }
}

/// What the telemetry layer reads of one tracing record: its static
/// metadata, and whether its field set carries the designated activity and
/// error marker fields.
#[derive(Debug)]
pub struct Meta {
    /// The record's name.
    pub name: String,
    /// The record's severity level.
    pub level: Level,
    /// The module path where the record originated, when known.
    pub module: Option<String>,
    /// Whether the record's field set declares the designated activity
    /// field.
    pub has_activity_field: bool,
    /// Whether the record's field set declares the designated error field.
    pub has_error_field: bool,
}

/// An event constructed by a handler: what is delivered to a backend.
#[derive(Debug)]
pub struct Event {
    pub name: String,
    pub user_id: String,
    pub properties: Props,
}

/// A handler for telemetry events: builds an [`Event`] from a captured span
/// or event, and delivers it to a backend. Implementations must be safely
/// shareable with the background delivery task, which is why they are
/// cloneable.
pub trait Handler: Sized + Clone {
    /// Construct an event from an eligible new span.
    fn on_span(&self, user_id: String, meta: &Meta, values: &Visitor) -> Event
        requires
            meta.module is Some,
    ;

    /// Construct an event from an eligible tracing event.
    fn on_event(&self, user_id: String, meta: &Meta, values: &Visitor) -> Event
        requires
            meta.module is Some,
    ;

    /// Deliver the event to the backend. This performs the actual I/O and
    /// must not retry internally.
    fn capture(&self, event: Event) -> Result<(), Error>;
}

/// The name of what an HMAC-SHA-256 computation returns: a function of the
/// key and the signed data alone.
pub uninterp spec fn hmac_sha256(key: Seq<char>, data: Seq<char>) -> Seq<u8>;

/// Relies on `ring::hmac::sign` with `ring::hmac::HMAC_SHA256`: the tag
/// depends on the key and the data alone and is one SHA-256 digest — 32
/// bytes — long.
#[verifier::external_body]
fn hmac_tag(key: &str, data: &str) -> (r: Vec<u8>)
    ensures
        r@ == hmac_sha256(key@, data@),
        r@.len() == 32,
{
    let k = ring::hmac::Key::new(ring::hmac::HMAC_SHA256, key.as_bytes());
    ring::hmac::sign(&k, data.as_bytes()).as_ref().to_vec()
}

/// Relies on `machine_uid::get`: reads the platform's stable machine
/// identifier. The value depends on the machine it runs on, so nothing is
/// promised of it.
#[verifier::external_body]
fn machine_identifier() -> (r: Option<String>) {
    machine_uid::get().ok()
}

/// The lowercase hexadecimal digit for a nibble.
pub open spec fn hex_digit(n: u8) -> char {
    if n == 0 {
        '0'
    } else if n == 1 {
        '1'
    } else if n == 2 {
        '2'
    } else if n == 3 {
        '3'
    } else if n == 4 {
        '4'
    } else if n == 5 {
        '5'
    } else if n == 6 {
        '6'
    } else if n == 7 {
        '7'
    } else if n == 8 {
        '8'
    } else if n == 9 {
        '9'
    } else if n == 10 {
        'a'
    } else if n == 11 {
        'b'
    } else if n == 12 {
        'c'
    } else if n == 13 {
        'd'
    } else if n == 14 {
        'e'
    } else {
        'f'
    }
}

/// The two lowercase hexadecimal digits of a byte.
pub open spec fn byte_hex(b: u8) -> Seq<char> {
    seq![hex_digit(b / 16), hex_digit(b % 16)]
}

/// The lowercase hexadecimal rendering of a byte string.
pub open spec fn hex_chars(bytes: Seq<u8>) -> Seq<char>
    decreases bytes.len(),
{
    if bytes.len() == 0 {
        Seq::empty()
    } else {
        byte_hex(bytes[0]) + hex_chars(bytes.skip(1))
    }
}

/// Sixteen bytes rendered as a hyphenated identifier in the usual
/// 8-4-4-4-12 hexadecimal grouping.
pub open spec fn hyphenated(bytes: Seq<u8>) -> Seq<char> {
    hex_chars(bytes.subrange(0, 4)) + seq!['-'] + hex_chars(bytes.subrange(4, 6)) + seq!['-']
        + hex_chars(bytes.subrange(6, 8)) + seq!['-'] + hex_chars(bytes.subrange(8, 10))
        + seq!['-'] + hex_chars(bytes.subrange(10, 16))
}

/// The anonymized user identifier derived from a tool name and a machine
/// identifier: the keyed one-way hash of the machine identifier, truncated
/// to 16 bytes and rendered as a hyphenated identifier.
pub open spec fn user_id_of(tool: Seq<char>, machine: Seq<char>) -> Seq<char> {
    hyphenated(hmac_sha256(tool, machine).take(16))
}

proof fn lemma_hex_chars_snoc(s: Seq<u8>, a: int, i: int)
    requires
        0 <= a <= i < s.len(),
    ensures
        hex_chars(s.subrange(a, i + 1)) == hex_chars(s.subrange(a, i)) + byte_hex(s[i]),
    decreases i - a,
{
    if a == i {
        assert(s.subrange(a, a + 1) =~= seq![s[a]]);
        assert(seq![s[a]].skip(1) =~= Seq::<u8>::empty());
        assert(hex_chars(seq![s[a]]) == byte_hex(s[a]) + hex_chars(seq![s[a]].skip(1)));
        assert(hex_chars(Seq::<u8>::empty()) == Seq::<char>::empty());
        assert(s.subrange(a, a) =~= Seq::<u8>::empty());
        assert(hex_chars(s.subrange(a, a + 1)) =~= hex_chars(s.subrange(a, a)) + byte_hex(s[i]));
    } else {
        lemma_hex_chars_snoc(s, a + 1, i);
        assert(s.subrange(a, i + 1).skip(1) =~= s.subrange(a + 1, i + 1));
        assert(s.subrange(a, i).skip(1) =~= s.subrange(a + 1, i));
        assert(s.subrange(a, i + 1)[0] == s[a]);
        assert(s.subrange(a, i)[0] == s[a]);
        assert(hex_chars(s.subrange(a, i + 1)) =~= hex_chars(s.subrange(a, i)) + byte_hex(s[i]));
    }
}

/// Append the lowercase hexadecimal digit of one nibble.
fn push_nibble(out: &mut String, n: u8)
    requires
        n < 16,
    ensures
        final(out)@ == old(out)@ + seq![hex_digit(n)],
{
    let s: &str = if n == 0 {
        "0"
    } else if n == 1 {
        "1"
    } else if n == 2 {
        "2"
    } else if n == 3 {
        "3"
    } else if n == 4 {
        "4"
    } else if n == 5 {
        "5"
    } else if n == 6 {
        "6"
    } else if n == 7 {
        "7"
    } else if n == 8 {
        "8"
    } else if n == 9 {
        "9"
    } else if n == 10 {
        "a"
    } else if n == 11 {
        "b"
    } else if n == 12 {
        "c"
    } else if n == 13 {
        "d"
    } else if n == 14 {
        "e"
    } else {
        "f"
    };
    proof {
        reveal_strlit("0");
        reveal_strlit("1");
        reveal_strlit("2");
        reveal_strlit("3");
        reveal_strlit("4");
        reveal_strlit("5");
        reveal_strlit("6");
        reveal_strlit("7");
        reveal_strlit("8");
        reveal_strlit("9");
        reveal_strlit("a");
        reveal_strlit("b");
        reveal_strlit("c");
        reveal_strlit("d");
        reveal_strlit("e");
        reveal_strlit("f");
        assert(s@ =~= seq![hex_digit(n)]);
    }
    out.append(s);
}

/// Append the hexadecimal rendering of `bytes[from..to]`.
fn push_hex_range(out: &mut String, bytes: &Vec<u8>, from: usize, to: usize)
    requires
        from <= to <= bytes@.len(),
    ensures
        final(out)@ == old(out)@ + hex_chars(bytes@.subrange(from as int, to as int)),
{
    proof {
        assert(bytes@.subrange(from as int, from as int) =~= Seq::<u8>::empty());
    }
    let mut i: usize = from;
    while i < to
        invariant
            from <= i <= to <= bytes@.len(),
            out@ == old(out)@ + hex_chars(bytes@.subrange(from as int, i as int)),
        decreases to - i,
    {
        let b = bytes[i];
        push_nibble(out, b / 16);
        push_nibble(out, b % 16);
        proof {
            lemma_hex_chars_snoc(bytes@, from as int, i as int);
            assert(out@ =~= old(out)@ + hex_chars(bytes@.subrange(from as int, i + 1)));
        }
        i = i + 1;
    }
}

/// Derive the anonymized user identifier for one tool name and one machine
/// identifier. Deterministic: equal inputs give equal identifiers.
pub fn derive_user_id(tool: &str, machine: &str) -> (r: String)
    ensures
        r@ == user_id_of(tool@, machine@),
{
    let tag = hmac_tag(tool, machine);
    let ghost t16 = tag@.take(16);
    let mut out = String::new();
    push_hex_range(&mut out, &tag, 0, 4);
    out.append("-");
    push_hex_range(&mut out, &tag, 4, 6);
    out.append("-");
    push_hex_range(&mut out, &tag, 6, 8);
    out.append("-");
    push_hex_range(&mut out, &tag, 8, 10);
    out.append("-");
    push_hex_range(&mut out, &tag, 10, 16);
    proof {
        reveal_strlit("-");
        assert(("-")@ =~= seq!['-']);
        assert(t16.subrange(0, 4) =~= tag@.subrange(0, 4));
        assert(t16.subrange(4, 6) =~= tag@.subrange(4, 6));
        assert(t16.subrange(6, 8) =~= tag@.subrange(6, 8));
        assert(t16.subrange(8, 10) =~= tag@.subrange(8, 10));
        assert(t16.subrange(10, 16) =~= tag@.subrange(10, 16));
        assert(out@ =~= hyphenated(t16));
    }
    out
}

/// The anonymized identifier for this machine: the machine identifier — or
/// a fixed sentinel when the platform cannot supply one — keyed with this
/// crate's name. The raw machine identifier never leaves the process.
pub fn uuid() -> (r: String)
    ensures
        exists|m: Seq<char>| r@ == user_id_of("cata"@, m),
{
    let mid = machine_identifier();
    match mid {
        Some(m) => {
            let r = derive_user_id("cata", m.as_str());
            proof {
                assert(r@ == user_id_of("cata"@, m@));
            }
            r
        },
        None => {
            let r = derive_user_id("cata", "unknown");
            proof {
                assert(r@ == user_id_of("cata"@, ("unknown")@));
            }
            r
        },
    }
}

/// A tracing layer that captures eligible spans and events and hands the
/// built [`Event`] back to its caller for delivery.
///
/// Both opt-in flags default to off: a freshly constructed layer captures
/// nothing.
#[derive(Debug)]
pub struct Telemetry<H> {
    pub provider: H,
    pub user_id: String,
    pub emit_activity: bool,
    pub emit_errors: bool,
}

impl<H: Handler> Telemetry<H> {
    /// Create a new telemetry layer with the given handler. Both capture
    /// flags start out disabled, and the user identifier is the anonymized
    /// per-machine identifier.
    pub fn new(handler: H) -> (t: Telemetry<H>)
        ensures
            t.emit_activity == false,
            t.emit_errors == false,
            t.provider == handler,
            exists|m: Seq<char>| t.user_id@ == user_id_of("cata"@, m),
    {
        Telemetry { provider: handler, user_id: uuid(), emit_activity: false, emit_errors: false }
    }

    /// Enable capturing activity spans and events.
    pub fn with_activity(self) -> (t: Self)
        ensures
            t.emit_activity == true,
            t.emit_errors == self.emit_errors,
            t.user_id == self.user_id,
            t.provider == self.provider,
    {
        Telemetry { emit_activity: true, ..self }
    }

    /// Enable capturing error events.
    pub fn with_errors(self) -> (t: Self)
        ensures
            t.emit_errors == true,
            t.emit_activity == self.emit_activity,
            t.user_id == self.user_id,
            t.provider == self.provider,
    {
        Telemetry { emit_errors: true, ..self }
    }

    /// Whether the layer acts on a record with this metadata: an opt-in
    /// flag must be set and the record must carry the matching marker
    /// field. A per-record test, deliberately independent of any global
    /// severity filtering the host application configures.
    pub open spec fn interested_spec(&self, meta: Meta) -> bool {
        (self.emit_activity && meta.has_activity_field) || (self.emit_errors
            && meta.has_error_field)
    }

    /// Check if the layer is interested in the record's metadata.
    pub fn interested(&self, meta: &Meta) -> (r: bool)
        ensures
            r == self.interested_spec(*meta),
    {
        (self.emit_activity && meta.has_activity_field) || (self.emit_errors
            && meta.has_error_field)
    }

    /// Called for each new span: builds an event through the handler
    /// exactly when the span is eligible.
    pub fn on_new_span(&self, meta: &Meta, values: &Visitor) -> (r: Option<Event>)
        requires
            meta.module is Some,
        ensures
            r is Some <==> self.interested_spec(*meta),
    {
        if !self.interested(meta) {
            return None;
        }
        Some(self.provider.on_span(self.user_id.clone(), meta, values))
    }

    /// Called for each tracing event: builds an event through the handler
    /// exactly when the record is eligible.
    pub fn on_event(&self, meta: &Meta, values: &Visitor) -> (r: Option<Event>)
        requires
            meta.module is Some,
        ensures
            r is Some <==> self.interested_spec(*meta),
    {
        if !self.interested(meta) {
            return None;
        }
        Some(self.provider.on_event(self.user_id.clone(), meta, values))
    }
}

/// A layer with both opt-in flags off is interested in no record at all,
/// however eligible-looking: it captures zero events.
pub proof fn lemma_disabled_captures_nothing<H: Handler>(t: Telemetry<H>, meta: Meta)
    requires
        !t.emit_activity,
        !t.emit_errors,
    ensures
        !t.interested_spec(meta),
{
}

/// With only activity capture enabled, eligibility is exactly the presence
/// of the activity marker field; the error marker alone is ignored.
pub proof fn lemma_activity_only_selects_activity<H: Handler>(t: Telemetry<H>, meta: Meta)
    requires
        t.emit_activity,
        !t.emit_errors,
    ensures
        t.interested_spec(meta) == meta.has_activity_field,
{
}

/// With only error capture enabled, eligibility is exactly the presence of
/// the error marker field; the activity marker alone is ignored.
pub proof fn lemma_errors_only_selects_errors<H: Handler>(t: Telemetry<H>, meta: Meta)
    requires
        !t.emit_activity,
        t.emit_errors,
    ensures
        t.interested_spec(meta) == meta.has_error_field,
{
}

/// The anonymized user identifier is deterministic: the same tool name on
/// the same machine identifier always derives the same identifier.
pub proof fn lemma_user_id_deterministic(
    tool1: Seq<char>,
    machine1: Seq<char>,
    tool2: Seq<char>,
    machine2: Seq<char>,
)
    requires
        tool1 == tool2,
        machine1 == machine2,
    ensures
        user_id_of(tool1, machine1) == user_id_of(tool2, machine2),
{
}

} // verus!
