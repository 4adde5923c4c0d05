use vstd::prelude::*;

use crate::field::{
    fields_view, is_reserved, is_reserved_key, text_equals, text_field, Field, FieldValue,
    JsonValue,
};
use crate::level::{format_log_level, level_label, Severity};

verus! {

/// What the record needs to know of one event: its metadata and its own fields.
#[derive(Debug)]
pub struct EventData {
    pub target: String,
    pub level: Severity,
    pub file: Option<String>,
    pub line: Option<u32>,
    pub fields: Vec<Field>,
}

/// The span that is active when an event fires: its name and the fields
/// accumulated on it.
#[derive(Debug)]
pub struct SpanData {
    pub name: String,
    pub fields: Vec<Field>,
}

/// The value stored under `key`, taken from the first pair that has that key.
pub open spec fn lookup(s: Seq<(Seq<char>, JsonValue)>, key: Seq<char>) -> Option<JsonValue>
    decreases s.len(),
{
    if s.len() == 0 {
        None
    } else if s[0].0 == key {
        Some(s[0].1)
    } else {
        lookup(s.drop_first(), key)
    }
}

/// The record's `msg`: the event's `message` field when it holds a string,
/// else the event's target.
pub open spec fn message_of(fields: Seq<(Seq<char>, JsonValue)>, target: Seq<char>) -> Seq<char> {
    match lookup(fields, "message"@) {
        Some(JsonValue::Str(m)) => m,
        _ => target,
    }
}

/// Whether a caller-supplied field goes into the record. Reserved names never
/// do; the event's `message` is left out too, as it already became `msg`.
pub open spec fn keeps(f: (Seq<char>, JsonValue), drop_message: bool) -> bool {
    !is_reserved_key(f.0) && !(drop_message && f.0 == "message"@)
}

/// The caller-supplied fields that go into the record, in their order.
pub open spec fn kept_fields(s: Seq<(Seq<char>, JsonValue)>, drop_message: bool) -> Seq<(Seq<char>, JsonValue)>
    decreases s.len(),
{
    if s.len() == 0 {
        Seq::empty()
    } else {
        let rest = kept_fields(s.drop_last(), drop_message);
        if keeps(s.last(), drop_message) {
            rest.push(s.last())
        } else {
            rest
        }
    }
}

/// The decimal digits of a number, without sign or padding.
pub open spec fn decimal(n: nat) -> Seq<char>
    decreases n,
{
    if n < 10 {
        seq!["0123456789"@[n as int]]
    } else {
        decimal(n / 10).push("0123456789"@[(n % 10) as int])
    }
}

/// The record's `line`: the number, or null when unknown.
pub open spec fn line_value(line: Option<u32>) -> JsonValue {
    match line {
        Some(n) => JsonValue::Number(decimal(n as nat)),
        None => JsonValue::Null,
    }
}

/// The record's `file`: the path, or null when unknown.
pub open spec fn file_value(file: Option<String>) -> JsonValue {
    match file {
        Some(f) => JsonValue::Str(f@),
        None => JsonValue::Null,
    }
}

/// The span a caller passed, as a value.
pub open spec fn span_of(span: Option<&SpanData>) -> Option<SpanData> {
    match span {
        Some(s) => Some(*s),
        None => None,
    }
}

/// The core fields, which always come first: `msg`, `level` and `time`.
pub open spec fn core_fields(event: EventData, time: Seq<char>) -> Seq<(Seq<char>, JsonValue)> {
    seq![
        ("msg"@, JsonValue::Str(message_of(fields_view(event.fields@), event.target@))),
        ("level"@, JsonValue::Str(level_label(event.level))),
        ("time"@, JsonValue::Str(time)),
    ]
}

/// The fields of a record, in order: the core fields, `event` when a span is
/// active, `target`, `line` and `file`, the event's own kept fields, then the
/// span's kept fields.
pub open spec fn record_view(event: EventData, span: Option<SpanData>, time: Seq<char>) -> Seq<(Seq<char>, JsonValue)> {
    let name = match span {
        Some(sp) => seq![("event"@, JsonValue::Str(sp.name@))],
        None => Seq::empty(),
    };
    let meta = seq![
        ("target"@, JsonValue::Str(event.target@)),
        ("line"@, line_value(event.line)),
        ("file"@, file_value(event.file)),
    ];
    let inherited = match span {
        Some(sp) => kept_fields(fields_view(sp.fields@), false),
        None => Seq::empty(),
    };
    core_fields(event, time) + name + meta + kept_fields(fields_view(event.fields@), true) + inherited
}

/// Appending a field appends its model.
pub proof fn lemma_fields_view_push(s: Seq<Field>, f: Field)
    ensures
        fields_view(s.push(f)) == fields_view(s).push(f@),
{
    assert(fields_view(s.push(f)) =~= fields_view(s).push(f@));
}

/// The text of one decimal digit.
fn digit_text(d: u32) -> (r: &'static str)
    requires
        d < 10,
    ensures
        r@ == seq!["0123456789"@[d as int]],
{
    proof {
        reveal_strlit("0123456789");
        reveal_strlit("0");
        reveal_strlit("1");
        reveal_strlit("2");
        reveal_strlit("3");
        reveal_strlit("4");
        reveal_strlit("5");
        reveal_strlit("6");
        reveal_strlit("7");
        reveal_strlit("8");
        reveal_strlit("9");
    }
    let r = match d {
        0 => "0",
        1 => "1",
        2 => "2",
        3 => "3",
        4 => "4",
        5 => "5",
        6 => "6",
        7 => "7",
        8 => "8",
        _ => "9",
    };
    assert(r@ =~= seq!["0123456789"@[d as int]]);
    r
}

/// Writes a number in decimal digits.
fn decimal_text(n: u32) -> (r: String)
    ensures
        r@ == decimal(n as nat),
    decreases n,
{
    if n < 10 {
        String::from_str(digit_text(n))
    } else {
        let mut out = decimal_text(n / 10);
        out.append(digit_text(n % 10));
        out
    }
}

/// Finds the record's `msg`: the event's `message` field when it is a string,
/// otherwise the event's target.
pub fn format_event_message(event: &EventData) -> (r: String)
    ensures
        r@ == message_of(fields_view(event.fields@), event.target@),
{
    let ghost fv = fields_view(event.fields@);
    let n: usize = event.fields.len();
    let mut i: usize = 0;
    assert(fv.subrange(0, n as int) =~= fv);
    while i < n
        invariant
            n == event.fields@.len(),
            fv == fields_view(event.fields@),
            i <= n,
            lookup(fv, "message"@) == lookup(fv.subrange(i as int, n as int), "message"@),
        decreases n - i,
    {
        let f = &event.fields[i];
        assert(fv.subrange(i as int, n as int)[0] == f@);
        if text_equals(f.key.as_str(), "message") {
            return match &f.value {
                FieldValue::Str(s) => s.clone(),
                _ => event.target.clone(),
            };
        }
        assert(fv.subrange(i as int, n as int).drop_first() =~= fv.subrange(i + 1, n as int));
        i = i + 1;
    }
    event.target.clone()
}

fn push_field(out: &mut Vec<Field>, f: Field)
    ensures
        fields_view(final(out)@) == fields_view(old(out)@).push(f@),
{
    proof {
        lemma_fields_view_push(old(out)@, f);
    }
    out.push(f);
}

/// Appends, in order, the fields of `fields` that the record keeps.
fn append_kept(out: &mut Vec<Field>, fields: &Vec<Field>, drop_message: bool)
    ensures
        fields_view(final(out)@) == fields_view(old(out)@) + kept_fields(fields_view(fields@), drop_message),
{
    let n: usize = fields.len();
    let mut i: usize = 0;
    while i < n
        invariant
            n == fields@.len(),
            i <= n,
            fields_view(out@) == fields_view(old(out)@) + kept_fields(fields_view(fields@.take(i as int)), drop_message),
        decreases n - i,
    {
        let f = &fields[i];
        let ghost before = fields_view(fields@.take(i as int));
        let ghost after = fields_view(fields@.take(i + 1));
        assert(after.drop_last() =~= before);
        assert(after.last() == f@);
        let skip = is_reserved(f.key.as_str()) || (drop_message && text_equals(f.key.as_str(), "message"));
        if !skip {
            push_field(out, f.duplicate());
        }
        i = i + 1;
    }
    assert(fields@.take(n as int) =~= fields@);
}

/// Builds the fields of the Bunyan record for `event`, stamped with `time`.
///
/// Reserved names supplied by the event or the span are dropped, so the core
/// fields keep the values assigned here.
pub fn record_fields(event: &EventData, span: Option<&SpanData>, time: &str) -> (r: Vec<Field>)
    ensures
        fields_view(r@) == record_view(*event, span_of(span), time@),
{
    let mut out: Vec<Field> = Vec::new();
    let message = format_event_message(event);
    push_field(&mut out, text_field("msg", message.as_str()));
    push_field(&mut out, text_field("level", format_log_level(event.level)));
    push_field(&mut out, text_field("time", time));
    if let Some(sp) = span {
        push_field(&mut out, text_field("event", sp.name.as_str()));
    }
    push_field(&mut out, text_field("target", event.target.as_str()));
    let line = match event.line {
        Some(n) => FieldValue::Number(decimal_text(n)),
        None => FieldValue::Null,
    };
    push_field(&mut out, Field { key: "line".to_owned(), value: line });
    let file = match &event.file {
        Some(f) => FieldValue::Str(f.clone()),
        None => FieldValue::Null,
    };
    push_field(&mut out, Field { key: "file".to_owned(), value: file });
    append_kept(&mut out, &event.fields, true);
    if let Some(sp) = span {
        append_kept(&mut out, &sp.fields, false);
    }
    assert(fields_view(out@) =~= record_view(*event, span_of(span), time@));
    out
}

/// Every field that `kept_fields` lets through passes `keeps`.
pub proof fn lemma_kept_fields_keep(s: Seq<(Seq<char>, JsonValue)>, drop_message: bool)
    ensures
        forall|i: int| 0 <= i < kept_fields(s, drop_message).len() ==> keeps(#[trigger] kept_fields(s, drop_message)[i], drop_message),
    decreases s.len(),
{
    if s.len() > 0 {
        lemma_kept_fields_keep(s.drop_last(), drop_message);
        let r = kept_fields(s.drop_last(), drop_message);
        if keeps(s.last(), drop_message) {
            assert forall|i: int| 0 <= i < r.len() + 1 implies keeps(#[trigger] r.push(s.last())[i], drop_message) by {
                if i < r.len() {
                    assert(r.push(s.last())[i] == r[i]);
                }
            }
        }
    }
}

/// Every field that passes `keeps` is let through by `kept_fields`.
pub proof fn lemma_kept_fields_contain(s: Seq<(Seq<char>, JsonValue)>, drop_message: bool, j: int)
    requires
        0 <= j < s.len(),
        keeps(s[j], drop_message),
    ensures
        kept_fields(s, drop_message).contains(s[j]),
    decreases s.len(),
{
    let k = kept_fields(s, drop_message);
    if j == s.len() - 1 {
        assert(k[k.len() - 1] == s[j]);
    } else {
        lemma_kept_fields_contain(s.drop_last(), drop_message, j);
        let r = kept_fields(s.drop_last(), drop_message);
        let m = choose|m: int| 0 <= m < r.len() && r[m] == s[j];
        if keeps(s.last(), drop_message) {
            assert(k[m] == s[j]);
        }
    }
}

/// Without an active span the record holds the core fields, `target`, `line`
/// and `file`, then the event's own kept fields, and nothing else; in
/// particular no `event` field unless the event itself supplied one.
pub proof fn lemma_record_without_span(event: EventData, time: Seq<char>)
    ensures
        record_view(event, None, time) == core_fields(event, time) + seq![
            ("target"@, JsonValue::Str(event.target@)),
            ("line"@, line_value(event.line)),
            ("file"@, file_value(event.file)),
        ] + kept_fields(fields_view(event.fields@), true),
        (forall|j: int| 0 <= j < event.fields@.len() ==> event.fields@[j].key@ != "event"@) ==>
            (forall|i: int| 0 <= i < record_view(event, None, time).len() ==> #[trigger] record_view(event, None, time)[i].0 != "event"@),
{
    let r = record_view(event, None, time);
    let own = kept_fields(fields_view(event.fields@), true);
    assert(r =~= core_fields(event, time) + seq![
        ("target"@, JsonValue::Str(event.target@)),
        ("line"@, line_value(event.line)),
        ("file"@, file_value(event.file)),
    ] + own);
    if forall|j: int| 0 <= j < event.fields@.len() ==> event.fields@[j].key@ != "event"@ {
        reveal_strlit("event");
        reveal_strlit("msg");
        reveal_strlit("level");
        reveal_strlit("time");
        reveal_strlit("target");
        reveal_strlit("line");
        reveal_strlit("file");
        assert forall|i: int| 0 <= i < r.len() implies #[trigger] r[i].0 != "event"@ by {
            if i >= 6 {
                let fv = fields_view(event.fields@);
                if r[i].0 == "event"@ {
                    assert(own.contains(r[i]));
                    lemma_kept_fields_subset(fv, true, i - 6);
                }
            } else {
                assert(r[i].0.len() != 5 || r[i].0[0] != 'e');
            }
        }
    }
}

/// Every field that `kept_fields` lets through comes from its input.
pub proof fn lemma_kept_fields_subset(s: Seq<(Seq<char>, JsonValue)>, drop_message: bool, i: int)
    requires
        0 <= i < kept_fields(s, drop_message).len(),
    ensures
        s.contains(kept_fields(s, drop_message)[i]),
    decreases s.len(),
{
    let r = kept_fields(s.drop_last(), drop_message);
    if i < r.len() {
        lemma_kept_fields_subset(s.drop_last(), drop_message, i);
        let m = choose|m: int| 0 <= m < s.drop_last().len() && s.drop_last()[m] == r[i];
        assert(s[m] == r[i]);
    } else {
        assert(s[s.len() - 1] == s.last());
    }
}

/// With an active span the record names the span in `event`, right after the
/// core fields, and carries every non-reserved field of the span besides the
/// event's own.
pub proof fn lemma_record_with_span(event: EventData, span: SpanData, time: Seq<char>)
    ensures
        record_view(event, Some(span), time)[3] == ("event"@, JsonValue::Str(span.name@)),
        forall|j: int| 0 <= j < span.fields@.len() && !is_reserved_key(#[trigger] span.fields@[j].key@) ==>
            record_view(event, Some(span), time).contains(span.fields@[j]@),
        forall|j: int| 0 <= j < event.fields@.len() && keeps(#[trigger] event.fields@[j]@, true) ==>
            record_view(event, Some(span), time).contains(event.fields@[j]@),
{
    let r = record_view(event, Some(span), time);
    let ev = fields_view(event.fields@);
    let sv = fields_view(span.fields@);
    let own = kept_fields(ev, true);
    let inherited = kept_fields(sv, false);
    assert forall|j: int| 0 <= j < span.fields@.len() && !is_reserved_key(#[trigger] span.fields@[j].key@) implies
        r.contains(span.fields@[j]@) by {
        assert(sv[j] == span.fields@[j]@);
        lemma_kept_fields_contain(sv, false, j);
        let m = choose|m: int| 0 <= m < inherited.len() && inherited[m] == sv[j];
        assert(r[7 + own.len() + m] == inherited[m]);
    }
    assert forall|j: int| 0 <= j < event.fields@.len() && keeps(#[trigger] event.fields@[j]@, true) implies
        r.contains(event.fields@[j]@) by {
        assert(ev[j] == event.fields@[j]@);
        lemma_kept_fields_contain(ev, true, j);
        let m = choose|m: int| 0 <= m < own.len() && own[m] == ev[j];
        assert(r[7 + m] == own[m]);
    }
}

/// The names of the fields between the core fields and the caller-supplied
/// ones are not reserved.
pub proof fn lemma_meta_names_not_reserved()
    ensures
        !is_reserved_key("event"@),
        !is_reserved_key("target"@),
        !is_reserved_key("line"@),
        !is_reserved_key("file"@),
{
    reveal_strlit("event");
    reveal_strlit("msg");
    reveal_strlit("level");
    reveal_strlit("time");
    reveal_strlit("target");
    reveal_strlit("line");
    reveal_strlit("file");
    assert("event"@.len() == 5 && "level"@.len() == 5 && "msg"@.len() == 3 && "time"@.len() == 4);
    assert("target"@.len() == 6 && "line"@.len() == 4 && "file"@.len() == 4);
    assert("event"@[0] != "level"@[0]);
    assert("event"@ != "level"@);
    assert("line"@[0] != "time"@[0]);
    assert("file"@[0] != "time"@[0]);
}

/// A reserved name appears in a record only among its first three fields,
/// the core fields, which carry the values assigned by the formatter:
/// whatever the event or the span supplied under such a name is dropped.
pub proof fn lemma_reserved_names_are_core(event: EventData, span: Option<SpanData>, time: Seq<char>)
    ensures
        record_view(event, span, time).subrange(0, 3) == core_fields(event, time),
        forall|i: int| 0 <= i < record_view(event, span, time).len() && is_reserved_key(#[trigger] record_view(event, span, time)[i].0) ==> i < 3,
{
    let r = record_view(event, span, time);
    let ev = fields_view(event.fields@);
    let own = kept_fields(ev, true);
    let name_len: int = if span is Some { 1 } else { 0 };
    lemma_kept_fields_keep(ev, true);
    assert(r.subrange(0, 3) =~= core_fields(event, time));
    reveal_strlit("event");
    reveal_strlit("msg");
    reveal_strlit("level");
    reveal_strlit("time");
    reveal_strlit("target");
    reveal_strlit("line");
    reveal_strlit("file");
    assert forall|i: int| 0 <= i < r.len() && is_reserved_key(#[trigger] r[i].0) implies i < 3 by {
        if i >= 3 {
            if i < 6 + name_len {
                lemma_meta_names_not_reserved();
                assert(r[i].0 == "event"@ || r[i].0 == "target"@ || r[i].0 == "line"@ || r[i].0 == "file"@);
            } else if i < 6 + name_len + own.len() {
                assert(r[i] == own[i - 6 - name_len]);
            } else {
                let sp = span.unwrap();
                let sv = fields_view(sp.fields@);
                lemma_kept_fields_keep(sv, false);
                assert(r[i] == kept_fields(sv, false)[i - 6 - name_len - own.len()]);
            }
        }
    }
}

} // verus!
