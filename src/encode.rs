use vstd::prelude::*;

use crate::number::{
    is_digit, is_json_number, is_number_text, lemma_digits_end_all, lemma_number_one_line,
};
use crate::field::{fields_view, Field, FieldValue, JsonValue};
use crate::record::{
    core_fields, decimal, file_value, kept_fields, lemma_kept_fields_subset, line_value,
    record_fields, record_view, span_of, EventData, SpanData,
};

verus! {

#[verifier::external_type_specification]
#[verifier::external_body]
pub struct ExJsonError(serde_json::Error);

/// Why a record could not be rendered; the record is then dropped.
#[derive(Clone, Copy, Debug, PartialEq, Eq, Structural)]
pub enum FormatError {
    /// A number's text is not a JSON number literal, so the value cannot be
    /// represented.
    InvalidNumber,
}

/// How one character is written inside a JSON string literal: `"` and `\`
/// behind a backslash, the usual short escapes for backspace, form feed,
/// newline, carriage return and tab, any other control character as
/// `\u00XX` with lower-case hex digits, and every other character as itself.
pub open spec fn escaped_char(c: char) -> Seq<char> {
    if c == '"' {
        seq!['\\', '"']
    } else if c == '\\' {
        seq!['\\', '\\']
    } else if c == '\x08' {
        seq!['\\', 'b']
    } else if c == '\x0c' {
        seq!['\\', 'f']
    } else if c == '\n' {
        seq!['\\', 'n']
    } else if c == '\r' {
        seq!['\\', 'r']
    } else if c == '\t' {
        seq!['\\', 't']
    } else if (c as u32) < 0x20 {
        seq!['\\', 'u', '0', '0', "0123456789abcdef"@[((c as u32) / 16) as int], "0123456789abcdef"@[((c as u32) % 16) as int]]
    } else {
        seq![c]
    }
}

/// The characters of a text, each escaped.
pub open spec fn escaped(s: Seq<char>) -> Seq<char>
    decreases s.len(),
{
    if s.len() == 0 {
        Seq::empty()
    } else {
        escaped(s.drop_last()) + escaped_char(s.last())
    }
}

/// The JSON string literal of a text.
pub open spec fn json_string(s: Seq<char>) -> Seq<char> {
    seq!['"'] + escaped(s) + seq!['"']
}

/// Relies on `serde_json::to_string` applied to a `str`: it writes into a
/// `Vec`, which cannot fail, the text between quotes with the escapes of
/// serde_json's escape table.
#[verifier::external_body]
fn quote(s: &str) -> (r: Result<String, serde_json::Error>)
    ensures
        r is Ok,
        r is Ok ==> r->Ok_0@ == json_string(s@),
{
    serde_json::to_string(s)
}

proof fn lemma_escaped_one_line(s: Seq<char>)
    ensures
        one_line(escaped(s)),
    decreases s.len(),
{
    reveal_strlit("0123456789abcdef");
    if s.len() > 0 {
        lemma_escaped_one_line(s.drop_last());
        assert(one_line(escaped_char(s.last())));
        lemma_one_line_concat(escaped(s.drop_last()), escaped_char(s.last()));
    }
}

/// A JSON string literal holds no raw newline.
pub proof fn lemma_json_string_one_line(s: Seq<char>)
    ensures
        one_line(json_string(s)),
{
    lemma_escaped_one_line(s);
    lemma_one_line_concat(seq!['"'], escaped(s));
    lemma_one_line_concat(seq!['"'] + escaped(s), seq!['"']);
}

/// The JSON text of one value; arrays and objects are written compactly,
/// their elements in order.
pub open spec fn value_text(v: JsonValue) -> Seq<char>
    decreases v,
{
    match v {
        JsonValue::Null => "null"@,
        JsonValue::Bool(b) => if b { "true"@ } else { "false"@ },
        JsonValue::Number(n) => n,
        JsonValue::Str(s) => json_string(s),
        JsonValue::Array(items) => "["@ + comma_joined(element_texts(items)) + "]"@,
        JsonValue::Object(keys, values) => object_of(member_texts(keys, values)),
    }
}

/// The JSON texts of the elements of an array.
pub open spec fn element_texts(items: Seq<JsonValue>) -> Seq<Seq<char>>
    decreases items,
{
    Seq::new(items.len(), |i: int| if 0 <= i < items.len() { value_text(items[i]) } else { Seq::empty() })
}

/// The JSON texts of the members of an object, `"key":value` each.
pub open spec fn member_texts(keys: Seq<Seq<char>>, values: Seq<JsonValue>) -> Seq<Seq<char>>
    decreases values,
{
    Seq::new(
        keys.len(),
        |i: int|
            if 0 <= i < values.len() {
                json_string(keys[i]) + ":"@ + value_text(values[i])
            } else {
                Seq::empty()
            },
    )
}

/// Every number text inside a value, at any depth, is a JSON number literal.
pub open spec fn value_numbers_valid(v: JsonValue) -> bool
    decreases v,
{
    match v {
        JsonValue::Number(n) => is_json_number(n),
        JsonValue::Array(items) => forall|i: int| 0 <= i < items.len() ==> value_numbers_valid(#[trigger] items[i]),
        JsonValue::Object(_, values) => forall|i: int| 0 <= i < values.len() ==> value_numbers_valid(#[trigger] values[i]),
        _ => true,
    }
}

/// The JSON text of one member of an object: `"key":value`.
pub open spec fn member_text(f: (Seq<char>, JsonValue)) -> Seq<char> {
    json_string(f.0) + ":"@ + value_text(f.1)
}

/// The texts joined with commas between them.
pub open spec fn comma_joined(parts: Seq<Seq<char>>) -> Seq<char>
    decreases parts.len(),
{
    if parts.len() == 0 {
        Seq::empty()
    } else if parts.len() == 1 {
        parts[0]
    } else {
        comma_joined(parts.drop_last()) + ","@ + parts.last()
    }
}

/// The JSON text of an object whose members are already rendered.
pub open spec fn object_of(members: Seq<Seq<char>>) -> Seq<char> {
    "{"@ + comma_joined(members) + "}"@
}

/// The JSON object text of a list of fields, members in the list's order.
pub open spec fn object_text(fields: Seq<(Seq<char>, JsonValue)>) -> Seq<char> {
    object_of(fields.map_values(|f: (Seq<char>, JsonValue)| member_text(f)))
}

/// One line of output: the record's object text and a newline.
pub open spec fn record_line(fields: Seq<(Seq<char>, JsonValue)>) -> Seq<char> {
    object_text(fields) + "\n"@
}

/// A text that holds no newline.
pub open spec fn one_line(t: Seq<char>) -> bool {
    forall|i: int| 0 <= i < t.len() ==> t[i] != '\n'
}

/// Every number text among the values, at any depth, is a JSON number literal.
pub open spec fn numbers_valid(fields: Seq<(Seq<char>, JsonValue)>) -> bool {
    forall|i: int| 0 <= i < fields.len() ==> value_numbers_valid((#[trigger] fields[i]).1)
}

/// The numbers of the event's and the span's fields that go into the record
/// are JSON number literals.
pub open spec fn record_numbers_valid(event: EventData, span: Option<SpanData>) -> bool {
    &&& numbers_valid(kept_fields(fields_view(event.fields@), true))
    &&& (span is Some ==> numbers_valid(kept_fields(fields_view(span->Some_0.fields@), false)))
}

/// A whole output line: a text in braces, then the newline that ends it and
/// no other.
pub open spec fn single_line_object(t: Seq<char>) -> bool {
    &&& t.len() >= 3
    &&& t[0] == '{'
    &&& t[t.len() - 2] == '}'
    &&& t[t.len() - 1] == '\n'
    &&& forall|i: int| 0 <= i < t.len() - 1 ==> t[i] != '\n'
}

pub proof fn lemma_one_line_concat(a: Seq<char>, b: Seq<char>)
    requires
        one_line(a),
        one_line(b),
    ensures
        one_line(a + b),
{
    assert forall|i: int| 0 <= i < (a + b).len() implies (a + b)[i] != '\n' by {
        if i >= a.len() {
            assert((a + b)[i] == b[i - a.len()]);
        }
    }
}

pub proof fn lemma_comma_joined_one_line(parts: Seq<Seq<char>>)
    requires
        forall|k: int| 0 <= k < parts.len() ==> one_line(#[trigger] parts[k]),
    ensures
        one_line(comma_joined(parts)),
    decreases parts.len(),
{
    if parts.len() > 1 {
        let init = parts.drop_last();
        assert forall|k: int| 0 <= k < init.len() implies one_line(#[trigger] init[k]) by {
            assert(init[k] == parts[k]);
        }
        lemma_comma_joined_one_line(init);
        reveal_strlit(",");
        lemma_one_line_concat(comma_joined(init), ","@);
        lemma_one_line_concat(comma_joined(init) + ","@, parts.last());
    }
}

/// An object text of members without newlines is a single-line object once
/// the newline is added.
pub proof fn lemma_object_line(members: Seq<Seq<char>>)
    requires
        forall|k: int| 0 <= k < members.len() ==> one_line(#[trigger] members[k]),
    ensures
        single_line_object(object_of(members) + "\n"@),
{
    reveal_strlit("{");
    reveal_strlit("}");
    reveal_strlit("\n");
    lemma_comma_joined_one_line(members);
    let t = object_of(members) + "\n"@;
    let j = comma_joined(members);
    assert(t =~= seq!['{'] + j + seq!['}', '\n']);
    assert forall|i: int| 0 <= i < t.len() - 1 implies t[i] != '\n' by {
        if 1 <= i < 1 + j.len() {
            assert(t[i] == j[i - 1]);
        }
    }
}

proof fn lemma_decimal_digits(n: nat)
    ensures
        decimal(n).len() >= 1,
        forall|k: int| 0 <= k < decimal(n).len() ==> is_digit(#[trigger] decimal(n)[k]),
        n >= 10 ==> decimal(n)[0] != '0',
        n < 10 ==> decimal(n).len() == 1,
    decreases n,
{
    reveal_strlit("0123456789");
    if n >= 10 {
        lemma_decimal_digits(n / 10);
        let d = "0123456789"@[(n % 10) as int];
        assert(is_digit(d));
        assert(decimal(n) == decimal(n / 10).push(d));
        assert forall|k: int| 0 <= k < decimal(n).len() implies is_digit(#[trigger] decimal(n)[k]) by {
            if k < decimal(n / 10).len() {
                assert(decimal(n)[k] == decimal(n / 10)[k]);
            }
        }
        assert(decimal(n)[0] == decimal(n / 10)[0]);
        if n / 10 < 10 {
            assert(decimal(n / 10)[0] == "0123456789"@[(n / 10) as int]);
        }
    } else {
        assert(is_digit("0123456789"@[n as int]));
    }
}

/// The decimal digits of a number form a JSON number literal.
pub proof fn lemma_decimal_is_number(n: nat)
    ensures
        is_json_number(decimal(n)),
{
    lemma_decimal_digits(n);
    let s = decimal(n);
    assert(is_digit(s[0]));
    lemma_digits_end_all(s, 0);
}

/// The record's numbers are valid exactly when the numbers that the event and
/// the span contribute are: the `line` number always is.
pub proof fn lemma_record_numbers_valid(event: EventData, span: Option<SpanData>, time: Seq<char>)
    ensures
        numbers_valid(record_view(event, span, time)) == record_numbers_valid(event, span),
{
    let r = record_view(event, span, time);
    let own = kept_fields(fields_view(event.fields@), true);
    let inherited = match span {
        Some(sp) => kept_fields(fields_view(sp.fields@), false),
        None => Seq::empty(),
    };
    let name = match span {
        Some(sp) => seq![("event"@, JsonValue::Str(sp.name@))],
        None => Seq::<(Seq<char>, JsonValue)>::empty(),
    };
    let meta = seq![
        ("target"@, JsonValue::Str(event.target@)),
        ("line"@, line_value(event.line)),
        ("file"@, file_value(event.file)),
    ];
    let head = core_fields(event, time) + name + meta;
    if let Some(n) = event.line {
        lemma_decimal_is_number(n as nat);
    }
    assert(r =~= head + own + inherited);
    assert forall|i: int| 0 <= i < head.len() implies value_numbers_valid((#[trigger] head[i]).1) by {}
    if numbers_valid(r) {
        assert forall|i: int| 0 <= i < own.len() implies value_numbers_valid((#[trigger] own[i]).1) by {
            assert(r[head.len() + i] == own[i]);
        }
        assert forall|i: int| 0 <= i < inherited.len() implies value_numbers_valid((#[trigger] inherited[i]).1) by {
            assert(r[head.len() + own.len() + i] == inherited[i]);
        }
    }
    if record_numbers_valid(event, span) {
        assert forall|i: int| 0 <= i < r.len() implies value_numbers_valid((#[trigger] r[i]).1) by {
            if i < head.len() {
                assert(r[i] == head[i]);
            } else if i < head.len() + own.len() {
                assert(r[i] == own[i - head.len()]);
            } else {
                assert(r[i] == inherited[i - head.len() - own.len()]);
            }
        }
    }
}

/// Joins rendered texts with commas between them.
pub fn join_commas(parts: &Vec<String>) -> (r: String)
    ensures
        r@ == comma_joined(parts@.map_values(|m: String| m@)),
{
    let ghost texts = parts@.map_values(|m: String| m@);
    let mut out = String::new();
    let n: usize = parts.len();
    let mut i: usize = 0;
    while i < n
        invariant
            n == parts@.len(),
            texts == parts@.map_values(|m: String| m@),
            i <= n,
            out@ == comma_joined(texts.take(i as int)),
        decreases n - i,
    {
        assert(texts.take(i + 1).drop_last() =~= texts.take(i as int));
        assert(texts.take(i + 1).last() == parts@[i as int]@);
        if i > 0 {
            out.append(",");
        }
        out.append(parts[i].as_str());
        proof {
            if i == 0 {
                assert(comma_joined(texts.take(0)) =~= Seq::<char>::empty());
                assert(out@ =~= comma_joined(texts.take(1)));
            } else {
                assert(out@ =~= comma_joined(texts.take(i + 1)));
            }
        }
        i = i + 1;
    }
    assert(texts.take(n as int) =~= texts);
    out
}

/// Joins already rendered members into one JSON object text.
pub fn frame_object(members: &Vec<String>) -> (r: String)
    ensures
        r@ == object_of(members@.map_values(|m: String| m@)),
{
    let mut out = String::from_str("{");
    let joined = join_commas(members);
    out.append(joined.as_str());
    out.append("}");
    out
}

/// Joins already rendered elements into one JSON array text.
pub fn frame_array(items: &Vec<String>) -> (r: String)
    ensures
        r@ == "["@ + comma_joined(items@.map_values(|m: String| m@)) + "]"@,
{
    let mut out = String::from_str("[");
    let joined = join_commas(items);
    out.append(joined.as_str());
    out.append("]");
    out
}

/// A bracketed list of texts without newlines holds no newline.
pub proof fn lemma_wrapped_one_line(open: Seq<char>, parts: Seq<Seq<char>>, close: Seq<char>)
    requires
        one_line(open),
        one_line(close),
        forall|k: int| 0 <= k < parts.len() ==> one_line(#[trigger] parts[k]),
    ensures
        one_line(open + comma_joined(parts) + close),
{
    lemma_comma_joined_one_line(parts);
    lemma_one_line_concat(open, comma_joined(parts));
    lemma_one_line_concat(open + comma_joined(parts), close);
}

/// Joins a rendered key and a rendered value into one member: `key:value`.
pub fn frame_member(key: &str, value: &str) -> (r: String)
    ensures
        r@ == key@ + ":"@ + value@,
{
    let mut out = key.to_owned();
    out.append(":");
    out.append(value);
    out
}

/// Renders one value as JSON text; fails only on a number whose text is not
/// a JSON number literal.
pub fn encode_value(v: &FieldValue) -> (r: Result<String, FormatError>)
    ensures
        r is Ok <==> value_numbers_valid(v@),
        r is Ok ==> r->Ok_0@ == value_text(v@) && one_line(r->Ok_0@),
        r is Err ==> r->Err_0 == FormatError::InvalidNumber,
    decreases v,
{
    proof {
        reveal_strlit("null");
        reveal_strlit("true");
        reveal_strlit("false");
    }
    match v {
        FieldValue::Null => Ok(String::from_str("null")),
        FieldValue::Bool(b) => if *b {
            Ok(String::from_str("true"))
        } else {
            Ok(String::from_str("false"))
        },
        FieldValue::Number(n) => {
            if is_number_text(n.as_str()) {
                proof {
                    lemma_number_one_line(n@);
                }
                Ok(n.clone())
            } else {
                Err(FormatError::InvalidNumber)
            }
        },
        FieldValue::Str(s) => match quote(s.as_str()) {
            Ok(t) => {
                proof {
                    lemma_json_string_one_line(s@);
                }
                Ok(t)
            },
            Err(_) => Err(FormatError::InvalidNumber),
        },
        FieldValue::Array(items) => {
            let mut parts: Vec<String> = Vec::new();
            let mut i: usize = 0;
            while i < items.len()
                invariant
                    *v == FieldValue::Array(*items),
                    i <= items@.len(),
                    parts@.len() == i,
                    v@ is Array,
                    v@->Array_0.len() == items@.len(),
                    forall|k: int| 0 <= k < items@.len() ==> v@->Array_0[k] == items@[k]@,
                    forall|k: int| 0 <= k < i ==> (#[trigger] parts@[k])@ == value_text(items@[k]@),
                    forall|k: int| 0 <= k < i ==> one_line((#[trigger] parts@[k])@),
                    forall|k: int| 0 <= k < i ==> value_numbers_valid((#[trigger] items@[k])@),
                decreases items@.len() - i,
            {
                proof {
                    assert(decreases_to!(v => v->Array_0));
                    assert(decreases_to!(items => items[i as int]));
                    assert(decreases_to!(v => items[i as int]));
                }
                let t = match encode_value(&items[i]) {
                    Ok(t) => t,
                    Err(e) => {
                        assert(v@->Array_0[i as int] == items@[i as int]@);
                        return Err(e);
                    },
                };
                parts.push(t);
                i = i + 1;
            }
            let r = frame_array(&parts);
            proof {
                let texts = parts@.map_values(|m: String| m@);
                assert(texts =~= element_texts(v@->Array_0));
                assert forall|k: int| 0 <= k < texts.len() implies one_line(#[trigger] texts[k]) by {
                    assert(texts[k] == parts@[k]@);
                }
                reveal_strlit("[");
                reveal_strlit("]");
                lemma_wrapped_one_line("["@, texts, "]"@);
                assert forall|k: int| 0 <= k < v@->Array_0.len() implies value_numbers_valid(#[trigger] v@->Array_0[k]) by {
                    assert(v@->Array_0[k] == items@[k]@);
                }
            }
            Ok(r)
        },
        FieldValue::Object(members) => {
            let mut parts: Vec<String> = Vec::new();
            let mut i: usize = 0;
            while i < members.len()
                invariant
                    *v == FieldValue::Object(*members),
                    i <= members@.len(),
                    parts@.len() == i,
                    v@ is Object,
                    v@->Object_0.len() == members@.len(),
                    v@->Object_1.len() == members@.len(),
                    forall|k: int| 0 <= k < members@.len() ==> v@->Object_0[k] == members@[k].key@,
                    forall|k: int| 0 <= k < members@.len() ==> v@->Object_1[k] == members@[k].value@,
                    forall|k: int| 0 <= k < i ==> (#[trigger] parts@[k])@ == json_string(members@[k].key@) + ":"@
                        + value_text(members@[k].value@),
                    forall|k: int| 0 <= k < i ==> one_line((#[trigger] parts@[k])@),
                    forall|k: int| 0 <= k < i ==> value_numbers_valid((#[trigger] members@[k]).value@),
                decreases members@.len() - i,
            {
                let m = &members[i];
                proof {
                    assert(decreases_to!(v => v->Object_0));
                    assert(decreases_to!(members => members[i as int]));
                    assert(decreases_to!(v => members[i as int]));
                }
                let key = match quote(m.key.as_str()) {
                    Ok(t) => t,
                    Err(_) => return Err(FormatError::InvalidNumber),
                };
                proof {
                    lemma_json_string_one_line(m.key@);
                }
                let value = match encode_value(&m.value) {
                    Ok(t) => t,
                    Err(e) => {
                        assert(v@->Object_1[i as int] == m.value@);
                        return Err(e);
                    },
                };
                let part = frame_member(key.as_str(), value.as_str());
                proof {
                    reveal_strlit(":");
                    lemma_one_line_concat(key@, ":"@);
                    lemma_one_line_concat(key@ + ":"@, value@);
                }
                parts.push(part);
                i = i + 1;
            }
            let r = frame_object(&parts);
            proof {
                let texts = parts@.map_values(|m: String| m@);
                assert(texts =~= member_texts(v@->Object_0, v@->Object_1));
                assert forall|k: int| 0 <= k < texts.len() implies one_line(#[trigger] texts[k]) by {
                    assert(texts[k] == parts@[k]@);
                }
                reveal_strlit("{");
                reveal_strlit("}");
                lemma_wrapped_one_line("{"@, texts, "}"@);
                assert forall|k: int| 0 <= k < v@->Object_1.len() implies value_numbers_valid(#[trigger] v@->Object_1[k]) by {
                    assert(v@->Object_1[k] == members@[k].value@);
                }
            }
            Ok(r)
        },
    }
}

/// Renders a list of fields as one JSON object text, members in order; fails
/// only on a number whose text is not a JSON number literal.
pub fn encode_record(fields: &Vec<Field>) -> (r: Result<String, FormatError>)
    ensures
        r is Ok <==> numbers_valid(fields_view(fields@)),
        r is Ok ==> r->Ok_0@ == object_text(fields_view(fields@)),
        r is Ok ==> single_line_object(r->Ok_0@ + "\n"@),
        r is Err ==> r->Err_0 == FormatError::InvalidNumber,
{
    let ghost fv = fields_view(fields@);
    let ghost texts = fv.map_values(|f: (Seq<char>, JsonValue)| member_text(f));
    let mut members: Vec<String> = Vec::new();
    let n: usize = fields.len();
    let mut i: usize = 0;
    while i < n
        invariant
            n == fields@.len(),
            fv == fields_view(fields@),
            texts == fv.map_values(|f: (Seq<char>, JsonValue)| member_text(f)),
            i <= n,
            members@.len() == i,
            forall|k: int| 0 <= k < i ==> #[trigger] members@[k]@ == texts[k],
            forall|k: int| 0 <= k < i ==> one_line(#[trigger] members@[k]@),
            forall|k: int| 0 <= k < i ==> value_numbers_valid((#[trigger] fv[k]).1),
        decreases n - i,
    {
        let f = &fields[i];
        assert(fv[i as int] == f@);
        let key = match quote(f.key.as_str()) {
            Ok(t) => t,
            Err(_) => return Err(FormatError::InvalidNumber),
        };
        proof {
            lemma_json_string_one_line(f.key@);
        }
        let value = match encode_value(&f.value) {
            Ok(t) => t,
            Err(e) => return Err(e),
        };
        let m = frame_member(key.as_str(), value.as_str());
        proof {
            reveal_strlit(":");
            lemma_one_line_concat(key@, ":"@);
            lemma_one_line_concat(key@ + ":"@, value@);
        }
        members.push(m);
        i = i + 1;
    }
    let out = frame_object(&members);
    assert(members@.map_values(|m: String| m@) =~= texts);
    proof {
        let parts = members@.map_values(|m: String| m@);
        assert forall|k: int| 0 <= k < parts.len() implies one_line(#[trigger] parts[k]) by {
            assert(parts[k] == members@[k]@);
        }
        lemma_object_line(parts);
    }
    Ok(out)
}

/// Ends a rendered record with the newline that closes its line.
pub fn emit(buffer: String) -> (r: String)
    ensures
        r@ == buffer@ + "\n"@,
{
    let mut out = buffer;
    out.append("\n");
    out
}

/// Renders the record of `event` at time `time` as one line of output. It
/// fails only when a number that the event or the span contributes is not a
/// JSON number literal.
pub fn format_record_at(event: &EventData, span: Option<&SpanData>, time: &str) -> (r: Result<String, FormatError>)
    ensures
        r is Ok <==> record_numbers_valid(*event, span_of(span)),
        r is Ok ==> r->Ok_0@ == record_line(record_view(*event, span_of(span), time@)),
        r is Ok ==> single_line_object(r->Ok_0@),
        r is Err ==> r->Err_0 == FormatError::InvalidNumber,
{
    let fields = record_fields(event, span, time);
    proof {
        lemma_record_numbers_valid(*event, span_of(span), time@);
    }
    match encode_record(&fields) {
        Ok(text) => Ok(emit(text)),
        Err(e) => Err(e),
    }
}

/// The time text that `now_rfc3339` gives: RFC 3339 with a `+00:00` offset.
pub open spec fn is_utc_stamp(t: Seq<char>) -> bool {
    &&& t.len() >= 6
    &&& t.subrange(t.len() - 6, t.len() as int) == "+00:00"@
    &&& one_line(t)
}

/// Relies on `chrono::Utc::now` and `DateTime::to_rfc3339`: the current time
/// in RFC 3339 form; for UTC the offset is written `+00:00` (minutes
/// precision, colon, no `Z`), and no newline is written. Nothing is stated of
/// the instant that is read.
#[verifier::external_body]
fn now_rfc3339() -> (r: String)
    ensures
        is_utc_stamp(r@),
{
    chrono::Utc::now().to_rfc3339()
}

/// Renders the record of `event`, stamped with the current time, as one line
/// of output. It fails only when a number that the event or the span
/// contributes is not a JSON number literal.
pub fn format_record(event: &EventData, span: Option<&SpanData>) -> (r: Result<String, FormatError>)
    ensures
        r is Ok <==> record_numbers_valid(*event, span_of(span)),
        r is Ok ==> exists|time: Seq<char>|
            is_utc_stamp(time) && r->Ok_0@ == record_line(record_view(*event, span_of(span), time)),
        r is Ok ==> single_line_object(r->Ok_0@),
        r is Err ==> r->Err_0 == FormatError::InvalidNumber,
{
    let time = now_rfc3339();
    format_record_at(event, span, time.as_str())
}

} // verus!
