use vstd::prelude::*;

verus! {

/// A JSON value as the Bunyan record carries it.
///
/// A number is held as its JSON literal text (for example `200` or `-1.5`),
/// exactly as it is to appear in the record.
#[derive(Debug)]
pub enum FieldValue {
    Null,
    Bool(bool),
    Number(String),
    Str(String),
    Array(Vec<FieldValue>),
    Object(Vec<Field>),
}

/// The mathematical model of a `FieldValue`; an object is its keys and its
/// values, position by position.
pub ghost enum JsonValue {
    Null,
    Bool(bool),
    Number(Seq<char>),
    Str(Seq<char>),
    Array(Seq<JsonValue>),
    Object(Seq<Seq<char>>, Seq<JsonValue>),
}

impl View for FieldValue {
    type V = JsonValue;

    open spec fn view(&self) -> JsonValue
        decreases self,
    {
        match self {
            FieldValue::Null => JsonValue::Null,
            FieldValue::Bool(b) => JsonValue::Bool(*b),
            FieldValue::Number(n) => JsonValue::Number(n@),
            FieldValue::Str(s) => JsonValue::Str(s@),
            FieldValue::Array(items) => JsonValue::Array(
                Seq::new(
                    items@.len(),
                    |i: int| if 0 <= i < items@.len() { items@[i]@ } else { JsonValue::Null },
                ),
            ),
            FieldValue::Object(members) => JsonValue::Object(
                Seq::new(members@.len(), |i: int| members@[i].key@),
                Seq::new(
                    members@.len(),
                    |i: int| if 0 <= i < members@.len() { members@[i].value@ } else { JsonValue::Null },
                ),
            ),
        }
    }
}

/// One named value of an event, a span or a record.
#[derive(Debug)]
pub struct Field {
    pub key: String,
    pub value: FieldValue,
}

impl View for Field {
    type V = (Seq<char>, JsonValue);

    open spec fn view(&self) -> (Seq<char>, JsonValue) {
        (self.key@, self.value@)
    }
}

impl FieldValue {
    /// A copy of this value.
    pub fn duplicate(&self) -> (r: FieldValue)
        ensures
            r@ == self@,
        decreases self,
    {
        match self {
            FieldValue::Null => FieldValue::Null,
            FieldValue::Bool(b) => FieldValue::Bool(*b),
            FieldValue::Number(n) => FieldValue::Number(n.clone()),
            FieldValue::Str(t) => FieldValue::Str(t.clone()),
            FieldValue::Array(items) => {
                let mut out: Vec<FieldValue> = Vec::new();
                let mut i: usize = 0;
                while i < items.len()
                    invariant
                        *self == FieldValue::Array(*items),
                        i <= items@.len(),
                        out@.len() == i,
                        forall|k: int| 0 <= k < i ==> (#[trigger] out@[k])@ == items@[k]@,
                    decreases items@.len() - i,
                {
                    proof {
                        assert(decreases_to!(self => self->Array_0));
                        assert(decreases_to!(items => items[i as int]));
                        assert(decreases_to!(self => items[i as int]));
                    }
                    out.push(items[i].duplicate());
                    i = i + 1;
                }
                let r = FieldValue::Array(out);
                assert(r@->Array_0 =~= self@->Array_0);
                r
            },
            FieldValue::Object(members) => {
                let mut out: Vec<Field> = Vec::new();
                let mut i: usize = 0;
                while i < members.len()
                    invariant
                        *self == FieldValue::Object(*members),
                        i <= members@.len(),
                        out@.len() == i,
                        forall|k: int| 0 <= k < i ==> (#[trigger] out@[k])@ == members@[k]@,
                    decreases members@.len() - i,
                {
                    let m = &members[i];
                    proof {
                        assert(decreases_to!(self => self->Object_0));
                        assert(decreases_to!(members => members[i as int]));
                        assert(decreases_to!(self => members[i as int]));
                    }
                    out.push(Field { key: m.key.clone(), value: m.value.duplicate() });
                    i = i + 1;
                }
                let r = FieldValue::Object(out);
                assert(r@->Object_0 =~= self@->Object_0);
                assert(r@->Object_1 =~= self@->Object_1);
                r
            },
        }
    }
}

impl Field {
    /// A copy of this field.
    pub fn duplicate(&self) -> (r: Field)
        ensures
            r@ == self@,
    {
        Field { key: self.key.clone(), value: self.value.duplicate() }
    }
}

/// The model of a list of fields: its (key, value) pairs in order.
pub open spec fn fields_view(s: Seq<Field>) -> Seq<(Seq<char>, JsonValue)> {
    s.map_values(|f: Field| f@)
}

/// The names that only the core record fields may carry.
pub open spec fn is_reserved_key(k: Seq<char>) -> bool {
    k == "msg"@ || k == "level"@ || k == "time"@
}

/// Compares two strings character by character.
pub fn text_equals(a: &str, b: &str) -> (r: bool)
    ensures
        r == (a@ == b@),
{
    let n: usize = a.unicode_len();
    if n != b.unicode_len() {
        return false;
    }
    let mut i: usize = 0;
    while i < n
        invariant
            n == a@.len(),
            n == b@.len(),
            i <= n,
            a@.subrange(0, i as int) == b@.subrange(0, i as int),
        decreases n - i,
    {
        if a.get_char(i) != b.get_char(i) {
            return false;
        }
        assert(a@.subrange(0, i + 1) == a@.subrange(0, i as int).push(a@[i as int]));
        assert(b@.subrange(0, i + 1) == b@.subrange(0, i as int).push(b@[i as int]));
        i = i + 1;
    }
    assert(a@ == a@.subrange(0, n as int));
    assert(b@ == b@.subrange(0, n as int));
    true
}

/// Tells whether a field name is one of the reserved core names.
pub fn is_reserved(key: &str) -> (r: bool)
    ensures
        r == is_reserved_key(key@),
{
    text_equals(key, "msg") || text_equals(key, "level") || text_equals(key, "time")
}

/// Makes a field whose value is the given text.
pub fn text_field(key: &str, value: &str) -> (r: Field)
    ensures
        r@ == (key@, JsonValue::Str(value@)),
{
    Field { key: key.to_owned(), value: FieldValue::Str(value.to_owned()) }
}

/// No two pairs share a key.
pub open spec fn keys_unique(s: Seq<(Seq<char>, JsonValue)>) -> bool {
    forall|i: int, j: int| 0 <= i < j < s.len() ==> s[i].0 != s[j].0
}

/// The list after storing `f`: the first pair with `f`'s key takes `f`'s
/// value, or `f` is appended when no pair has that key.
pub open spec fn with_field(s: Seq<(Seq<char>, JsonValue)>, f: (Seq<char>, JsonValue)) -> Seq<(Seq<char>, JsonValue)>
    decreases s.len(),
{
    if s.len() == 0 {
        seq![f]
    } else if s[0].0 == f.0 {
        s.update(0, f)
    } else {
        seq![s[0]] + with_field(s.drop_first(), f)
    }
}

proof fn lemma_with_field_at(s: Seq<(Seq<char>, JsonValue)>, f: (Seq<char>, JsonValue), i: int)
    requires
        0 <= i <= s.len(),
        forall|j: int| 0 <= j < i ==> s[j].0 != f.0,
        i == s.len() || s[i].0 == f.0,
    ensures
        with_field(s, f) == if i < s.len() { s.update(i, f) } else { s.push(f) },
    decreases i,
{
    if i == 0 {
        if s.len() == 0 {
            assert(seq![f] =~= s.push(f));
        }
    } else {
        let t = s.drop_first();
        assert forall|j: int| 0 <= j < i - 1 implies t[j].0 != f.0 by {
            assert(t[j] == s[j + 1]);
        }
        lemma_with_field_at(t, f, i - 1);
        if i < s.len() {
            assert(seq![s[0]] + t.update(i - 1, f) =~= s.update(i, f));
        } else {
            assert(seq![s[0]] + t.push(f) =~= s.push(f));
        }
    }
}

/// Stores a field: a later value for a key replaces the earlier one, in place;
/// a new key goes to the end.
pub fn set_field(fields: &mut Vec<Field>, f: Field)
    ensures
        fields_view(final(fields)@) == with_field(fields_view(old(fields)@), f@),
        keys_unique(fields_view(old(fields)@)) ==> keys_unique(fields_view(final(fields)@)),
{
    let ghost fv = fields_view(fields@);
    let n: usize = fields.len();
    let mut i: usize = 0;
    while i < n
        invariant
            n == fields@.len(),
            fv == fields_view(fields@),
            i <= n,
            forall|j: int| 0 <= j < i ==> fv[j].0 != f.key@,
        ensures
            i <= n,
            forall|j: int| 0 <= j < i ==> fv[j].0 != f.key@,
            i == n || fv[i as int].0 == f.key@,
        decreases n - i,
    {
        assert(fv[i as int] == fields@[i as int]@);
        if text_equals(fields[i].key.as_str(), f.key.as_str()) {
            break;
        }
        i = i + 1;
    }
    proof {
        lemma_with_field_at(fv, f@, i as int);
    }
    let ghost fview = f@;
    if i < n {
        fields.set(i, f);
        assert(fields_view(fields@) =~= fv.update(i as int, fview));
    } else {
        fields.push(f);
        assert(fields_view(fields@) =~= fv.push(fview));
    }
}

} // verus!
