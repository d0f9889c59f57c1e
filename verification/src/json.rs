//! JSON values as the engine reads them: filter values, row objects returned by
//! ClickHouse, and the keys and values of the pivot response.

use vstd::prelude::*;

use crate::text::{str_eq, string_of};

verus! {

/// A JSON number, held by its two renderings that the engine reads.
#[derive(Debug, Clone, PartialEq)]
pub struct JsonNumber {
    /// The number as `serde_json` prints it (`5000`, `-1.5`).
    pub text: String,
    /// The number as the fixed-point form `{:025.6}` prints its `f64` value
    /// (`0000000000000005000.000000`); pivot axes are ordered by it.
    pub fixed_text: String,
}

/// A JSON value. Objects keep their members in order; a lookup finds the first
/// member with the key.
#[derive(Debug)]
pub enum JsonValue {
    Null,
    Bool(bool),
    Number(JsonNumber),
    String(String),
    Array(Vec<JsonValue>),
    Object(Vec<(String, JsonValue)>),
}

/// The mathematical model of a JSON value.
pub enum JsonView {
    Null,
    Bool(bool),
    Number { text: Seq<char>, fixed: Seq<char> },
    Str(Seq<char>),
    Array(Seq<JsonView>),
    Object(Seq<MemberView>),
}

/// The model of an object member.
pub struct MemberView {
    pub key: Seq<char>,
    pub value: JsonView,
}

impl View for JsonValue {
    type V = JsonView;

    open spec fn view(&self) -> JsonView
        decreases self,
    {
        match self {
            JsonValue::Null => JsonView::Null,
            JsonValue::Bool(b) => JsonView::Bool(*b),
            JsonValue::Number(n) => JsonView::Number { text: n.text@, fixed: n.fixed_text@ },
            JsonValue::String(s) => JsonView::Str(s@),
            JsonValue::Array(a) => JsonView::Array(
                Seq::new(
                    a@.len(),
                    |i: int|
                        if 0 <= i < a@.len() {
                            a@[i].view()
                        } else {
                            JsonView::Null
                        },
                ),
            ),
            JsonValue::Object(o) => JsonView::Object(
                Seq::new(
                    o@.len(),
                    |i: int|
                        if 0 <= i < o@.len() {
                            MemberView { key: o@[i].0@, value: o@[i].1.view() }
                        } else {
                            MemberView { key: Seq::empty(), value: JsonView::Null }
                        },
                ),
            ),
        }
    }
}

/// The views of a sequence of values.
pub open spec fn json_views(s: Seq<JsonValue>) -> Seq<JsonView> {
    Seq::new(s.len(), |i: int| s[i]@)
}

/// The views of a sequence of object members.
pub open spec fn member_views(s: Seq<(String, JsonValue)>) -> Seq<MemberView> {
    Seq::new(s.len(), |i: int| MemberView { key: s[i].0@, value: s[i].1@ })
}

/// The model of an array or object is built from the models of its elements.
pub proof fn lemma_view_parts(v: JsonValue)
    ensures
        v matches JsonValue::Array(a) ==> v@ == JsonView::Array(json_views(a@)),
        v matches JsonValue::Object(o) ==> v@ == JsonView::Object(member_views(o@)),
{
    match v {
        JsonValue::Array(a) => {
            if let JsonView::Array(x) = v@ {
                assert(x =~= json_views(a@));
            }
        },
        JsonValue::Object(o) => {
            if let JsonView::Object(x) = v@ {
                assert(x =~= member_views(o@));
            }
        },
        _ => {},
    }
}

/// A number text that `serde_json` prints for a zero float: `0.0` or `-0.0`.
pub open spec fn zero_float_text(t: Seq<char>) -> bool {
    t == "0.0"@ || t == "-0.0"@
}

/// Two JSON values are equal as `serde_json` compares its values: the same kind
/// and equal parts. Two numbers are equal when their texts (as `serde_json` prints
/// them, one text per value) are the same, or when both are a zero float, since
/// `0.0 == -0.0`. Arrays compare element by element; objects member by member, in
/// the order of their keys.
pub open spec fn json_equal(a: JsonView, b: JsonView) -> bool
    decreases a,
{
    match (a, b) {
        (JsonView::Null, JsonView::Null) => true,
        (JsonView::Bool(x), JsonView::Bool(y)) => x == y,
        (JsonView::Number { text: x, .. }, JsonView::Number { text: y, .. }) => x == y || (
        zero_float_text(x) && zero_float_text(y)),
        (JsonView::Str(x), JsonView::Str(y)) => x == y,
        (JsonView::Array(x), JsonView::Array(y)) => x.len() == y.len() && forall|i: int|
            0 <= i < x.len() ==> json_equal(#[trigger] x[i], y[i]),
        (JsonView::Object(x), JsonView::Object(y)) => x.len() == y.len() && forall|i: int|
            0 <= i < x.len() ==> (#[trigger] x[i]).key == y[i].key && json_equal(x[i].value, y[i].value),
        _ => false,
    }
}

/// Every value equals itself.
pub proof fn lemma_json_equal_refl(a: JsonView)
    ensures
        json_equal(a, a),
    decreases a,
{
    match a {
        JsonView::Array(x) => {
            assert forall|i: int| 0 <= i < x.len() implies json_equal(#[trigger] x[i], x[i]) by {
                lemma_json_equal_refl(x[i]);
            }
        },
        JsonView::Object(x) => {
            assert forall|i: int| 0 <= i < x.len() implies (#[trigger] x[i]).key == x[i].key && json_equal(
                x[i].value,
                x[i].value,
            ) by {
                lemma_json_equal_refl(x[i].value);
            }
        },
        _ => {},
    }
}

/// Equality of values is symmetric.
pub proof fn lemma_json_equal_symm(a: JsonView, b: JsonView)
    ensures
        json_equal(a, b) == json_equal(b, a),
    decreases a,
{
    match (a, b) {
        (JsonView::Array(x), JsonView::Array(y)) => {
            if x.len() == y.len() {
                assert forall|i: int| 0 <= i < x.len() implies json_equal(x[i], y[i]) == json_equal(y[i], x[i]) by {
                    lemma_json_equal_symm(x[i], y[i]);
                }
                if json_equal(a, b) {
                    assert forall|i: int| 0 <= i < y.len() implies json_equal(#[trigger] y[i], x[i]) by {
                        assert(json_equal(x[i], y[i]));
                    }
                }
                if json_equal(b, a) {
                    assert forall|i: int| 0 <= i < x.len() implies json_equal(#[trigger] x[i], y[i]) by {
                        assert(json_equal(y[i], x[i]));
                    }
                }
            }
        },
        (JsonView::Object(x), JsonView::Object(y)) => {
            if x.len() == y.len() {
                assert forall|i: int| 0 <= i < x.len() implies json_equal(x[i].value, y[i].value) == json_equal(
                    y[i].value,
                    x[i].value,
                ) by {
                    lemma_json_equal_symm(x[i].value, y[i].value);
                }
                if json_equal(a, b) {
                    assert forall|i: int| 0 <= i < y.len() implies (#[trigger] y[i]).key == x[i].key
                        && json_equal(y[i].value, x[i].value) by {
                        assert(x[i].key == y[i].key && json_equal(x[i].value, y[i].value));
                    }
                }
                if json_equal(b, a) {
                    assert forall|i: int| 0 <= i < x.len() implies (#[trigger] x[i]).key == y[i].key
                        && json_equal(x[i].value, y[i].value) by {
                        assert(y[i].key == x[i].key && json_equal(y[i].value, x[i].value));
                    }
                }
            }
        },
        _ => {},
    }
}

/// The compact JSON text of a value, as `serde_json` renders a `serde_json::Value`
/// holding the same members (object members ordered by key, as its map keeps them).
pub uninterp spec fn json_text(v: JsonView) -> Seq<char>;

/// `serde_json::Value` used while rendering a value with `serde_json`.
#[verifier::external_type_specification]
#[verifier::external_body]
pub struct ExSerdeJsonValue(serde_json::Value);

/// Builds the `serde_json::Value` holding the members of `v`; a number becomes the
/// `serde_json::Number` that `serde_json::Number::from_str` reads from its text
/// (`null` where the text is not a number). Nothing is stated of the result.
#[verifier::external_body]
fn to_serde_value(v: &JsonValue) -> serde_json::Value {
    match v {
        JsonValue::Null => serde_json::Value::Null,
        JsonValue::Bool(b) => serde_json::Value::Bool(*b),
        JsonValue::Number(n) => n.text.parse::<serde_json::Number>().map_or(serde_json::Value::Null, serde_json::Value::Number),
        JsonValue::String(s) => serde_json::Value::String(s.clone()),
        JsonValue::Array(a) => serde_json::Value::Array(a.iter().map(to_serde_value).collect()),
        JsonValue::Object(o) => serde_json::Value::Object(o.iter().map(|(k, x)| (k.clone(), to_serde_value(x))).collect()),
    }
}

/// Renders `v` with `Display` of `serde_json::Value` (compact JSON). The contract
/// names the text `json_text` of the value's model: the same model gives the same text.
#[verifier::external_body]
pub(crate) fn render_json(v: &JsonValue) -> (r: String)
    ensures
        r@ == json_text(v@),
{
    to_serde_value(v).to_string()
}

/// The text of a value used as a filter parameter: a string as it is, a number as
/// `serde_json` prints it, a boolean as `true` or `false`, null as the empty text,
/// and an array or object as its JSON text.
pub open spec fn lossy_text(v: JsonView) -> Seq<char> {
    match v {
        JsonView::Str(s) => s,
        JsonView::Number { text, fixed } => text,
        JsonView::Bool(b) => if b {
            "true"@
        } else {
            "false"@
        },
        JsonView::Null => Seq::empty(),
        _ => json_text(v),
    }
}

/// The elements of an array, or nothing for any other value.
pub open spec fn array_items(v: JsonView) -> Seq<JsonView> {
    match v {
        JsonView::Array(a) => a,
        _ => Seq::empty(),
    }
}

/// The value of the first member of `members` named `key`.
pub open spec fn member_get(members: Seq<MemberView>, key: Seq<char>) -> Option<JsonView>
    decreases members.len(),
{
    if members.len() == 0 {
        None
    } else if members[0].key == key {
        Some(members[0].value)
    } else {
        member_get(members.drop_first(), key)
    }
}

/// A copy of a JSON number.
pub fn copy_number(n: &JsonNumber) -> (r: JsonNumber)
    ensures
        r.text@ == n.text@,
        r.fixed_text@ == n.fixed_text@,
{
    JsonNumber { text: n.text.clone(), fixed_text: n.fixed_text.clone() }
}

impl Clone for JsonValue {
    fn clone(&self) -> (r: JsonValue)
        ensures
            r@ == self@,
    {
        self.copy()
    }
}

impl JsonValue {
    /// The text of the value used as a filter parameter.
    pub fn to_string_lossy(&self) -> (r: String)
        ensures
            r@ == lossy_text(self@),
    {
        match self {
            JsonValue::String(s) => s.clone(),
            JsonValue::Number(n) => n.text.clone(),
            JsonValue::Bool(b) => if *b {
                string_of("true")
            } else {
                string_of("false")
            },
            JsonValue::Null => String::new(),
            _ => render_json(self),
        }
    }

    /// The elements of the value when it is an array.
    pub fn as_array(&self) -> (r: Option<&Vec<JsonValue>>)
        ensures
            self@ is Array <==> r is Some,
            r matches Some(a) ==> self@ == JsonView::Array(json_views(a@)),
    {
        proof {
            lemma_view_parts(*self);
        }
        match self {
            JsonValue::Array(a) => Some(a),
            _ => None,
        }
    }

    /// The members of the value when it is an object.
    pub fn as_object(&self) -> (r: Option<&Vec<(String, JsonValue)>>)
        ensures
            self@ is Object <==> r is Some,
            r matches Some(o) ==> self@ == JsonView::Object(member_views(o@)),
    {
        proof {
            lemma_view_parts(*self);
        }
        match self {
            JsonValue::Object(o) => Some(o),
            _ => None,
        }
    }

    /// A copy of the value.
    #[verifier::loop_isolation(false)]
    pub fn copy(&self) -> (r: JsonValue)
        ensures
            r@ == self@,
        decreases self,
    {
        match self {
            JsonValue::Null => JsonValue::Null,
            JsonValue::Bool(b) => JsonValue::Bool(*b),
            JsonValue::Number(n) => JsonValue::Number(copy_number(n)),
            JsonValue::String(s) => JsonValue::String(s.clone()),
            JsonValue::Array(a) => {
                let mut out: Vec<JsonValue> = Vec::new();
                let mut i: usize = 0;
                while i < a.len()
                    invariant
                        i <= a.len(),
                        out@.len() == i,
                        forall|j: int| 0 <= j < i ==> #[trigger] out@[j]@ == a@[j]@,
                    decreases a.len() - i,
                {
                    out.push(a[i].copy());
                    i = i + 1;
                }
                let r = JsonValue::Array(out);
                proof {
                    lemma_view_parts(r);
                    lemma_view_parts(*self);
                    assert(json_views(out@) =~= json_views(a@));
                }
                r
            },
            JsonValue::Object(o) => {
                let mut out: Vec<(String, JsonValue)> = Vec::new();
                let mut i: usize = 0;
                while i < o.len()
                    invariant
                        i <= o.len(),
                        out@.len() == i,
                        forall|j: int|
                            0 <= j < i ==> #[trigger] out@[j].0@ == o@[j].0@ && out@[j].1@
                                == o@[j].1@,
                    decreases o.len() - i,
                {
                    let v = o[i].1.copy();
                    out.push((o[i].0.clone(), v));
                    i = i + 1;
                }
                let r = JsonValue::Object(out);
                proof {
                    lemma_view_parts(r);
                    lemma_view_parts(*self);
                    assert(member_views(out@) =~= member_views(o@));
                }
                r
            },
        }
    }

    /// Whether two values are equal as `serde_json` compares them.
    #[verifier::loop_isolation(false)]
    pub fn equals(&self, other: &JsonValue) -> (r: bool)
        ensures
            r == json_equal(self@, other@),
        decreases self,
    {
        match (self, other) {
            (JsonValue::Null, JsonValue::Null) => true,
            (JsonValue::Bool(a), JsonValue::Bool(b)) => *a == *b,
            (JsonValue::Number(a), JsonValue::Number(b)) => {
                let (x, y) = (a.text.as_str(), b.text.as_str());
                str_eq(x, y) || ((str_eq(x, "0.0") || str_eq(x, "-0.0")) && (str_eq(y, "0.0") || str_eq(
                    y,
                    "-0.0",
                )))
            },
            (JsonValue::String(a), JsonValue::String(b)) => str_eq(a.as_str(), b.as_str()),
            (JsonValue::Array(a), JsonValue::Array(b)) => {
                proof {
                    lemma_view_parts(*self);
                    lemma_view_parts(*other);
                }
                if a.len() != b.len() {
                    return false;
                }
                let ghost (x, y) = (json_views(a@), json_views(b@));
                let mut i: usize = 0;
                while i < a.len()
                    invariant
                        a.len() == b.len(),
                        i <= a.len(),
                        forall|j: int| 0 <= j < i ==> json_equal(#[trigger] x[j], y[j]),
                    decreases a.len() - i,
                {
                    if !a[i].equals(&b[i]) {
                        assert(!json_equal(x[i as int], y[i as int]));
                        return false;
                    }
                    i = i + 1;
                }
                true
            },
            (JsonValue::Object(a), JsonValue::Object(b)) => {
                proof {
                    lemma_view_parts(*self);
                    lemma_view_parts(*other);
                }
                if a.len() != b.len() {
                    return false;
                }
                let ghost (x, y) = (member_views(a@), member_views(b@));
                let mut i: usize = 0;
                while i < a.len()
                    invariant
                        a.len() == b.len(),
                        i <= a.len(),
                        forall|j: int|
                            0 <= j < i ==> (#[trigger] x[j]).key == y[j].key && json_equal(x[j].value, y[j].value),
                    decreases a.len() - i,
                {
                    if !str_eq(a[i].0.as_str(), b[i].0.as_str()) {
                        assert(x[i as int].key != y[i as int].key);
                        return false;
                    }
                    if !a[i].1.equals(&b[i].1) {
                        assert(!json_equal(x[i as int].value, y[i as int].value));
                        return false;
                    }
                    i = i + 1;
                }
                true
            },
            _ => false,
        }
    }

    /// Whether two values are the same JSON value.
    #[verifier::loop_isolation(false)]
    pub fn same(&self, other: &JsonValue) -> (r: bool)
        ensures
            r == (self@ == other@),
        decreases self,
    {
        match (self, other) {
            (JsonValue::Null, JsonValue::Null) => true,
            (JsonValue::Bool(a), JsonValue::Bool(b)) => *a == *b,
            (JsonValue::Number(a), JsonValue::Number(b)) => str_eq(a.text.as_str(), b.text.as_str())
                && str_eq(a.fixed_text.as_str(), b.fixed_text.as_str()),
            (JsonValue::String(a), JsonValue::String(b)) => str_eq(a.as_str(), b.as_str()),
            (JsonValue::Array(a), JsonValue::Array(b)) => {
                proof {
                    lemma_view_parts(*self);
                    lemma_view_parts(*other);
                }
                if a.len() != b.len() {
                    proof {
                        if let (JsonView::Array(x), JsonView::Array(y)) = (self@, other@) {
                            assert(x.len() != y.len());
                        }
                    }
                    return false;
                }
                let mut i: usize = 0;
                while i < a.len()
                    invariant
                        a.len() == b.len(),
                        i <= a.len(),
                        forall|j: int| 0 <= j < i ==> #[trigger] a@[j]@ == b@[j]@,
                    decreases a.len() - i,
                {
                    if !a[i].same(&b[i]) {
                        assert(json_views(a@)[i as int] != json_views(b@)[i as int]);
                        return false;
                    }
                    i = i + 1;
                }
                assert(json_views(a@) =~= json_views(b@));
                true
            },
            (JsonValue::Object(a), JsonValue::Object(b)) => {
                proof {
                    lemma_view_parts(*self);
                    lemma_view_parts(*other);
                }
                if a.len() != b.len() {
                    proof {
                        if let (JsonView::Object(x), JsonView::Object(y)) = (self@, other@) {
                            assert(x.len() != y.len());
                        }
                    }
                    return false;
                }
                let mut i: usize = 0;
                while i < a.len()
                    invariant
                        a.len() == b.len(),
                        i <= a.len(),
                        forall|j: int| 0 <= j < i ==> #[trigger] member_views(a@)[j] == member_views(b@)[j],
                    decreases a.len() - i,
                {
                    let same_key = str_eq(a[i].0.as_str(), b[i].0.as_str());
                    if !same_key {
                        assert(member_views(a@)[i as int] != member_views(b@)[i as int]);
                        return false;
                    }
                    let same_value = a[i].1.same(&b[i].1);
                    if !same_value {
                        assert(member_views(a@)[i as int] != member_views(b@)[i as int]);
                        return false;
                    }
                    assert(member_views(a@)[i as int] == member_views(b@)[i as int]);
                    i = i + 1;
                }
                assert(member_views(a@) =~= member_views(b@));
                true
            },
            _ => false,
        }
    }
}

} // verus!

verus! {

/// The value of the first member of `members` named `key`.
pub fn member_value<'a>(members: &'a Vec<(String, JsonValue)>, key: &str) -> (r: Option<&'a JsonValue>)
    ensures
        match r {
            Some(v) => member_get(member_views(members@), key@) == Some(v@),
            None => member_get(member_views(members@), key@) is None,
        },
{
    let mut i: usize = 0;
    assert(member_views(members@).skip(0) =~= member_views(members@));
    while i < members.len()
        invariant
            i <= members.len(),
            member_get(member_views(members@), key@) == member_get(
                member_views(members@).skip(i as int),
                key@,
            ),
        decreases members.len() - i,
    {
        assert(member_views(members@).skip(i as int).drop_first() =~= member_views(members@).skip(
            i + 1,
        ));
        if str_eq(members[i].0.as_str(), key) {
            return Some(&members[i].1);
        }
        i = i + 1;
    }
    None
}

} // verus!
