//! The library's JSON value model. Configuration files and request bodies
//! are JSON; parsing the text is left to serde_json behind a trusted wrapper,
//! while equality and serialization of the parsed values are verified here.
//!
//! A number is kept as its decimal text, a string as its decoded characters;
//! an object keeps its members in the order the parser hands them over
//! (serde_json's map is a `BTreeMap`, so that order is sorted by key, and two
//! objects with the same members arrive in the same order).

use vstd::prelude::*;
use vstd::string::StrSliceExecFns;
use vstd::string::StringExecFns;

verus! {

#[verifier::external_type_specification]
#[verifier::external_body]
pub struct ExValue(serde_json::Value);

/// A JSON value.
pub enum JsonValue {
    Null,
    Bool(bool),
    Num(String),
    Str(String),
    Arr(Vec<JsonValue>),
    Obj(Vec<(String, JsonValue)>),
}

/// Deep equality of two JSON values.
pub open spec fn json_equal(a: JsonValue, b: JsonValue) -> bool
    decreases a,
{
    match (a, b) {
        (JsonValue::Null, JsonValue::Null) => true,
        (JsonValue::Bool(x), JsonValue::Bool(y)) => x == y,
        (JsonValue::Num(x), JsonValue::Num(y)) => x@ == y@,
        (JsonValue::Str(x), JsonValue::Str(y)) => x@ == y@,
        (JsonValue::Arr(x), JsonValue::Arr(y)) => x@.len() == y@.len() && forall|i: int|
            0 <= i < x@.len() ==> json_equal(#[trigger] x@[i], y@[i]),
        (JsonValue::Obj(x), JsonValue::Obj(y)) => x@.len() == y@.len() && forall|i: int|
            0 <= i < x@.len() ==> (#[trigger] x@[i]).0@ == y@[i].0@ && json_equal(
                x@[i].1,
                y@[i].1,
            ),
        _ => false,
    }
}

/// Decides deep equality.
#[verifier::loop_isolation(false)]
pub fn json_eq(a: &JsonValue, b: &JsonValue) -> (r: bool)
    ensures
        r == json_equal(*a, *b),
    decreases *a,
{
    match (a, b) {
        (JsonValue::Null, JsonValue::Null) => true,
        (JsonValue::Bool(x), JsonValue::Bool(y)) => *x == *y,
        (JsonValue::Num(x), JsonValue::Num(y)) => crate::text::str_eq(x.as_str(), y.as_str()),
        (JsonValue::Str(x), JsonValue::Str(y)) => crate::text::str_eq(x.as_str(), y.as_str()),
        (JsonValue::Arr(x), JsonValue::Arr(y)) => {
            if x.len() != y.len() {
                return false;
            }
            let n = x.len();
            let mut i: usize = 0;
            while i < n
                invariant
                    0 <= i <= n,
                    n == x@.len(),
                    n == y@.len(),
                    a == JsonValue::Arr(*x),
                    b == JsonValue::Arr(*y),
                    forall|j: int| 0 <= j < i ==> json_equal(#[trigger] x@[j], y@[j]),
                decreases n - i,
            {
                if !json_eq(&x[i], &y[i]) {
                    proof {
                        assert(!json_equal(x@[i as int], y@[i as int]));
                        assert(!json_equal(*a, *b));
                    }
                    return false;
                }
                i = i + 1;
            }
            proof {
                assert(json_equal(*a, *b));
            }
            true
        },
        (JsonValue::Obj(x), JsonValue::Obj(y)) => {
            if x.len() != y.len() {
                return false;
            }
            let n = x.len();
            let mut i: usize = 0;
            while i < n
                invariant
                    0 <= i <= n,
                    n == x@.len(),
                    n == y@.len(),
                    a == JsonValue::Obj(*x),
                    b == JsonValue::Obj(*y),
                    forall|j: int|
                        0 <= j < i ==> (#[trigger] x@[j]).0@ == y@[j].0@ && json_equal(
                            x@[j].1,
                            y@[j].1,
                        ),
                decreases n - i,
            {
                if !crate::text::str_eq(x[i].0.as_str(), y[i].0.as_str()) {
                    proof {
                        assert((x@[i as int]).0@ != y@[i as int].0@);
                        assert(!json_equal(*a, *b));
                    }
                    return false;
                }
                if !json_eq(&x[i].1, &y[i].1) {
                    proof {
                        assert(!json_equal(x@[i as int].1, y@[i as int].1));
                        assert(!json_equal(*a, *b));
                    }
                    return false;
                }
                i = i + 1;
            }
            proof {
                assert(json_equal(*a, *b));
            }
            true
        },
        _ => false,
    }
}

pub open spec fn spec_hex_char(d: int) -> char {
    if d == 10 {
        'a'
    } else if d == 11 {
        'b'
    } else if d == 12 {
        'c'
    } else if d == 13 {
        'd'
    } else if d == 14 {
        'e'
    } else if d == 15 {
        'f'
    } else {
        crate::text::spec_digit_char(d)
    }
}

/// How one character appears inside a JSON string literal.
pub open spec fn esc_char(c: char) -> Seq<char> {
    if c == '"' {
        seq!['\\', '"']
    } else if c == '\\' {
        seq!['\\', '\\']
    } else if c == '\n' {
        seq!['\\', 'n']
    } else if c == '\r' {
        seq!['\\', 'r']
    } else if c == '\t' {
        seq!['\\', 't']
    } else if c == '\u{8}' {
        seq!['\\', 'b']
    } else if c == '\u{c}' {
        seq!['\\', 'f']
    } else if (c as u32) < 32 {
        seq!['\\', 'u', '0', '0', spec_hex_char(c as u32 as int / 16), spec_hex_char(
            c as u32 as int % 16,
        )]
    } else {
        seq![c]
    }
}

pub open spec fn escape_seq(s: Seq<char>) -> Seq<char>
    decreases s.len(),
{
    if s.len() == 0 {
        Seq::empty()
    } else {
        escape_seq(s.drop_last()).add(esc_char(s.last()))
    }
}

/// The serialized text of a JSON value: compact, members in stored order,
/// strings escaped as `esc_char` says.
pub open spec fn json_text(v: JsonValue) -> Seq<char>
    decreases v, 1int,
{
    match v {
        JsonValue::Null => seq!['n', 'u', 'l', 'l'],
        JsonValue::Bool(b) => if b {
            seq!['t', 'r', 'u', 'e']
        } else {
            seq!['f', 'a', 'l', 's', 'e']
        },
        JsonValue::Num(s) => s@,
        JsonValue::Str(s) => seq!['"'].add(escape_seq(s@)).push('"'),
        JsonValue::Arr(a) => seq!['['].add(arr_text(a@)).push(']'),
        JsonValue::Obj(o) => seq!['{'].add(obj_text(o@)).push('}'),
    }
}

pub open spec fn arr_text(a: Seq<JsonValue>) -> Seq<char>
    decreases a, 0int,
{
    if a.len() == 0 {
        Seq::empty()
    } else if a.len() == 1 {
        json_text(a[0])
    } else {
        arr_text(a.drop_last()).push(',').add(json_text(a.last()))
    }
}

pub open spec fn obj_text(o: Seq<(String, JsonValue)>) -> Seq<char>
    decreases o, 0int,
{
    if o.len() == 0 {
        Seq::empty()
    } else if o.len() == 1 {
        member_text(o[0])
    } else {
        obj_text(o.drop_last()).push(',').add(member_text(o.last()))
    }
}

pub open spec fn member_text(m: (String, JsonValue)) -> Seq<char>
    decreases m, 0int,
{
    seq!['"'].add(escape_seq(m.0@)).push('"').push(':').add(json_text(m.1))
}

fn hex_str(d: u32) -> (r: &'static str)
    requires
        d < 16,
    ensures
        r@ == seq![spec_hex_char(d as int)],
{
    proof {
        reveal_strlit("a");
        reveal_strlit("b");
        reveal_strlit("c");
        reveal_strlit("d");
        reveal_strlit("e");
        reveal_strlit("f");
    }
    if d < 10 {
        crate::text::digit_str(d as u64)
    } else {
        let r = if d == 10 {
            "a"
        } else if d == 11 {
            "b"
        } else if d == 12 {
            "c"
        } else if d == 13 {
            "d"
        } else if d == 14 {
            "e"
        } else {
            "f"
        };
        proof {
            assert(r@ =~= seq![spec_hex_char(d as int)]);
        }
        r
    }
}

/// Writes `s` escaped for a JSON string literal onto the end of `out`.
fn append_escaped(out: &mut String, s: &str)
    ensures
        final(out)@ == old(out)@.add(escape_seq(s@)),
{
    let n = s.unicode_len();
    let mut i: usize = 0;
    proof {
        assert(s@.subrange(0, 0) =~= Seq::<char>::empty());
        assert(old(out)@.add(escape_seq(s@.subrange(0, 0))) =~= old(out)@);
    }
    while i < n
        invariant
            0 <= i <= n,
            n == s@.len(),
            out@ == old(out)@.add(escape_seq(s@.subrange(0, i as int))),
        decreases n - i,
    {
        let c = s.get_char(i);
        proof {
            reveal_strlit("\\\"");
            reveal_strlit("\\\\");
            reveal_strlit("\\n");
            reveal_strlit("\\r");
            reveal_strlit("\\t");
            reveal_strlit("\\b");
            reveal_strlit("\\f");
            reveal_strlit("\\u00");
        }
        if c == '"' {
            out.append("\\\"");
            proof {
                assert("\\\""@ =~= esc_char(c));
            }
        } else if c == '\\' {
            out.append("\\\\");
            proof {
                assert("\\\\"@ =~= esc_char(c));
            }
        } else if c == '\n' {
            out.append("\\n");
            proof {
                assert("\\n"@ =~= esc_char(c));
            }
        } else if c == '\r' {
            out.append("\\r");
            proof {
                assert("\\r"@ =~= esc_char(c));
            }
        } else if c == '\t' {
            out.append("\\t");
            proof {
                assert("\\t"@ =~= esc_char(c));
            }
        } else if c == '\u{8}' {
            out.append("\\b");
            proof {
                assert("\\b"@ =~= esc_char(c));
            }
        } else if c == '\u{c}' {
            out.append("\\f");
            proof {
                assert("\\f"@ =~= esc_char(c));
            }
        } else if (c as u32) < 32 {
            out.append("\\u00");
            out.append(hex_str((c as u32) / 16));
            out.append(hex_str((c as u32) % 16));
            proof {
                assert("\\u00"@.add(seq![spec_hex_char(c as u32 as int / 16)]).add(
                    seq![spec_hex_char(c as u32 as int % 16)],
                ) =~= esc_char(c));
            }
        } else {
            let piece = s.substring_char(i, i + 1);
            out.append(piece);
            proof {
                assert(piece@ =~= esc_char(c));
            }
        }
        proof {
            assert(s@.subrange(0, i + 1).drop_last() =~= s@.subrange(0, i as int));
            assert(s@.subrange(0, i + 1).last() == c);
            assert(escape_seq(s@.subrange(0, i + 1)) == escape_seq(s@.subrange(0, i as int)).add(
                esc_char(c),
            ));
        }
        i = i + 1;
    }
    proof {
        assert(s@.subrange(0, n as int) =~= s@);
    }
}

/// Serializes a JSON value, compactly, as `json_text` says.
#[verifier::loop_isolation(false)]
pub fn to_json_string(v: &JsonValue) -> (r: String)
    ensures
        r@ == json_text(*v),
    decreases *v,
{
    proof {
        reveal_strlit("null");
        reveal_strlit("true");
        reveal_strlit("false");
        reveal_strlit("\"");
        reveal_strlit("[");
        reveal_strlit("]");
        reveal_strlit("{");
        reveal_strlit("}");
        reveal_strlit(",");
        reveal_strlit(":");
    }
    match v {
        JsonValue::Null => {
            let r = String::from_str("null");
            proof {
                assert(r@ =~= json_text(*v));
            }
            r
        },
        JsonValue::Bool(b) => {
            let r = if *b {
                String::from_str("true")
            } else {
                String::from_str("false")
            };
            proof {
                assert(r@ =~= json_text(*v));
            }
            r
        },
        JsonValue::Num(s) => {
            let r = s.clone();
            proof {
                assert(r@ =~= json_text(*v));
            }
            r
        },
        JsonValue::Str(s) => {
            let mut out = String::from_str("\"");
            append_escaped(&mut out, s.as_str());
            out.append("\"");
            proof {
                assert(out@ =~= json_text(*v));
            }
            out
        },
        JsonValue::Arr(a) => {
            let mut out = String::from_str("[");
            let n = a.len();
            let mut i: usize = 0;
            proof {
                assert(a@.subrange(0, 0) =~= Seq::<JsonValue>::empty());
                assert(out@ =~= seq!['['].add(arr_text(a@.subrange(0, 0))));
            }
            while i < n
                invariant
                    0 <= i <= n,
                    n == a@.len(),
                    v == JsonValue::Arr(*a),
                    out@ == seq!['['].add(arr_text(a@.subrange(0, i as int))),
                decreases n - i,
            {
                if i > 0 {
                    out.append(",");
                }
                let piece = to_json_string(&a[i]);
                out.append(piece.as_str());
                proof {
                    assert(a@.subrange(0, i + 1).drop_last() =~= a@.subrange(0, i as int));
                    assert(a@.subrange(0, i + 1).last() == a@[i as int]);
                    if i == 0 {
                        assert(a@.subrange(0, 1)[0] == a@[0]);
                        assert(a@.subrange(0, 1).len() == 1);
                        assert(arr_text(a@.subrange(0, 1)) == json_text(a@[0]));
                        assert(out@ =~= seq!['['].add(arr_text(a@.subrange(0, i + 1))));
                    } else {
                        assert(arr_text(a@.subrange(0, i + 1)) == arr_text(
                            a@.subrange(0, i as int),
                        ).push(',').add(json_text(a@[i as int])));
                        assert(out@ =~= seq!['['].add(arr_text(a@.subrange(0, i + 1))));
                    }
                }
                i = i + 1;
            }
            out.append("]");
            proof {
                assert(a@.subrange(0, n as int) =~= a@);
                assert(out@ =~= json_text(*v));
            }
            out
        },
        JsonValue::Obj(o) => {
            let mut out = String::from_str("{");
            let n = o.len();
            let mut i: usize = 0;
            proof {
                assert(o@.subrange(0, 0) =~= Seq::<(String, JsonValue)>::empty());
                assert(out@ =~= seq!['{'].add(obj_text(o@.subrange(0, 0))));
            }
            while i < n
                invariant
                    0 <= i <= n,
                    n == o@.len(),
                    v == JsonValue::Obj(*o),
                    out@ == seq!['{'].add(obj_text(o@.subrange(0, i as int))),
                decreases n - i,
            {
                if i > 0 {
                    out.append(",");
                }
                out.append("\"");
                append_escaped(&mut out, o[i].0.as_str());
                out.append("\"");
                out.append(":");
                let piece = to_json_string(&o[i].1);
                out.append(piece.as_str());
                proof {
                    assert(o@.subrange(0, i + 1).drop_last() =~= o@.subrange(0, i as int));
                    assert(o@.subrange(0, i + 1).last() == o@[i as int]);
                    if i == 0 {
                        assert(o@.subrange(0, 1)[0] == o@[0]);
                        assert(o@.subrange(0, 1).len() == 1);
                        assert(obj_text(o@.subrange(0, 1)) == member_text(o@[0]));
                        assert(out@ =~= seq!['{'].add(obj_text(o@.subrange(0, i + 1))));
                    } else {
                        assert(obj_text(o@.subrange(0, i + 1)) == obj_text(
                            o@.subrange(0, i as int),
                        ).push(',').add(member_text(o@[i as int])));
                        assert(out@ =~= seq!['{'].add(obj_text(o@.subrange(0, i + 1))));
                    }
                }
                i = i + 1;
            }
            out.append("}");
            proof {
                assert(o@.subrange(0, n as int) =~= o@);
                assert(out@ =~= json_text(*v));
            }
            out
        },
    }
}

/// A deep copy, equal to the original under `json_equal`.
#[verifier::loop_isolation(false)]
pub fn json_clone(v: &JsonValue) -> (r: JsonValue)
    ensures
        json_equal(r, *v),
        json_equal(*v, r),
    decreases *v,
{
    match v {
        JsonValue::Null => JsonValue::Null,
        JsonValue::Bool(b) => JsonValue::Bool(*b),
        JsonValue::Num(s) => JsonValue::Num(s.clone()),
        JsonValue::Str(s) => JsonValue::Str(s.clone()),
        JsonValue::Arr(a) => {
            let n = a.len();
            let mut out: Vec<JsonValue> = Vec::new();
            let mut i: usize = 0;
            while i < n
                invariant
                    0 <= i <= n,
                    out@.len() == i,
                    forall|j: int|
                        0 <= j < i ==> json_equal(#[trigger] out@[j], a@[j]) && json_equal(
                            a@[j],
                            out@[j],
                        ),
                decreases n - i,
            {
                let c = json_clone(&a[i]);
                out.push(c);
                i = i + 1;
            }
            let r = JsonValue::Arr(out);
            proof {
                assert(json_equal(r, *v));
                assert(json_equal(*v, r));
            }
            r
        },
        JsonValue::Obj(o) => {
            let n = o.len();
            let mut out: Vec<(String, JsonValue)> = Vec::new();
            let mut i: usize = 0;
            while i < n
                invariant
                    0 <= i <= n,
                    out@.len() == i,
                    forall|j: int|
                        0 <= j < i ==> (#[trigger] out@[j]).0@ == o@[j].0@ && json_equal(
                            out@[j].1,
                            o@[j].1,
                        ) && json_equal(o@[j].1, out@[j].1),
                decreases n - i,
            {
                let k = o[i].0.clone();
                let c = json_clone(&o[i].1);
                out.push((k, c));
                i = i + 1;
            }
            let r = JsonValue::Obj(out);
            proof {
                assert(json_equal(r, *v));
                assert(json_equal(*v, r));
            }
            r
        },
    }
}

/// `json_equal` is symmetric.
pub proof fn lemma_json_equal_sym(a: JsonValue, b: JsonValue)
    ensures
        json_equal(a, b) == json_equal(b, a),
    decreases a,
{
    match (a, b) {
        (JsonValue::Arr(x), JsonValue::Arr(y)) => {
            if x@.len() == y@.len() {
                assert forall|i: int| 0 <= i < x@.len() implies json_equal(#[trigger] x@[i], y@[i])
                    == json_equal(y@[i], x@[i]) by {
                    lemma_json_equal_sym(x@[i], y@[i]);
                }
            }
        },
        (JsonValue::Obj(x), JsonValue::Obj(y)) => {
            if x@.len() == y@.len() {
                assert forall|i: int| 0 <= i < x@.len() implies json_equal(
                    (#[trigger] x@[i]).1,
                    y@[i].1,
                ) == json_equal(y@[i].1, x@[i].1) by {
                    lemma_json_equal_sym(x@[i].1, y@[i].1);
                }
            }
        },
        _ => {},
    }
}

/// `json_equal` is transitive.
pub proof fn lemma_json_equal_trans(a: JsonValue, b: JsonValue, c: JsonValue)
    requires
        json_equal(a, b),
        json_equal(b, c),
    ensures
        json_equal(a, c),
    decreases a,
{
    match (a, b, c) {
        (JsonValue::Arr(x), JsonValue::Arr(y), JsonValue::Arr(z)) => {
            assert forall|i: int| 0 <= i < x@.len() implies json_equal(
                #[trigger] x@[i],
                z@[i],
            ) by {
                assert(json_equal(x@[i], y@[i]));
                assert(json_equal(y@[i], z@[i]));
                lemma_json_equal_trans(x@[i], y@[i], z@[i]);
            }
        },
        (JsonValue::Obj(x), JsonValue::Obj(y), JsonValue::Obj(z)) => {
            assert forall|i: int| 0 <= i < x@.len() implies (#[trigger] x@[i]).0@ == z@[i].0@
                && json_equal(x@[i].1, z@[i].1) by {
                assert(x@[i].0@ == y@[i].0@ && json_equal(x@[i].1, y@[i].1));
                assert(y@[i].0@ == z@[i].0@ && json_equal(y@[i].1, z@[i].1));
                lemma_json_equal_trans(x@[i].1, y@[i].1, z@[i].1);
            }
        },
        _ => {},
    }
}

/// The value the first member with a key holds, if any.
pub open spec fn obj_lookup(o: Seq<(String, JsonValue)>, k: Seq<char>) -> Option<JsonValue>
    decreases o.len(),
{
    if o.len() == 0 {
        None
    } else if o[0].0@ == k {
        Some(o[0].1)
    } else {
        obj_lookup(o.drop_first(), k)
    }
}

pub proof fn lemma_obj_lookup_at(o: Seq<(String, JsonValue)>, k: Seq<char>, i: int)
    requires
        0 <= i < o.len(),
        o[i].0@ == k,
        forall|j: int| 0 <= j < i ==> (#[trigger] o[j]).0@ != k,
    ensures
        obj_lookup(o, k) == Some(o[i].1),
    decreases i,
{
    if i > 0 {
        lemma_obj_lookup_at(o.drop_first(), k, i - 1);
    }
}

pub proof fn lemma_obj_lookup_none(o: Seq<(String, JsonValue)>, k: Seq<char>)
    requires
        forall|j: int| 0 <= j < o.len() ==> (#[trigger] o[j]).0@ != k,
    ensures
        obj_lookup(o, k) is None,
    decreases o.len(),
{
    if o.len() > 0 {
        lemma_obj_lookup_none(o.drop_first(), k);
    }
}

pub fn obj_lookup_exec<'a>(o: &'a Vec<(String, JsonValue)>, k: &str) -> (r: Option<&'a JsonValue>)
    ensures
        match r {
            Some(v) => obj_lookup(o@, k@) == Some(*v),
            None => obj_lookup(o@, k@) is None,
        },
{
    let n = o.len();
    let mut i: usize = 0;
    while i < n
        invariant
            0 <= i <= n,
            n == o@.len(),
            forall|j: int| 0 <= j < i ==> (#[trigger] o@[j]).0@ != k@,
        decreases n - i,
    {
        if crate::text::str_eq(o[i].0.as_str(), k) {
            proof {
                lemma_obj_lookup_at(o@, k@, i as int);
            }
            return Some(&o[i].1);
        }
        i = i + 1;
    }
    proof {
        lemma_obj_lookup_none(o@, k@);
    }
    None
}

/// What JSON text parses to, if it parses at all. The result is a function
/// of the text alone; nothing more is assumed of it here.
pub uninterp spec fn json_of(s: Seq<char>) -> Option<JsonValue>;

/// Relies on serde_json::Value's public shape, Number::to_string and the
/// sorted order of its map: each parsed value is carried over member for
/// member, numbers as their decimal text.
#[verifier::external_body]
fn value_to_json(v: &serde_json::Value) -> JsonValue {
    match v {
        serde_json::Value::Null => JsonValue::Null,
        serde_json::Value::Bool(b) => JsonValue::Bool(*b),
        serde_json::Value::Number(n) => JsonValue::Num(n.to_string()),
        serde_json::Value::String(s) => JsonValue::Str(s.clone()),
        serde_json::Value::Array(a) => JsonValue::Arr(a.iter().map(value_to_json).collect()),
        serde_json::Value::Object(m) => JsonValue::Obj(
            m.iter().map(|(k, x)| (k.clone(), value_to_json(x))).collect(),
        ),
    }
}

/// Relies on serde_json::from_str::<serde_json::Value>: whether a text is
/// well-formed JSON, and the value it denotes, depend on the text alone, so
/// the outcome is written `json_of`. On failure the error's own message is
/// returned; nothing is assumed about its wording.
#[verifier::external_body]
pub(crate) fn parse_json(s: &str) -> (r: Result<JsonValue, String>)
    ensures
        match r {
            Ok(v) => json_of(s@) == Some(v),
            Err(_) => json_of(s@) is None,
        },
{
    match serde_json::from_str::<serde_json::Value>(s) {
        Ok(v) => Ok(value_to_json(&v)),
        Err(e) => Err(e.to_string()),
    }
}

} // verus!
