//! The wire-facing data types: requests, responses, route patterns, and the
//! `Nested` JSON-like structure used for error and result bodies.

use vstd::prelude::*;
use vstd::string::StrSliceExecFns;
use vstd::string::StringExecFns;

use crate::dict::Dict;
use crate::text::spec_u64_string;
use crate::text::u64_to_string;

verus! {

/// The HTTP methods the server accepts.
#[derive(PartialEq, Eq, Structural, Clone, Copy, Debug)]
pub enum Method {
    Get,
    Post,
    Put,
}

impl Method {
    /// The method's uppercase wire name.
    pub open spec fn spec_name(self) -> Seq<char> {
        match self {
            Method::Get => seq!['G', 'E', 'T'],
            Method::Post => seq!['P', 'O', 'S', 'T'],
            Method::Put => seq!['P', 'U', 'T'],
        }
    }

    pub fn to_string(&self) -> (r: String)
        ensures
            r@ == self.spec_name(),
    {
        proof {
            reveal_strlit("GET");
            reveal_strlit("POST");
            reveal_strlit("PUT");
            assert("GET"@ =~= seq!['G', 'E', 'T']);
            assert("POST"@ =~= seq!['P', 'O', 'S', 'T']);
            assert("PUT"@ =~= seq!['P', 'U', 'T']);
        }
        match self {
            Method::Get => String::from_str("GET"),
            Method::Post => String::from_str("POST"),
            Method::Put => String::from_str("PUT"),
        }
    }
}

/// What the router extracts from a request path: the bare path, its query
/// parameters, the bound path parameters, and the regex captures.
pub struct RequestPath {
    pub path: String,
    pub queries: Dict<String>,
    pub params: Dict<String>,
    pub matches: Vec<String>,
}

impl RequestPath {
    pub open spec fn wf(&self) -> bool {
        &&& self.queries.wf()
        &&& self.params.wf()
    }
}

/// A request, as parsed from the wire and enriched by the router.
pub struct Request {
    pub method: Method,
    pub path: String,
    pub version: String,
    pub headers: Dict<String>,
    pub body: String,
    pub queries: Dict<String>,
    pub params: Dict<String>,
    pub matches: Vec<String>,
}

impl Request {
    pub open spec fn wf(&self) -> bool {
        &&& self.headers.wf()
        &&& self.queries.wf()
        &&& self.params.wf()
    }
}

/// How a route's path is matched: literally, with `:name` parameter
/// segments, or by a regular expression over the whole path and query text.
pub enum RequestPathPattern {
    Exact(String),
    Match(String),
}

/// A route's method and path pattern.
pub struct RequestOption {
    pub method: Method,
    pub path: RequestPathPattern,
}

/// A response: status code, body text, and headers.
pub struct Response {
    pub status: u16,
    pub body: String,
    pub headers: Dict<String>,
}

impl Response {
    pub open spec fn wf(&self) -> bool {
        self.headers.wf()
    }
}

/// A small JSON-like object used to build error and result bodies.
pub struct Nested {
    pub values: Vec<(String, NestedValue)>,
}

/// A value inside a [Nested].
pub enum NestedValue {
    Obj(Nested),
    Str(String),
    Bool(bool),
    Int(i32),
    Array(Vec<NestedValue>),
}

impl Nested {
    pub fn new() -> (r: Nested)
        ensures
            r.values@ =~= Seq::<(String, NestedValue)>::empty(),
    {
        Nested { values: Vec::new() }
    }

    pub fn insert(&mut self, key: String, value: NestedValue)
        ensures
            final(self).values@ == old(self).values@.push((key, value)),
    {
        self.values.push((key, value));
    }

    pub fn insert_string(&mut self, key: String, value: String)
        ensures
            final(self).values@ == old(self).values@.push((key, NestedValue::Str(value))),
    {
        self.insert(key, NestedValue::Str(value));
    }

    pub fn len(&self) -> (r: usize)
        ensures
            r == self.values@.len(),
    {
        self.values.len()
    }
}


pub open spec fn content_type_key() -> Seq<char> {
    seq!['C', 'o', 'n', 't', 'e', 'n', 't', '-', 'T', 'y', 'p', 'e']
}

pub open spec fn mime_json() -> Seq<char> {
    seq![
        'a',
        'p',
        'p',
        'l',
        'i',
        'c',
        'a',
        't',
        'i',
        'o',
        'n',
        '/',
        'j',
        's',
        'o',
        'n',
    ]
}

pub open spec fn mime_text_plain() -> Seq<char> {
    seq!['t', 'e', 'x', 't', '/', 'p', 'l', 'a', 'i', 'n']
}

pub open spec fn mime_text_html() -> Seq<char> {
    seq!['t', 'e', 'x', 't', '/', 'h', 't', 'm', 'l']
}

impl Response {
    /// A 200 response carrying HTML.
    pub fn html(body: String) -> (r: Response)
        ensures
            r.wf(),
            r.status == 200,
            r.body@ == body@,
            r.headers@ == Map::<Seq<char>, Seq<char>>::empty().insert(
                content_type_key(),
                mime_text_html(),
            ),
    {
        proof {
            reveal_strlit("Content-Type");
            reveal_strlit("text/html");
            assert("Content-Type"@ =~= content_type_key());
            assert("text/html"@ =~= mime_text_html());
        }
        let mut headers: Dict<String> = Dict::new();
        headers.insert(String::from_str("Content-Type"), String::from_str("text/html"));
        Response { status: 200, body, headers }
    }
}

/// The decimal text of a signed number.
pub open spec fn spec_i32_string(n: int) -> Seq<char> {
    if n < 0 {
        seq!['-'].add(spec_u64_string(-n))
    } else {
        spec_u64_string(n)
    }
}

/// Writes a signed number in decimal.
pub fn i32_to_string(n: i32) -> (r: String)
    ensures
        r@ == spec_i32_string(n as int),
{
    proof {
        reveal_strlit("-");
    }
    if n < 0 {
        let mag: u64 = (-(n as i64)) as u64;
        let mut s = String::from_str("-");
        let d = u64_to_string(mag);
        s.append(d.as_str());
        proof {
            assert(s@ =~= spec_i32_string(n as int));
        }
        s
    } else {
        u64_to_string(n as u64)
    }
}

} // verus!
