//! Route matching and text helpers: turning a raw request path into path,
//! query map, bound parameters and regex captures, and writing `Nested`
//! values as JSON text.

use vstd::prelude::*;
use vstd::string::StrSliceExecFns;
use vstd::string::StringExecFns;
use vstd::string::StringSliceAdditionalSpecFns;

use crate::dict::Dict;
use crate::text::count_char;
use crate::text::count_char_exec;
use crate::text::find_char;
use crate::text::lemma_split_count;
use crate::text::spec_split;
use crate::text::split_str;
use crate::text::str_eq;
use crate::web_server::types::Method;
use crate::web_server::types::Nested;
use crate::web_server::types::NestedValue;
use crate::web_server::types::RequestPath;
use crate::web_server::types::RequestPathPattern;
use crate::web_server::types::i32_to_string;
use crate::web_server::types::spec_i32_string;

verus! {

/// Index of the first occurrence of a character, if any.
pub open spec fn spec_find(s: Seq<char>, c: char) -> Option<int>
    decreases s.len(),
{
    if s.len() == 0 {
        None
    } else if s[0] == c {
        Some(0)
    } else {
        match spec_find(s.drop_first(), c) {
            Some(i) => Some(i + 1),
            None => None,
        }
    }
}

pub proof fn lemma_spec_find_none(s: Seq<char>, c: char)
    requires
        forall|j: int| 0 <= j < s.len() ==> s[j] != c,
    ensures
        spec_find(s, c) is None,
    decreases s.len(),
{
    if s.len() > 0 {
        lemma_spec_find_none(s.drop_first(), c);
    }
}

pub proof fn lemma_spec_find_at(s: Seq<char>, c: char, i: int)
    requires
        0 <= i < s.len(),
        s[i] == c,
        forall|j: int| 0 <= j < i ==> s[j] != c,
    ensures
        spec_find(s, c) == Some(i),
    decreases i,
{
    if i > 0 {
        lemma_spec_find_at(s.drop_first(), c, i - 1);
    }
}

/// `find_char`, under its specification-level name.
pub fn find_char_spec(s: &str, c: char) -> (r: Option<usize>)
    ensures
        match r {
            Some(i) => 0 <= i < s@.len() && spec_find(s@, c) == Some(i as int),
            None => spec_find(s@, c) is None,
        },
{
    match find_char(s, c) {
        Some(i) => {
            proof {
                lemma_spec_find_at(s@, c, i as int);
            }
            Some(i)
        },
        None => {
            proof {
                lemma_spec_find_none(s@, c);
            }
            None
        },
    }
}

/// The key and value a `key=value` pair denotes, if it has at least two
/// `=`-separated parts: everything before the first `=`, and the part
/// between the first and second.
pub open spec fn spec_pair_of(pair: Seq<char>) -> Option<(Seq<char>, Seq<char>)> {
    let parts = spec_split(pair, '=');
    if parts.len() >= 2 {
        Some((parts[0], parts[1]))
    } else {
        None
    }
}

/// The map a query string denotes: its `&`-separated pairs, later pairs
/// winning, pairs without `=` ignored.
pub open spec fn spec_fold_pairs(parts: Seq<Seq<char>>) -> Map<Seq<char>, Seq<char>>
    decreases parts.len(),
{
    if parts.len() == 0 {
        Map::empty()
    } else {
        let m = spec_fold_pairs(parts.drop_last());
        match spec_pair_of(parts.last()) {
            Some(kv) => m.insert(kv.0, kv.1),
            None => m,
        }
    }
}

pub open spec fn spec_queries_map(qs: Seq<char>) -> Map<Seq<char>, Seq<char>> {
    spec_fold_pairs(spec_split(qs, '&'))
}

/// Extracts queries from a query string.
pub fn extract_queries(query_string: &str) -> (r: Dict<String>)
    ensures
        r.wf(),
        r@ == spec_queries_map(query_string@),
{
    let parts = split_str(query_string, '&');
    let n = parts.len();
    let mut r: Dict<String> = Dict::new();
    let mut i: usize = 0;
    proof {
        assert(spec_split(query_string@, '&').subrange(0, 0) =~= Seq::<Seq<char>>::empty());
    }
    while i < n
        invariant
            0 <= i <= n,
            n == parts@.len(),
            parts@.map_values(|p: String| p@) == spec_split(query_string@, '&'),
            r.wf(),
            r@ == spec_fold_pairs(spec_split(query_string@, '&').subrange(0, i as int)),
        decreases n - i,
    {
        let ghost pairs = spec_split(query_string@, '&');
        proof {
            assert(pairs.subrange(0, i + 1).drop_last() =~= pairs.subrange(0, i as int));
            assert(pairs.subrange(0, i + 1).last() == pairs[i as int]);
            assert(parts@[i as int]@ == pairs[i as int]);
        }
        let kv = split_str(parts[i].as_str(), '=');
        if kv.len() >= 2 {
            let k = kv[0].clone();
            let v = kv[1].clone();
            proof {
                assert(k@ == spec_split(pairs[i as int], '=')[0]);
                assert(v@ == spec_split(pairs[i as int], '=')[1]);
            }
            r.insert(k, v);
        }
        i = i + 1;
    }
    proof {
        assert(spec_split(query_string@, '&').subrange(0, n as int) =~= spec_split(
            query_string@,
            '&',
        ));
    }
    r
}

/// The path part of a raw request path: everything before the first `?`.
pub open spec fn spec_path_of(s: Seq<char>) -> Seq<char> {
    match spec_find(s, '?') {
        Some(i) => s.subrange(0, i),
        None => s,
    }
}

/// The query part of a raw request path: everything after the first `?`.
pub open spec fn spec_raw_query(s: Seq<char>) -> Seq<char> {
    match spec_find(s, '?') {
        Some(i) => s.subrange(i + 1, s.len() as int),
        None => Seq::empty(),
    }
}

/// Splits a raw request path into its path and its query map.
pub fn split_path_and_queries(request_path: &str) -> (r: (String, Dict<String>))
    ensures
        r.0@ == spec_path_of(request_path@),
        r.1.wf(),
        r.1@ == spec_queries_map(spec_raw_query(request_path@)),
{
    let n = request_path.unicode_len();
    match find_char_spec(request_path, '?') {
        None => {
            proof {
                reveal_strlit("");
                assert(""@ =~= Seq::<char>::empty());
            }
            let r = (String::from_str(request_path), extract_queries(""));
            r
        },
        Some(i) => {
            let path = request_path.substring_char(0, i);
            let qs = request_path.substring_char(i + 1, n);
            (String::from_str(path), extract_queries(qs))
        },
    }
}

/// Compares the number of slashes in a pattern and a path.
pub fn compare_slash_counts(pattern: &str, path: &str) -> (r: bool)
    ensures
        r == (count_char(pattern@, '/') == count_char(path@, '/')),
{
    let a = count_char_exec(pattern, '/');
    let b = count_char_exec(path, '/');
    a == b
}

/// A pattern segment that binds the matching path segment to a name.
pub open spec fn seg_is_param(seg: Seq<char>) -> bool {
    seg.len() > 0 && seg[0] == ':'
}

/// A literal pattern matches a path when they have the same segments, each
/// pattern segment either a `:name` parameter or literally equal.
pub open spec fn spec_exact_match(pattern: Seq<char>, path: Seq<char>) -> bool {
    let ps = spec_split(pattern, '/');
    let rs = spec_split(path, '/');
    ps.len() == rs.len() && forall|i: int|
        0 <= i < ps.len() ==> seg_is_param(#[trigger] ps[i]) || ps[i] == rs[i]
}

/// The parameters a literal pattern binds: each `:name` segment, without its
/// colon, maps to the path segment standing where it stands.
pub open spec fn spec_params_upto(ps: Seq<Seq<char>>, rs: Seq<Seq<char>>, i: int) -> Map<
    Seq<char>,
    Seq<char>,
>
    decreases i,
{
    if i <= 0 {
        Map::empty()
    } else {
        let m = spec_params_upto(ps, rs, i - 1);
        if seg_is_param(ps[i - 1]) {
            m.insert(ps[i - 1].subrange(1, ps[i - 1].len() as int), rs[i - 1])
        } else {
            m
        }
    }
}

pub open spec fn spec_exact_params(pattern: Seq<char>, path: Seq<char>) -> Map<
    Seq<char>,
    Seq<char>,
> {
    let ps = spec_split(pattern, '/');
    let rs = spec_split(path, '/');
    spec_params_upto(ps, rs, ps.len() as int)
}

/// Handles literal path matching with `:name` parameters. A literal route
/// turns away any request that carries query parameters.
#[verifier::loop_isolation(false)]
pub fn handle_exact_path(pattern: &str, path: &str, queries: &Dict<String>) -> (r: Option<
    RequestPath,
>)
    requires
        queries.wf(),
    ensures
        r is Some <==> queries@ == Map::<Seq<char>, Seq<char>>::empty() && spec_exact_match(
            pattern@,
            path@,
        ),
        match r {
            Some(rp) => {
                &&& rp.wf()
                &&& rp.path@ == path@
                &&& rp.queries@ == Map::<Seq<char>, Seq<char>>::empty()
                &&& rp.params@ == spec_exact_params(pattern@, path@)
                &&& rp.matches@ =~= Seq::<String>::empty()
            },
            None => true,
        },
{
    if !queries.is_empty() {
        return None;
    }
    if !compare_slash_counts(pattern, path) {
        proof {
            lemma_split_count(pattern@, '/');
            lemma_split_count(path@, '/');
        }
        return None;
    }
    let pattern_segments = split_str(pattern, '/');
    let path_segments = split_str(path, '/');
    proof {
        lemma_split_count(pattern@, '/');
        lemma_split_count(path@, '/');
    }
    let n = pattern_segments.len();
    let ghost ps = spec_split(pattern@, '/');
    let ghost rs = spec_split(path@, '/');
    let mut params: Dict<String> = Dict::new();
    let mut i: usize = 0;
    while i < n
        invariant
            0 <= i <= n,
            n == ps.len(),
            params.wf(),
            params@ == spec_params_upto(ps, rs, i as int),
            forall|j: int| 0 <= j < i ==> seg_is_param(#[trigger] ps[j]) || ps[j] == rs[j],
        decreases n - i,
    {
        let pseg = &pattern_segments[i];
        let rseg = &path_segments[i];
        proof {
            assert(pseg@ == ps[i as int]);
            assert(rseg@ == rs[i as int]);
        }
        let plen = pseg.as_str().unicode_len();
        if plen > 0 && pseg.as_str().get_char(0) == ':' {
            let name = pseg.as_str().substring_char(1, plen);
            params.insert(String::from_str(name), rseg.clone());
        } else if !str_eq(pseg.as_str(), rseg.as_str()) {
            proof {
                assert(!(seg_is_param(ps[i as int]) || ps[i as int] == rs[i as int]));
            }
            return None;
        }
        i = i + 1;
    }
    let r = RequestPath {
        path: String::from_str(path),
        queries: Dict::new(),
        params,
        matches: Vec::new(),
    };
    Some(r)
}

/// Whether a pattern is a valid regular expression. The answer depends on
/// the pattern alone.
pub uninterp spec fn regex_valid(pattern: Seq<char>) -> bool;

/// What a valid regular expression captures on a text: `None` when the text
/// does not match, otherwise the matched texts of the participating capture
/// groups, in order, group zero left out. The answer depends on the pattern
/// and the text alone.
pub uninterp spec fn regex_captures_of(pattern: Seq<char>, text: Seq<char>) -> Option<
    Seq<Seq<char>>,
>;

/// Relies on regex::Regex::new and regex::Regex::captures: compiling depends
/// on the pattern alone and is written `regex_valid`; what a match captures
/// depends on pattern and text alone and is written `regex_captures_of`.
#[verifier::external_body]
fn regex_captures(pattern: &str, text: &str) -> (r: Option<Option<Vec<String>>>)
    ensures
        match r {
            None => !regex_valid(pattern@),
            Some(opt) => regex_valid(pattern@) && match opt {
                None => regex_captures_of(pattern@, text@) is None,
                Some(v) => regex_captures_of(pattern@, text@) == Some(
                    v@.map_values(|x: String| x@),
                ),
            },
        },
{
    match regex::Regex::new(pattern) {
        Err(_) => None,
        Ok(re) => match re.captures(text) {
            None => Some(None),
            Some(caps) => Some(
                Some(caps.iter().skip(1).filter_map(|c| c.map(|m| m.as_str().to_string())).collect()),
            ),
        },
    }
}

/// Handles regex pattern matching over the full original path-and-query
/// text; query parameters ride along for the matching engine.
pub fn handle_regex_path(pattern: &str, full_path: &str, path: &str, queries: &Dict<String>) -> (r:
    Option<RequestPath>)
    requires
        queries.wf(),
    ensures
        r is Some <==> regex_valid(pattern@) && regex_captures_of(pattern@, full_path@) is Some,
        match r {
            Some(rp) => {
                &&& rp.wf()
                &&& rp.path@ == path@
                &&& rp.queries@ == queries@
                &&& rp.params@ == Map::<Seq<char>, Seq<char>>::empty()
                &&& Some(rp.matches@.map_values(|x: String| x@)) == regex_captures_of(
                    pattern@,
                    full_path@,
                )
            },
            None => true,
        },
{
    match regex_captures(pattern, full_path) {
        None => None,
        Some(None) => None,
        Some(Some(matches)) => Some(
            RequestPath {
                path: String::from_str(path),
                queries: queries.duplicate(),
                params: Dict::new(),
                matches,
            },
        ),
    }
}

/// A pattern accepts a raw request path when its literal or regex match, as
/// the pattern's kind asks, goes through.
pub open spec fn spec_route_matches(pat: RequestPathPattern, raw: Seq<char>) -> bool {
    match pat {
        RequestPathPattern::Exact(p) => spec_queries_map(spec_raw_query(raw)) == Map::<
            Seq<char>,
            Seq<char>,
        >::empty() && spec_exact_match(p@, spec_path_of(raw)),
        RequestPathPattern::Match(p) => regex_valid(p@) && regex_captures_of(p@, raw) is Some,
    }
}

/// Parses the parameters in a path: splits off the query string, then
/// matches the pattern literally or as a regex.
pub fn parse_request_path(path_pattern: &RequestPathPattern, request_path: &str) -> (r: Option<
    RequestPath,
>)
    ensures
        r is Some <==> spec_route_matches(*path_pattern, request_path@),
        match r {
            Some(rp) => {
                &&& rp.wf()
                &&& rp.path@ == spec_path_of(request_path@)
                &&& match *path_pattern {
                    RequestPathPattern::Exact(p) => rp.queries@ == Map::<
                        Seq<char>,
                        Seq<char>,
                    >::empty() && rp.params@ == spec_exact_params(p@, spec_path_of(request_path@))
                        && rp.matches@ =~= Seq::<String>::empty(),
                    RequestPathPattern::Match(p) => rp.queries@ == spec_queries_map(
                        spec_raw_query(request_path@),
                    ) && rp.params@ == Map::<Seq<char>, Seq<char>>::empty() && Some(
                        rp.matches@.map_values(|x: String| x@),
                    ) == regex_captures_of(p@, request_path@),
                }
            },
            None => true,
        },
{
    let (path, queries) = split_path_and_queries(request_path);
    match path_pattern {
        RequestPathPattern::Exact(pattern) => handle_exact_path(
            pattern.as_str(),
            path.as_str(),
            &queries,
        ),
        RequestPathPattern::Match(pattern) => handle_regex_path(
            pattern.as_str(),
            request_path,
            path.as_str(),
            &queries,
        ),
    }
}

/// The JSON text of a [Nested]: members in insertion order, written
/// `"key": value`, between `{ ` and ` }`.
pub open spec fn spec_stringify_nested(n: Nested) -> Seq<char>
    decreases n, 2int,
{
    seq!['{', ' '].add(spec_nested_members(n.values@)).add(seq![' ', '}'])
}

pub open spec fn spec_nested_members(s: Seq<(String, NestedValue)>) -> Seq<char>
    decreases s, 1int,
{
    if s.len() == 0 {
        Seq::empty()
    } else if s.len() == 1 {
        spec_nested_member(s[0])
    } else {
        spec_nested_members(s.drop_last()).add(seq![',', ' ']).add(spec_nested_member(s.last()))
    }
}

pub open spec fn spec_nested_member(m: (String, NestedValue)) -> Seq<char>
    decreases m, 1int,
{
    seq!['"'].add(m.0@).add(seq!['"', ':', ' ']).add(spec_nested_value(m.1))
}

pub open spec fn spec_nested_value(v: NestedValue) -> Seq<char>
    decreases v, 2int,
{
    match v {
        NestedValue::Obj(n) => spec_stringify_nested(n),
        NestedValue::Str(s) => seq!['"'].add(s@).push('"'),
        NestedValue::Bool(b) => if b {
            seq!['t', 'r', 'u', 'e']
        } else {
            seq!['f', 'a', 'l', 's', 'e']
        },
        NestedValue::Int(x) => spec_i32_string(x as int),
        NestedValue::Array(a) => seq!['['].add(spec_nested_array(a@)).push(']'),
    }
}

pub open spec fn spec_nested_array(a: Seq<NestedValue>) -> Seq<char>
    decreases a, 1int,
{
    if a.len() == 0 {
        Seq::empty()
    } else if a.len() == 1 {
        spec_nested_value(a[0])
    } else {
        spec_nested_array(a.drop_last()).add(seq![',', ' ']).add(spec_nested_value(a.last()))
    }
}

/// Converts a [Nested] to a JSON string.
#[verifier::loop_isolation(false)]
pub fn stringify_nested(nested: &Nested) -> (r: String)
    ensures
        r@ == spec_stringify_nested(*nested),
    decreases *nested,
{
    proof {
        reveal_strlit("{ ");
        reveal_strlit(" }");
        reveal_strlit(", ");
        reveal_strlit("\"");
        reveal_strlit("\": ");
    }
    let mut out = String::from_str("{ ");
    let n = nested.values.len();
    let mut i: usize = 0;
    proof {
        assert(nested.values@.subrange(0, 0) =~= Seq::<(String, NestedValue)>::empty());
        assert(out@ =~= seq!['{', ' '].add(spec_nested_members(nested.values@.subrange(0, 0))));
    }
    while i < n
        invariant
            0 <= i <= n,
            n == nested.values@.len(),
            out@ == seq!['{', ' '].add(spec_nested_members(nested.values@.subrange(0, i as int))),
        decreases n - i,
    {
        if i > 0 {
            out.append(", ");
        }
        out.append("\"");
        out.append(nested.values[i].0.as_str());
        out.append("\": ");
        let piece = stringfy_nested_value(&nested.values[i].1);
        out.append(piece.as_str());
        proof {
            let s = nested.values@;
            assert(s.subrange(0, i + 1).drop_last() =~= s.subrange(0, i as int));
            assert(s.subrange(0, i + 1).last() == s[i as int]);
            if i == 0 {
                assert(s.subrange(0, 1)[0] == s[0]);
                assert(s.subrange(0, 1).len() == 1);
                assert(spec_nested_members(s.subrange(0, 1)) == spec_nested_member(s[0]));
                assert(out@ =~= seq!['{', ' '].add(spec_nested_members(s.subrange(0, i + 1))));
            } else {
                assert(spec_nested_members(s.subrange(0, i + 1)) == spec_nested_members(
                    s.subrange(0, i as int),
                ).add(seq![',', ' ']).add(spec_nested_member(s[i as int])));
                assert(out@ =~= seq!['{', ' '].add(spec_nested_members(s.subrange(0, i + 1))));
            }
        }
        i = i + 1;
    }
    out.append(" }");
    proof {
        assert(nested.values@.subrange(0, n as int) =~= nested.values@);
        assert(out@ =~= spec_stringify_nested(*nested));
    }
    out
}

/// Converts a [NestedValue] to a JSON string.
#[verifier::loop_isolation(false)]
fn stringfy_nested_value(nested: &NestedValue) -> (r: String)
    ensures
        r@ == spec_nested_value(*nested),
    decreases *nested,
{
    proof {
        reveal_strlit("\"");
        reveal_strlit("true");
        reveal_strlit("false");
        reveal_strlit("[");
        reveal_strlit("]");
        reveal_strlit(", ");
        assert("true"@ =~= seq!['t', 'r', 'u', 'e']);
        assert("false"@ =~= seq!['f', 'a', 'l', 's', 'e']);
    }
    match nested {
        NestedValue::Obj(n) => stringify_nested(n),
        NestedValue::Str(s) => {
            let mut out = String::from_str("\"");
            out.append(s.as_str());
            out.append("\"");
            proof {
                assert(out@ =~= spec_nested_value(*nested));
            }
            out
        },
        NestedValue::Bool(b) => {
            if *b {
                String::from_str("true")
            } else {
                String::from_str("false")
            }
        },
        NestedValue::Int(x) => i32_to_string(*x),
        NestedValue::Array(a) => {
            let mut out = String::from_str("[");
            let n = a.len();
            let mut i: usize = 0;
            proof {
                assert(a@.subrange(0, 0) =~= Seq::<NestedValue>::empty());
                assert(out@ =~= seq!['['].add(spec_nested_array(a@.subrange(0, 0))));
            }
            while i < n
                invariant
                    0 <= i <= n,
                    n == a@.len(),
                    nested == NestedValue::Array(*a),
                    out@ == seq!['['].add(spec_nested_array(a@.subrange(0, i as int))),
                decreases n - i,
            {
                if i > 0 {
                    out.append(", ");
                }
                let piece = stringfy_nested_value(&a[i]);
                out.append(piece.as_str());
                proof {
                    assert(a@.subrange(0, i + 1).drop_last() =~= a@.subrange(0, i as int));
                    assert(a@.subrange(0, i + 1).last() == a@[i as int]);
                    if i == 0 {
                        assert(a@.subrange(0, 1)[0] == a@[0]);
                        assert(a@.subrange(0, 1).len() == 1);
                        assert(spec_nested_array(a@.subrange(0, 1)) == spec_nested_value(a@[0]));
                        assert(out@ =~= seq!['['].add(spec_nested_array(a@.subrange(0, i + 1))));
                    } else {
                        assert(spec_nested_array(a@.subrange(0, i + 1)) == spec_nested_array(
                            a@.subrange(0, i as int),
                        ).add(seq![',', ' ']).add(spec_nested_value(a@[i as int])));
                        assert(out@ =~= seq!['['].add(spec_nested_array(a@.subrange(0, i + 1))));
                    }
                }
                i = i + 1;
            }
            out.append("]");
            proof {
                assert(a@.subrange(0, n as int) =~= a@);
                assert(out@ =~= spec_nested_value(*nested));
            }
            out
        },
    }
}

/// Whitespace, as header and start-line trimming understands it.
pub open spec fn is_ws(c: char) -> bool {
    c == ' ' || c == '\t' || c == '\r' || c == '\n'
}

fn is_ws_exec(c: char) -> (r: bool)
    ensures
        r == is_ws(c),
{
    c == ' ' || c == '\t' || c == '\r' || c == '\n'
}

pub open spec fn trim_front(s: Seq<char>) -> Seq<char>
    decreases s.len(),
{
    if s.len() > 0 && is_ws(s[0]) {
        trim_front(s.drop_first())
    } else {
        s
    }
}

pub open spec fn trim_back(s: Seq<char>) -> Seq<char>
    decreases s.len(),
{
    if s.len() > 0 && is_ws(s.last()) {
        trim_back(s.drop_last())
    } else {
        s
    }
}

/// The text without leading and trailing whitespace.
pub open spec fn spec_trim(s: Seq<char>) -> Seq<char> {
    trim_back(trim_front(s))
}

proof fn lemma_trim_front_idx(s: Seq<char>, a: int)
    requires
        0 <= a <= s.len(),
        forall|j: int| 0 <= j < a ==> is_ws(s[j]),
        a < s.len() ==> !is_ws(s[a]),
    ensures
        trim_front(s) == s.subrange(a, s.len() as int),
    decreases a,
{
    if a == 0 {
        if s.len() > 0 && is_ws(s[0]) {
            assert(false);
        }
        assert(s.subrange(0, s.len() as int) =~= s);
    } else {
        let t = s.drop_first();
        assert(forall|j: int| 0 <= j < a - 1 ==> is_ws(t[j]));
        lemma_trim_front_idx(t, a - 1);
        assert(t.subrange(a - 1, t.len() as int) =~= s.subrange(a, s.len() as int));
    }
}

proof fn lemma_trim_back_idx(s: Seq<char>, b: int)
    requires
        0 <= b <= s.len(),
        forall|j: int| b <= j < s.len() ==> is_ws(s[j]),
        b > 0 ==> !is_ws(s[b - 1]),
    ensures
        trim_back(s) == s.subrange(0, b),
    decreases s.len() - b,
{
    if b == s.len() {
        if s.len() > 0 && is_ws(s.last()) {
            assert(false);
        }
        assert(s.subrange(0, s.len() as int) =~= s);
    } else {
        let t = s.drop_last();
        assert(is_ws(s.last()));
        assert(forall|j: int| b <= j < t.len() ==> is_ws(t[j]));
        lemma_trim_back_idx(t, b);
        assert(t.subrange(0, b) =~= s.subrange(0, b));
    }
}

/// Removes leading and trailing whitespace.
#[verifier::loop_isolation(false)]
pub fn trim_str(s: &str) -> (r: String)
    ensures
        r@ == spec_trim(s@),
{
    let n = s.unicode_len();
    let mut a: usize = 0;
    while a < n && is_ws_exec(s.get_char(a))
        invariant
            0 <= a <= n,
            forall|j: int| 0 <= j < a ==> is_ws(s@[j]),
        decreases n - a,
    {
        a = a + 1;
    }
    proof {
        lemma_trim_front_idx(s@, a as int);
    }
    if a == n {
        proof {
            assert(trim_front(s@) =~= Seq::<char>::empty());
            reveal_strlit("");
            assert(""@ =~= Seq::<char>::empty());
        }
        return String::from_str("");
    }
    let mut b: usize = n;
    while b > a + 1 && is_ws_exec(s.get_char(b - 1))
        invariant
            a + 1 <= b <= n,
            forall|j: int| b <= j < n ==> is_ws(s@[j]),
        decreases b,
    {
        b = b - 1;
    }
    let b_final = if b == a + 1 && is_ws_exec(s.get_char(b - 1)) {
        b - 1
    } else {
        b
    };
    let r = s.substring_char(a, b_final);
    proof {
        let t = trim_front(s@);
        assert(t == s@.subrange(a as int, n as int));
        lemma_trim_back_idx(t, b_final - a);
        assert(t.subrange(0, b_final - a) =~= s@.subrange(a as int, b_final as int));
    }
    String::from_str(r)
}

/// How a header line reads: split at the first `:`, both sides trimmed; a
/// line without `:` is ignored.
pub open spec fn spec_header_of(line: Seq<char>) -> Option<(Seq<char>, Seq<char>)> {
    match spec_find(line, ':') {
        Some(i) => Some(
            (spec_trim(line.subrange(0, i)), spec_trim(line.subrange(i + 1, line.len() as int))),
        ),
        None => None,
    }
}

/// Reads one header line.
pub fn parse_header_line(line: &str) -> (r: Option<(String, String)>)
    ensures
        match r {
            Some(kv) => spec_header_of(line@) == Some((kv.0@, kv.1@)),
            None => spec_header_of(line@) is None,
        },
{
    let n = line.unicode_len();
    match find_char_spec(line, ':') {
        None => None,
        Some(i) => {
            let key = trim_str(line.substring_char(0, i));
            let value = trim_str(line.substring_char(i + 1, n));
            Some((key, value))
        },
    }
}

/// The whitespace-separated tokens of a line: empty pieces dropped.
pub open spec fn spec_tokens_of(parts: Seq<Seq<char>>) -> Seq<Seq<char>>
    decreases parts.len(),
{
    if parts.len() == 0 {
        Seq::empty()
    } else {
        let t = spec_tokens_of(parts.drop_last());
        if parts.last().len() > 0 {
            t.push(parts.last())
        } else {
            t
        }
    }
}

pub open spec fn spec_start_tokens(s: Seq<char>) -> Seq<Seq<char>> {
    spec_tokens_of(spec_split(s, ' '))
}

/// The method a start-line token names, read without regard to case.
pub open spec fn spec_method_token(t: Seq<char>) -> Option<Method> {
    if crate::schema::eq_upper_keyword(t, seq!['G', 'E', 'T']) {
        Some(Method::Get)
    } else if crate::schema::eq_upper_keyword(t, seq!['P', 'O', 'S', 'T']) {
        Some(Method::Post)
    } else if crate::schema::eq_upper_keyword(t, seq!['P', 'U', 'T']) {
        Some(Method::Put)
    } else {
        None
    }
}

fn method_token(t: &str) -> (r: Option<Method>)
    ensures
        r == spec_method_token(t@),
{
    proof {
        reveal_strlit("GET");
        reveal_strlit("POST");
        reveal_strlit("PUT");
        assert("GET"@ =~= seq!['G', 'E', 'T']);
        assert("POST"@ =~= seq!['P', 'O', 'S', 'T']);
        assert("PUT"@ =~= seq!['P', 'U', 'T']);
    }
    if crate::schema::eq_upper_keyword_exec(t, "GET") {
        Some(Method::Get)
    } else if crate::schema::eq_upper_keyword_exec(t, "POST") {
        Some(Method::Post)
    } else if crate::schema::eq_upper_keyword_exec(t, "PUT") {
        Some(Method::Put)
    } else {
        None
    }
}

/// Reads the request's first line, `METHOD PATH VERSION`: tokens split on
/// spaces, the method accepted in any case but only as GET, POST or PUT.
/// `None` — the connection is dropped — when tokens are missing or the
/// method is something else.
#[verifier::loop_isolation(false)]
pub fn parse_start_line(line: &str) -> (r: Option<(Method, String, String)>)
    ensures
        ({
            let toks = spec_start_tokens(line@);
            match r {
                Some(t) => toks.len() >= 3 && spec_method_token(toks[0]) == Some(t.0) && t.1@
                    == toks[1] && t.2@ == toks[2],
                None => toks.len() < 3 || spec_method_token(toks[0]) is None,
            }
        }),
{
    let parts = split_str(line, ' ');
    let n = parts.len();
    let mut toks: Vec<String> = Vec::new();
    let mut i: usize = 0;
    proof {
        assert(spec_split(line@, ' ').subrange(0, 0) =~= Seq::<Seq<char>>::empty());
    }
    while i < n
        invariant
            0 <= i <= n,
            n == parts@.len(),
            parts@.map_values(|p: String| p@) == spec_split(line@, ' '),
            toks@.map_values(|p: String| p@) == spec_tokens_of(
                spec_split(line@, ' ').subrange(0, i as int),
            ),
        decreases n - i,
    {
        let ghost ps = spec_split(line@, ' ');
        proof {
            assert(ps.subrange(0, i + 1).drop_last() =~= ps.subrange(0, i as int));
            assert(ps.subrange(0, i + 1).last() == ps[i as int]);
            assert(parts@[i as int]@ == ps[i as int]);
        }
        if parts[i].as_str().unicode_len() > 0 {
            toks.push(parts[i].clone());
            proof {
                assert(toks@.map_values(|p: String| p@) =~= spec_tokens_of(
                    ps.subrange(0, i + 1),
                ));
            }
        }
        i = i + 1;
    }
    proof {
        assert(spec_split(line@, ' ').subrange(0, n as int) =~= spec_split(line@, ' '));
    }
    if toks.len() < 3 {
        return None;
    }
    proof {
        assert(toks@[0]@ == spec_start_tokens(line@)[0]);
        assert(toks@[1]@ == spec_start_tokens(line@)[1]);
        assert(toks@[2]@ == spec_start_tokens(line@)[2]);
    }
    match method_token(toks[0].as_str()) {
        None => None,
        Some(m) => {
            let path = toks[1].clone();
            let version = toks[2].clone();
            Some((m, path, version))
        },
    }
}

pub open spec fn content_length_key() -> Seq<char> {
    seq!['C', 'o', 'n', 't', 'e', 'n', 't', '-', 'L', 'e', 'n', 'g', 't', 'h']
}

/// How many body bytes a request announces: its `Content-Length` header
/// read as a number, zero when absent, not numeric, or out of range.
pub open spec fn spec_content_length(h: Map<Seq<char>, Seq<char>>) -> int {
    if h.contains_key(content_length_key()) {
        let v = h[content_length_key()];
        if v.len() > 0 && crate::text::all_digits(v) && crate::text::digits_val(v) <= usize::MAX {
            crate::text::digits_val(v)
        } else {
            0
        }
    } else {
        0
    }
}

/// Reads the announced body length from the headers.
pub fn content_length_of(headers: &Dict<String>) -> (r: usize)
    requires
        headers.wf(),
    ensures
        r == spec_content_length(headers@),
{
    proof {
        reveal_strlit("Content-Length");
        assert("Content-Length"@ =~= content_length_key());
    }
    match headers.get("Content-Length") {
        None => 0,
        Some(v) => match crate::text::parse_u64(v.as_str()) {
            Some(x) => {
                if x <= usize::MAX as u64 {
                    x as usize
                } else {
                    0
                }
            },
            None => 0,
        },
    }
}

/// The serialized header block: one `key: value` line per entry, in stored
/// order, each ended by CRLF.
pub open spec fn spec_header_lines(entries: Seq<(Seq<char>, Seq<char>)>) -> Seq<char>
    decreases entries.len(),
{
    if entries.len() == 0 {
        Seq::empty()
    } else {
        spec_header_lines(entries.drop_last()).add(entries.last().0).add(seq![':', ' ']).add(
            entries.last().1,
        ).add(seq!['\r', '\n'])
    }
}

/// Writes the headers as `key: value` lines.
#[verifier::loop_isolation(false)]
pub fn serialize_headers(headers: &Dict<String>) -> (r: String)
    ensures
        r@ == spec_header_lines(headers.spec_entries()),
{
    proof {
        reveal_strlit(": ");
        reveal_strlit("\r\n");
    }
    let mut out = String::new();
    let n = headers.len();
    let mut i: usize = 0;
    proof {
        assert(headers.spec_entries().subrange(0, 0) =~= Seq::<(Seq<char>, Seq<char>)>::empty());
    }
    while i < n
        invariant
            0 <= i <= n,
            n == headers.spec_entries().len(),
            out@ == spec_header_lines(headers.spec_entries().subrange(0, i as int)),
        decreases n - i,
    {
        out.append(headers.key_at(i).as_str());
        out.append(": ");
        out.append(headers.val_at(i).as_str());
        out.append("\r\n");
        proof {
            let es = headers.spec_entries();
            assert(es.subrange(0, i + 1).drop_last() =~= es.subrange(0, i as int));
            assert(es.subrange(0, i + 1).last() == es[i as int]);
            assert(out@ =~= spec_header_lines(es.subrange(0, i + 1)));
        }
        i = i + 1;
    }
    proof {
        assert(headers.spec_entries().subrange(0, n as int) =~= headers.spec_entries());
    }
    out
}

/// The full HTTP response text: status line, serialized headers, an
/// explicit `Content-Length`, a blank line, then the body.
pub open spec fn spec_http_response(
    status: int,
    header_block: Seq<char>,
    body: Seq<char>,
    body_len: int,
) -> Seq<char> {
    seq!['H', 'T', 'T', 'P', '/', '1', '.', '1', ' '].add(
        crate::text::spec_u64_string(status),
    ).add(seq!['\r', '\n']).add(header_block).add(
        seq!['C', 'o', 'n', 't', 'e', 'n', 't', '-', 'L', 'e', 'n', 'g', 't', 'h', ':', ' '],
    ).add(crate::text::spec_u64_string(body_len)).add(seq!['\r', '\n', '\r', '\n']).add(body)
}

/// Writes one response for the wire. The announced length counts the body's
/// bytes, as it goes out on the socket.
pub fn serialize_response(status: u16, header_block: &str, body: &str) -> (r: String)
    ensures
        r@ == spec_http_response(status as int, header_block@, body@, body.len() as int),
{
    proof {
        reveal_strlit("HTTP/1.1 ");
        reveal_strlit("\r\n");
        reveal_strlit("Content-Length: ");
        reveal_strlit("\r\n\r\n");
        assert("HTTP/1.1 "@ =~= seq!['H', 'T', 'T', 'P', '/', '1', '.', '1', ' ']);
        assert("Content-Length: "@ =~= seq![
            'C',
            'o',
            'n',
            't',
            'e',
            'n',
            't',
            '-',
            'L',
            'e',
            'n',
            'g',
            't',
            'h',
            ':',
            ' ',
        ]);
    }
    let mut out = String::from_str("HTTP/1.1 ");
    let st = crate::text::u64_to_string(status as u64);
    out.append(st.as_str());
    out.append("\r\n");
    out.append(header_block);
    out.append("Content-Length: ");
    let blen = body.len();
    let bl = crate::text::u64_to_string(blen as u64);
    out.append(bl.as_str());
    out.append("\r\n\r\n");
    out.append(body);
    proof {
        assert(out@ =~= spec_http_response(status as int, header_block@, body@, body.len() as int));
    }
    out
}

} // verus!
