//! The request handlers and the mock matching engine: deciding which
//! configured condition answers a request, and building the responses for
//! the configuration CRUD endpoints.

use vstd::prelude::*;
use vstd::string::StrSliceExecFns;
use vstd::string::StringExecFns;

use crate::cache::Cache;
use crate::dict::Dict;
use crate::json::JsonValue;
use crate::json::json_eq;
use crate::json::json_equal;
use crate::json::json_of;
use crate::json::obj_lookup;
use crate::json::obj_lookup_exec;
use crate::json::parse_json;
use crate::schema::Endpoint;
use crate::schema::EndpointKey;
use crate::schema::EndpointKeyView;
use crate::schema::QueryParam;
use crate::schema::QueryParamView;
use crate::schema::WhenCondition;
use crate::schema::eq_upper_keyword;
use crate::schema::eq_upper_keyword_exec;
use crate::schema::key_equal;
use crate::schema::key_eq;
use crate::schema::key_of_condition;
use crate::schema::lemma_key_equal_sym;
use crate::schema::lemma_key_equal_trans;
use crate::store::MemStore;
use crate::text::is_substring;
use crate::text::str_contains;
use crate::text::str_eq;
use crate::web_server::types::Method;
use crate::web_server::types::Request;
use crate::web_server::types::Response;

verus! {

/// What one query operator demands of the actual value.
pub open spec fn spec_op_matches(op: Seq<char>, expected: Seq<char>, actual: Seq<char>) -> bool {
    if op == seq!['i', 's'] {
        actual == expected
    } else if op == seq!['i', 's', '!'] {
        actual != expected
    } else if op == seq!['c', 'o', 'n', 't', 'a', 'i', 'n', 's'] {
        is_substring(actual, expected)
    } else if op == seq!['c', 'o', 'n', 't', 'a', 'i', 'n', 's', '!'] {
        !is_substring(actual, expected)
    } else {
        false
    }
}

/// Applies one query operator; an unrecognized operator matches nothing.
pub fn op_matches(op: &str, expected: &str, actual: &str) -> (r: bool)
    ensures
        r == spec_op_matches(op@, expected@, actual@),
{
    proof {
        reveal_strlit("is");
        reveal_strlit("is!");
        reveal_strlit("contains");
        reveal_strlit("contains!");
        assert("is"@ =~= seq!['i', 's']);
        assert("is!"@ =~= seq!['i', 's', '!']);
        assert("contains"@ =~= seq!['c', 'o', 'n', 't', 'a', 'i', 'n', 's']);
        assert("contains!"@ =~= seq!['c', 'o', 'n', 't', 'a', 'i', 'n', 's', '!']);
    }
    if str_eq(op, "is") {
        str_eq(actual, expected)
    } else if str_eq(op, "is!") {
        !str_eq(actual, expected)
    } else if str_eq(op, "contains") {
        str_contains(actual, expected)
    } else if str_eq(op, "contains!") {
        !str_contains(actual, expected)
    } else {
        false
    }
}

pub open spec fn qopt_view(o: Option<Dict<QueryParam>>) -> Option<Map<Seq<char>, QueryParamView>> {
    match o {
        Some(d) => Some(d@),
        None => None,
    }
}

pub open spec fn hopt_view(o: Option<Dict<String>>) -> Option<Map<Seq<char>, Seq<char>>> {
    match o {
        Some(d) => Some(d@),
        None => None,
    }
}

/// A request's queries satisfy a condition's query matcher: with a matcher,
/// every named query must be present and satisfy its operator; without one,
/// the request must carry no queries at all.
pub open spec fn spec_check_queries(
    rq: Map<Seq<char>, Seq<char>>,
    cond: Option<Map<Seq<char>, QueryParamView>>,
) -> bool {
    match cond {
        Some(m) => forall|k: Seq<char>|
            #[trigger] m.contains_key(k) ==> rq.contains_key(k) && spec_op_matches(
                m[k].operator,
                m[k].value,
                rq[k],
            ),
        None => rq == Map::<Seq<char>, Seq<char>>::empty(),
    }
}

/// Check if the request queries match the condition's request queries.
#[verifier::rlimit(50)]
#[verifier::loop_isolation(false)]
pub fn check_queries(
    request_queries: &Dict<String>,
    queries_from_cond_req: &Option<Dict<QueryParam>>,
) -> (r: bool)
    requires
        request_queries.wf(),
        match queries_from_cond_req {
            Some(d) => d.wf(),
            None => true,
        },
    ensures
        r == spec_check_queries(request_queries@, qopt_view(*queries_from_cond_req)),
{
    match queries_from_cond_req {
        Option::None => request_queries.is_empty(),
        Option::Some(d) => {
            proof {
                d.lemma_view();
            }
            let n = d.len();
            let mut i: usize = 0;
            while i < n
                invariant
                    0 <= i <= n,
                    n == d.spec_entries().len(),
                    d.wf(),
                    request_queries.wf(),
                    forall|j: int|
                        0 <= j < i ==> request_queries@.contains_key(
                            (#[trigger] d.spec_entries()[j]).0,
                        ) && spec_op_matches(
                            d.spec_entries()[j].1.operator,
                            d.spec_entries()[j].1.value,
                            request_queries@[d.spec_entries()[j].0],
                        ),
                decreases n - i,
            {
                let ghost m = qopt_view(*queries_from_cond_req)->0;
                let name = d.key_at(i);
                let qp = d.val_at(i);
                match request_queries.get(name.as_str()) {
                    Option::None => {
                        proof {
                            d.lemma_view();
                            assert(m == d@);
                            assert(m.contains_key(d.spec_entries()[i as int].0));
                            assert(!request_queries@.contains_key(d.spec_entries()[i as int].0));
                        }
                        return false;
                    },
                    Option::Some(actual) => {
                        if !op_matches(qp.operator.as_str(), qp.value.as_str(), actual.as_str()) {
                            proof {
                                d.lemma_view();
                                assert(m == d@);
                                assert(m.contains_key(d.spec_entries()[i as int].0));
                                assert(m[d.spec_entries()[i as int].0] == d.spec_entries()[
                                    i as int].1);
                            }
                            return false;
                        }
                    },
                }
                i = i + 1;
            }
            proof {
                let m = qopt_view(*queries_from_cond_req)->0;
                d.lemma_view();
                assert forall|k: Seq<char>| #[trigger] m.contains_key(k) implies
                    request_queries@.contains_key(k) && spec_op_matches(
                    m[k].operator,
                    m[k].value,
                    request_queries@[k],
                ) by {
                    assert(d@.contains_key(k));
                    let j = choose|j: int|
                        0 <= j < d.spec_entries().len() && (#[trigger] d.spec_entries()[j]).0 == k;
                    assert(request_queries@.contains_key(d.spec_entries()[j].0));
                    assert(d@[d.spec_entries()[j].0] == d.spec_entries()[j].1);
                }
            }
            true
        },
    }
}

/// A request's headers satisfy a condition's header matcher: with a matcher,
/// every named header must be present with exactly that value; without one,
/// anything goes.
pub open spec fn spec_check_headers(
    rh: Map<Seq<char>, Seq<char>>,
    cond: Option<Map<Seq<char>, Seq<char>>>,
) -> bool {
    match cond {
        Some(m) => forall|k: Seq<char>|
            #[trigger] m.contains_key(k) ==> rh.contains_key(k) && rh[k] == m[k],
        None => true,
    }
}

/// Check if the request headers match the condition's request headers.
#[verifier::rlimit(50)]
#[verifier::loop_isolation(false)]
pub fn check_headers(
    request_headers: &Dict<String>,
    headers_from_cond_req: &Option<Dict<String>>,
) -> (r: bool)
    requires
        request_headers.wf(),
        match headers_from_cond_req {
            Some(d) => d.wf(),
            None => true,
        },
    ensures
        r == spec_check_headers(request_headers@, hopt_view(*headers_from_cond_req)),
{
    match headers_from_cond_req {
        Option::None => true,
        Option::Some(d) => {
            proof {
                d.lemma_view();
            }
            let n = d.len();
            let mut i: usize = 0;
            while i < n
                invariant
                    0 <= i <= n,
                    n == d.spec_entries().len(),
                    d.wf(),
                    request_headers.wf(),
                    forall|j: int|
                        0 <= j < i ==> request_headers@.contains_key(
                            (#[trigger] d.spec_entries()[j]).0,
                        ) && request_headers@[d.spec_entries()[j].0] == d.spec_entries()[j].1,
                decreases n - i,
            {
                let ghost m = hopt_view(*headers_from_cond_req)->0;
                let name = d.key_at(i);
                let expected = d.val_at(i);
                match request_headers.get(name.as_str()) {
                    Option::None => {
                        proof {
                            d.lemma_view();
                            assert(m == d@);
                            assert(m.contains_key(d.spec_entries()[i as int].0));
                            assert(!request_headers@.contains_key(d.spec_entries()[i as int].0));
                        }
                        return false;
                    },
                    Option::Some(actual) => {
                        if !str_eq(actual.as_str(), expected.as_str()) {
                            proof {
                                d.lemma_view();
                                assert(m == d@);
                                assert(m.contains_key(d.spec_entries()[i as int].0));
                                assert(m[d.spec_entries()[i as int].0] == d.spec_entries()[
                                    i as int].1);
                            }
                            return false;
                        }
                    },
                }
                i = i + 1;
            }
            proof {
                let m = hopt_view(*headers_from_cond_req)->0;
                d.lemma_view();
                assert forall|k: Seq<char>| #[trigger] m.contains_key(k) implies
                    request_headers@.contains_key(k) && request_headers@[k] == m[k] by {
                    assert(d@.contains_key(k));
                    let j = choose|j: int|
                        0 <= j < d.spec_entries().len() && (#[trigger] d.spec_entries()[j]).0 == k;
                    assert(request_headers@.contains_key(d.spec_entries()[j].0));
                    assert(d@[d.spec_entries()[j].0] == d.spec_entries()[j].1);
                }
            }
            true
        },
    }
}

/// Non-strict body matching: both values are objects and each expected
/// member exists in the actual object with a deeply equal value.
pub open spec fn spec_subset_fields(expected: JsonValue, actual: JsonValue) -> bool {
    match (expected, actual) {
        (JsonValue::Obj(eo), JsonValue::Obj(ao)) => forall|i: int|
            0 <= i < eo@.len() ==> match obj_lookup(ao@, (#[trigger] eo@[i]).0@) {
                Some(av) => json_equal(av, eo@[i].1),
                None => false,
            },
        _ => false,
    }
}

fn subset_fields_exec(expected: &JsonValue, actual: &JsonValue) -> (r: bool)
    ensures
        r == spec_subset_fields(*expected, *actual),
{
    match (expected, actual) {
        (JsonValue::Obj(eo), JsonValue::Obj(ao)) => {
            let n = eo.len();
            let mut i: usize = 0;
            while i < n
                invariant
                    0 <= i <= n,
                    n == eo@.len(),
                    expected == JsonValue::Obj(*eo),
                    actual == JsonValue::Obj(*ao),
                    forall|j: int|
                        0 <= j < i ==> match obj_lookup(ao@, (#[trigger] eo@[j]).0@) {
                            Some(av) => json_equal(av, eo@[j].1),
                            None => false,
                        },
                decreases n - i,
            {
                match obj_lookup_exec(ao, eo[i].0.as_str()) {
                    Option::None => {
                        return false;
                    },
                    Option::Some(av) => {
                        if !json_eq(av, &eo[i].1) {
                            return false;
                        }
                    },
                }
                i = i + 1;
            }
            true
        },
        _ => false,
    }
}

/// A request body satisfies a condition's body matcher: with an expected
/// JSON value, the body must parse and compare deeply equal (or, non-strict,
/// contain the expected members); without one, the body must be empty.
pub open spec fn spec_check_body(body: Seq<char>, cond: Option<JsonValue>, strict: bool) -> bool {
    match cond {
        None => body.len() == 0,
        Some(e) => match json_of(body) {
            Some(a) => if strict {
                json_equal(a, e)
            } else {
                spec_subset_fields(e, a)
            },
            None => false,
        },
    }
}

/// Check if the request body matches the condition's request body.
pub fn check_body(request_body: &String, body_from_cond_req: &Option<JsonValue>, strict: bool) -> (r:
    bool)
    ensures
        r == spec_check_body(request_body@, *body_from_cond_req, strict),
{
    match body_from_cond_req {
        Option::None => request_body.as_str().is_empty(),
        Option::Some(e) => match parse_json(request_body.as_str()) {
            Ok(a) => {
                if strict {
                    json_eq(&a, e)
                } else {
                    subset_fields_exec(e, &a)
                }
            },
            Err(_) => false,
        },
    }
}

/// A condition's method, compared without regard to case.
pub open spec fn spec_method_matches(cond_method: Seq<char>, m: Method) -> bool {
    eq_upper_keyword(cond_method, m.spec_name())
}

pub fn method_matches(cond_method: &str, m: &Method) -> (r: bool)
    ensures
        r == spec_method_matches(cond_method@, *m),
{
    proof {
        reveal_strlit("GET");
        reveal_strlit("POST");
        reveal_strlit("PUT");
        assert("GET"@ =~= seq!['G', 'E', 'T']);
        assert("POST"@ =~= seq!['P', 'O', 'S', 'T']);
        assert("PUT"@ =~= seq!['P', 'U', 'T']);
    }
    match m {
        Method::Get => eq_upper_keyword_exec(cond_method, "GET"),
        Method::Post => eq_upper_keyword_exec(cond_method, "POST"),
        Method::Put => eq_upper_keyword_exec(cond_method, "PUT"),
    }
}

/// A request satisfies a whole condition: with request criteria, queries,
/// headers and body must each pass; without criteria, the request must
/// carry no queries and no body — headers are free either way.
pub open spec fn spec_check_condition(
    rq: Map<Seq<char>, Seq<char>>,
    rh: Map<Seq<char>, Seq<char>>,
    body: Seq<char>,
    c: WhenCondition,
    strict: bool,
) -> bool {
    match c.request {
        Some(cr) => {
            &&& spec_check_queries(rq, qopt_view(cr.queries))
            &&& spec_check_headers(rh, hopt_view(cr.headers))
            &&& spec_check_body(body, cr.body, strict)
        },
        None => rq == Map::<Seq<char>, Seq<char>>::empty() && body.len() == 0,
    }
}

/// Decides a condition against the request's queries, headers and body.
pub fn condition_applies(
    queries: &Dict<String>,
    headers: &Dict<String>,
    body: &String,
    condition: &WhenCondition,
    strict: bool,
) -> (r: bool)
    requires
        queries.wf(),
        headers.wf(),
        condition.wf(),
    ensures
        r == spec_check_condition(queries@, headers@, body@, *condition, strict),
{
    match &condition.request {
        Option::Some(cond_req) => {
            if !check_queries(queries, &cond_req.queries) {
                return false;
            }
            if !check_headers(headers, &cond_req.headers) {
                return false;
            }
            if !check_body(body, &cond_req.body, strict) {
                return false;
            }
            true
        },
        Option::None => queries.is_empty() && body.as_str().is_empty(),
    }
}

/// Check if the request matches the condition.
pub fn check_condition(request: &Request, condition: &WhenCondition, strict: bool) -> (r: bool)
    requires
        request.wf(),
        condition.wf(),
    ensures
        r == spec_check_condition(
            request.queries@,
            request.headers@,
            request.body@,
            *condition,
            strict,
        ),
{
    condition_applies(&request.queries, &request.headers, &request.body, condition, strict)
}

/// The canonical key a request presents for the exact lookup: its method,
/// its queries read as `is`-matchers, and its body as parsed JSON.
pub open spec fn spec_request_key(
    m: Method,
    rq: Map<Seq<char>, Seq<char>>,
    body: Seq<char>,
) -> EndpointKeyView {
    EndpointKeyView {
        method: m.spec_name(),
        queries: if rq == Map::<Seq<char>, Seq<char>>::empty() {
            None
        } else {
            Some(
                Map::new(
                    |k: Seq<char>| rq.contains_key(k),
                    |k: Seq<char>| QueryParamView { operator: seq!['i', 's'], value: rq[k] },
                ),
            )
        },
        body: if body.len() == 0 {
            None
        } else {
            json_of(body)
        },
    }
}

/// Creates an EndpointKey from a request's method, queries, and body.
#[verifier::loop_isolation(false)]
pub fn create_endpoint_key(
    method: &Method,
    request_queries: &Dict<String>,
    request_body: &str,
) -> (r: EndpointKey)
    requires
        request_queries.wf(),
    ensures
        r.wf(),
        r@ == spec_request_key(*method, request_queries@, request_body@),
{
    proof {
        reveal_strlit("is");
        assert("is"@ =~= seq!['i', 's']);
        request_queries.lemma_view();
    }
    let queries: Option<Dict<QueryParam>> = if request_queries.is_empty() {
        Option::None
    } else {
        let n = request_queries.len();
        let mut d: Dict<QueryParam> = Dict::new();
        let mut i: usize = 0;
        let ghost rqe = request_queries.spec_entries();
        while i < n
            invariant
                0 <= i <= n,
                n == rqe.len(),
                d.wf(),
                forall|j: int|
                    0 <= j < i ==> d@.contains_key((#[trigger] rqe[j]).0) && d@[rqe[j].0]
                        == (QueryParamView { operator: seq!['i', 's'], value: rqe[j].1 }),
                forall|k: Seq<char>|
                    #[trigger] d@.contains_key(k) ==> exists|j: int|
                        0 <= j < i && (#[trigger] rqe[j]).0 == k,
            decreases n - i,
        {
            let k = request_queries.key_at(i);
            let v = request_queries.val_at(i);
            let qp = QueryParam { operator: String::from_str("is"), value: v.clone() };
            d.insert(k.clone(), qp);
            proof {
                assert forall|k2: Seq<char>| #[trigger] d@.contains_key(k2) implies exists|j: int|
                    0 <= j < i + 1 && (#[trigger] rqe[j]).0 == k2 by {
                    if k2 == rqe[i as int].0 {
                        assert(rqe[i as int].0 == k2);
                    }
                }
            }
            i = i + 1;
        }
        proof {
            assert forall|k: Seq<char>| #[trigger] d@.contains_key(k) implies
                request_queries@.contains_key(k) by {
                let j = choose|j: int| 0 <= j < n && (#[trigger] rqe[j]).0 == k;
            }
            assert forall|k: Seq<char>| #[trigger] request_queries@.contains_key(k) implies
                d@.contains_key(k) && d@[k] == (QueryParamView {
                operator: seq!['i', 's'],
                value: request_queries@[k],
            }) by {
                let j = choose|j: int| 0 <= j < rqe.len() && (#[trigger] rqe[j]).0 == k;
                assert(d@.contains_key(rqe[j].0));
                assert(request_queries@[rqe[j].0] == rqe[j].1);
            }
            assert(d@ =~= Map::new(
                |k: Seq<char>| request_queries@.contains_key(k),
                |k: Seq<char>|
                    QueryParamView { operator: seq!['i', 's'], value: request_queries@[k] },
            ));
        }
        Option::Some(d)
    };
    let body: Option<JsonValue> = if request_body.is_empty() {
        Option::None
    } else {
        match parse_json(request_body) {
            Ok(v) => Option::Some(v),
            Err(_) => Option::None,
        }
    };
    let r = EndpointKey { method: method.to_string(), queries, body };
    proof {
        if !(request_queries@ == Map::<Seq<char>, Seq<char>>::empty()) {
            assert(r@ =~= spec_request_key(*method, request_queries@, request_body@));
        } else {
            assert(r@ =~= spec_request_key(*method, request_queries@, request_body@));
        }
    }
    r
}

/// The last condition whose canonical key equals the request's key: the
/// keyed lookup's answer.
pub open spec fn spec_last_key_match(conds: Seq<WhenCondition>, rk: EndpointKeyView) -> Option<int>
    decreases conds.len(),
{
    if conds.len() == 0 {
        None
    } else if !crate::schema::has_header_matcher(conds.last()) && key_equal(
        key_of_condition(conds.last()),
        rk,
    ) {
        Some(conds.len() - 1)
    } else {
        spec_last_key_match(conds.drop_last(), rk)
    }
}

proof fn lemma_last_key_match_at(conds: Seq<WhenCondition>, rk: EndpointKeyView, l: int)
    requires
        0 <= l < conds.len(),
        !crate::schema::has_header_matcher(conds[l]),
        key_equal(key_of_condition(conds[l]), rk),
        forall|j: int|
            l < j < conds.len() && !crate::schema::has_header_matcher(#[trigger] conds[j])
                ==> !key_equal(key_of_condition(conds[j]), rk),
    ensures
        spec_last_key_match(conds, rk) == Some(l),
    decreases conds.len(),
{
    if l == conds.len() - 1 {
    } else {
        let d = conds.drop_last();
        assert(forall|j: int|
            l < j < d.len() && !crate::schema::has_header_matcher(#[trigger] d[j]) ==> !key_equal(
                key_of_condition(d[j]),
                rk,
            ));
        lemma_last_key_match_at(d, rk, l);
    }
}

proof fn lemma_last_key_match_none(conds: Seq<WhenCondition>, rk: EndpointKeyView)
    requires
        forall|j: int|
            0 <= j < conds.len() && !crate::schema::has_header_matcher(#[trigger] conds[j])
                ==> !key_equal(key_of_condition(conds[j]), rk),
    ensures
        spec_last_key_match(conds, rk) is None,
    decreases conds.len(),
{
    if conds.len() > 0 {
        lemma_last_key_match_none(conds.drop_last(), rk);
    }
}

/// The first condition, in declaration order, whose method matches and
/// whose criteria the request satisfies: the fallback scan's answer.
pub open spec fn spec_first_match(
    conds: Seq<WhenCondition>,
    m: Method,
    rq: Map<Seq<char>, Seq<char>>,
    rh: Map<Seq<char>, Seq<char>>,
    body: Seq<char>,
    i: int,
) -> Option<int>
    decreases conds.len() - i,
{
    if i < 0 || i >= conds.len() {
        None
    } else if spec_method_matches(conds[i].method@, m) && spec_check_condition(
        rq,
        rh,
        body,
        conds[i],
        true,
    ) {
        Some(i)
    } else {
        spec_first_match(conds, m, rq, rh, body, i + 1)
    }
}

/// Which condition answers a request at this endpoint: the keyed lookup
/// first, the ordered fallback scan second, `None` when nothing matches.
pub open spec fn spec_resolve(
    endpoint: Endpoint,
    m: Method,
    rq: Map<Seq<char>, Seq<char>>,
    rh: Map<Seq<char>, Seq<char>>,
    body: Seq<char>,
) -> Option<int> {
    match spec_last_key_match(endpoint.conditions@, spec_request_key(m, rq, body)) {
        Some(i) => Some(i),
        None => spec_first_match(endpoint.conditions@, m, rq, rh, body, 0),
    }
}

/// Finds the condition that answers the request: the index into the
/// endpoint's conditions, or `None` when no rule matches.
#[verifier::loop_isolation(false)]
#[verifier::rlimit(100)]
pub fn resolve(
    endpoint: &Endpoint,
    method: &Method,
    queries: &Dict<String>,
    headers: &Dict<String>,
    body: &String,
) -> (r: Option<usize>)
    requires
        endpoint.wf(),
        queries.wf(),
        headers.wf(),
    ensures
        match r {
            Some(i) => i < endpoint.conditions@.len() && spec_resolve(
                *endpoint,
                *method,
                queries@,
                headers@,
                body@,
            ) == Some(i as int),
            None => spec_resolve(*endpoint, *method, queries@, headers@, body@) is None,
        },
{
    let key = create_endpoint_key(method, queries, body.as_str());
    let ghost rk = spec_request_key(*method, queries@, body@);
    let m = endpoint.condition_map.len();
    let mut i: usize = 0;
    let mut hit: Option<usize> = Option::None;
    while i < m
        invariant
            0 <= i <= m,
            m == endpoint.condition_map@.len(),
            endpoint.wf(),
            key.wf(),
            key@ == rk,
            match hit {
                Option::Some(h) => h < endpoint.conditions@.len() && spec_last_key_match(
                    endpoint.conditions@,
                    rk,
                ) == Some(h as int),
                Option::None => forall|t: int|
                    0 <= t < i ==> !key_equal((#[trigger] endpoint.condition_map@[t]).0@, rk),
            },
            hit is Some ==> i == m,
        decreases m - i + 1,
    {
        if key_eq(&endpoint.condition_map[i].0, &key) {
            let e = &endpoint.condition_map[i];
            proof {
                let conds = endpoint.conditions@;
                assert(key_equal(e.0@, key_of_condition(conds[e.1 as int])));
                lemma_key_equal_sym(e.0@, key_of_condition(conds[e.1 as int]));
                lemma_key_equal_sym(e.0@, rk);
                lemma_key_equal_trans(key_of_condition(conds[e.1 as int]), e.0@, rk);
                assert forall|j: int|
                    e.1 < j < conds.len() && !crate::schema::has_header_matcher(
                        #[trigger] conds[j],
                    ) implies !key_equal(key_of_condition(conds[j]), rk) by {
                    if key_equal(key_of_condition(conds[j]), rk) {
                        lemma_key_equal_trans(key_of_condition(conds[j]), rk, e.0@);
                        assert(!key_equal(key_of_condition(conds[j]), e.0@));
                        assert(false);
                    }
                }
                lemma_last_key_match_at(conds, rk, e.1 as int);
            }
            hit = Option::Some(e.1);
            i = m;
        } else {
            i = i + 1;
        }
    }
    match hit {
        Option::Some(h) => Option::Some(h),
        Option::None => {
            proof {
                let conds = endpoint.conditions@;
                assert forall|j: int|
                    0 <= j < conds.len() && !crate::schema::has_header_matcher(
                        #[trigger] conds[j],
                    ) implies !key_equal(key_of_condition(conds[j]), rk) by {
                    if key_equal(key_of_condition(conds[j]), rk) {
                        let t = choose|t: int|
                            0 <= t < endpoint.condition_map@.len() && key_equal(
                                (#[trigger] endpoint.condition_map@[t]).0@,
                                key_of_condition(conds[j]),
                            );
                        lemma_key_equal_trans(
                            endpoint.condition_map@[t].0@,
                            key_of_condition(conds[j]),
                            rk,
                        );
                        assert(false);
                    }
                }
                lemma_last_key_match_none(conds, rk);
            }
            fallback_scan(endpoint, method, queries, headers, body)
        },
    }
}

/// The ordered fallback scan: the first condition whose method matches and
/// whose criteria the request satisfies.
#[verifier::loop_isolation(false)]
fn fallback_scan(
    endpoint: &Endpoint,
    method: &Method,
    queries: &Dict<String>,
    headers: &Dict<String>,
    body: &String,
) -> (r: Option<usize>)
    requires
        endpoint.wf(),
        queries.wf(),
        headers.wf(),
    ensures
        match r {
            Some(i) => i < endpoint.conditions@.len() && spec_first_match(
                endpoint.conditions@,
                *method,
                queries@,
                headers@,
                body@,
                0,
            ) == Some(i as int),
            None => spec_first_match(
                endpoint.conditions@,
                *method,
                queries@,
                headers@,
                body@,
                0,
            ) is None,
        },
{
    let n = endpoint.conditions.len();
    let mut j: usize = 0;
    while j < n
        invariant
            0 <= j <= n,
            n == endpoint.conditions@.len(),
            spec_first_match(endpoint.conditions@, *method, queries@, headers@, body@, 0)
                == spec_first_match(
                endpoint.conditions@,
                *method,
                queries@,
                headers@,
                body@,
                j as int,
            ),
        decreases n - j,
    {
        let c = &endpoint.conditions[j];
        if method_matches(c.method.as_str(), method) && condition_applies(
            queries,
            headers,
            body,
            c,
            true,
        ) {
            return Option::Some(j);
        }
        j = j + 1;
    }
    Option::None
}

/// The body text a response template serializes to: a JSON string is
/// unwrapped to its raw text, any other value keeps its JSON form, and an
/// absent body becomes the literal text `null`.
pub open spec fn spec_body_text(b: Option<JsonValue>) -> Seq<char> {
    match b {
        None => seq!['n', 'u', 'l', 'l'],
        Some(JsonValue::Str(s)) => s@,
        Some(v) => crate::json::json_text(v),
    }
}

/// Writes a response template's body.
pub fn render_body(b: &Option<JsonValue>) -> (r: String)
    ensures
        r@ == spec_body_text(*b),
{
    proof {
        reveal_strlit("null");
        assert("null"@ =~= seq!['n', 'u', 'l', 'l']);
    }
    match b {
        Option::None => String::from_str("null"),
        Option::Some(JsonValue::Str(s)) => s.clone(),
        Option::Some(v) => crate::json::to_json_string(v),
    }
}

/// The plain-text body of a rule miss.
pub open spec fn not_implemented_text() -> Seq<char> {
    seq!['N', 'o', 't', ' ', 'i', 'm', 'p', 'l', 'e', 'm', 'e', 'n', 't', 'e', 'd', '.']
}

/// The error text of a create on an existing project.
pub open spec fn already_exists_text() -> Seq<char> {
    seq![
        'P',
        'r',
        'o',
        'j',
        'e',
        'c',
        't',
        ' ',
        'a',
        'l',
        'r',
        'e',
        'a',
        'd',
        'y',
        ' ',
        'e',
        'x',
        'i',
        's',
        't',
        's',
        '.',
    ]
}

/// The error text of a route miss.
pub open spec fn not_found_text() -> Seq<char> {
    seq!['N', 'o', 't', ' ', 'F', 'o', 'u', 'n', 'd']
}

/// The parameter under which the CRUD routes bind the project name.
pub open spec fn name_key() -> Seq<char> {
    seq!['n', 'a', 'm', 'e']
}

/// The JSON error body `{ "error": "<msg>" }`, as `Nested` writes it.
pub open spec fn spec_json_error_body(msg: Seq<char>) -> Seq<char> {
    seq!['{', ' ', '"', 'e', 'r', 'r', 'o', 'r', '"', ':', ' ', '"'].add(msg).add(
        seq!['"', ' ', '}'],
    )
}

/// The JSON body `{ "result": "ok" }`.
pub open spec fn spec_json_result_ok() -> Seq<char> {
    seq![
        '{',
        ' ',
        '"',
        'r',
        'e',
        's',
        'u',
        'l',
        't',
        '"',
        ':',
        ' ',
        '"',
        'o',
        'k',
        '"',
        ' ',
        '}',
    ]
}

/// A 406 "Not implemented." response with no headers.
pub open spec fn spec_not_implemented_resp(r: Response) -> bool {
    &&& r.status == 406
    &&& r.body@ == not_implemented_text()
    &&& r.headers@ == Map::<Seq<char>, Seq<char>>::empty()
}

/// What a mock resolution answers for a loaded configuration: the matched
/// condition's response and delay, or 406 "Not implemented.".
pub open spec fn spec_mock_outcome(
    config: crate::schema::ProjectConfig,
    path: Seq<char>,
    m: Method,
    rq: Map<Seq<char>, Seq<char>>,
    rh: Map<Seq<char>, Seq<char>>,
    body: Seq<char>,
    r: Response,
    delay: u64,
) -> bool {
    if config.endpoints@.contains_key(path) {
        match spec_resolve(config.endpoints@[path], m, rq, rh, body) {
            Some(i) => {
                let c = config.endpoints@[path].conditions@[i];
                &&& r.status == c.response.status
                &&& r.body@ == spec_body_text(c.response.body)
                &&& r.headers@ == c.response.headers@
                &&& delay == c.delay
            },
            None => spec_not_implemented_resp(r) && delay == 0,
        }
    } else {
        spec_not_implemented_resp(r) && delay == 0
    }
}

/// The whole behavior of the mock handler, over the cache before and after,
/// the file text handed in, and the enriched request.
pub open spec fn opt_str_view(o: Option<&str>) -> Option<Seq<char>> {
    match o {
        Some(s) => Some(s@),
        None => None,
    }
}

pub open spec fn spec_mock_request_outcome(
    cache_old: Map<Seq<char>, crate::schema::ProjectConfig>,
    cache_new: Map<Seq<char>, crate::schema::ProjectConfig>,
    file_content: Option<Seq<char>>,
    request: Request,
    r: Response,
    delay: u64,
) -> bool {
    let ms = request.matches@;
    if ms.len() < 2 {
        &&& cache_new == cache_old
        &&& r.status == 400
        &&& r.body@ == crate::cache::missing_project_text()
        &&& r.headers@ == Map::<Seq<char>, Seq<char>>::empty()
        &&& delay == 0
    } else {
        let name = ms[0]@;
        let path = ms[1]@;
        if cache_old.contains_key(name) {
            &&& cache_new == cache_old
            &&& spec_mock_outcome(
                cache_old[name],
                path,
                request.method,
                request.queries@,
                request.headers@,
                request.body@,
                r,
                delay,
            )
        } else {
            match file_content {
                None => {
                    &&& cache_new == cache_old
                    &&& r.status == 400
                    &&& r.body@ == crate::cache::missing_project_text()
                    &&& r.headers@ == Map::<Seq<char>, Seq<char>>::empty()
                    &&& delay == 0
                },
                Some(text) => {
                    if crate::cache::spec_content_valid(text) {
                        &&& cache_new.contains_key(name)
                        &&& crate::schema::spec_config_rel(
                            crate::json::json_of(text)->0,
                            cache_new[name],
                        )
                        &&& cache_new == cache_old.insert(name, cache_new[name])
                        &&& spec_mock_outcome(
                            cache_new[name],
                            path,
                            request.method,
                            request.queries@,
                            request.headers@,
                            request.body@,
                            r,
                            delay,
                        )
                    } else {
                        &&& cache_new == cache_old
                        &&& r.status == 400
                        &&& crate::text::substr_at(
                            r.body@,
                            crate::cache::invalid_config_text(),
                            0,
                        )
                        &&& r.headers@ == Map::<Seq<char>, Seq<char>>::empty()
                        &&& delay == 0
                    }
                },
            }
        }
    }
}

fn not_implemented_response() -> (r: Response)
    ensures
        r.wf(),
        spec_not_implemented_resp(r),
{
    proof {
        reveal_strlit("Not implemented.");
        assert("Not implemented."@ =~= not_implemented_text());
    }
    Response { status: 406, body: String::from_str("Not implemented."), headers: Dict::new() }
}

/// Resolves a mock request: the project named by the first route capture,
/// the endpoint path by the second. The cache answers when it can; a miss
/// parses `file_content`, the raw text the file store holds for the project.
/// The returned delay is the matched rule's, to be slept by the caller
/// before the response is sent, so that it stalls no other request.
pub fn mock_request(cache: &mut Cache, file_content: Option<&str>, request: &Request) -> (r: (
    Response,
    u64,
))
    requires
        old(cache).wf(),
        request.wf(),
    ensures
        final(cache).wf(),
        r.0.wf(),
        spec_mock_request_outcome(
            old(cache)@,
            final(cache)@,
            opt_str_view(file_content),
            *request,
            r.0,
            r.1,
        ),
{
    proof {
        reveal_strlit("Project does not exist.");
        assert("Project does not exist."@ =~= crate::cache::missing_project_text());
    }
    if request.matches.len() < 2 {
        let r = Response {
            status: 400,
            body: String::from_str("Project does not exist."),
            headers: Dict::new(),
        };
        return (r, 0);
    }
    let name = &request.matches[0];
    let path = &request.matches[1];
    match cache.get_or_else_load_cached_config(name.as_str(), file_content) {
        Err(e) => {
            let r = Response { status: 400, body: e, headers: Dict::new() };
            (r, 0)
        },
        Ok(_) => {
            match cache.get_cached_config(name.as_str()) {
                Option::None => {
                    // the load just succeeded, so the cache holds the project
                    proof {
                        assert(false);
                    }
                    (not_implemented_response(), 0)
                },
                Option::Some(config) => {
                    match config.endpoints.get(path.as_str()) {
                        Option::None => (not_implemented_response(), 0),
                        Option::Some(endpoint) => {
                            match resolve(
                                endpoint,
                                &request.method,
                                &request.queries,
                                &request.headers,
                                &request.body,
                            ) {
                                Option::None => (not_implemented_response(), 0),
                                Option::Some(i) => {
                                    let c = &endpoint.conditions[i];
                                    let body = render_body(&c.response.body);
                                    let resp = Response {
                                        status: c.response.status,
                                        body,
                                        headers: c.response.headers.duplicate(),
                                    };
                                    (resp, c.delay)
                                },
                            }
                        },
                    }
                },
            }
        },
    }
}

/// Builds the JSON error response `{ "error": "<msg>" }`.
pub(crate) fn json_error_response(status: u16, msg: String) -> (r: Response)
    ensures
        r.wf(),
        r.status == status,
        r.body@ == spec_json_error_body(msg@),
        r.headers@ == Map::<Seq<char>, Seq<char>>::empty().insert(
            crate::web_server::types::content_type_key(),
            crate::web_server::types::mime_json(),
        ),
{
    proof {
        reveal_strlit("error");
    }
    let ghost m = msg@;
    let mut body = crate::web_server::types::Nested::new();
    body.insert_string(String::from_str("error"), msg);
    proof {
        assert(body.values@.len() == 1);
        assert(body.values@[0].0@ =~= seq!['e', 'r', 'r', 'o', 'r']);
        assert(crate::web_server::helpers::spec_stringify_nested(body) =~= spec_json_error_body(
            m,
        ));
    }
    Response::json(status, body, Option::None)
}

/// What the configuration read handler answers: the stored raw text, or a
/// 404 naming the missing project.
pub open spec fn spec_get_config_outcome(
    store: Map<Seq<char>, Seq<char>>,
    request: Request,
    r: Response,
) -> bool {
    let params = request.params@;
    let ct = Map::<Seq<char>, Seq<char>>::empty().insert(
        crate::web_server::types::content_type_key(),
        crate::web_server::types::mime_json(),
    );
    if params.contains_key(name_key()) && store.contains_key(params[name_key()]) {
        &&& r.status == 200
        &&& r.body@ == store[params[name_key()]]
        &&& r.headers@ == ct
    } else {
        &&& r.status == 404
        &&& r.body@ == spec_json_error_body(crate::cache::missing_project_text())
        &&& r.headers@ == ct
    }
}

/// Returns a project's raw configuration text, byte for byte as stored.
pub fn get_config(store: &MemStore, request: &Request) -> (r: Response)
    requires
        store.wf(),
        request.wf(),
    ensures
        r.wf(),
        spec_get_config_outcome(store@, *request, r),
{
    proof {
        reveal_strlit("name");
        reveal_strlit("Content-Type");
        reveal_strlit("application/json");
        reveal_strlit("Project does not exist.");
        assert("name"@ =~= name_key());
        assert("Content-Type"@ =~= crate::web_server::types::content_type_key());
        assert("application/json"@ =~= crate::web_server::types::mime_json());
        assert("Project does not exist."@ =~= crate::cache::missing_project_text());
    }
    match request.params.get("name") {
        Option::None => json_error_response(404, String::from_str("Project does not exist.")),
        Option::Some(name) => match store.read_raw(name.as_str()) {
            Option::Some(content) => {
                let mut headers: Dict<String> = Dict::new();
                headers.insert(
                    String::from_str("Content-Type"),
                    String::from_str("application/json"),
                );
                Response::ok(content.clone(), Option::Some(headers))
            },
            Option::None => json_error_response(
                404,
                String::from_str("Project does not exist."),
            ),
        },
    }
}

/// What the configuration write handler does: POST refuses an existing
/// project, PUT refuses a missing one; otherwise the raw body is stored
/// byte for byte and the project's cache entry is dropped.
pub open spec fn spec_save_config_outcome(
    store_old: Map<Seq<char>, Seq<char>>,
    store_new: Map<Seq<char>, Seq<char>>,
    cache_old: Map<Seq<char>, crate::schema::ProjectConfig>,
    cache_new: Map<Seq<char>, crate::schema::ProjectConfig>,
    request: Request,
    r: Response,
) -> bool {
    let params = request.params@;
    let ct = Map::<Seq<char>, Seq<char>>::empty().insert(
        crate::web_server::types::content_type_key(),
        crate::web_server::types::mime_json(),
    );
    if !params.contains_key(name_key()) {
        &&& store_new == store_old
        &&& cache_new == cache_old
        &&& r.status == 400
        &&& r.body@ == spec_json_error_body(crate::cache::missing_project_text())
        &&& r.headers@ == ct
    } else {
        let name = params[name_key()];
        if request.method == Method::Post && store_old.contains_key(name) {
            &&& store_new == store_old
            &&& cache_new == cache_old
            &&& r.status == 400
            &&& r.body@ == spec_json_error_body(already_exists_text())
            &&& r.headers@ == ct
        } else if request.method == Method::Put && !store_old.contains_key(name) {
            &&& store_new == store_old
            &&& cache_new == cache_old
            &&& r.status == 400
            &&& r.body@ == spec_json_error_body(crate::cache::missing_project_text())
            &&& r.headers@ == ct
        } else {
            &&& store_new == store_old.insert(name, request.body@)
            &&& cache_new == cache_old.remove(name)
            &&& r.status == 200
            &&& r.body@ == spec_json_result_ok()
            &&& r.headers@ == ct
        }
    }
}

/// Saves a project's configuration and invalidates its cache entry.
pub fn save_config(cache: &mut Cache, store: &mut MemStore, request: &Request) -> (r: Response)
    requires
        old(cache).wf(),
        old(store).wf(),
        request.wf(),
    ensures
        final(cache).wf(),
        final(store).wf(),
        r.wf(),
        spec_save_config_outcome(
            old(store)@,
            final(store)@,
            old(cache)@,
            final(cache)@,
            *request,
            r,
        ),
{
    proof {
        reveal_strlit("name");
        reveal_strlit("result");
        reveal_strlit("ok");
        reveal_strlit("Project does not exist.");
        reveal_strlit("Project already exists.");
        assert("name"@ =~= name_key());
        assert("Project does not exist."@ =~= crate::cache::missing_project_text());
        assert("Project already exists."@ =~= already_exists_text());
    }
    match request.params.get("name") {
        Option::None => json_error_response(400, String::from_str("Project does not exist.")),
        Option::Some(name) => {
            let name = name.clone();
            let present = store.has_project(name.as_str());
            if request.method == Method::Post && present {
                return json_error_response(400, String::from_str("Project already exists."));
            }
            if request.method == Method::Put && !present {
                return json_error_response(400, String::from_str("Project does not exist."));
            }
            store.write_raw(name.clone(), request.body.clone());
            cache.invalidate_cache(name.as_str());
            let mut body = crate::web_server::types::Nested::new();
            body.insert_string(String::from_str("result"), String::from_str("ok"));
            proof {
                assert(body.values@.len() == 1);
                assert(body.values@[0].0@ =~= seq!['r', 'e', 's', 'u', 'l', 't']);
                assert(body.values@[0].1 matches crate::web_server::types::NestedValue::Str(v)
                    && v@ =~= seq!['o', 'k']);
                assert(crate::web_server::helpers::spec_stringify_nested(body)
                    =~= spec_json_result_ok());
            }
            Response::json(200, body, Option::None)
        },
    }
}

/// Saving a configuration and then reading it back returns the saved JSON
/// text byte for byte.
pub proof fn lemma_save_then_get_round_trip(
    store0: Map<Seq<char>, Seq<char>>,
    store1: Map<Seq<char>, Seq<char>>,
    cache0: Map<Seq<char>, crate::schema::ProjectConfig>,
    cache1: Map<Seq<char>, crate::schema::ProjectConfig>,
    save_req: Request,
    save_resp: Response,
    get_req: Request,
    get_resp: Response,
)
    requires
        spec_save_config_outcome(store0, store1, cache0, cache1, save_req, save_resp),
        save_resp.status == 200,
        spec_get_config_outcome(store1, get_req, get_resp),
        save_req.params@.contains_key(name_key()),
        get_req.params@.contains_key(name_key()),
        get_req.params@[name_key()] == save_req.params@[name_key()],
    ensures
        get_resp.status == 200,
        get_resp.body@ == save_req.body@,
{
    let name = save_req.params@[name_key()];
    assert(store1 == store0.insert(name, save_req.body@));
    assert(store1.contains_key(name));
}

/// Between writes, repeated identical mock requests answer identically:
/// once the project's configuration is cached, a later identical request is
/// served from the very same cached value.
pub proof fn lemma_mock_requests_idempotent(
    cache0: Map<Seq<char>, crate::schema::ProjectConfig>,
    cache1: Map<Seq<char>, crate::schema::ProjectConfig>,
    cache2: Map<Seq<char>, crate::schema::ProjectConfig>,
    content: Option<Seq<char>>,
    request: Request,
    r1: Response,
    d1: u64,
    r2: Response,
    d2: u64,
)
    requires
        spec_mock_request_outcome(cache0, cache1, content, request, r1, d1),
        spec_mock_request_outcome(cache1, cache2, content, request, r2, d2),
        request.matches@.len() >= 2,
        cache1.contains_key(request.matches@[0]@),
    ensures
        cache2 == cache1,
        r2.status == r1.status,
        r2.body@ == r1.body@,
        r2.headers@ == r1.headers@,
        d2 == d1,
{
    let name = request.matches@[0]@;
    if cache0.contains_key(name) {
        assert(cache1 == cache0);
        assert(cache1[name] == cache0[name]);
    } else {
        assert(cache1 == cache0.insert(name, cache1[name]));
    }
}

/// A successful write drops the project's cache entry, so no request after
/// it can be answered from a configuration older than the write.
pub proof fn lemma_write_invalidates(
    store0: Map<Seq<char>, Seq<char>>,
    store1: Map<Seq<char>, Seq<char>>,
    cache0: Map<Seq<char>, crate::schema::ProjectConfig>,
    cache1: Map<Seq<char>, crate::schema::ProjectConfig>,
    save_req: Request,
    save_resp: Response,
)
    requires
        spec_save_config_outcome(store0, store1, cache0, cache1, save_req, save_resp),
        save_resp.status == 200,
        save_req.params@.contains_key(name_key()),
    ensures
        !cache1.contains_key(save_req.params@[name_key()]),
        store1[save_req.params@[name_key()]] == save_req.body@,
{
    let name = save_req.params@[name_key()];
    assert(cache1 == cache0.remove(name));
}

} // verus!
