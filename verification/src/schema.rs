//! The mock configuration model: a project holds endpoints, an endpoint
//! holds an ordered list of conditions, and each condition pairs a request
//! matcher with the response to send. Alongside the conditions an endpoint
//! carries a derived lookup table from canonical `EndpointKey`s to the index
//! of the condition they identify.

use vstd::prelude::*;
use vstd::string::StrSliceExecFns;
use vstd::string::StringExecFns;

use crate::dict::Dict;
use crate::json::JsonValue;
use crate::json::json_clone;
use crate::json::obj_lookup;
use crate::json::parse_json;
use crate::json::json_eq;
use crate::json::json_equal;
use crate::json::lemma_json_equal_sym;
use crate::json::lemma_json_equal_trans;
use crate::text::str_eq;

verus! {

/// Query parameter matching configuration: an operator
/// ("is", "is!", "contains", "contains!") and the value it compares with.
pub struct QueryParam {
    pub operator: String,
    pub value: String,
}

#[verifier::ext_equal]
pub struct QueryParamView {
    pub operator: Seq<char>,
    pub value: Seq<char>,
}

impl View for QueryParam {
    type V = QueryParamView;

    open spec fn view(&self) -> QueryParamView {
        QueryParamView { operator: self.operator@, value: self.value@ }
    }
}

impl QueryParam {
    pub fn duplicate(&self) -> (r: QueryParam)
        ensures
            r@ == self@,
    {
        QueryParam { operator: self.operator.clone(), value: self.value.clone() }
    }
}

/// Decides whether two query parameter rules are the same.
pub fn qp_eq(a: &QueryParam, b: &QueryParam) -> (r: bool)
    ensures
        r == (a@ == b@),
{
    let r = str_eq(a.operator.as_str(), b.operator.as_str()) && str_eq(
        a.value.as_str(),
        b.value.as_str(),
    );
    proof {
        if a.operator@ == b.operator@ && a.value@ == b.value@ {
            assert(a@ =~= b@);
        }
    }
    r
}

/// Request matching criteria: each part is optional, and an absent part has
/// its own meaning during matching.
pub struct RequestConfig {
    pub queries: Option<Dict<QueryParam>>,
    pub headers: Option<Dict<String>>,
    pub body: Option<JsonValue>,
}

impl RequestConfig {
    pub open spec fn wf(&self) -> bool {
        &&& match self.queries {
            Some(q) => q.wf(),
            None => true,
        }
        &&& match self.headers {
            Some(h) => h.wf(),
            None => true,
        }
    }
}

/// Response configuration: status code, headers and an optional JSON body.
pub struct ResponseConfig {
    pub status: u16,
    pub headers: Dict<String>,
    pub body: Option<JsonValue>,
}

impl ResponseConfig {
    pub open spec fn wf(&self) -> bool {
        self.headers.wf()
    }
}

/// One condition: a method, optional request criteria, the response to send
/// when the criteria hold, and a delay in milliseconds.
pub struct WhenCondition {
    pub method: String,
    pub request: Option<RequestConfig>,
    pub response: ResponseConfig,
    pub delay: u64,
}

impl WhenCondition {
    pub open spec fn wf(&self) -> bool {
        &&& match self.request {
            Some(r) => r.wf(),
            None => true,
        }
        &&& self.response.wf()
    }
}

/// A lowercase letter under the uppercase letter of a method keyword.
pub open spec fn lower_upper_pair(lo: char, up: char) -> bool {
    ||| (lo == 'g' && up == 'G')
    ||| (lo == 'e' && up == 'E')
    ||| (lo == 't' && up == 'T')
    ||| (lo == 'p' && up == 'P')
    ||| (lo == 'o' && up == 'O')
    ||| (lo == 's' && up == 'S')
    ||| (lo == 'u' && up == 'U')
}

/// `s` equals the uppercase keyword `kw` once uppercased itself.
pub open spec fn eq_upper_keyword(s: Seq<char>, kw: Seq<char>) -> bool {
    s.len() == kw.len() && forall|i: int|
        0 <= i < s.len() ==> #[trigger] s[i] == kw[i] || lower_upper_pair(s[i], kw[i])
}

fn lower_pair_exec(lo: char, up: char) -> (r: bool)
    ensures
        r == lower_upper_pair(lo, up),
{
    (lo == 'g' && up == 'G') || (lo == 'e' && up == 'E') || (lo == 't' && up == 'T') || (lo == 'p'
        && up == 'P') || (lo == 'o' && up == 'O') || (lo == 's' && up == 'S') || (lo == 'u' && up
        == 'U')
}

pub fn eq_upper_keyword_exec(s: &str, kw: &str) -> (r: bool)
    ensures
        r == eq_upper_keyword(s@, kw@),
{
    let n = s.unicode_len();
    let m = kw.unicode_len();
    if n != m {
        return false;
    }
    let mut i: usize = 0;
    while i < n
        invariant
            0 <= i <= n,
            n == s@.len(),
            n == kw@.len(),
            forall|j: int| 0 <= j < i ==> #[trigger] s@[j] == kw@[j] || lower_upper_pair(
                s@[j],
                kw@[j],
            ),
        decreases n - i,
    {
        let c = s.get_char(i);
        let k = kw.get_char(i);
        if !(c == k || lower_pair_exec(c, k)) {
            return false;
        }
        i = i + 1;
    }
    true
}

/// The method text of an endpoint key: one of the three known methods is
/// written in its uppercase form, anything else stays as it is.
pub open spec fn spec_canon_method(s: Seq<char>) -> Seq<char> {
    if eq_upper_keyword(s, seq!['G', 'E', 'T']) {
        seq!['G', 'E', 'T']
    } else if eq_upper_keyword(s, seq!['P', 'O', 'S', 'T']) {
        seq!['P', 'O', 'S', 'T']
    } else if eq_upper_keyword(s, seq!['P', 'U', 'T']) {
        seq!['P', 'U', 'T']
    } else {
        s
    }
}

/// Uppercases a method name if it is one of the three known methods.
pub fn canon_method(s: &str) -> (r: String)
    ensures
        r@ == spec_canon_method(s@),
{
    proof {
        reveal_strlit("GET");
        reveal_strlit("POST");
        reveal_strlit("PUT");
        assert("GET"@ =~= seq!['G', 'E', 'T']);
        assert("POST"@ =~= seq!['P', 'O', 'S', 'T']);
        assert("PUT"@ =~= seq!['P', 'U', 'T']);
    }
    if eq_upper_keyword_exec(s, "GET") {
        String::from_str("GET")
    } else if eq_upper_keyword_exec(s, "POST") {
        String::from_str("POST")
    } else if eq_upper_keyword_exec(s, "PUT") {
        String::from_str("PUT")
    } else {
        String::from_str(s)
    }
}

/// Canonical identity of a condition for the keyed lookup: method (in
/// canonical case), the query matcher map, and the expected body.
pub struct EndpointKey {
    pub method: String,
    pub queries: Option<Dict<QueryParam>>,
    pub body: Option<JsonValue>,
}

#[verifier::ext_equal]
pub struct EndpointKeyView {
    pub method: Seq<char>,
    pub queries: Option<Map<Seq<char>, QueryParamView>>,
    pub body: Option<JsonValue>,
}

impl View for EndpointKey {
    type V = EndpointKeyView;

    open spec fn view(&self) -> EndpointKeyView {
        EndpointKeyView {
            method: self.method@,
            queries: match self.queries {
                Some(q) => Some(q@),
                None => None,
            },
            body: self.body,
        }
    }
}

impl EndpointKey {
    pub open spec fn wf(&self) -> bool {
        match self.queries {
            Some(q) => q.wf(),
            None => true,
        }
    }
}

/// When two endpoint keys identify the same requests: same method text, the
/// same query matcher map — however its entries were ordered — and deeply
/// equal bodies.
pub open spec fn key_equal(a: EndpointKeyView, b: EndpointKeyView) -> bool {
    &&& a.method == b.method
    &&& match (a.queries, b.queries) {
        (Option::None, Option::None) => true,
        (Option::Some(x), Option::Some(y)) => x == y,
        _ => false,
    }
    &&& match (a.body, b.body) {
        (Option::None, Option::None) => true,
        (Option::Some(x), Option::Some(y)) => json_equal(x, y),
        _ => false,
    }
}

pub proof fn lemma_key_equal_sym(a: EndpointKeyView, b: EndpointKeyView)
    ensures
        key_equal(a, b) == key_equal(b, a),
{
    match (a.body, b.body) {
        (Option::Some(x), Option::Some(y)) => lemma_json_equal_sym(x, y),
        _ => {},
    }
}

pub proof fn lemma_key_equal_trans(a: EndpointKeyView, b: EndpointKeyView, c: EndpointKeyView)
    requires
        key_equal(a, b),
        key_equal(b, c),
    ensures
        key_equal(a, c),
{
    match (a.body, b.body, c.body) {
        (Option::Some(x), Option::Some(y), Option::Some(z)) => lemma_json_equal_trans(x, y, z),
        _ => {},
    }
}

/// Decides whether two query matcher dictionaries describe the same map.
pub fn qdict_eq(a: &Dict<QueryParam>, b: &Dict<QueryParam>) -> (r: bool)
    requires
        a.wf(),
        b.wf(),
    ensures
        r == (a@ == b@),
{
    proof {
        a.lemma_view();
        b.lemma_view();
    }
    let na = a.len();
    let nb = b.len();
    if na != nb {
        proof {
            if a@ == b@ {
                assert(a@.dom().len() == b@.dom().len());
            }
        }
        return false;
    }
    let mut i: usize = 0;
    while i < na
        invariant
            0 <= i <= na,
            na == a.spec_entries().len(),
            na == b.spec_entries().len(),
            a.wf(),
            b.wf(),
            forall|j: int|
                0 <= j < i ==> b@.contains_key((#[trigger] a.spec_entries()[j]).0) && b@[(
                a.spec_entries()[j]).0] == a.spec_entries()[j].1,
        decreases na - i,
    {
        let k = a.key_at(i);
        let v = a.val_at(i);
        match b.get(k.as_str()) {
            Option::None => {
                proof {
                    a.lemma_view();
                    assert(a@.contains_key(a.spec_entries()[i as int].0));
                }
                return false;
            },
            Option::Some(w) => {
                if !qp_eq(v, w) {
                    proof {
                        a.lemma_view();
                        assert(a@[a.spec_entries()[i as int].0] == a.spec_entries()[i as int].1);
                    }
                    return false;
                }
            },
        }
        i = i + 1;
    }
    proof {
        a.lemma_view();
        b.lemma_view();
        assert forall|k: Seq<char>| a@.contains_key(k) implies b@.contains_key(k) && a@[k]
            == b@[k] by {
            let j = choose|j: int|
                0 <= j < a.spec_entries().len() && (#[trigger] a.spec_entries()[j]).0 == k;
            assert(b@.contains_key(a.spec_entries()[j].0));
        }
        if !a@.dom().subset_of(b@.dom()) {
            let k = choose|k: Seq<char>| a@.dom().contains(k) && !b@.dom().contains(k);
            assert(b@.contains_key(k));
        }
        if !(b@.dom() =~= a@.dom()) {
            let k = choose|k: Seq<char>| b@.dom().contains(k) && !a@.dom().contains(k);
            a@.dom().lemma_subset_not_in_lt(b@.dom(), k);
            assert(false);
        }
        assert(a@ =~= b@);
    }
    true
}

/// Decides `key_equal` on two well-formed endpoint keys.
pub fn key_eq(a: &EndpointKey, b: &EndpointKey) -> (r: bool)
    requires
        a.wf(),
        b.wf(),
    ensures
        r == key_equal(a@, b@),
{
    if !str_eq(a.method.as_str(), b.method.as_str()) {
        return false;
    }
    let qs = match (&a.queries, &b.queries) {
        (Option::None, Option::None) => true,
        (Option::Some(x), Option::Some(y)) => qdict_eq(x, y),
        _ => false,
    };
    if !qs {
        return false;
    }
    match (&a.body, &b.body) {
        (Option::None, Option::None) => true,
        (Option::Some(x), Option::Some(y)) => json_eq(x, y),
        _ => false,
    }
}

/// The canonical key a condition contributes to the lookup table.
pub open spec fn key_of_condition(c: WhenCondition) -> EndpointKeyView {
    EndpointKeyView {
        method: spec_canon_method(c.method@),
        queries: match c.request {
            Some(r) => match r.queries {
                Some(q) => Some(q@),
                None => None,
            },
            None => None,
        },
        body: match c.request {
            Some(r) => r.body,
            None => None,
        },
    }
}

/// Builds the key of one condition.
pub fn make_condition_key(c: &WhenCondition) -> (r: EndpointKey)
    requires
        c.wf(),
    ensures
        r.wf(),
        key_equal(r@, key_of_condition(*c)),
        key_equal(key_of_condition(*c), r@),
{
    let method = canon_method(c.method.as_str());
    let queries: Option<Dict<QueryParam>> = match &c.request {
        Option::Some(req) => match &req.queries {
            Option::Some(q) => Option::Some(dup_qdict(q)),
            Option::None => Option::None,
        },
        Option::None => Option::None,
    };
    let body: Option<JsonValue> = match &c.request {
        Option::Some(req) => match &req.body {
            Option::Some(b) => Option::Some(json_clone(b)),
            Option::None => Option::None,
        },
        Option::None => Option::None,
    };
    EndpointKey { method, queries, body }
}

/// A deep copy of a query matcher dictionary.
pub fn dup_qdict(d: &Dict<QueryParam>) -> (r: Dict<QueryParam>)
    requires
        d.wf(),
    ensures
        r.wf(),
        r@ == d@,
{
    proof {
        d.lemma_view();
    }
    let n = d.len();
    let mut r: Dict<QueryParam> = Dict::new();
    let mut i: usize = 0;
    while i < n
        invariant
            0 <= i <= n,
            n == d.spec_entries().len(),
            d.wf(),
            r.wf(),
            r@ == crate::dict::assoc_map(d.spec_entries().subrange(0, i as int)),
        decreases n - i,
    {
        let k = d.key_at(i);
        let v = d.val_at(i);
        r.insert(k.clone(), v.duplicate());
        proof {
            assert(d.spec_entries().subrange(0, i + 1).drop_last() =~= d.spec_entries().subrange(
                0,
                i as int,
            ));
            assert(d.spec_entries().subrange(0, i + 1).last() == d.spec_entries()[i as int]);
        }
        i = i + 1;
    }
    proof {
        assert(d.spec_entries().subrange(0, n as int) =~= d.spec_entries());
        d.lemma_view_assoc();
    }
    r
}

/// A condition that constrains headers. The canonical key carries no
/// headers, so such a condition must stay out of the keyed lookup table:
/// only the ordered fallback scan may honor it.
pub open spec fn has_header_matcher(c: WhenCondition) -> bool {
    match c.request {
        Some(r) => r.headers is Some,
        None => false,
    }
}

/// One lookup-table entry is sound for the conditions: it points at a
/// condition with that key and no header matcher, and at the last such one.
pub open spec fn cmap_entry_ok(conds: Seq<WhenCondition>, e: (EndpointKey, usize)) -> bool {
    &&& 0 <= e.1 < conds.len()
    &&& !has_header_matcher(conds[e.1 as int])
    &&& key_equal(e.0@, key_of_condition(conds[e.1 as int]))
    &&& forall|j: int|
        e.1 < j < conds.len() && !has_header_matcher(#[trigger] conds[j]) ==> !key_equal(
            key_of_condition(conds[j]),
            e.0@,
        )
}

/// The lookup table is sound and complete for the conditions: entries point
/// at the last header-free condition with their key, every header-free
/// condition's key is present, and no key is present twice.
pub open spec fn cmap_valid(conds: Seq<WhenCondition>, m: Seq<(EndpointKey, usize)>) -> bool {
    &&& forall|i: int| 0 <= i < m.len() ==> cmap_entry_ok(conds, #[trigger] m[i])
    &&& forall|j: int|
        0 <= j < conds.len() && !has_header_matcher(#[trigger] conds[j]) ==> exists|i: int|
            0 <= i < m.len() && key_equal((#[trigger] m[i]).0@, key_of_condition(conds[j]))
    &&& forall|i1: int, i2: int|
        0 <= i1 < i2 < m.len() ==> !key_equal((#[trigger] m[i1]).0@, (#[trigger] m[i2]).0@)
}

/// A single endpoint: its ordered conditions and the derived lookup table.
pub struct Endpoint {
    pub conditions: Vec<WhenCondition>,
    pub condition_map: Vec<(EndpointKey, usize)>,
}

impl View for Endpoint {
    type V = Endpoint;

    open spec fn view(&self) -> Endpoint {
        *self
    }
}

impl Endpoint {
    pub open spec fn wf(&self) -> bool {
        &&& forall|i: int| 0 <= i < self.conditions@.len() ==> (#[trigger] self.conditions@[i]).wf()
        &&& forall|i: int|
            0 <= i < self.condition_map@.len() ==> (#[trigger] self.condition_map@[i]).0.wf()
        &&& cmap_valid(self.conditions@, self.condition_map@)
    }

    /// Fills the lookup table from the conditions: each canonical key maps
    /// to the index of the last condition carrying it.
    #[verifier::loop_isolation(false)]
    pub fn build_condition_map(&mut self)
        requires
            forall|i: int|
                0 <= i < old(self).conditions@.len() ==> (#[trigger] old(
                    self,
                ).conditions@[i]).wf(),
        ensures
            final(self).conditions == old(self).conditions,
            final(self).wf(),
    {
        self.condition_map = Vec::new();
        let n = self.conditions.len();
        let mut j: usize = 0;
        proof {
            assert(self.conditions@.subrange(0, 0) =~= Seq::<WhenCondition>::empty());
        }
        while j < n
            invariant
                0 <= j <= n,
                self.conditions == old(self).conditions,
                forall|i: int|
                    0 <= i < self.condition_map@.len() ==> (
                    #[trigger] self.condition_map@[i]).0.wf(),
                cmap_valid(self.conditions@.subrange(0, j as int), self.condition_map@),
            decreases n - j,
        {
            let keyed = match &self.conditions[j].request {
                Option::Some(r) => match &r.headers {
                    Option::Some(_) => false,
                    Option::None => true,
                },
                Option::None => true,
            };
            if keyed {
                let key = make_condition_key(&self.conditions[j]);
                upsert_condition_key(&mut self.condition_map, key, j, Ghost(self.conditions@));
            } else {
                proof {
                    lemma_cmap_step_skip(self.conditions@, j as int, self.condition_map@);
                }
            }
            j = j + 1;
        }
        proof {
            assert(self.conditions@.subrange(0, n as int) =~= self.conditions@);
        }
    }
}

/// Binds a condition's key to its index, replacing the binding of an equal
/// key if the table already holds one.
#[verifier::loop_isolation(false)]
#[verifier::rlimit(100)]
fn upsert_condition_key(
    map: &mut Vec<(EndpointKey, usize)>,
    key: EndpointKey,
    j: usize,
    Ghost(conds): Ghost<Seq<WhenCondition>>,
)
    requires
        j < conds.len(),
        key.wf(),
        !has_header_matcher(conds[j as int]),
        key_equal(key@, key_of_condition(conds[j as int])),
        key_equal(key_of_condition(conds[j as int]), key@),
        forall|i: int| 0 <= i < old(map)@.len() ==> (#[trigger] old(map)@[i]).0.wf(),
        cmap_valid(conds.subrange(0, j as int), old(map)@),
    ensures
        forall|i: int| 0 <= i < final(map)@.len() ==> (#[trigger] final(map)@[i]).0.wf(),
        cmap_valid(conds.subrange(0, j + 1), final(map)@),
{
    let m = map.len();
    let mut i: usize = 0;
    let mut found: Option<usize> = Option::None;
    while i < m
        invariant
            0 <= i <= m,
            m == map@.len(),
            map == old(map),
            match found {
                Option::Some(f) => f < m && key_equal(map@[f as int].0@, key@) && forall|t: int|
                    0 <= t < f ==> !key_equal((#[trigger] map@[t]).0@, key@),
                Option::None => forall|t: int|
                    0 <= t < i ==> !key_equal((#[trigger] map@[t]).0@, key@),
            },
        decreases m - i,
    {
        if found.is_none() && key_eq(&map[i].0, &key) {
            found = Option::Some(i);
        }
        i = i + 1;
    }
    match found {
        Option::Some(f) => {
            let ghost oldmap = map@;
            proof {
                assert(forall|t: int| 0 <= t < f ==> !key_equal((#[trigger] oldmap[t]).0@, key@));
                lemma_cmap_step_replace(conds, j as int, oldmap, f as int, key, j);
            }
            map[f] = (key, j);
            proof {
                assert(map@ == oldmap.update(f as int, (key, j)));
            }
        },
        Option::None => {
            let ghost oldmap = map@;
            proof {
                assert(forall|t: int|
                    0 <= t < oldmap.len() ==> !key_equal((#[trigger] oldmap[t]).0@, key@));
                lemma_cmap_step_push(conds, j as int, oldmap, key, j);
            }
            map.push((key, j));
            proof {
                assert(map@ == oldmap.push((key, j)));
            }
        },
    }
}

/// A condition with a header matcher contributes nothing to the table.
proof fn lemma_cmap_step_skip(
    conds: Seq<WhenCondition>,
    j: int,
    m: Seq<(EndpointKey, usize)>,
)
    requires
        0 <= j < conds.len(),
        has_header_matcher(conds[j]),
        cmap_valid(conds.subrange(0, j), m),
    ensures
        cmap_valid(conds.subrange(0, j + 1), m),
{
    let pre = conds.subrange(0, j);
    let post = conds.subrange(0, j + 1);
    assert(post.drop_last() =~= pre);
    assert(post.last() == conds[j]);
    assert forall|t: int| 0 <= t < m.len() implies cmap_entry_ok(post, #[trigger] m[t]) by {
        assert(cmap_entry_ok(pre, m[t]));
    }
    assert forall|jj: int|
        0 <= jj < post.len() && !has_header_matcher(#[trigger] post[jj]) implies exists|i: int|
        0 <= i < m.len() && key_equal((#[trigger] m[i]).0@, key_of_condition(post[jj])) by {
        assert(jj < j);
        assert(post[jj] == pre[jj]);
        let t = choose|t: int|
            0 <= t < m.len() && key_equal((#[trigger] m[t]).0@, key_of_condition(pre[jj]));
        assert(key_equal(m[t].0@, key_of_condition(post[jj])));
    }
}

/// Rebinding an existing key to a later condition keeps the table valid.
proof fn lemma_cmap_step_replace(
    conds: Seq<WhenCondition>,
    j: int,
    oldmap: Seq<(EndpointKey, usize)>,
    f: int,
    key: EndpointKey,
    ju: usize,
)
    requires
        0 <= j < conds.len(),
        j == ju,
        !has_header_matcher(conds[j]),
        cmap_valid(conds.subrange(0, j), oldmap),
        0 <= f < oldmap.len(),
        key_equal(oldmap[f].0@, key@),
        forall|t: int| 0 <= t < f ==> !key_equal((#[trigger] oldmap[t]).0@, key@),
        key_equal(key@, key_of_condition(conds[j])),
        key_equal(key_of_condition(conds[j]), key@),
    ensures
        cmap_valid(conds.subrange(0, j + 1), oldmap.update(f, (key, ju))),
{
    let pre = conds.subrange(0, j);
    let post = conds.subrange(0, j + 1);
    let newmap = oldmap.update(f, (key, ju));
    assert(post.drop_last() =~= pre);
    assert(post.last() == conds[j]);
    lemma_key_equal_sym(oldmap[f].0@, key@);
    assert forall|t: int| 0 <= t < newmap.len() implies cmap_entry_ok(
        post,
        #[trigger] newmap[t],
    ) by {
        if t == f {
            assert(key_equal(newmap[t].0@, key_of_condition(post[j])));
        } else {
            assert(cmap_entry_ok(pre, oldmap[t]));
            assert(newmap[t] == oldmap[t]);
            if key_equal(key_of_condition(post[j]), newmap[t].0@) {
                lemma_key_equal_trans(key@, key_of_condition(post[j]), newmap[t].0@);
                lemma_key_equal_sym(key@, oldmap[t].0@);
                if t < f {
                    assert(false);
                } else {
                    lemma_key_equal_trans(oldmap[f].0@, key@, oldmap[t].0@);
                    assert(!key_equal(oldmap[f].0@, oldmap[t].0@));
                    assert(false);
                }
            }
        }
    }
    assert forall|jj: int|
        0 <= jj < post.len() && !has_header_matcher(#[trigger] post[jj]) implies exists|t: int|
        0 <= t < newmap.len() && key_equal((#[trigger] newmap[t]).0@, key_of_condition(
            post[jj],
        )) by {
        if jj == j {
            assert(key_equal(newmap[f].0@, key_of_condition(post[jj])));
        } else {
            assert(post[jj] == pre[jj]);
            assert(!has_header_matcher(pre[jj]));
            let t = choose|t: int|
                0 <= t < oldmap.len() && key_equal(
                    (#[trigger] oldmap[t]).0@,
                    key_of_condition(pre[jj]),
                );
            if t == f {
                lemma_key_equal_sym(oldmap[f].0@, key@);
                lemma_key_equal_trans(key@, oldmap[f].0@, key_of_condition(pre[jj]));
                assert(key_equal(newmap[f].0@, key_of_condition(post[jj])));
            } else {
                assert(key_equal(newmap[t].0@, key_of_condition(post[jj])));
            }
        }
    }
    assert forall|i1: int, i2: int| 0 <= i1 < i2 < newmap.len() implies !key_equal(
        (#[trigger] newmap[i1]).0@,
        (#[trigger] newmap[i2]).0@,
    ) by {
        if i1 == f {
            if key_equal(newmap[i1].0@, newmap[i2].0@) {
                lemma_key_equal_trans(oldmap[f].0@, key@, oldmap[i2].0@);
                assert(!key_equal(oldmap[i1].0@, oldmap[i2].0@));
                assert(false);
            }
        } else if i2 == f {
            if key_equal(newmap[i1].0@, newmap[i2].0@) {
                lemma_key_equal_sym(oldmap[i1].0@, key@);
                assert(false);
            }
        } else {
            assert(!key_equal(oldmap[i1].0@, oldmap[i2].0@));
        }
    }
}

/// Adding a fresh key pointing at the newest condition keeps the table valid.
proof fn lemma_cmap_step_push(
    conds: Seq<WhenCondition>,
    j: int,
    oldmap: Seq<(EndpointKey, usize)>,
    key: EndpointKey,
    ju: usize,
)
    requires
        0 <= j < conds.len(),
        j == ju,
        !has_header_matcher(conds[j]),
        cmap_valid(conds.subrange(0, j), oldmap),
        forall|t: int| 0 <= t < oldmap.len() ==> !key_equal((#[trigger] oldmap[t]).0@, key@),
        key_equal(key@, key_of_condition(conds[j])),
        key_equal(key_of_condition(conds[j]), key@),
    ensures
        cmap_valid(conds.subrange(0, j + 1), oldmap.push((key, ju))),
{
    let pre = conds.subrange(0, j);
    let post = conds.subrange(0, j + 1);
    let newmap = oldmap.push((key, ju));
    assert(post.drop_last() =~= pre);
    assert(post.last() == conds[j]);
    assert forall|t: int| 0 <= t < newmap.len() implies cmap_entry_ok(
        post,
        #[trigger] newmap[t],
    ) by {
        if t == newmap.len() - 1 {
            assert(key_equal(newmap[t].0@, key_of_condition(post[j])));
        } else {
            assert(cmap_entry_ok(pre, oldmap[t]));
            if key_equal(key_of_condition(post[j]), newmap[t].0@) {
                lemma_key_equal_trans(key@, key_of_condition(post[j]), newmap[t].0@);
                lemma_key_equal_sym(key@, oldmap[t].0@);
                assert(false);
            }
        }
    }
    assert forall|jj: int|
        0 <= jj < post.len() && !has_header_matcher(#[trigger] post[jj]) implies exists|t: int|
        0 <= t < newmap.len() && key_equal((#[trigger] newmap[t]).0@, key_of_condition(
            post[jj],
        )) by {
        if jj == j {
            assert(key_equal(newmap[newmap.len() - 1].0@, key_of_condition(post[jj])));
        } else {
            assert(post[jj] == pre[jj]);
            assert(!has_header_matcher(pre[jj]));
            let t = choose|t: int|
                0 <= t < oldmap.len() && key_equal(
                    (#[trigger] oldmap[t]).0@,
                    key_of_condition(pre[jj]),
                );
            assert(key_equal(newmap[t].0@, key_of_condition(post[jj])));
        }
    }
    assert forall|i1: int, i2: int| 0 <= i1 < i2 < newmap.len() implies !key_equal(
        (#[trigger] newmap[i1]).0@,
        (#[trigger] newmap[i2]).0@,
    ) by {
        if i2 == newmap.len() - 1 {
            if key_equal(newmap[i1].0@, newmap[i2].0@) {
                assert(false);
            }
        } else {
            assert(!key_equal(oldmap[i1].0@, oldmap[i2].0@));
        }
    }
}


/// The characters of a member's string value, if the member exists and is a
/// string.
pub open spec fn spec_str_field(o: Seq<(String, JsonValue)>, name: Seq<char>) -> Option<Seq<char>> {
    match obj_lookup(o, name) {
        Some(JsonValue::Str(s)) => Some(s@),
        _ => None,
    }
}

/// The number a member denotes, if it is a plain unsigned decimal within
/// `limit`.
pub open spec fn spec_num_field(v: JsonValue, limit: int) -> Option<int> {
    match v {
        JsonValue::Num(s) => if s@.len() > 0 && crate::text::all_digits(s@) && crate::text::digits_val(s@) <= limit {
            Some(crate::text::digits_val(s@))
        } else {
            None
        },
        _ => None,
    }
}

fn num_field(v: &JsonValue, limit: u64) -> (r: Option<u64>)
    ensures
        match r {
            Some(x) => spec_num_field(*v, limit as int) == Some(x as int),
            None => spec_num_field(*v, limit as int) is None,
        },
{
    match v {
        JsonValue::Num(s) => match crate::text::parse_u64(s.as_str()) {
            Some(x) => {
                if x <= limit {
                    Some(x)
                } else {
                    None
                }
            },
            None => None,
        },
        _ => None,
    }
}

fn str_field<'a>(o: &'a Vec<(String, JsonValue)>, name: &str) -> (r: Option<&'a String>)
    ensures
        match r {
            Some(s) => spec_str_field(o@, name@) == Some(s@),
            None => spec_str_field(o@, name@) is None,
        },
{
    match crate::json::obj_lookup_exec(o, name) {
        Some(JsonValue::Str(s)) => Some(s),
        _ => None,
    }
}

/// Every member's value is a string.
pub open spec fn spec_valid_str_obj(o: Seq<(String, JsonValue)>) -> bool {
    forall|i: int| 0 <= i < o.len() ==> (#[trigger] o[i]).1 is Str
}

/// The string map an all-string object denotes, later members winning.
pub open spec fn spec_str_obj_map(o: Seq<(String, JsonValue)>) -> Map<Seq<char>, Seq<char>>
    decreases o.len(),
{
    if o.len() == 0 {
        Map::empty()
    } else {
        let m = spec_str_obj_map(o.drop_last());
        match o.last().1 {
            JsonValue::Str(s) => m.insert(o.last().0@, s@),
            _ => m,
        }
    }
}

/// Reads an object whose members must all be strings.
fn build_str_dict(o: &Vec<(String, JsonValue)>) -> (r: Result<Dict<String>, ()>)
    ensures
        r is Ok <==> spec_valid_str_obj(o@),
        match r {
            Ok(d) => d.wf() && d@ == spec_str_obj_map(o@),
            Err(_) => true,
        },
{
    let n = o.len();
    let mut d: Dict<String> = Dict::new();
    let mut i: usize = 0;
    proof {
        assert(o@.subrange(0, 0) =~= Seq::<(String, JsonValue)>::empty());
    }
    while i < n
        invariant
            0 <= i <= n,
            n == o@.len(),
            d.wf(),
            d@ == spec_str_obj_map(o@.subrange(0, i as int)),
            forall|j: int| 0 <= j < i ==> (#[trigger] o@[j]).1 is Str,
        decreases n - i,
    {
        proof {
            assert(o@.subrange(0, i + 1).drop_last() =~= o@.subrange(0, i as int));
            assert(o@.subrange(0, i + 1).last() == o@[i as int]);
        }
        match &o[i].1 {
            JsonValue::Str(s) => {
                d.insert(o[i].0.clone(), s.clone());
            },
            _ => {
                return Err(());
            },
        }
        i = i + 1;
    }
    proof {
        assert(o@.subrange(0, n as int) =~= o@);
    }
    Ok(d)
}

/// A valid query matcher entry: an object with string `operator` and
/// string `value` members.
pub open spec fn spec_valid_qp(v: JsonValue) -> bool {
    match v {
        JsonValue::Obj(o) => spec_str_field(o@, seq!['o', 'p', 'e', 'r', 'a', 't', 'o', 'r'])
            is Some && spec_str_field(o@, seq!['v', 'a', 'l', 'u', 'e']) is Some,
        _ => false,
    }
}

/// The matcher a valid query matcher entry denotes.
pub open spec fn spec_qp_of(v: JsonValue) -> QueryParamView
    recommends
        spec_valid_qp(v),
{
    match v {
        JsonValue::Obj(o) => QueryParamView {
            operator: spec_str_field(o@, seq!['o', 'p', 'e', 'r', 'a', 't', 'o', 'r'])->0,
            value: spec_str_field(o@, seq!['v', 'a', 'l', 'u', 'e'])->0,
        },
        _ => QueryParamView { operator: Seq::empty(), value: Seq::empty() },
    }
}

fn build_qp(v: &JsonValue) -> (r: Result<QueryParam, ()>)
    ensures
        r is Ok <==> spec_valid_qp(*v),
        match r {
            Ok(qp) => qp@ == spec_qp_of(*v),
            Err(_) => true,
        },
{
    proof {
        reveal_strlit("operator");
        reveal_strlit("value");
        assert("operator"@ =~= seq!['o', 'p', 'e', 'r', 'a', 't', 'o', 'r']);
        assert("value"@ =~= seq!['v', 'a', 'l', 'u', 'e']);
    }
    match v {
        JsonValue::Obj(o) => {
            let op = match str_field(o, "operator") {
                Some(s) => s.clone(),
                None => {
                    return Err(());
                },
            };
            let value = match str_field(o, "value") {
                Some(s) => s.clone(),
                None => {
                    return Err(());
                },
            };
            let qp = QueryParam { operator: op, value };
            proof {
                assert(qp@ =~= spec_qp_of(*v));
            }
            Ok(qp)
        },
        _ => Err(()),
    }
}

/// Every member is a valid query matcher entry.
pub open spec fn spec_valid_qdict(o: Seq<(String, JsonValue)>) -> bool {
    forall|i: int| 0 <= i < o.len() ==> spec_valid_qp((#[trigger] o[i]).1)
}

/// The query matcher map an object denotes, later members winning.
pub open spec fn spec_qdict_map(o: Seq<(String, JsonValue)>) -> Map<Seq<char>, QueryParamView>
    decreases o.len(),
{
    if o.len() == 0 {
        Map::empty()
    } else {
        let m = spec_qdict_map(o.drop_last());
        if spec_valid_qp(o.last().1) {
            m.insert(o.last().0@, spec_qp_of(o.last().1))
        } else {
            m
        }
    }
}

fn build_qdict(o: &Vec<(String, JsonValue)>) -> (r: Result<Dict<QueryParam>, ()>)
    ensures
        r is Ok <==> spec_valid_qdict(o@),
        match r {
            Ok(d) => d.wf() && d@ == spec_qdict_map(o@),
            Err(_) => true,
        },
{
    let n = o.len();
    let mut d: Dict<QueryParam> = Dict::new();
    let mut i: usize = 0;
    proof {
        assert(o@.subrange(0, 0) =~= Seq::<(String, JsonValue)>::empty());
    }
    while i < n
        invariant
            0 <= i <= n,
            n == o@.len(),
            d.wf(),
            d@ == spec_qdict_map(o@.subrange(0, i as int)),
            forall|j: int| 0 <= j < i ==> spec_valid_qp((#[trigger] o@[j]).1),
        decreases n - i,
    {
        proof {
            assert(o@.subrange(0, i + 1).drop_last() =~= o@.subrange(0, i as int));
            assert(o@.subrange(0, i + 1).last() == o@[i as int]);
        }
        match build_qp(&o[i].1) {
            Ok(qp) => {
                d.insert(o[i].0.clone(), qp);
            },
            Err(_) => {
                return Err(());
            },
        }
        i = i + 1;
    }
    proof {
        assert(o@.subrange(0, n as int) =~= o@);
    }
    Ok(d)
}

/// An optional member: absent and `null` both mean "not given".
pub open spec fn spec_opt_field(o: Seq<(String, JsonValue)>, name: Seq<char>) -> Option<JsonValue> {
    match obj_lookup(o, name) {
        None => None,
        Some(JsonValue::Null) => None,
        Some(v) => Some(v),
    }
}

fn opt_field<'a>(o: &'a Vec<(String, JsonValue)>, name: &str) -> (r: Option<&'a JsonValue>)
    ensures
        match r {
            Some(v) => spec_opt_field(o@, name@) == Some(*v),
            None => spec_opt_field(o@, name@) is None,
        },
{
    match crate::json::obj_lookup_exec(o, name) {
        None => None,
        Some(JsonValue::Null) => None,
        Some(v) => Some(v),
    }
}

/// Valid request criteria: an object whose `queries` member, if given, is an
/// object of valid matchers, and whose `headers` member, if given, is an
/// object of strings; `body` may be anything.
pub open spec fn spec_valid_request(v: JsonValue) -> bool {
    match v {
        JsonValue::Obj(o) => {
            &&& match spec_opt_field(o@, seq!['q', 'u', 'e', 'r', 'i', 'e', 's']) {
                None => true,
                Some(JsonValue::Obj(q)) => spec_valid_qdict(q@),
                Some(_) => false,
            }
            &&& match spec_opt_field(o@, seq!['h', 'e', 'a', 'd', 'e', 'r', 's']) {
                None => true,
                Some(JsonValue::Obj(h)) => spec_valid_str_obj(h@),
                Some(_) => false,
            }
        },
        _ => false,
    }
}

/// The request criteria a valid object denotes, field by field.
pub open spec fn spec_request_rel(v: JsonValue, rc: RequestConfig) -> bool {
    match v {
        JsonValue::Obj(o) => {
            &&& match spec_opt_field(o@, seq!['q', 'u', 'e', 'r', 'i', 'e', 's']) {
                None => rc.queries is None,
                Some(JsonValue::Obj(q)) => match rc.queries {
                    Some(d) => d@ == spec_qdict_map(q@),
                    None => false,
                },
                Some(_) => false,
            }
            &&& match spec_opt_field(o@, seq!['h', 'e', 'a', 'd', 'e', 'r', 's']) {
                None => rc.headers is None,
                Some(JsonValue::Obj(h)) => match rc.headers {
                    Some(d) => d@ == spec_str_obj_map(h@),
                    None => false,
                },
                Some(_) => false,
            }
            &&& match spec_opt_field(o@, seq!['b', 'o', 'd', 'y']) {
                None => rc.body is None,
                Some(bv) => match rc.body {
                    Some(b) => json_equal(b, bv) && json_equal(bv, b),
                    None => false,
                },
            }
        },
        _ => false,
    }
}

fn build_request_config(v: &JsonValue) -> (r: Result<RequestConfig, ()>)
    ensures
        r is Ok <==> spec_valid_request(*v),
        match r {
            Ok(rc) => rc.wf() && spec_request_rel(*v, rc),
            Err(_) => true,
        },
{
    proof {
        reveal_strlit("queries");
        reveal_strlit("headers");
        reveal_strlit("body");
        assert("queries"@ =~= seq!['q', 'u', 'e', 'r', 'i', 'e', 's']);
        assert("headers"@ =~= seq!['h', 'e', 'a', 'd', 'e', 'r', 's']);
        assert("body"@ =~= seq!['b', 'o', 'd', 'y']);
    }
    match v {
        JsonValue::Obj(o) => {
            let queries: Option<Dict<QueryParam>> = match opt_field(o, "queries") {
                Option::None => Option::None,
                Option::Some(JsonValue::Obj(q)) => match build_qdict(q) {
                    Ok(d) => Option::Some(d),
                    Err(_) => {
                        return Err(());
                    },
                },
                Option::Some(_) => {
                    return Err(());
                },
            };
            let headers: Option<Dict<String>> = match opt_field(o, "headers") {
                Option::None => Option::None,
                Option::Some(JsonValue::Obj(h)) => match build_str_dict(h) {
                    Ok(d) => Option::Some(d),
                    Err(_) => {
                        return Err(());
                    },
                },
                Option::Some(_) => {
                    return Err(());
                },
            };
            let body: Option<JsonValue> = match opt_field(o, "body") {
                Option::None => Option::None,
                Option::Some(bv) => Option::Some(json_clone(bv)),
            };
            Ok(RequestConfig { queries, headers, body })
        },
        _ => Err(()),
    }
}

/// A valid response: an object with a `status` member reading as a status
/// code, a `headers` member that is an object of strings, and an optional
/// `body` of any JSON value.
pub open spec fn spec_valid_response(v: JsonValue) -> bool {
    match v {
        JsonValue::Obj(o) => {
            &&& match obj_lookup(o@, seq!['s', 't', 'a', 't', 'u', 's']) {
                Some(sv) => spec_num_field(sv, u16::MAX as int) is Some,
                None => false,
            }
            &&& match obj_lookup(o@, seq!['h', 'e', 'a', 'd', 'e', 'r', 's']) {
                Some(JsonValue::Obj(h)) => spec_valid_str_obj(h@),
                _ => false,
            }
        },
        _ => false,
    }
}

/// The response a valid object denotes, field by field.
pub open spec fn spec_response_rel(v: JsonValue, rc: ResponseConfig) -> bool {
    match v {
        JsonValue::Obj(o) => {
            &&& match obj_lookup(o@, seq!['s', 't', 'a', 't', 'u', 's']) {
                Some(sv) => spec_num_field(sv, u16::MAX as int) == Some(rc.status as int),
                None => false,
            }
            &&& match obj_lookup(o@, seq!['h', 'e', 'a', 'd', 'e', 'r', 's']) {
                Some(JsonValue::Obj(h)) => rc.headers@ == spec_str_obj_map(h@),
                _ => false,
            }
            &&& match spec_opt_field(o@, seq!['b', 'o', 'd', 'y']) {
                None => rc.body is None,
                Some(bv) => match rc.body {
                    Some(b) => json_equal(b, bv) && json_equal(bv, b),
                    None => false,
                },
            }
        },
        _ => false,
    }
}

fn build_response_config(v: &JsonValue) -> (r: Result<ResponseConfig, ()>)
    ensures
        r is Ok <==> spec_valid_response(*v),
        match r {
            Ok(rc) => rc.wf() && spec_response_rel(*v, rc),
            Err(_) => true,
        },
{
    proof {
        reveal_strlit("status");
        reveal_strlit("headers");
        reveal_strlit("body");
        assert("status"@ =~= seq!['s', 't', 'a', 't', 'u', 's']);
        assert("headers"@ =~= seq!['h', 'e', 'a', 'd', 'e', 'r', 's']);
        assert("body"@ =~= seq!['b', 'o', 'd', 'y']);
    }
    match v {
        JsonValue::Obj(o) => {
            let status: u16 = match crate::json::obj_lookup_exec(o, "status") {
                Option::Some(sv) => match num_field(sv, 65535u64) {
                    Some(x) => x as u16,
                    None => {
                        return Err(());
                    },
                },
                Option::None => {
                    return Err(());
                },
            };
            let headers: Dict<String> = match crate::json::obj_lookup_exec(o, "headers") {
                Option::Some(JsonValue::Obj(h)) => match build_str_dict(h) {
                    Ok(d) => d,
                    Err(_) => {
                        return Err(());
                    },
                },
                _ => {
                    return Err(());
                },
            };
            let body: Option<JsonValue> = match opt_field(o, "body") {
                Option::None => Option::None,
                Option::Some(bv) => Option::Some(json_clone(bv)),
            };
            Ok(ResponseConfig { status, headers, body })
        },
        _ => Err(()),
    }
}

/// A valid condition: an object with a string `method`, optional request
/// criteria, a valid `response`, and an optional numeric `delay`.
pub open spec fn spec_valid_condition(v: JsonValue) -> bool {
    match v {
        JsonValue::Obj(o) => {
            &&& spec_str_field(o@, seq!['m', 'e', 't', 'h', 'o', 'd']) is Some
            &&& match spec_opt_field(o@, seq!['r', 'e', 'q', 'u', 'e', 's', 't']) {
                None => true,
                Some(rv) => spec_valid_request(rv),
            }
            &&& match obj_lookup(o@, seq!['r', 'e', 's', 'p', 'o', 'n', 's', 'e']) {
                Some(rv) => spec_valid_response(rv),
                None => false,
            }
            &&& match spec_opt_field(o@, seq!['d', 'e', 'l', 'a', 'y']) {
                None => true,
                Some(dv) => spec_num_field(dv, u64::MAX as int) is Some,
            }
        },
        _ => false,
    }
}

/// The condition a valid object denotes, field by field.
pub open spec fn spec_condition_rel(v: JsonValue, c: WhenCondition) -> bool {
    match v {
        JsonValue::Obj(o) => {
            &&& spec_str_field(o@, seq!['m', 'e', 't', 'h', 'o', 'd']) == Some(c.method@)
            &&& match spec_opt_field(o@, seq!['r', 'e', 'q', 'u', 'e', 's', 't']) {
                None => c.request is None,
                Some(rv) => match c.request {
                    Some(rc) => spec_request_rel(rv, rc),
                    None => false,
                },
            }
            &&& match obj_lookup(o@, seq!['r', 'e', 's', 'p', 'o', 'n', 's', 'e']) {
                Some(rv) => spec_response_rel(rv, c.response),
                None => false,
            }
            &&& match spec_opt_field(o@, seq!['d', 'e', 'l', 'a', 'y']) {
                None => c.delay == 0,
                Some(dv) => spec_num_field(dv, u64::MAX as int) == Some(c.delay as int),
            }
        },
        _ => false,
    }
}

fn build_condition(v: &JsonValue) -> (r: Result<WhenCondition, ()>)
    ensures
        r is Ok <==> spec_valid_condition(*v),
        match r {
            Ok(c) => c.wf() && spec_condition_rel(*v, c),
            Err(_) => true,
        },
{
    proof {
        reveal_strlit("method");
        reveal_strlit("request");
        reveal_strlit("response");
        reveal_strlit("delay");
        assert("method"@ =~= seq!['m', 'e', 't', 'h', 'o', 'd']);
        assert("request"@ =~= seq!['r', 'e', 'q', 'u', 'e', 's', 't']);
        assert("response"@ =~= seq!['r', 'e', 's', 'p', 'o', 'n', 's', 'e']);
        assert("delay"@ =~= seq!['d', 'e', 'l', 'a', 'y']);
    }
    match v {
        JsonValue::Obj(o) => {
            let method: String = match str_field(o, "method") {
                Some(s) => s.clone(),
                None => {
                    return Err(());
                },
            };
            let request: Option<RequestConfig> = match opt_field(o, "request") {
                Option::None => Option::None,
                Option::Some(rv) => match build_request_config(rv) {
                    Ok(rc) => Option::Some(rc),
                    Err(_) => {
                        return Err(());
                    },
                },
            };
            let response: ResponseConfig = match crate::json::obj_lookup_exec(o, "response") {
                Option::Some(rv) => match build_response_config(rv) {
                    Ok(rc) => rc,
                    Err(_) => {
                        return Err(());
                    },
                },
                Option::None => {
                    return Err(());
                },
            };
            let delay: u64 = match opt_field(o, "delay") {
                Option::None => 0,
                Option::Some(dv) => match num_field(dv, u64::MAX) {
                    Some(x) => x,
                    None => {
                        return Err(());
                    },
                },
            };
            Ok(WhenCondition { method, request, response, delay })
        },
        _ => Err(()),
    }
}

/// A valid endpoint: an object whose `when` member is an array of valid
/// conditions.
pub open spec fn spec_valid_endpoint(v: JsonValue) -> bool {
    match v {
        JsonValue::Obj(o) => match obj_lookup(o@, seq!['w', 'h', 'e', 'n']) {
            Some(JsonValue::Arr(a)) => forall|i: int|
                0 <= i < a@.len() ==> spec_valid_condition(#[trigger] a@[i]),
            _ => false,
        },
        _ => false,
    }
}

/// The endpoint a valid object denotes: its conditions in declaration
/// order; the lookup table is described by the endpoint's own invariant.
pub open spec fn spec_endpoint_rel(v: JsonValue, e: Endpoint) -> bool {
    match v {
        JsonValue::Obj(o) => match obj_lookup(o@, seq!['w', 'h', 'e', 'n']) {
            Some(JsonValue::Arr(a)) => e.conditions@.len() == a@.len() && forall|i: int|
                0 <= i < a@.len() ==> spec_condition_rel(#[trigger] a@[i], e.conditions@[i]),
            _ => false,
        },
        _ => false,
    }
}

#[verifier::loop_isolation(false)]
fn build_endpoint(v: &JsonValue) -> (r: Result<Endpoint, ()>)
    ensures
        r is Ok <==> spec_valid_endpoint(*v),
        match r {
            Ok(e) => e.wf() && spec_endpoint_rel(*v, e),
            Err(_) => true,
        },
{
    proof {
        reveal_strlit("when");
        assert("when"@ =~= seq!['w', 'h', 'e', 'n']);
    }
    match v {
        JsonValue::Obj(o) => {
            match crate::json::obj_lookup_exec(o, "when") {
                Option::Some(JsonValue::Arr(a)) => {
                    let n = a.len();
                    let mut conditions: Vec<WhenCondition> = Vec::new();
                    let mut i: usize = 0;
                    while i < n
                        invariant
                            0 <= i <= n,
                            n == a@.len(),
                            conditions@.len() == i,
                            forall|j: int| 0 <= j < i ==> spec_valid_condition(#[trigger] a@[j]),
                            forall|j: int|
                                0 <= j < i ==> (#[trigger] conditions@[j]).wf()
                                    && spec_condition_rel(a@[j], conditions@[j]),
                        decreases n - i,
                    {
                        match build_condition(&a[i]) {
                            Ok(c) => {
                                conditions.push(c);
                            },
                            Err(_) => {
                                proof {
                                    assert(!spec_valid_condition(a@[i as int]));
                                    assert(!spec_valid_endpoint(*v));
                                }
                                return Err(());
                            },
                        }
                        i = i + 1;
                    }
                    let mut e = Endpoint { conditions, condition_map: Vec::new() };
                    e.build_condition_map();
                    Ok(e)
                },
                _ => Err(()),
            }
        },
        _ => Err(()),
    }
}

/// A valid project configuration: an object with a string `description` and
/// an `endpoints` object of valid endpoints.
pub open spec fn spec_valid_config(v: JsonValue) -> bool {
    match v {
        JsonValue::Obj(o) => {
            &&& spec_str_field(o@, seq!['d', 'e', 's', 'c', 'r', 'i', 'p', 't', 'i', 'o', 'n'])
                is Some
            &&& match obj_lookup(o@, seq!['e', 'n', 'd', 'p', 'o', 'i', 'n', 't', 's']) {
                Some(JsonValue::Obj(eo)) => forall|i: int|
                    0 <= i < eo@.len() ==> spec_valid_endpoint((#[trigger] eo@[i]).1),
                _ => false,
            }
        },
        _ => false,
    }
}

/// The endpoint table a valid `endpoints` object denotes, later members
/// winning; each key's endpoint satisfies `spec_endpoint_rel` against the
/// member standing last under that key.
pub open spec fn spec_config_rel(v: JsonValue, c: ProjectConfig) -> bool {
    match v {
        JsonValue::Obj(o) => {
            &&& spec_str_field(o@, seq!['d', 'e', 's', 'c', 'r', 'i', 'p', 't', 'i', 'o', 'n'])
                == Some(c.description@)
            &&& match obj_lookup(o@, seq!['e', 'n', 'd', 'p', 'o', 'i', 'n', 't', 's']) {
                Some(JsonValue::Obj(eo)) => {
                    &&& forall|i: int|
                        0 <= i < eo@.len() ==> c.endpoints@.contains_key((#[trigger] eo@[i]).0@)
                    &&& forall|k: Seq<char>|
                        #[trigger] c.endpoints@.contains_key(k) ==> exists|i: int|
                            0 <= i < eo@.len() && (#[trigger] eo@[i]).0@ == k && spec_endpoint_rel(
                                eo@[i].1,
                                c.endpoints@[k],
                            )
                },
                _ => false,
            }
        },
        _ => false,
    }
}

/// Reads a project configuration out of a parsed JSON value.
#[verifier::loop_isolation(false)]
pub fn project_config_from_json(v: &JsonValue) -> (r: Result<ProjectConfig, ()>)
    ensures
        r is Ok <==> spec_valid_config(*v),
        match r {
            Ok(c) => c.wf() && spec_config_rel(*v, c),
            Err(_) => true,
        },
{
    proof {
        reveal_strlit("description");
        reveal_strlit("endpoints");
        assert("description"@ =~= seq!['d', 'e', 's', 'c', 'r', 'i', 'p', 't', 'i', 'o', 'n']);
        assert("endpoints"@ =~= seq!['e', 'n', 'd', 'p', 'o', 'i', 'n', 't', 's']);
    }
    match v {
        JsonValue::Obj(o) => {
            let description: String = match str_field(o, "description") {
                Some(s) => s.clone(),
                None => {
                    return Err(());
                },
            };
            match crate::json::obj_lookup_exec(o, "endpoints") {
                Option::Some(JsonValue::Obj(eo)) => {
                    let n = eo.len();
                    let mut endpoints: Dict<Endpoint> = Dict::new();
                    let mut i: usize = 0;
                    while i < n
                        invariant
                            0 <= i <= n,
                            n == eo@.len(),
                            endpoints.wf(),
                            forall|j: int| 0 <= j < i ==> spec_valid_endpoint((#[trigger] eo@[j]).1),
                            forall|j: int|
                                0 <= j < i ==> endpoints@.contains_key((#[trigger] eo@[j]).0@),
                            forall|k: Seq<char>|
                                #[trigger] endpoints@.contains_key(k) ==> (exists|j: int|
                                    0 <= j < i && (#[trigger] eo@[j]).0@ == k && spec_endpoint_rel(
                                        eo@[j].1,
                                        endpoints@[k],
                                    )) && endpoints@[k].wf(),
                        decreases n - i,
                    {
                        match build_endpoint(&eo[i].1) {
                            Ok(e) => {
                                let ghost pre = endpoints@;
                                endpoints.insert(eo[i].0.clone(), e);
                                proof {
                                    assert forall|k: Seq<char>| #[trigger] endpoints@.contains_key(
                                        k,
                                    ) implies (exists|j: int|
                                        0 <= j < i + 1 && (#[trigger] eo@[j]).0@ == k
                                            && spec_endpoint_rel(eo@[j].1, endpoints@[k]))
                                        && endpoints@[k].wf() by {
                                        if k == eo@[i as int].0@ {
                                            assert(eo@[i as int].0@ == k && spec_endpoint_rel(
                                                eo@[i as int].1,
                                                endpoints@[k],
                                            ));
                                        } else {
                                            assert(pre.contains_key(k));
                                            let j = choose|j: int|
                                                0 <= j < i && (#[trigger] eo@[j]).0@ == k
                                                    && spec_endpoint_rel(eo@[j].1, pre[k]);
                                            assert(eo@[j].0@ == k && spec_endpoint_rel(
                                                eo@[j].1,
                                                endpoints@[k],
                                            ));
                                        }
                                    }
                                }
                            },
                            Err(_) => {
                                return Err(());
                            },
                        }
                        i = i + 1;
                    }
                    let c = ProjectConfig { description, endpoints };
                    Ok(c)
                },
                _ => Err(()),
            }
        },
        _ => Err(()),
    }
}

/// Parses a project configuration from JSON text: the text must be
/// well-formed JSON of a valid configuration shape. The error carries the
/// JSON parser's message, or names the schema.
pub fn project_config_from_text(text: &str) -> (r: Result<ProjectConfig, String>)
    ensures
        r is Ok <==> (match crate::json::json_of(text@) {
            Some(v) => spec_valid_config(v),
            None => false,
        }),
        match r {
            Ok(c) => c.wf() && spec_config_rel(crate::json::json_of(text@)->0, c),
            Err(_) => true,
        },
{
    match crate::json::parse_json(text) {
        Ok(v) => match project_config_from_json(&v) {
            Ok(c) => Ok(c),
            Err(_) => Err(String::from_str("the JSON does not fit the configuration schema")),
        },
        Err(e) => Err(e),
    }
}

/// Binding the same keys in a different order builds the same matcher map:
/// inserts of distinct keys commute.
pub proof fn lemma_qdict_insert_commutes(
    m: Map<Seq<char>, QueryParamView>,
    k1: Seq<char>,
    v1: QueryParamView,
    k2: Seq<char>,
    v2: QueryParamView,
)
    requires
        k1 != k2,
    ensures
        m.insert(k1, v1).insert(k2, v2) == m.insert(k2, v2).insert(k1, v1),
{
    assert(m.insert(k1, v1).insert(k2, v2) =~= m.insert(k2, v2).insert(k1, v1));
}

/// Two endpoint keys whose query matchers hold the same entries — in
/// whatever insertion order they were given — and whose methods and bodies
/// agree compare equal.
pub proof fn lemma_endpoint_key_order_independent(a: EndpointKey, b: EndpointKey)
    requires
        a.method@ == b.method@,
        match (a.queries, b.queries) {
            (Some(qa), Some(qb)) => qa@ == qb@,
            (None, None) => true,
            _ => false,
        },
        match (a.body, b.body) {
            (Some(x), Some(y)) => json_equal(x, y),
            (None, None) => true,
            _ => false,
        },
    ensures
        key_equal(a@, b@),
{
}

/// Root configuration of one mock project.
pub struct ProjectConfig {
    pub description: String,
    pub endpoints: Dict<Endpoint>,
}

impl View for ProjectConfig {
    type V = ProjectConfig;

    open spec fn view(&self) -> ProjectConfig {
        *self
    }
}

impl ProjectConfig {
    pub open spec fn wf(&self) -> bool {
        &&& self.endpoints.wf()
        &&& forall|k: Seq<char>|
            self.endpoints@.contains_key(k) ==> (#[trigger] self.endpoints@[k]).wf()
    }
}

} // verus!
