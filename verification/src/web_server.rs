pub mod helpers;
pub mod types;

use vstd::prelude::*;
use vstd::string::StrSliceExecFns;
use vstd::string::StringExecFns;

use crate::cache::Cache;
use crate::dict::Dict;
use crate::store::MemStore;
use crate::web_server::helpers::spec_stringify_nested;
use crate::web_server::helpers::stringify_nested;
use crate::web_server::types::Method;
use crate::web_server::types::Nested;
use crate::web_server::types::Request;
use crate::web_server::types::RequestOption;
use crate::web_server::types::RequestPathPattern;
use crate::web_server::types::Response;
use crate::web_server::types::content_type_key;
use crate::web_server::types::mime_json;
use crate::web_server::types::mime_text_plain;

verus! {

impl Response {
    /// A JSON response: the body is the `Nested` written out, and the
    /// content type is set over whatever headers are given.
    pub fn json(status: u16, body: Nested, headers: Option<Dict<String>>) -> (r: Response)
        requires
            match headers {
                Some(h) => h.wf(),
                None => true,
            },
        ensures
            r.wf(),
            r.status == status,
            r.body@ == spec_stringify_nested(body),
            r.headers@ == (match headers {
                Some(h) => h@,
                None => Map::<Seq<char>, Seq<char>>::empty(),
            }).insert(content_type_key(), mime_json()),
    {
        proof {
            reveal_strlit("Content-Type");
            reveal_strlit("application/json");
            assert("Content-Type"@ =~= content_type_key());
            assert("application/json"@ =~= mime_json());
        }
        let mut h: Dict<String> = match headers {
            Option::Some(h) => h,
            Option::None => Dict::new(),
        };
        h.insert(String::from_str("Content-Type"), String::from_str("application/json"));
        Response { status, body: stringify_nested(&body), headers: h }
    }

    /// A 200 response; the content type falls back to plain text when the
    /// given headers name none.
    pub fn ok(body: String, headers: Option<Dict<String>>) -> (r: Response)
        requires
            match headers {
                Some(h) => h.wf(),
                None => true,
            },
        ensures
            r.wf(),
            r.status == 200,
            r.body@ == body@,
            ({
                let h0 = match headers {
                    Some(h) => h@,
                    None => Map::<Seq<char>, Seq<char>>::empty(),
                };
                r.headers@ == if h0.contains_key(content_type_key()) {
                    h0
                } else {
                    h0.insert(content_type_key(), mime_text_plain())
                }
            }),
    {
        proof {
            reveal_strlit("Content-Type");
            reveal_strlit("text/plain");
            assert("Content-Type"@ =~= content_type_key());
            assert("text/plain"@ =~= mime_text_plain());
        }
        let mut h: Dict<String> = match headers {
            Option::Some(h) => h,
            Option::None => Dict::new(),
        };
        let has_ct = match h.get("Content-Type") {
            Option::Some(_) => true,
            Option::None => false,
        };
        if !has_ct {
            h.insert(String::from_str("Content-Type"), String::from_str("text/plain"));
        }
        Response { status: 200, body, headers: h }
    }
}

/// Which of the server's handlers a route runs.
#[derive(PartialEq, Eq, Structural, Clone, Copy, Debug)]
pub enum HandlerId {
    GetConfig,
    SaveConfig,
    MockRequest,
}

/// One registered route.
pub struct Listener {
    pub path: RequestPathPattern,
    pub method: Method,
    pub handler: HandlerId,
}

/// Server settings; the concurrency bound is enforced by the runtime that
/// drives connections, outside this library.
pub struct ServerConf {
    pub max_connections: usize,
}

/// The first registered route that accepts the request, scanning in
/// registration order from `i`.
pub open spec fn spec_route_at(
    listeners: Seq<Listener>,
    m: Method,
    raw: Seq<char>,
    i: int,
) -> Option<int>
    decreases listeners.len() - i,
{
    if i < 0 || i >= listeners.len() {
        None
    } else if crate::web_server::helpers::spec_route_matches(listeners[i].path, raw)
        && listeners[i].method == m {
        Some(i)
    } else {
        spec_route_at(listeners, m, raw, i + 1)
    }
}

/// How the router enriches a request that matched a pattern: path cut at
/// the query string, and queries, parameters and captures as the pattern
/// kind extracts them.
pub open spec fn spec_enriched(request: Request, pat: RequestPathPattern, enriched: Request) -> bool {
    let raw = request.path@;
    &&& enriched.wf()
    &&& enriched.method == request.method
    &&& enriched.version@ == request.version@
    &&& enriched.headers@ == request.headers@
    &&& enriched.body@ == request.body@
    &&& enriched.path@ == crate::web_server::helpers::spec_path_of(raw)
    &&& match pat {
        RequestPathPattern::Exact(p) => enriched.queries@ == Map::<Seq<char>, Seq<char>>::empty()
            && enriched.params@ == crate::web_server::helpers::spec_exact_params(
            p@,
            crate::web_server::helpers::spec_path_of(raw),
        ) && enriched.matches@.len() == 0,
        RequestPathPattern::Match(p) => enriched.queries@
            == crate::web_server::helpers::spec_queries_map(
            crate::web_server::helpers::spec_raw_query(raw),
        ) && enriched.params@ == Map::<Seq<char>, Seq<char>>::empty() && Some(
            enriched.matches@.map_values(|x: String| x@),
        ) == crate::web_server::helpers::regex_captures_of(p@, raw),
    }
}

/// What one handler does with an enriched request, over the store and the
/// cache before and after.
pub open spec fn spec_handler_outcome(
    h: HandlerId,
    store_old: Map<Seq<char>, Seq<char>>,
    store_new: Map<Seq<char>, Seq<char>>,
    cache_old: Map<Seq<char>, crate::schema::ProjectConfig>,
    cache_new: Map<Seq<char>, crate::schema::ProjectConfig>,
    enriched: Request,
    r: Response,
    delay: u64,
) -> bool {
    match h {
        HandlerId::GetConfig => {
            &&& store_new == store_old
            &&& cache_new == cache_old
            &&& crate::handlers::spec_get_config_outcome(store_old, enriched, r)
            &&& delay == 0
        },
        HandlerId::SaveConfig => {
            &&& crate::handlers::spec_save_config_outcome(
                store_old,
                store_new,
                cache_old,
                cache_new,
                enriched,
                r,
            )
            &&& delay == 0
        },
        HandlerId::MockRequest => {
            let ms = enriched.matches@;
            let content: Option<Seq<char>> = if ms.len() >= 2 && store_old.contains_key(ms[0]@) {
                Some(store_old[ms[0]@])
            } else {
                None
            };
            &&& store_new == store_old
            &&& crate::handlers::spec_mock_request_outcome(
                cache_old,
                cache_new,
                content,
                enriched,
                r,
                delay,
            )
        },
    }
}

/// What serving one request does: the first matching route's handler runs
/// on the enriched request, or a 404 comes back and nothing changes.
pub open spec fn spec_handle(
    listeners: Seq<Listener>,
    store_old: Map<Seq<char>, Seq<char>>,
    store_new: Map<Seq<char>, Seq<char>>,
    cache_old: Map<Seq<char>, crate::schema::ProjectConfig>,
    cache_new: Map<Seq<char>, crate::schema::ProjectConfig>,
    request: Request,
    r: Response,
) -> bool {
    match spec_route_at(listeners, request.method, request.path@, 0) {
        None => {
            &&& store_new == store_old
            &&& cache_new == cache_old
            &&& r.status == 404
            &&& r.body@ == crate::handlers::spec_json_error_body(
                crate::handlers::not_found_text(),
            )
            &&& r.headers@ == Map::<Seq<char>, Seq<char>>::empty().insert(
                content_type_key(),
                mime_json(),
            )
        },
        Some(i) => exists|enriched: Request, delay: u64|
            #![auto]
            spec_enriched(request, listeners[i].path, enriched) && spec_handler_outcome(
                listeners[i].handler,
                store_old,
                store_new,
                cache_old,
                cache_new,
                enriched,
                r,
                delay,
            ),
    }
}

/// Runs requests against the registered routes, with the store and the
/// cache the handlers work on.
pub struct ConnectionHandler {
    pub listeners: Vec<Listener>,
    pub cache: Cache,
    pub store: MemStore,
}

impl ConnectionHandler {
    pub open spec fn wf(&self) -> bool {
        &&& self.cache.wf()
        &&& self.store.wf()
    }

    pub fn new() -> (r: ConnectionHandler)
        ensures
            r.wf(),
            r.listeners@.len() == 0,
            r.cache@ == Map::<Seq<char>, crate::schema::ProjectConfig>::empty(),
            r.store@ == Map::<Seq<char>, Seq<char>>::empty(),
    {
        ConnectionHandler { listeners: Vec::new(), cache: Cache::new(), store: MemStore::new() }
    }

    /// Serves one request and also hands back the matched rule's delay, for
    /// the caller to sleep before writing the response out.
    #[verifier::loop_isolation(false)]
    pub fn serve_request(&mut self, request: &Request) -> (r: (Response, u64))
        requires
            old(self).wf(),
            request.wf(),
        ensures
            final(self).wf(),
            final(self).listeners == old(self).listeners,
            r.0.wf(),
            spec_handle(
                old(self).listeners@,
                old(self).store@,
                final(self).store@,
                old(self).cache@,
                final(self).cache@,
                *request,
                r.0,
            ),
            match spec_route_at(old(self).listeners@, request.method, request.path@, 0) {
                None => r.1 == 0,
                Some(i) => exists|enriched: Request|
                    #![auto]
                    spec_enriched(*request, old(self).listeners@[i].path, enriched)
                        && spec_handler_outcome(
                        old(self).listeners@[i].handler,
                        old(self).store@,
                        final(self).store@,
                        old(self).cache@,
                        final(self).cache@,
                        enriched,
                        r.0,
                        r.1,
                    ),
            },
    {
        let n = self.listeners.len();
        let mut idx: usize = 0;
        while idx < n
            invariant
                0 <= idx <= n,
                n == self.listeners@.len(),
                self == old(self),
                spec_route_at(self.listeners@, request.method, request.path@, 0) == spec_route_at(
                    self.listeners@,
                    request.method,
                    request.path@,
                    idx as int,
                ),
            decreases n - idx,
        {
            let matched = crate::web_server::helpers::parse_request_path(
                &self.listeners[idx].path,
                request.path.as_str(),
            );
            match matched {
                Option::Some(rp) => {
                    if self.listeners[idx].method == request.method {
                        let handler = self.listeners[idx].handler;
                        let enriched = Request {
                            method: request.method,
                            path: rp.path,
                            version: request.version.clone(),
                            headers: request.headers.duplicate(),
                            body: request.body.clone(),
                            queries: rp.queries,
                            params: rp.params,
                            matches: rp.matches,
                        };
                        proof {
                            assert(spec_route_at(
                                self.listeners@,
                                request.method,
                                request.path@,
                                idx as int,
                            ) == Some(idx as int));
                            assert(spec_enriched(
                                *request,
                                self.listeners@[idx as int].path,
                                enriched,
                            ));
                        }
                        match handler {
                            HandlerId::GetConfig => {
                                let resp = crate::handlers::get_config(&self.store, &enriched);
                                proof {
                                    assert(spec_handler_outcome(
                                        handler,
                                        old(self).store@,
                                        self.store@,
                                        old(self).cache@,
                                        self.cache@,
                                        enriched,
                                        resp,
                                        0u64,
                                    ));
                                }
                                return (resp, 0);
                            },
                            HandlerId::SaveConfig => {
                                let resp = crate::handlers::save_config(
                                    &mut self.cache,
                                    &mut self.store,
                                    &enriched,
                                );
                                proof {
                                    assert(spec_handler_outcome(
                                        handler,
                                        old(self).store@,
                                        self.store@,
                                        old(self).cache@,
                                        self.cache@,
                                        enriched,
                                        resp,
                                        0u64,
                                    ));
                                }
                                return (resp, 0);
                            },
                            HandlerId::MockRequest => {
                                let content: Option<&String> = if enriched.matches.len() >= 2 {
                                    self.store.read_raw(enriched.matches[0].as_str())
                                } else {
                                    Option::None
                                };
                                let content_str: Option<&str> = match content {
                                    Option::Some(s) => Option::Some(s.as_str()),
                                    Option::None => Option::None,
                                };
                                proof {
                                    assert(crate::handlers::opt_str_view(content_str) == (
                                    if enriched.matches@.len() >= 2 && self.store@.contains_key(
                                        enriched.matches@[0]@,
                                    ) {
                                        Some(self.store@[enriched.matches@[0]@])
                                    } else {
                                        Option::<Seq<char>>::None
                                    }));
                                }
                                let out = crate::handlers::mock_request(
                                    &mut self.cache,
                                    content_str,
                                    &enriched,
                                );
                                proof {
                                    assert(spec_handler_outcome(
                                        handler,
                                        old(self).store@,
                                        self.store@,
                                        old(self).cache@,
                                        self.cache@,
                                        enriched,
                                        out.0,
                                        out.1,
                                    ));
                                }
                                return out;
                            },
                        }
                    }
                },
                Option::None => {},
            }
            idx = idx + 1;
        }
        proof {
            reveal_strlit("Not Found");
            assert("Not Found"@ =~= crate::handlers::not_found_text());
        }
        let resp = crate::handlers::json_error_response(404, String::from_str("Not Found"));
        (resp, 0)
    }

    /// Serves one request for the wire: status, body, the serialized header
    /// block, and the rule's delay.
    pub fn dispatch_request(&mut self, request: Request) -> (r: (u16, String, String, u64))
        requires
            old(self).wf(),
            request.wf(),
        ensures
            final(self).wf(),
            final(self).listeners == old(self).listeners,
            exists|resp: Response|
                #![auto]
                spec_handle(
                    old(self).listeners@,
                    old(self).store@,
                    final(self).store@,
                    old(self).cache@,
                    final(self).cache@,
                    request,
                    resp,
                ) && r.0 == resp.status && r.1@ == resp.body@ && r.2@
                    == crate::web_server::helpers::spec_header_lines(resp.headers.spec_entries()),
    {
        let (resp, delay) = self.serve_request(&request);
        let header_block = crate::web_server::helpers::serialize_headers(&resp.headers);
        (resp.status, resp.body, header_block, delay)
    }
}

/// The server: registered routes plus the store and cache they serve from.
pub struct Server {
    pub connection_handler: ConnectionHandler,
}

impl Server {
    pub open spec fn wf(&self) -> bool {
        self.connection_handler.wf()
    }

    pub fn new(conf: ServerConf) -> (r: Server)
        ensures
            r.wf(),
            r.connection_handler.listeners@.len() == 0,
            r.connection_handler.cache@ == Map::<Seq<char>, crate::schema::ProjectConfig>::empty(),
            r.connection_handler.store@ == Map::<Seq<char>, Seq<char>>::empty(),
    {
        let _ = conf;
        Server { connection_handler: ConnectionHandler::new() }
    }

    /// Registers a route; later routes are tried after earlier ones.
    pub fn request(&mut self, request_handler: HandlerId, option: RequestOption)
        ensures
            final(self).connection_handler.listeners@ == old(
                self,
            ).connection_handler.listeners@.push(
                Listener { path: option.path, method: option.method, handler: request_handler },
            ),
            final(self).connection_handler.cache == old(self).connection_handler.cache,
            final(self).connection_handler.store == old(self).connection_handler.store,
    {
        let RequestOption { method, path } = option;
        self.connection_handler.listeners.push(
            Listener { path, method, handler: request_handler },
        );
    }

    /// Registers a GET route with a literal path pattern.
    pub fn get(&mut self, path: &str, request_handler: HandlerId)
        ensures
            final(self).connection_handler.listeners@.len() == old(
                self,
            ).connection_handler.listeners@.len() + 1,
            final(self).connection_handler.listeners@.drop_last() == old(
                self,
            ).connection_handler.listeners@,
            final(self).connection_handler.listeners@.last().method == Method::Get,
            final(self).connection_handler.listeners@.last().handler == request_handler,
            final(self).connection_handler.listeners@.last().path matches RequestPathPattern::Exact(
                p,
            ) && p@ == path@,
            final(self).connection_handler.cache == old(self).connection_handler.cache,
            final(self).connection_handler.store == old(self).connection_handler.store,
    {
        self.request(
            request_handler,
            RequestOption {
                path: RequestPathPattern::Exact(String::from_str(path)),
                method: Method::Get,
            },
        );
    }

    pub fn post(&mut self, path: &str, request_handler: HandlerId)
        ensures
            final(self).connection_handler.listeners@.len() == old(
                self,
            ).connection_handler.listeners@.len() + 1,
            final(self).connection_handler.listeners@.drop_last() == old(
                self,
            ).connection_handler.listeners@,
            final(self).connection_handler.listeners@.last().method == Method::Post,
            final(self).connection_handler.listeners@.last().handler == request_handler,
            final(self).connection_handler.listeners@.last().path matches RequestPathPattern::Exact(
                p,
            ) && p@ == path@,
            final(self).connection_handler.cache == old(self).connection_handler.cache,
            final(self).connection_handler.store == old(self).connection_handler.store,
    {
        self.request(
            request_handler,
            RequestOption {
                path: RequestPathPattern::Exact(String::from_str(path)),
                method: Method::Post,
            },
        );
    }

    pub fn put(&mut self, path: &str, request_handler: HandlerId)
        ensures
            final(self).connection_handler.listeners@.len() == old(
                self,
            ).connection_handler.listeners@.len() + 1,
            final(self).connection_handler.listeners@.drop_last() == old(
                self,
            ).connection_handler.listeners@,
            final(self).connection_handler.listeners@.last().method == Method::Put,
            final(self).connection_handler.listeners@.last().handler == request_handler,
            final(self).connection_handler.listeners@.last().path matches RequestPathPattern::Exact(
                p,
            ) && p@ == path@,
            final(self).connection_handler.cache == old(self).connection_handler.cache,
            final(self).connection_handler.store == old(self).connection_handler.store,
    {
        self.request(
            request_handler,
            RequestOption {
                path: RequestPathPattern::Exact(String::from_str(path)),
                method: Method::Put,
            },
        );
    }

    /// Serves one request against the registered routes.
    pub fn handle_request(&mut self, request: &Request) -> (r: Response)
        requires
            old(self).wf(),
            request.wf(),
        ensures
            final(self).wf(),
            final(self).connection_handler.listeners == old(self).connection_handler.listeners,
            r.wf(),
            spec_handle(
                old(self).connection_handler.listeners@,
                old(self).connection_handler.store@,
                final(self).connection_handler.store@,
                old(self).connection_handler.cache@,
                final(self).connection_handler.cache@,
                *request,
                r,
            ),
    {
        let (resp, _delay) = self.connection_handler.serve_request(request);
        resp
    }

    /// Serves a request assembled from parts, for exercising the server
    /// without a connection.
    pub fn test_request(
        &mut self,
        method: Method,
        path: &str,
        headers: Option<Dict<String>>,
        body: Option<String>,
    ) -> (r: Response)
        requires
            old(self).wf(),
            match headers {
                Some(h) => h.wf(),
                None => true,
            },
        ensures
            final(self).wf(),
            final(self).connection_handler.listeners == old(self).connection_handler.listeners,
            r.wf(),
            exists|req: Request|
                #![auto]
                req.wf() && req.method == method && req.path@ == path@ && req.headers@ == (
                match headers {
                    Some(h) => h@,
                    None => Map::<Seq<char>, Seq<char>>::empty(),
                }) && req.body@ == (match body {
                    Some(b) => b@,
                    None => Seq::<char>::empty(),
                }) && req.queries@ == Map::<Seq<char>, Seq<char>>::empty() && req.params@ == Map::<
                    Seq<char>,
                    Seq<char>,
                >::empty() && req.matches@.len() == 0 && spec_handle(
                    old(self).connection_handler.listeners@,
                    old(self).connection_handler.store@,
                    final(self).connection_handler.store@,
                    old(self).connection_handler.cache@,
                    final(self).connection_handler.cache@,
                    req,
                    r,
                ),
    {
        proof {
            reveal_strlit("1.1");
            reveal_strlit("");
            assert(""@ =~= Seq::<char>::empty());
        }
        let hd: Dict<String> = match headers {
            Option::Some(h) => h,
            Option::None => Dict::new(),
        };
        let bd: String = match body {
            Option::Some(b) => b,
            Option::None => String::from_str(""),
        };
        proof {
            assert(hd@ == (match headers {
                Some(h) => h@,
                None => Map::<Seq<char>, Seq<char>>::empty(),
            }));
            assert(bd@ == (match body {
                Some(b) => b@,
                None => Seq::<char>::empty(),
            }));
        }
        let request = Request {
            method,
            path: String::from_str(path),
            headers: hd,
            body: bd,
            version: String::from_str("1.1"),
            queries: Dict::new(),
            params: Dict::new(),
            matches: Vec::new(),
        };
        let r = self.handle_request(&request);
        proof {
            assert(request.wf());
        }
        r
    }
}

} // verus!
