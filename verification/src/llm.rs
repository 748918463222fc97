//! The composed-configuration feature's verified side: cleaning the text a
//! chat model returns, and validating it exactly like a hand-written
//! configuration. The network call itself lives outside the library.

use vstd::prelude::*;
use vstd::string::StrSliceExecFns;
use vstd::string::StringExecFns;

use crate::json::JsonValue;
use crate::json::json_of;
use crate::json::json_text;
use crate::json::parse_json;
use crate::json::to_json_string;
use crate::schema::spec_valid_config;
use crate::schema::project_config_from_json;
use crate::text::matches_at;
use crate::text::substr_at;
use crate::web_server::types::Response;

verus! {

/// `s` without the prefix `p`, when it starts with it.
pub open spec fn strip_prefix_if(s: Seq<char>, p: Seq<char>) -> Seq<char> {
    if s.len() >= p.len() && s.subrange(0, p.len() as int) == p {
        s.subrange(p.len() as int, s.len() as int)
    } else {
        s
    }
}

/// `s` without the suffix `p`, when it ends with it.
pub open spec fn strip_suffix_if(s: Seq<char>, p: Seq<char>) -> Seq<char> {
    if s.len() >= p.len() && s.subrange(s.len() - p.len(), s.len() as int) == p {
        s.subrange(0, s.len() - p.len())
    } else {
        s
    }
}

/// The model's reply without a surrounding code fence: backtick fences,
/// then a `json` tag, then one newline at each end, stripped in turn.
pub open spec fn spec_cleaned(s: Seq<char>) -> Seq<char> {
    strip_prefix_if(
        strip_suffix_if(
            strip_prefix_if(
                strip_suffix_if(strip_prefix_if(s, seq!['`', '`', '`']), seq!['`', '`', '`']),
                seq!['j', 's', 'o', 'n'],
            ),
            seq!['\n'],
        ),
        seq!['\n'],
    )
}

fn strip_step(s: &str, a: usize, b: usize, p: &str, front: bool) -> (r: (usize, usize))
    requires
        a <= b <= s@.len(),
        p@.len() >= 1,
    ensures
        a <= r.0 <= r.1 <= b,
        front ==> s@.subrange(r.0 as int, r.1 as int) == strip_prefix_if(
            s@.subrange(a as int, b as int),
            p@,
        ),
        !front ==> s@.subrange(r.0 as int, r.1 as int) == strip_suffix_if(
            s@.subrange(a as int, b as int),
            p@,
        ),
{
    let m = p.unicode_len();
    let ghost region = s@.subrange(a as int, b as int);
    if b - a >= m {
        if front {
            if matches_at(s, p, a) {
                proof {
                    assert(region.subrange(0, p@.len() as int) =~= s@.subrange(
                        a as int,
                        a + p@.len(),
                    ));
                    assert(s@.subrange(a + m, b as int) =~= strip_prefix_if(region, p@));
                }
                return (a + m, b);
            }
            proof {
                assert(region.subrange(0, p@.len() as int) =~= s@.subrange(a as int, a + p@.len()));
            }
        } else {
            if matches_at(s, p, b - m) {
                proof {
                    assert(region.subrange(region.len() - p@.len(), region.len() as int)
                        =~= s@.subrange(b - m, b as int));
                    assert(s@.subrange(a as int, b - m) =~= strip_suffix_if(region, p@));
                }
                return (a, b - m);
            }
            proof {
                assert(region.subrange(region.len() - p@.len(), region.len() as int)
                    =~= s@.subrange(b - m, b as int));
            }
        }
    }
    (a, b)
}

/// Strips a code fence the model may have wrapped the configuration in.
pub fn remove_quotes_if_exists(s: Result<String, String>) -> (r: Result<String, String>)
    ensures
        match (r, s) {
            (Ok(out), Ok(given)) => out@ == spec_cleaned(given@),
            (Err(eo), Err(ei)) => eo@ == ei@,
            _ => false,
        },
{
    match s {
        Err(e) => Err(e),
        Ok(text) => {
            let n = text.as_str().unicode_len();
            let mut a: usize = 0;
            let mut b: usize = n;
            proof {
                reveal_strlit("```");
                reveal_strlit("json");
                reveal_strlit("\n");
                assert("```"@ =~= seq!['`', '`', '`']);
                assert("json"@ =~= seq!['j', 's', 'o', 'n']);
                assert("\n"@ =~= seq!['\n']);
                assert(text@.subrange(0, n as int) =~= text@);
            }
            let r1 = strip_step(text.as_str(), a, b, "```", true);
            let r2 = strip_step(text.as_str(), r1.0, r1.1, "```", false);
            let r3 = strip_step(text.as_str(), r2.0, r2.1, "json", true);
            let r4 = strip_step(text.as_str(), r3.0, r3.1, "\n", false);
            let r5 = strip_step(text.as_str(), r4.0, r4.1, "\n", true);
            let out = text.as_str().substring_char(r5.0, r5.1);
            Ok(String::from_str(out))
        },
    }
}

/// What the composed-configuration endpoint answers for a compose result,
/// and the text to store when the configuration is sound.
pub fn build_config_response(compose_result: Result<String, String>) -> (r: (
    Response,
    Option<String>,
))
    ensures
        r.0.wf(),
        match compose_result {
            Err(_) => r.0.status == 400 && r.1 is None,
            Ok(text) => {
                if (match json_of(text@) {
                    Some(v) => spec_valid_config(v),
                    None => false,
                }) {
                    &&& r.0.status == 200
                    &&& r.0.body@ == json_text(json_of(text@)->0)
                    &&& r.1 matches Some(t) && t@ == text@
                } else {
                    r.0.status == 400 && r.1 is None
                }
            },
        },
{
    match compose_result {
        Err(_) => {
            let resp = crate::handlers::json_error_response(
                400,
                String::from_str("Invalid configuration received from LLM."),
            );
            (resp, Option::None)
        },
        Ok(text) => {
            match parse_json(text.as_str()) {
                Ok(v) => {
                    match project_config_from_json(&v) {
                        Ok(_) => {
                            let body = to_json_string(&v);
                            let resp = Response {
                                status: 200,
                                body,
                                headers: crate::dict::Dict::new(),
                            };
                            (resp, Option::Some(text))
                        },
                        Err(_) => {
                            let resp = crate::handlers::json_error_response(
                                400,
                                String::from_str(
                                    "Configuration json received from LLM is not compatible with the schema.",
                                ),
                            );
                            (resp, Option::None)
                        },
                    }
                },
                Err(_) => {
                    let resp = crate::handlers::json_error_response(
                        400,
                        String::from_str(
                            "Configuration json received from LLM is not compatible with the schema.",
                        ),
                    );
                    (resp, Option::None)
                },
            }
        },
    }
}

} // verus!
