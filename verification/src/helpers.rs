//! Where a project's configuration file lives under the database root.

use vstd::prelude::*;
use vstd::string::StrSliceExecFns;
use vstd::string::StringExecFns;

use crate::web_server::types::Request;

verus! {

pub open spec fn projects_dir_text() -> Seq<char> {
    seq!['/', 'p', 'r', 'o', 'j', 'e', 'c', 't', 's', '/']
}

pub open spec fn json_ext_text() -> Seq<char> {
    seq!['.', 'j', 's', 'o', 'n']
}

/// Returns the path to a project's config file under the database root.
pub fn get_project_config_file_path(database_root: &str, project_name: &str) -> (r: String)
    ensures
        r@ == database_root@.add(projects_dir_text()).add(project_name@).add(json_ext_text()),
{
    proof {
        reveal_strlit("/projects/");
        reveal_strlit(".json");
        assert("/projects/"@ =~= projects_dir_text());
        assert(".json"@ =~= json_ext_text());
    }
    let mut r = String::from_str(database_root);
    r.append("/projects/");
    r.append(project_name);
    r.append(".json");
    r
}

/// Returns the path to a project's config file from a request's `name`
/// parameter; `None` when the route bound no name.
pub fn config_file_path_from_request(database_root: &str, request: &Request) -> (r: Option<String>)
    requires
        request.wf(),
    ensures
        match r {
            Some(p) => request.params@.contains_key(crate::handlers::name_key()) && p@
                == database_root@.add(projects_dir_text()).add(
                request.params@[crate::handlers::name_key()],
            ).add(json_ext_text()),
            None => !request.params@.contains_key(crate::handlers::name_key()),
        },
{
    proof {
        reveal_strlit("name");
        assert("name"@ =~= crate::handlers::name_key());
    }
    match request.params.get("name") {
        Option::Some(name) => Option::Some(
            get_project_config_file_path(database_root, name.as_str()),
        ),
        Option::None => Option::None,
    }
}

} // verus!
