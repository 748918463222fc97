//! The project configuration cache: project name to parsed, lookup-ready
//! configuration. A miss parses the raw text handed in by the caller and
//! fills the cache; a successful write of a project's configuration
//! invalidates its entry, so the cache never serves one older than the last
//! successful write.

use vstd::prelude::*;
use vstd::string::StrSliceExecFns;
use vstd::string::StringExecFns;

use crate::dict::Dict;
use crate::json::json_of;
use crate::schema::ProjectConfig;
use crate::schema::spec_config_rel;
use crate::schema::spec_valid_config;
use crate::schema::project_config_from_text;
use crate::text::substr_at;

verus! {

/// The parsed text of a project file is a valid configuration.
pub open spec fn spec_content_valid(text: Seq<char>) -> bool {
    match json_of(text) {
        Some(v) => spec_valid_config(v),
        None => false,
    }
}

/// The error text announcing a missing project.
pub open spec fn missing_project_text() -> Seq<char> {
    seq![
        'P',
        'r',
        'o',
        'j',
        'e',
        'c',
        't',
        ' ',
        'd',
        'o',
        'e',
        's',
        ' ',
        'n',
        'o',
        't',
        ' ',
        'e',
        'x',
        'i',
        's',
        't',
        '.',
    ]
}

/// The error prefix announcing an unreadable configuration.
pub open spec fn invalid_config_text() -> Seq<char> {
    seq![
        'I',
        'n',
        'v',
        'a',
        'l',
        'i',
        'd',
        ' ',
        'p',
        'r',
        'o',
        'j',
        'e',
        'c',
        't',
        ' ',
        'c',
        'o',
        'n',
        'f',
        'i',
        'g',
        'u',
        'r',
        'a',
        't',
        'i',
        'o',
        'n',
        ' ',
        'f',
        'o',
        'r',
        'm',
        'a',
        't',
    ]
}

/// A cache of parsed project configurations.
pub struct Cache {
    entries: Dict<ProjectConfig>,
}

impl View for Cache {
    type V = Map<Seq<char>, ProjectConfig>;

    closed spec fn view(&self) -> Map<Seq<char>, ProjectConfig> {
        self.entries@
    }
}

impl Cache {
    pub closed spec fn wf(&self) -> bool {
        &&& self.entries.wf()
        &&& forall|k: Seq<char>| self@.contains_key(k) ==> (#[trigger] self@[k]).wf()
    }

    pub fn new() -> (r: Cache)
        ensures
            r.wf(),
            r@ == Map::<Seq<char>, ProjectConfig>::empty(),
    {
        Cache { entries: Dict::new() }
    }

    /// The cached configuration of a project, if one is held.
    pub fn get_cached_config(&self, project_name: &str) -> (r: Option<&ProjectConfig>)
        requires
            self.wf(),
        ensures
            match r {
                Some(c) => self@.contains_key(project_name@) && *c == self@[project_name@]
                    && c.wf(),
                None => !self@.contains_key(project_name@),
            },
    {
        self.entries.get(project_name)
    }

    /// Puts a parsed configuration in the cache.
    pub fn cache_config(&mut self, project_name: String, config: ProjectConfig)
        requires
            old(self).wf(),
            config.wf(),
        ensures
            final(self).wf(),
            final(self)@ == old(self)@.insert(project_name@, config),
    {
        self.entries.insert(project_name, config);
        proof {
            assert forall|k: Seq<char>| self@.contains_key(k) implies (#[trigger] self@[k]).wf() by {
                if k != project_name@ {
                    assert(old(self)@.contains_key(k));
                }
            }
        }
    }

    /// Drops a project's entry; the next use reloads it.
    pub fn invalidate_cache(&mut self, project_name: &str)
        requires
            old(self).wf(),
        ensures
            final(self).wf(),
            final(self)@ == old(self)@.remove(project_name@),
    {
        self.entries.remove(project_name);
        proof {
            assert forall|k: Seq<char>| self@.contains_key(k) implies (#[trigger] self@[k]).wf() by {
                assert(old(self)@.contains_key(k));
            }
        }
    }

    /// Parses the raw text the file store holds for a project — `None` when
    /// the project has no file — and fills the cache on success. On any
    /// failure the cache is left as it was.
    pub fn load_file_to_cache(&mut self, project_name: &str, content: Option<&str>) -> (r: Result<
        (),
        String,
    >)
        requires
            old(self).wf(),
        ensures
            final(self).wf(),
            r is Ok <==> (match content {
                Some(text) => spec_content_valid(text@),
                None => false,
            }),
            match r {
                Ok(_) => {
                    &&& final(self)@.contains_key(project_name@)
                    &&& spec_config_rel(
                        json_of(content->0@)->0,
                        final(self)@[project_name@],
                    )
                    &&& final(self)@ == old(self)@.insert(
                        project_name@,
                        final(self)@[project_name@],
                    )
                },
                Err(e) => {
                    &&& final(self)@ == old(self)@
                    &&& (content is None ==> e@ == missing_project_text())
                    &&& (content is Some ==> substr_at(e@, invalid_config_text(), 0))
                },
            },
    {
        proof {
            reveal_strlit("Project does not exist.");
            reveal_strlit("Invalid project configuration format: ");
            assert("Project does not exist."@ =~= missing_project_text());
            assert("Invalid project configuration format: "@.subrange(
                0,
                invalid_config_text().len() as int,
            ) =~= invalid_config_text());
        }
        match content {
            Option::None => Err(String::from_str("Project does not exist.")),
            Option::Some(text) => match project_config_from_text(text) {
                Ok(config) => {
                    self.cache_config(String::from_str(project_name), config);
                    proof {
                        assert(self@[project_name@] == config);
                    }
                    Ok(())
                },
                Err(e) => {
                    let mut msg = String::from_str("Invalid project configuration format: ");
                    msg.append(e.as_str());
                    proof {
                        assert(msg@.subrange(0, invalid_config_text().len() as int)
                            =~= invalid_config_text());
                    }
                    Err(msg)
                },
            },
        }
    }

    /// Returns with the project present in the cache: already held, or
    /// loaded from the raw text handed in. The error is the load error.
    pub fn get_or_else_load_cached_config(
        &mut self,
        project_name: &str,
        content: Option<&str>,
    ) -> (r: Result<(), String>)
        requires
            old(self).wf(),
        ensures
            final(self).wf(),
            old(self)@.contains_key(project_name@) ==> r is Ok && final(self)@ == old(self)@,
            !old(self)@.contains_key(project_name@) ==> {
                &&& (r is Ok <==> (match content {
                    Some(text) => spec_content_valid(text@),
                    None => false,
                }))
                &&& match r {
                    Ok(_) => {
                        &&& final(self)@.contains_key(project_name@)
                        &&& spec_config_rel(
                            json_of(content->0@)->0,
                            final(self)@[project_name@],
                        )
                        &&& final(self)@ == old(self)@.insert(
                            project_name@,
                            final(self)@[project_name@],
                        )
                    },
                    Err(e) => {
                        &&& final(self)@ == old(self)@
                        &&& (content is None ==> e@ == missing_project_text())
                        &&& (content is Some ==> substr_at(e@, invalid_config_text(), 0))
                    },
                }
            },
    {
        let hit = match self.get_cached_config(project_name) {
            Option::Some(_) => true,
            Option::None => false,
        };
        if hit {
            Ok(())
        } else {
            self.load_file_to_cache(project_name, content)
        }
    }
}

} // verus!
