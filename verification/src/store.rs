//! The file-store collaborator, modeled in memory: one raw JSON text per
//! project name. The server core reads and writes configurations through
//! this store; a deployment that keeps them on disk supplies the same three
//! operations around the library.

use vstd::prelude::*;

use crate::dict::Dict;

verus! {

/// An in-memory project file store.
pub struct MemStore {
    files: Dict<String>,
}

impl View for MemStore {
    type V = Map<Seq<char>, Seq<char>>;

    closed spec fn view(&self) -> Map<Seq<char>, Seq<char>> {
        self.files@
    }
}

impl MemStore {
    pub closed spec fn wf(&self) -> bool {
        self.files.wf()
    }

    pub fn new() -> (r: MemStore)
        ensures
            r.wf(),
            r@ == Map::<Seq<char>, Seq<char>>::empty(),
    {
        MemStore { files: Dict::new() }
    }

    /// Whether a project has a stored configuration.
    pub fn has_project(&self, project_name: &str) -> (r: bool)
        requires
            self.wf(),
        ensures
            r == self@.contains_key(project_name@),
    {
        match self.files.get(project_name) {
            Option::Some(_) => true,
            Option::None => false,
        }
    }

    /// The raw configuration text of a project.
    pub fn read_raw(&self, project_name: &str) -> (r: Option<&String>)
        requires
            self.wf(),
        ensures
            match r {
                Some(s) => self@.contains_key(project_name@) && s@ == self@[project_name@],
                None => !self@.contains_key(project_name@),
            },
    {
        self.files.get(project_name)
    }

    /// Stores a project's raw configuration text.
    pub fn write_raw(&mut self, project_name: String, content: String)
        requires
            old(self).wf(),
        ensures
            final(self).wf(),
            final(self)@ == old(self)@.insert(project_name@, content@),
    {
        self.files.insert(project_name, content);
    }
}

} // verus!
