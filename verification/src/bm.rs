use vstd::prelude::*;
use vstd::string::*;

verus! {

/// The bookmark module: the names it is called by and the commands it knows.
#[derive(Debug)]
pub struct BMModule {
    path: Option<String>,
}

/// The name of the bookmark module.
pub open spec fn module_name() -> Seq<char> {
    "bookmark"@
}

/// The names by which the module is called, in order.
pub open spec fn module_callnames() -> Seq<Seq<char>> {
    seq!["bm"@, "bookmark"@]
}

/// The names of the module's commands, in order.
pub open spec fn module_commands() -> Seq<Seq<char>> {
    seq!["add"@, "list"@, "remove"@]
}

/// The text of each string of a sequence.
pub open spec fn texts(v: Seq<String>) -> Seq<Seq<char>> {
    Seq::new(v.len(), |i: int| v[i]@)
}

impl BMModule {
    /// The path that the module works on, if one was set.
    pub closed spec fn path_text(&self) -> Option<Seq<char>> {
        match self.path {
            Some(p) => Some(p@),
            None => None,
        }
    }

    /// A module that works on no path yet.
    pub fn new() -> (m: BMModule)
        ensures
            m.path_text() is None,
    {
        BMModule { path: None }
    }

    /// The names by which the module is called.
    pub fn callnames(&self) -> (names: Vec<String>)
        ensures
            texts(names@) == module_callnames(),
    {
        let mut names: Vec<String> = Vec::new();
        names.push(String::from_str("bm"));
        names.push(String::from_str("bookmark"));
        assert(texts(names@) =~= module_callnames());
        names
    }

    /// The module's name.
    pub fn name(&self) -> (name: String)
        ensures
            name@ == module_name(),
    {
        String::from_str("bookmark")
    }

    /// Ends the module's work, which cannot fail.
    pub fn shutdown(&self) -> (r: Result<(), String>)
        ensures
            r is Ok,
    {
        Ok(())
    }

    /// The names of the commands that the module knows.
    pub fn get_commands(&self) -> (names: Vec<String>)
        ensures
            texts(names@) == module_commands(),
    {
        let mut names: Vec<String> = Vec::new();
        names.push(String::from_str("add"));
        names.push(String::from_str("list"));
        names.push(String::from_str("remove"));
        assert(texts(names@) =~= module_commands());
        names
    }
}

} // verus!
