//! The error taxonomy of the core: load-time errors, fatal before any process
//! starts, and runtime errors, local to one node and handled by its restart
//! policy.

use vstd::prelude::*;

verus! {

/// A load-time failure of the graph loader. Every variant carries the name of
/// the offending node so the configuration can be fixed without inspecting
/// internals.
#[derive(Clone, PartialEq, Eq, Debug)]
pub enum NodeLoadingError {
    /// No search directory contains a descriptor file for this name.
    FileNotFound(String),
    /// The winning descriptor file exists but failed to parse.
    MalformedDescriptor(String),
    /// The winning descriptor parsed, but its `kind` field holds an
    /// unrecognized value (the variant carries that value).
    InvalidKind(String),
    /// The named node closed a dependency cycle on the current resolution
    /// path.
    CyclicDependency(String),
}

/// The mathematical view of a load-time error: the same variant over the
/// offending name's character sequence.
pub enum LoadErrView {
    FileNotFound(Seq<char>),
    MalformedDescriptor(Seq<char>),
    InvalidKind(Seq<char>),
    CyclicDependency(Seq<char>),
}

impl View for NodeLoadingError {
    type V = LoadErrView;

    open spec fn view(&self) -> LoadErrView {
        match self {
            NodeLoadingError::FileNotFound(n) => LoadErrView::FileNotFound(n@),
            NodeLoadingError::MalformedDescriptor(n) => LoadErrView::MalformedDescriptor(n@),
            NodeLoadingError::InvalidKind(k) => LoadErrView::InvalidKind(k@),
            NodeLoadingError::CyclicDependency(n) => LoadErrView::CyclicDependency(n@),
        }
    }
}

impl NodeLoadingError {
    /// A diagnostic of the error as text, naming the offending node.
    pub fn describe(&self) -> (r: String)
        ensures
            r@ == match self {
                NodeLoadingError::FileNotFound(n) => "descriptor not found: "@ + n@,
                NodeLoadingError::MalformedDescriptor(n) => "malformed descriptor: "@ + n@,
                NodeLoadingError::InvalidKind(k) => "unrecognised kind value: "@ + k@,
                NodeLoadingError::CyclicDependency(n) => "cyclic dependency closed by: "@ + n@,
            },
            r@.len() > 0,
    {
        proof {
            reveal_strlit("descriptor not found: ");
            reveal_strlit("malformed descriptor: ");
            reveal_strlit("unrecognised kind value: ");
            reveal_strlit("cyclic dependency closed by: ");
        }
        let d = match self {
            NodeLoadingError::FileNotFound(name) => join_diag("descriptor not found: ", name),
            NodeLoadingError::MalformedDescriptor(name) => join_diag("malformed descriptor: ", name),
            NodeLoadingError::InvalidKind(kind) => join_diag("unrecognised kind value: ", kind),
            NodeLoadingError::CyclicDependency(name) => join_diag("cyclic dependency closed by: ", name),
        };
        d
    }
}

/// Concatenates a non-empty prefix and a name into one diagnostic string.
fn join_diag(prefix: &str, name: &String) -> (r: String)
    requires
        prefix@.len() > 0,
    ensures
        r@ == prefix@ + name@,
        r@.len() > 0,
{
    let mut r = prefix.to_owned();
    r.append(name.as_str());
    r
}

/// A runtime failure of one node, handled by its restart policy.
#[derive(Clone, Copy, PartialEq, Eq, Debug)]
pub enum RuntimeFailure {
    /// The process could not be spawned at all.
    SpawnFailed,
    /// The process terminated with the carried non-zero exit status.
    ProcessError(i32),
}

} // verus!
