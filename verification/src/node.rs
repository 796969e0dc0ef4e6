//! The immutable runtime representation of one vertex of the session graph,
//! together with the small value types it is built from.

use vstd::prelude::*;

verus! {

/// Whether a node runs an operating-system process of its own (`Service`) or
/// exists only to group dependencies (`Target`).
#[derive(Clone, Copy, PartialEq, Eq, Debug)]
pub enum SessionNodeType {
    Service,
    Target,
}

/// The termination signal sent to a running service process to request a
/// graceful stop.
#[derive(Clone, Copy, PartialEq, Eq, Debug)]
pub enum Signal {
    SIGTERM,
    SIGKILL,
    SIGINT,
    SIGHUP,
    SIGQUIT,
    SIGUSR1,
    SIGUSR2,
}

/// Whether a node is restarted after its process terminates.
#[derive(Clone, Copy, PartialEq, Eq, Debug)]
pub enum RestartKind {
    /// Never restart: the first termination is terminal.
    NoRestart,
    /// Restart after every termination, whatever the exit status.
    RestartOnExit,
    /// Restart only after an unsuccessful termination (non-zero exit status
    /// or a failed spawn).
    RestartOnFailure,
}

/// A node's restart policy: the kind of restart together with the backoff
/// delay observed before each restart attempt.
#[derive(Clone, Copy, PartialEq, Eq, Debug)]
pub struct SessionNodeRestart {
    pub kind: RestartKind,
    pub backoff_ms: u64,
}

impl SessionNodeRestart {
    /// The policy that never restarts.
    pub fn no_restart() -> (r: Self)
        ensures
            r.kind == RestartKind::NoRestart,
            r.backoff_ms == 0,
    {
        SessionNodeRestart { kind: RestartKind::NoRestart, backoff_ms: 0 }
    }

    /// The policy that restarts after every termination.
    pub fn restart_on_exit(backoff_ms: u64) -> (r: Self)
        ensures
            r.kind == RestartKind::RestartOnExit,
            r.backoff_ms == backoff_ms,
    {
        SessionNodeRestart { kind: RestartKind::RestartOnExit, backoff_ms }
    }

    /// The policy that restarts only after an unsuccessful termination.
    pub fn restart_on_failure(backoff_ms: u64) -> (r: Self)
        ensures
            r.kind == RestartKind::RestartOnFailure,
            r.backoff_ms == backoff_ms,
    {
        SessionNodeRestart { kind: RestartKind::RestartOnFailure, backoff_ms }
    }
}

/// The validated, immutable runtime representation of one graph vertex.
/// Configuration only: all mutable execution state (process id, phase,
/// restart counter) lives in the session manager's table, never here.
#[derive(Clone, PartialEq, Eq, Debug)]
pub struct SessionNode {
    /// Unique identifier of the node within the merged graph.
    pub name: String,
    /// Service (owns a process) or Target (pure grouping node).
    pub kind: SessionNodeType,
    /// Optional parent/target this node belongs to; informational only.
    pub group: Option<String>,
    /// Executable path; meaningful only for `Service` nodes.
    pub command: String,
    /// Ordered command-line arguments.
    pub args: Vec<String>,
    /// Signal used to request graceful termination.
    pub stop_signal: Signal,
    /// Restart policy applied after the process terminates.
    pub restart: SessionNodeRestart,
    /// Names of the nodes that must be ready before this node may start.
    pub dependencies: Vec<String>,
    /// Environment overrides applied on top of the inherited environment;
    /// later entries win on a repeated key.
    pub environment: Vec<(String, String)>,
}

impl SessionNode {
    /// Builds a node from its parts, field for field.
    pub fn new(
        name: String,
        kind: SessionNodeType,
        group: Option<String>,
        command: String,
        args: Vec<String>,
        stop_signal: Signal,
        restart: SessionNodeRestart,
        dependencies: Vec<String>,
        environment: Vec<(String, String)>,
    ) -> (r: Self)
        ensures
            r == (SessionNode {
                name,
                kind,
                group,
                command,
                args,
                stop_signal,
                restart,
                dependencies,
                environment,
            }),
    {
        SessionNode { name, kind, group, command, args, stop_signal, restart, dependencies, environment }
    }
}

/// The views of a sequence of strings: its names as mathematical character
/// sequences.
pub open spec fn names_of(s: Seq<String>) -> Seq<Seq<char>> {
    s.map_values(|x: String| x@)
}

/// The views of a sequence of environment entries.
pub open spec fn env_views(s: Seq<(String, String)>) -> Seq<(Seq<char>, Seq<char>)> {
    s.map_values(|p: (String, String)| (p.0@, p.1@))
}

/// The view of an optional string.
pub open spec fn opt_view(s: Option<String>) -> Option<Seq<char>> {
    match s {
        Some(g) => Some(g@),
        None => None,
    }
}

/// The mathematical view of a session node: every field as a spec value.
#[verifier::ext_equal]
pub struct NodeView {
    pub name: Seq<char>,
    pub kind: SessionNodeType,
    pub group: Option<Seq<char>>,
    pub command: Seq<char>,
    pub args: Seq<Seq<char>>,
    pub stop_signal: Signal,
    pub restart: SessionNodeRestart,
    pub dependencies: Seq<Seq<char>>,
    pub environment: Seq<(Seq<char>, Seq<char>)>,
}

impl View for SessionNode {
    type V = NodeView;

    open spec fn view(&self) -> NodeView {
        NodeView {
            name: self.name@,
            kind: self.kind,
            group: opt_view(self.group),
            command: self.command@,
            args: names_of(self.args@),
            stop_signal: self.stop_signal,
            restart: self.restart,
            dependencies: names_of(self.dependencies@),
            environment: env_views(self.environment@),
        }
    }
}

/// The mapping a list of environment entries denotes: later entries win on a
/// repeated key.
pub open spec fn env_map(s: Seq<(Seq<char>, Seq<char>)>) -> Map<Seq<char>, Seq<char>>
    decreases s.len(),
{
    if s.len() == 0 {
        Map::empty()
    } else {
        env_map(s.drop_last()).insert(s.last().0, s.last().1)
    }
}

/// Concatenation of environment lists denotes the left-biased union of their
/// mappings: on a key collision the right-hand list wins.
pub proof fn lemma_env_map_concat(a: Seq<(Seq<char>, Seq<char>)>, b: Seq<(Seq<char>, Seq<char>)>)
    ensures
        env_map(a + b) == env_map(a).union_prefer_right(env_map(b)),
    decreases b.len(),
{
    if b.len() == 0 {
        assert(a + b =~= a);
        assert(env_map(a).union_prefer_right(env_map(b)) =~= env_map(a));
    } else {
        lemma_env_map_concat(a, b.drop_last());
        assert((a + b).drop_last() =~= a + b.drop_last());
        assert((a + b).last() == b.last());
        assert(env_map(a).union_prefer_right(env_map(b.drop_last())).insert(
            b.last().0,
            b.last().1,
        ) =~= env_map(a).union_prefer_right(env_map(b.drop_last()).insert(b.last().0, b.last().1)));
    }
}

/// The environment a spawned service receives: the inherited base entries
/// with the node's overrides appended — as a mapping, the left-biased merge
/// in which an override wins on a key collision.
pub fn merge_environment(base: &Vec<(String, String)>, overrides: &Vec<(String, String)>) -> (r:
    Vec<(String, String)>)
    ensures
        r@ == base@ + overrides@,
        env_map(env_views(r@)) == env_map(env_views(base@)).union_prefer_right(
            env_map(env_views(overrides@)),
        ),
{
    let mut r: Vec<(String, String)> = Vec::new();
    let n = base.len();
    for i in 0..n
        invariant
            n == base@.len(),
            r@ =~= base@.subrange(0, i as int),
    {
        let entry = (base[i].0.clone(), base[i].1.clone());
        proof {
            assert(entry == base@[i as int]);
        }
        r.push(entry);
        proof {
            assert(r@ =~= base@.subrange(0, i as int + 1));
        }
    }
    let m = overrides.len();
    for i in 0..m
        invariant
            m == overrides@.len(),
            r@ =~= base@ + overrides@.subrange(0, i as int),
    {
        let entry = (overrides[i].0.clone(), overrides[i].1.clone());
        proof {
            assert(entry == overrides@[i as int]);
        }
        r.push(entry);
        proof {
            assert(r@ =~= base@ + overrides@.subrange(0, i as int + 1));
        }
    }
    proof {
        assert(r@ =~= base@ + overrides@);
        lemma_env_map_concat(env_views(base@), env_views(overrides@));
        assert(env_views(base@ + overrides@) =~= env_views(base@) + env_views(overrides@));
    }
    r
}

/// The synthetic single node a caller substitutes when the designated root
/// descriptor is absent from every search directory: it runs the account's
/// login shell, is never restarted, and stops on the terminate signal.
pub fn shell_fallback_node(name: String, shell: String) -> (r: SessionNode)
    ensures
        r.name == name,
        r.kind == SessionNodeType::Service,
        r.group is None,
        r.command == shell,
        r.args@ == Seq::<String>::empty(),
        r.stop_signal == Signal::SIGTERM,
        r.restart.kind == RestartKind::NoRestart,
        r.dependencies@ == Seq::<String>::empty(),
        r.environment@ == Seq::<(String, String)>::empty(),
{
    SessionNode {
        name,
        kind: SessionNodeType::Service,
        group: None,
        command: shell,
        args: Vec::new(),
        stop_signal: Signal::SIGTERM,
        restart: SessionNodeRestart::no_restart(),
        dependencies: Vec::new(),
        environment: Vec::new(),
    }
}

} // verus!
