//! The session manager: the supervisor's decision core. It owns the immutable
//! node list produced by the loader and the live-process table, and advances
//! each node's lifecycle phase in reaction to events the caller reports
//! (spawn confirmed, spawn failed, process exited, backoff elapsed, shutdown
//! requested). The caller performs the operating-system work the returned
//! commands describe; every decision is taken here.

use vstd::prelude::*;
use vstd::pervasive::VecAdditionalExecFns;
use crate::node::{SessionNode, SessionNodeType, Signal, RestartKind, names_of};
use crate::loader::{views_of_nodes, node_names, deps_before, has_earlier, clone_strings, clone_env};
use crate::errors::RuntimeFailure;

verus! {

/// The lifecycle phase of one node.
#[derive(Clone, Copy, PartialEq, Eq, Debug)]
pub enum SessionNodePhase {
    /// Not every dependency is ready yet.
    Pending,
    /// Spawn requested, the process handle not yet confirmed live.
    Starting,
    /// The service's process is live.
    Running,
    /// Every dependency of this target is ready; a target has no process and
    /// no further sub-state.
    Satisfied,
    /// The process terminated normally with the carried exit status.
    Exited(i32),
    /// The process terminated unsuccessfully, or could not be spawned.
    Failed(RuntimeFailure),
    /// The restart policy asked for a restart; the backoff delay is being
    /// observed.
    RestartPending,
    /// Terminal: the policy forbids a restart, or shutdown stopped the node.
    Stopped,
}

/// The mutable execution state of one node: one entry per node, created with
/// the manager and updated in place for the manager's whole run.
#[derive(Clone, Copy, PartialEq, Eq, Debug)]
pub struct ProcessEntry {
    /// Current lifecycle phase.
    pub phase: SessionNodePhase,
    /// Identifier of the live operating-system process, present exactly
    /// while a service is `Running`.
    pub pid: Option<u64>,
    /// How many times the node has been restarted.
    pub restart_count: u64,
    /// When the node was last confirmed started, for the backoff policy.
    pub last_start_ms: u64,
    /// The last observed exit status.
    pub last_exit: Option<i32>,
}

/// What the caller must do to start a service: spawn this command with these
/// arguments and these environment overrides, then report the outcome.
#[derive(Clone, PartialEq, Eq, Debug)]
pub struct SpawnCommand {
    pub index: usize,
    pub command: String,
    pub args: Vec<String>,
    pub environment: Vec<(String, String)>,
}

/// What the caller must do to stop a running service: send this signal to
/// this process.
#[derive(Clone, PartialEq, Eq, Debug)]
pub struct StopCommand {
    pub index: usize,
    pub pid: u64,
    pub signal: Signal,
}

/// The outcome of asking the manager to advance one pending node.
#[derive(Clone, PartialEq, Eq, Debug)]
pub enum PollResult {
    /// A service's dependencies are all ready: it moved to `Starting` and
    /// this command describes the spawn the caller owes.
    Started(SpawnCommand),
    /// A target's dependencies are all ready: it moved to `Satisfied`.
    SatisfiedTarget(usize),
    /// Nothing may advance: no pending node is ready, or shutdown has begun.
    Idle,
}

/// What the restart policy decided after a termination.
#[derive(Clone, PartialEq, Eq, Debug)]
pub enum RestartDecision {
    /// Restart after observing this backoff delay, in milliseconds.
    Restart(u64),
    /// The node is terminally stopped.
    Stop,
}

/// A dependency counts as ready when it is a running service or a satisfied
/// target.
pub open spec fn phase_ready(p: SessionNodePhase) -> bool {
    p == SessionNodePhase::Running || p == SessionNodePhase::Satisfied
}

/// Whether the restart policy re-attempts after the given terminal phase.
pub open spec fn restart_applies(kind: RestartKind, p: SessionNodePhase) -> bool {
    match kind {
        RestartKind::NoRestart => false,
        RestartKind::RestartOnExit => true,
        RestartKind::RestartOnFailure => p is Failed,
    }
}

/// The entry every node starts from: pending, no process, no history.
pub open spec fn initial_entry() -> ProcessEntry {
    ProcessEntry {
        phase: SessionNodePhase::Pending,
        pid: None,
        restart_count: 0,
        last_start_ms: 0,
        last_exit: None,
    }
}

/// The supervisor: immutable configuration in `nodes`, one mutable
/// `ProcessEntry` per node in `entries`, and the shutdown flag that
/// suppresses every restart once set.
pub struct SessionManager {
    pub nodes: Vec<SessionNode>,
    pub entries: Vec<ProcessEntry>,
    pub shutting_down: bool,
}

impl SessionManager {
    /// Number of nodes.
    pub open spec fn n(self) -> int {
        self.nodes@.len() as int
    }

    /// Well-formedness: one entry per node; names unique; every node's
    /// dependencies stand earlier in the list (the loader's topological
    /// order); and a process identifier is held exactly by running services —
    /// so a target never has one.
    pub open spec fn wf(self) -> bool {
        &&& self.entries@.len() == self.nodes@.len()
        &&& node_names(views_of_nodes(self.nodes@)).no_duplicates()
        &&& forall|i: int|
            0 <= i < self.n() ==> #[trigger] deps_before(views_of_nodes(self.nodes@), i)
        &&& forall|i: int|
            0 <= i < self.n() ==> (#[trigger] self.entries@[i].pid is Some ==> (
            self.nodes@[i].kind == SessionNodeType::Service && self.entries@[i].phase
                == SessionNodePhase::Running))
    }

    /// Every dependency of node `i` is ready: for each declared dependency
    /// name there is a node bearing it whose phase is ready.
    pub open spec fn deps_satisfied(self, i: int) -> bool {
        forall|k: int|
            0 <= k < self.nodes@[i].dependencies@.len() ==> exists|j: int|
                0 <= j < self.n() && self.nodes@[j].name@ == #[trigger] self.nodes@[i].dependencies@[k]@
                    && phase_ready(self.entries@[j].phase)
    }

    /// Node `i` may leave `Pending` now.
    pub open spec fn ready_to_start(self, i: int) -> bool {
        &&& 0 <= i < self.n()
        &&& self.entries@[i].phase == SessionNodePhase::Pending
        &&& self.deps_satisfied(i)
    }

    /// Builds a manager over a validated node list: every node pending, no
    /// process anywhere, shutdown not begun.
    pub fn new(nodes: Vec<SessionNode>) -> (r: Self)
        requires
            node_names(views_of_nodes(nodes@)).no_duplicates(),
            forall|i: int| 0 <= i < nodes@.len() ==> #[trigger] deps_before(views_of_nodes(nodes@), i),
        ensures
            r.wf(),
            r.nodes == nodes,
            r.entries@.len() == nodes@.len(),
            forall|i: int| 0 <= i < nodes@.len() ==> #[trigger] r.entries@[i] == initial_entry(),
            !r.shutting_down,
    {
        let n = nodes.len();
        let mut entries: Vec<ProcessEntry> = Vec::new();
        for i in 0..n
            invariant
                entries@.len() == i,
                forall|k: int| 0 <= k < i ==> #[trigger] entries@[k] == initial_entry(),
        {
            entries.push(
                ProcessEntry {
                    phase: SessionNodePhase::Pending,
                    pid: None,
                    restart_count: 0,
                    last_start_ms: 0,
                    last_exit: None,
                },
            );
        }
        SessionManager { nodes, entries, shutting_down: false }
    }

    /// The position of the node bearing a name.
    fn find_index(&self, name: &String) -> (r: Option<usize>)
        ensures
            match r {
                Some(j) => j < self.nodes@.len() && self.nodes@[j as int].name@ == name@,
                None => forall|j: int| 0 <= j < self.n() ==> self.nodes@[j].name@ != name@,
            },
    {
        let n = self.nodes.len();
        for j in 0..n
            invariant
                n == self.nodes@.len(),
                forall|k: int| 0 <= k < j ==> self.nodes@[k].name@ != name@,
        {
            if self.nodes[j].name == *name {
                return Some(j);
            }
        }
        None
    }

    /// Whether a phase is ready for dependents.
    fn is_ready_phase(p: &SessionNodePhase) -> (r: bool)
        ensures
            r == phase_ready(*p),
    {
        matches!(p, SessionNodePhase::Running | SessionNodePhase::Satisfied)
    }

    /// Checks every dependency of node `i` for readiness.
    fn deps_satisfied_exec(&self, i: usize) -> (r: bool)
        requires
            self.wf(),
            i < self.nodes@.len(),
        ensures
            r == self.deps_satisfied(i as int),
    {
        let deps_n = self.nodes[i].dependencies.len();
        for k in 0..deps_n
            invariant
                self.wf(),
                i < self.nodes@.len(),
                deps_n == self.nodes@[i as int].dependencies@.len(),
                forall|k2: int|
                    0 <= k2 < k ==> exists|j: int|
                        0 <= j < self.n() && self.nodes@[j].name@ == #[trigger] self.nodes@[i as int].dependencies@[k2]@
                            && phase_ready(self.entries@[j].phase),
        {
            let dep = &self.nodes[i].dependencies[k];
            match self.find_index(dep) {
                None => {
                    proof {
                        assert(!self.deps_satisfied(i as int)) by {
                            if self.deps_satisfied(i as int) {
                                let j = choose|j: int|
                                    0 <= j < self.n() && self.nodes@[j].name@ == self.nodes@[i as int].dependencies@[k as int]@
                                        && phase_ready(self.entries@[j].phase);
                                assert(self.nodes@[j].name@ != dep@);
                            }
                        }
                    }
                    return false;
                },
                Some(j) => {
                    if !Self::is_ready_phase(&self.entries[j].phase) {
                        proof {
                            assert(!self.deps_satisfied(i as int)) by {
                                if self.deps_satisfied(i as int) {
                                    let j2 = choose|j2: int|
                                        0 <= j2 < self.n() && self.nodes@[j2].name@ == self.nodes@[i as int].dependencies@[k as int]@
                                            && phase_ready(self.entries@[j2].phase);
                                    if j2 != j as int {
                                        assert(node_names(views_of_nodes(self.nodes@))[j2]
                                            == self.nodes@[j2].name@);
                                        assert(node_names(views_of_nodes(self.nodes@))[j as int]
                                            == self.nodes@[j as int].name@);
                                    }
                                }
                            }
                        }
                        return false;
                    }
                },
            }
        }
        true
    }

    /// The spawn command for service `i`, cloned from its configuration.
    fn spawn_command(&self, i: usize) -> (r: SpawnCommand)
        requires
            i < self.nodes@.len(),
        ensures
            r.index == i,
            r.command@ == self.nodes@[i as int].command@,
            r.args@ == self.nodes@[i as int].args@,
            r.environment@ == self.nodes@[i as int].environment@,
    {
        SpawnCommand {
            index: i,
            command: self.nodes[i].command.clone(),
            args: clone_strings(&self.nodes[i].args),
            environment: clone_env(&self.nodes[i].environment),
        }
    }

    /// Advances at most one node out of `Pending`: the first node all of
    /// whose dependencies are ready. A ready target is satisfied on the spot;
    /// a ready service moves to `Starting` and its spawn command is handed
    /// back. Nothing advances once shutdown has begun — and a node only ever
    /// moves to `Starting` when every one of its dependencies is ready.
    pub fn poll_ready(&mut self) -> (r: PollResult)
        requires
            old(self).wf(),
        ensures
            final(self).wf(),
            final(self).nodes == old(self).nodes,
            final(self).shutting_down == old(self).shutting_down,
            match r {
                PollResult::Started(cmd) => {
                    &&& !old(self).shutting_down
                    &&& old(self).ready_to_start(cmd.index as int)
                    &&& forall|j: int| 0 <= j < cmd.index as int ==> !old(self).ready_to_start(j)
                    &&& old(self).nodes@[cmd.index as int].kind == SessionNodeType::Service
                    &&& cmd.command@ == old(self).nodes@[cmd.index as int].command@
                    &&& cmd.args@ == old(self).nodes@[cmd.index as int].args@
                    &&& cmd.environment@ == old(self).nodes@[cmd.index as int].environment@
                    &&& final(self).entries@ == old(self).entries@.update(
                        cmd.index as int,
                        ProcessEntry {
                            phase: SessionNodePhase::Starting,
                            ..old(self).entries@[cmd.index as int]
                        },
                    )
                },
                PollResult::SatisfiedTarget(i) => {
                    &&& !old(self).shutting_down
                    &&& old(self).ready_to_start(i as int)
                    &&& forall|j: int| 0 <= j < i as int ==> !old(self).ready_to_start(j)
                    &&& old(self).nodes@[i as int].kind == SessionNodeType::Target
                    &&& final(self).entries@ == old(self).entries@.update(
                        i as int,
                        ProcessEntry {
                            phase: SessionNodePhase::Satisfied,
                            ..old(self).entries@[i as int]
                        },
                    )
                },
                PollResult::Idle => {
                    &&& final(self).entries@ == old(self).entries@
                    &&& (old(self).shutting_down || forall|i: int|
                        0 <= i < old(self).n() ==> !old(self).ready_to_start(i))
                },
            },
            // a node newly in `Starting` had every dependency ready
            forall|i: int|
                0 <= i < old(self).n() && final(self).entries@[i].phase
                    == SessionNodePhase::Starting && old(self).entries@[i].phase
                    != SessionNodePhase::Starting ==> old(self).deps_satisfied(i),
    {
        if self.shutting_down {
            return PollResult::Idle;
        }
        let n = self.nodes.len();
        for i in 0..n
            invariant
                self.wf(),
                n == self.nodes@.len(),
                *self == *old(self),
                !self.shutting_down,
                forall|j: int| 0 <= j < i ==> !old(self).ready_to_start(j),
        {
            let pending = matches!(self.entries[i].phase, SessionNodePhase::Pending);
            if pending && self.deps_satisfied_exec(i) {
                let entry = self.entries[i];
                let target = matches!(self.nodes[i].kind, SessionNodeType::Target);
                if target {
                    self.entries.set(
                        i,
                        ProcessEntry { phase: SessionNodePhase::Satisfied, ..entry },
                    );
                    proof {
                        assert(self.wf()) by {
                            assert forall|q: int|
                                0 <= q < self.n() implies (#[trigger] self.entries@[q].pid
                                is Some ==> (self.nodes@[q].kind == SessionNodeType::Service
                                && self.entries@[q].phase == SessionNodePhase::Running)) by {
                                if q != i as int {
                                    assert(self.entries@[q] == old(self).entries@[q]);
                                }
                            }
                        }
                    }
                    return PollResult::SatisfiedTarget(i);
                } else {
                    self.entries.set(
                        i,
                        ProcessEntry { phase: SessionNodePhase::Starting, ..entry },
                    );
                    let cmd = self.spawn_command(i);
                    proof {
                        assert(self.wf()) by {
                            assert forall|q: int|
                                0 <= q < self.n() implies (#[trigger] self.entries@[q].pid
                                is Some ==> (self.nodes@[q].kind == SessionNodeType::Service
                                && self.entries@[q].phase == SessionNodePhase::Running)) by {
                                if q != i as int {
                                    assert(self.entries@[q] == old(self).entries@[q]);
                                }
                            }
                        }
                        assert(self.nodes@[i as int].kind == SessionNodeType::Service) by {
                            assert(!(self.nodes@[i as int].kind == SessionNodeType::Target));
                        }
                    }
                    return PollResult::Started(cmd);
                }
            }
        }
        PollResult::Idle
    }
    /// Node `i` waits on a dependency that can never become ready again: it
    /// is still `Pending` while some declared dependency names a terminally
    /// stopped node. Such a node would stay `Pending` forever — a condition
    /// to surface, not to hang on silently.
    pub open spec fn is_stalled(self, i: int) -> bool {
        &&& self.entries@[i].phase == SessionNodePhase::Pending
        &&& exists|k: int|
            0 <= k < self.nodes@[i].dependencies@.len() && exists|j: int|
                0 <= j < self.n() && self.nodes@[j].name@ == #[trigger] self.nodes@[i].dependencies@[k]@
                    && self.entries@[j].phase == SessionNodePhase::Stopped
    }

    /// Reports whether node `i` is stalled: pending on a dependency that is
    /// terminally stopped.
    pub fn stalled(&self, i: usize) -> (r: bool)
        requires
            self.wf(),
            i < self.nodes@.len(),
        ensures
            r == self.is_stalled(i as int),
    {
        if !matches!(self.entries[i].phase, SessionNodePhase::Pending) {
            return false;
        }
        let deps_n = self.nodes[i].dependencies.len();
        for k in 0..deps_n
            invariant
                self.wf(),
                i < self.nodes@.len(),
                self.entries@[i as int].phase == SessionNodePhase::Pending,
                deps_n == self.nodes@[i as int].dependencies@.len(),
                forall|k2: int|
                    0 <= k2 < k ==> !(exists|j: int|
                        0 <= j < self.n() && self.nodes@[j].name@ == #[trigger] self.nodes@[i as int].dependencies@[k2]@
                            && self.entries@[j].phase == SessionNodePhase::Stopped),
        {
            let dep = &self.nodes[i].dependencies[k];
            if let Some(j) = self.find_index(dep) {
                if matches!(self.entries[j].phase, SessionNodePhase::Stopped) {
                    return true;
                }
                proof {
                    assert forall|j2: int|
                        0 <= j2 < self.n() && self.nodes@[j2].name@ == self.nodes@[i as int].dependencies@[k as int]@ implies self.entries@[j2].phase
                        != SessionNodePhase::Stopped by {
                        if j2 != j as int {
                            assert(node_names(views_of_nodes(self.nodes@))[j2]
                                == self.nodes@[j2].name@);
                            assert(node_names(views_of_nodes(self.nodes@))[j as int]
                                == self.nodes@[j as int].name@);
                        }
                    }
                }
            }
        }
        false
    }

    /// Replaces entry `i`; well-formedness is preserved because a process
    /// identifier is only ever recorded for a running service.
    fn set_entry(&mut self, i: usize, e: ProcessEntry)
        requires
            old(self).wf(),
            i < old(self).entries@.len(),
            e.pid is Some ==> (old(self).nodes@[i as int].kind == SessionNodeType::Service
                && e.phase == SessionNodePhase::Running),
        ensures
            final(self).wf(),
            final(self).nodes == old(self).nodes,
            final(self).shutting_down == old(self).shutting_down,
            final(self).entries@ == old(self).entries@.update(i as int, e),
    {
        self.entries.set(i, e);
        proof {
            assert forall|q: int|
                0 <= q < self.n() implies (#[trigger] self.entries@[q].pid is Some ==> (
                self.nodes@[q].kind == SessionNodeType::Service && self.entries@[q].phase
                    == SessionNodePhase::Running)) by {
                if q != i as int {
                    assert(self.entries@[q] == old(self).entries@[q]);
                }
            }
        }
    }

    /// Records that service `i`'s spawn succeeded: the node is `Running` and
    /// its live process identifier and start time are recorded.
    pub fn on_spawned(&mut self, i: usize, pid: u64, now_ms: u64)
        requires
            old(self).wf(),
            i < old(self).nodes@.len(),
            old(self).entries@[i as int].phase == SessionNodePhase::Starting,
            old(self).nodes@[i as int].kind == SessionNodeType::Service,
        ensures
            final(self).wf(),
            final(self).nodes == old(self).nodes,
            final(self).shutting_down == old(self).shutting_down,
            final(self).entries@ == old(self).entries@.update(
                i as int,
                ProcessEntry {
                    phase: SessionNodePhase::Running,
                    pid: Some(pid),
                    last_start_ms: now_ms,
                    ..old(self).entries@[i as int]
                },
            ),
    {
        let entry = self.entries[i];
        self.set_entry(
            i,
            ProcessEntry {
                phase: SessionNodePhase::Running,
                pid: Some(pid),
                last_start_ms: now_ms,
                ..entry
            },
        );
    }

    /// Records that service `i` could not be spawned at all: an immediate
    /// `Failed` phase, subject to the restart policy like any other failure.
    pub fn on_spawn_failed(&mut self, i: usize)
        requires
            old(self).wf(),
            i < old(self).nodes@.len(),
            old(self).entries@[i as int].phase == SessionNodePhase::Starting,
        ensures
            final(self).wf(),
            final(self).nodes == old(self).nodes,
            final(self).shutting_down == old(self).shutting_down,
            final(self).entries@ == old(self).entries@.update(
                i as int,
                ProcessEntry {
                    phase: SessionNodePhase::Failed(RuntimeFailure::SpawnFailed),
                    pid: None,
                    ..old(self).entries@[i as int]
                },
            ),
    {
        let entry = self.entries[i];
        self.set_entry(
            i,
            ProcessEntry {
                phase: SessionNodePhase::Failed(RuntimeFailure::SpawnFailed),
                pid: None,
                ..entry
            },
        );
    }

    /// Records that service `i`'s process terminated with `code`: exit status
    /// zero classifies as `Exited`, any other as `Failed`; the process
    /// identifier is gone either way and the status is remembered.
    pub fn on_exit(&mut self, i: usize, code: i32)
        requires
            old(self).wf(),
            i < old(self).nodes@.len(),
            old(self).entries@[i as int].phase == SessionNodePhase::Running,
        ensures
            final(self).wf(),
            final(self).nodes == old(self).nodes,
            final(self).shutting_down == old(self).shutting_down,
            final(self).entries@ == old(self).entries@.update(
                i as int,
                ProcessEntry {
                    phase: if code == 0 {
                        SessionNodePhase::Exited(code)
                    } else {
                        SessionNodePhase::Failed(RuntimeFailure::ProcessError(code))
                    },
                    pid: None,
                    last_exit: Some(code),
                    ..old(self).entries@[i as int]
                },
            ),
    {
        let entry = self.entries[i];
        let phase = if code == 0 {
            SessionNodePhase::Exited(code)
        } else {
            SessionNodePhase::Failed(RuntimeFailure::ProcessError(code))
        };
        self.set_entry(i, ProcessEntry { phase, pid: None, last_exit: Some(code), ..entry });
    }

    /// Applies node `i`'s restart policy to its terminal phase: restart with
    /// the policy's backoff exactly when the policy re-attempts after that
    /// phase and shutdown has not begun — an exit during shutdown never
    /// triggers a restart; otherwise the node is terminally `Stopped`.
    pub fn apply_restart_policy(&mut self, i: usize) -> (r: RestartDecision)
        requires
            old(self).wf(),
            i < old(self).nodes@.len(),
            old(self).entries@[i as int].phase is Exited || old(self).entries@[i as int].phase
                is Failed,
        ensures
            final(self).wf(),
            final(self).nodes == old(self).nodes,
            final(self).shutting_down == old(self).shutting_down,
            if !old(self).shutting_down && restart_applies(
                old(self).nodes@[i as int].restart.kind,
                old(self).entries@[i as int].phase,
            ) {
                &&& r == RestartDecision::Restart(old(self).nodes@[i as int].restart.backoff_ms)
                &&& final(self).entries@ == old(self).entries@.update(
                    i as int,
                    ProcessEntry {
                        phase: SessionNodePhase::RestartPending,
                        ..old(self).entries@[i as int]
                    },
                )
            } else {
                &&& r == RestartDecision::Stop
                &&& final(self).entries@ == old(self).entries@.update(
                    i as int,
                    ProcessEntry {
                        phase: SessionNodePhase::Stopped,
                        ..old(self).entries@[i as int]
                    },
                )
            },
    {
        let entry = self.entries[i];
        let applies = match self.nodes[i].restart.kind {
            RestartKind::NoRestart => false,
            RestartKind::RestartOnExit => true,
            RestartKind::RestartOnFailure => matches!(entry.phase, SessionNodePhase::Failed(_)),
        };
        if !self.shutting_down && applies {
            self.set_entry(i, ProcessEntry { phase: SessionNodePhase::RestartPending, ..entry });
            RestartDecision::Restart(self.nodes[i].restart.backoff_ms)
        } else {
            self.set_entry(i, ProcessEntry { phase: SessionNodePhase::Stopped, ..entry });
            RestartDecision::Stop
        }
    }

    /// The backoff delay of node `i` has elapsed: start it again — but only
    /// if every dependency is still ready, never while shutdown is under way.
    /// A node whose dependencies fell back goes to `Pending` and waits; under
    /// shutdown it is `Stopped`. As everywhere, the node only moves to
    /// `Starting` with every dependency ready.
    pub fn restart_due(&mut self, i: usize, now_ms: u64) -> (r: Option<SpawnCommand>)
        requires
            old(self).wf(),
            i < old(self).nodes@.len(),
            old(self).entries@[i as int].phase == SessionNodePhase::RestartPending,
            old(self).nodes@[i as int].kind == SessionNodeType::Service,
        ensures
            final(self).wf(),
            final(self).nodes == old(self).nodes,
            final(self).shutting_down == old(self).shutting_down,
            if old(self).shutting_down {
                &&& r is None
                &&& final(self).entries@ == old(self).entries@.update(
                    i as int,
                    ProcessEntry {
                        phase: SessionNodePhase::Stopped,
                        ..old(self).entries@[i as int]
                    },
                )
            } else if !old(self).deps_satisfied(i as int) {
                &&& r is None
                &&& final(self).entries@ == old(self).entries@.update(
                    i as int,
                    ProcessEntry {
                        phase: SessionNodePhase::Pending,
                        ..old(self).entries@[i as int]
                    },
                )
            } else {
                &&& r matches Some(cmd) && cmd.index == i && cmd.command@ == old(
                    self,
                ).nodes@[i as int].command@ && cmd.args@ == old(self).nodes@[i as int].args@
                    && cmd.environment@ == old(self).nodes@[i as int].environment@
                &&& final(self).entries@ == old(self).entries@.update(
                    i as int,
                    ProcessEntry {
                        phase: SessionNodePhase::Starting,
                        restart_count: if old(self).entries@[i as int].restart_count < u64::MAX {
                            (old(self).entries@[i as int].restart_count + 1) as u64
                        } else {
                            u64::MAX
                        },
                        last_start_ms: now_ms,
                        ..old(self).entries@[i as int]
                    },
                )
            },
            // a node newly in `Starting` had every dependency ready
            forall|q: int|
                0 <= q < old(self).n() && final(self).entries@[q].phase
                    == SessionNodePhase::Starting && old(self).entries@[q].phase
                    != SessionNodePhase::Starting ==> old(self).deps_satisfied(q),
    {
        let entry = self.entries[i];
        if self.shutting_down {
            self.set_entry(i, ProcessEntry { phase: SessionNodePhase::Stopped, ..entry });
            None
        } else if !self.deps_satisfied_exec(i) {
            self.set_entry(i, ProcessEntry { phase: SessionNodePhase::Pending, ..entry });
            None
        } else {
            let count = if entry.restart_count < u64::MAX {
                entry.restart_count + 1
            } else {
                u64::MAX
            };
            self.set_entry(
                i,
                ProcessEntry {
                    phase: SessionNodePhase::Starting,
                    restart_count: count,
                    last_start_ms: now_ms,
                    ..entry
                },
            );
            Some(self.spawn_command(i))
        }
    }

    /// Begins shutdown: every restart is suppressed from here on, every node
    /// still waiting (`Pending`, `RestartPending`, or a satisfied target) is
    /// terminally `Stopped`, and the returned commands tell the caller which
    /// signal each still-running service is owed — listed in strictly
    /// falling node order, so a dependent is always signaled no later than
    /// anything it depends on.
    pub fn begin_shutdown(&mut self) -> (r: Vec<StopCommand>)
        requires
            old(self).wf(),
        ensures
            final(self).wf(),
            final(self).nodes == old(self).nodes,
            final(self).shutting_down,
            final(self).entries@.len() == old(self).entries@.len(),
            forall|q: int|
                0 <= q < old(self).n() ==> #[trigger] final(self).entries@[q] == shutdown_entry(
                    old(self).entries@[q],
                ),
            forall|p: int|
                0 <= p < r@.len() ==> {
                    let i = #[trigger] r@[p].index as int;
                    &&& 0 <= i < old(self).n()
                    &&& old(self).entries@[i].phase == SessionNodePhase::Running
                    &&& old(self).entries@[i].pid == Some(r@[p].pid)
                    &&& r@[p].signal == old(self).nodes@[i].stop_signal
                },
            forall|p: int, q: int| 0 <= p < q < r@.len() ==> r@[p].index > r@[q].index,
            forall|i: int|
                0 <= i < old(self).n() && old(self).entries@[i].phase == SessionNodePhase::Running
                    && old(self).entries@[i].pid is Some ==> exists|p: int|
                    0 <= p < r@.len() && (#[trigger] r@[p].index) as int == i,
    {
        self.shutting_down = true;
        let mut cmds: Vec<StopCommand> = Vec::new();
        let n = self.nodes.len();
        let mut i: usize = n;
        while i > 0
            invariant
                self.wf(),
                n == self.nodes@.len(),
                i <= n,
                self.nodes == old(self).nodes,
                self.shutting_down,
                self.entries@.len() == old(self).entries@.len(),
                forall|q: int| 0 <= q < i ==> #[trigger] self.entries@[q] == old(self).entries@[q],
                forall|q: int|
                    i <= q < n ==> #[trigger] self.entries@[q] == shutdown_entry(
                        old(self).entries@[q],
                    ),
                forall|p: int|
                    0 <= p < cmds@.len() ==> {
                        let ci = #[trigger] cmds@[p].index as int;
                        &&& i <= ci < n
                        &&& old(self).entries@[ci].phase == SessionNodePhase::Running
                        &&& old(self).entries@[ci].pid == Some(cmds@[p].pid)
                        &&& cmds@[p].signal == old(self).nodes@[ci].stop_signal
                    },
                forall|p: int, q: int| 0 <= p < q < cmds@.len() ==> cmds@[p].index > cmds@[q].index,
                forall|q: int|
                    i <= q < n && old(self).entries@[q].phase == SessionNodePhase::Running && old(
                        self,
                    ).entries@[q].pid is Some ==> exists|p: int|
                        0 <= p < cmds@.len() && (#[trigger] cmds@[p].index) as int == q,
            decreases i,
        {
            i = i - 1;
            let entry = self.entries[i];
            match entry.phase {
                SessionNodePhase::Pending
                | SessionNodePhase::RestartPending
                | SessionNodePhase::Satisfied => {
                    self.set_entry(i, ProcessEntry { phase: SessionNodePhase::Stopped, ..entry });
                },
                SessionNodePhase::Running => {
                    if let Some(pid) = entry.pid {
                        let sc = StopCommand { index: i, pid, signal: self.nodes[i].stop_signal };
                        let ghost cmds0 = cmds@;
                        cmds.push(sc);
                        proof {
                            let last = cmds0.len() as int;
                            assert(cmds@ == cmds0.push(sc));
                            assert(cmds@[last].index as int == i as int);
                            assert forall|p: int, q: int|
                                0 <= p < q < cmds@.len() implies cmds@[p].index
                                > cmds@[q].index by {
                                if q == last {
                                    assert(cmds@[p] == cmds0[p]);
                                    assert(cmds@[p].index as int >= i as int + 1);
                                }
                            }
                            assert forall|q: int|
                                i as int <= q < n && old(self).entries@[q].phase
                                    == SessionNodePhase::Running && old(self).entries@[q].pid
                                is Some implies exists|p: int|
                                0 <= p < cmds@.len() && (#[trigger] cmds@[p].index) as int
                                    == q by {
                                if q == i as int {
                                    assert(cmds@[last].index as int == q);
                                } else {
                                    assert(exists|p0: int|
                                        0 <= p0 < cmds0.len() && (#[trigger] cmds0[p0].index) as int
                                            == q);
                                    let p0 = choose|p0: int|
                                        0 <= p0 < cmds0.len() && (#[trigger] cmds0[p0].index) as int
                                            == q;
                                    assert(cmds@[p0] == cmds0[p0]);
                                    assert(cmds@[p0].index as int == q);
                                }
                            }
                        }
                    }
                },
                _ => {},
            }
            proof {
                assert(self.entries@[i as int] == shutdown_entry(old(self).entries@[i as int]));
            }
        }
        cmds
    }

    /// The escalation command for a service that ignored its stop signal: the
    /// unconditional kill signal to the same process.
    pub fn escalate(cmd: &StopCommand) -> (r: StopCommand)
        ensures
            r.index == cmd.index,
            r.pid == cmd.pid,
            r.signal == Signal::SIGKILL,
    {
        StopCommand { index: cmd.index, pid: cmd.pid, signal: Signal::SIGKILL }
    }

    /// The aggregate session status: failed if any node failed, exited once
    /// everything has come to rest, running otherwise.
    pub fn session_status(&self) -> (r: SessionStatus)
        ensures
            r == self.status_of(),
    {
        let n = self.entries.len();
        let mut any_failed = false;
        let mut all_rest = true;
        for i in 0..n
            invariant
                n == self.entries@.len(),
                any_failed == exists|j: int|
                    0 <= j < i && (#[trigger] self.entries@[j].phase) is Failed,
                all_rest == forall|j: int|
                    0 <= j < i ==> at_rest(#[trigger] self.entries@[j].phase),
        {
            let e = &self.entries[i];
            if matches!(e.phase, SessionNodePhase::Failed(_)) {
                any_failed = true;
            }
            if !matches!(e.phase, SessionNodePhase::Stopped | SessionNodePhase::Exited(_)) {
                all_rest = false;
            }
        }
        if any_failed {
            SessionStatus::Failed
        } else if all_rest {
            SessionStatus::Exited
        } else {
            SessionStatus::Running
        }
    }

    /// The specification of the aggregate status.
    pub open spec fn status_of(self) -> SessionStatus {
        if exists|j: int| 0 <= j < self.entries@.len() && (#[trigger] self.entries@[j].phase) is Failed {
            SessionStatus::Failed
        } else if forall|j: int| 0 <= j < self.entries@.len() ==> at_rest(#[trigger] self.entries@[j].phase) {
            SessionStatus::Exited
        } else {
            SessionStatus::Running
        }
    }
}

/// What shutdown does to one entry: a node still waiting to run, or a
/// satisfied target, is terminally stopped; everything else is left for its
/// own exit to settle.
pub open spec fn shutdown_entry(e: ProcessEntry) -> ProcessEntry {
    match e.phase {
        SessionNodePhase::Pending
        | SessionNodePhase::RestartPending
        | SessionNodePhase::Satisfied => ProcessEntry { phase: SessionNodePhase::Stopped, ..e },
        _ => e,
    }
}

/// A phase that will never again produce activity.
pub open spec fn at_rest(p: SessionNodePhase) -> bool {
    p is Stopped || p is Exited
}

/// The aggregate state of the whole session.
#[derive(Clone, Copy, PartialEq, Eq, Debug)]
pub enum SessionStatus {
    Running,
    Exited,
    Failed,
}

/// A target node never has an associated operating-system process: in every
/// well-formed manager state, a target's entry holds no process identifier.
pub proof fn lemma_target_has_no_process(m: SessionManager, i: int)
    requires
        m.wf(),
        0 <= i < m.n(),
        m.nodes@[i].kind == SessionNodeType::Target,
    ensures
        m.entries@[i].pid is None,
{
}

/// During shutdown a dependent is signaled no later than its dependency:
/// whenever the stop list holds a command for a node and one for a node it
/// depends on, the dependent's command stands at the same place or earlier.
/// This holds of any stop list over strictly falling node order, such as the
/// one `begin_shutdown` returns.
pub proof fn lemma_stop_order_respects_deps(
    m: SessionManager,
    cmds: Seq<StopCommand>,
    p: int,
    q: int,
)
    requires
        m.wf(),
        forall|a: int, b: int| 0 <= a < b < cmds.len() ==> cmds[a].index > cmds[b].index,
        forall|a: int| 0 <= a < cmds.len() ==> ((#[trigger] cmds[a].index) as int) < m.n(),
        0 <= p < cmds.len(),
        0 <= q < cmds.len(),
        names_of(m.nodes@[cmds[p].index as int].dependencies@).contains(
            m.nodes@[cmds[q].index as int].name@,
        ),
    ensures
        p <= q,
{
    let ip = cmds[p].index as int;
    let iq = cmds[q].index as int;
    let views = views_of_nodes(m.nodes@);
    assert(deps_before(views, ip));
    let deps = names_of(m.nodes@[ip].dependencies@);
    let k = choose|k: int| 0 <= k < deps.len() && deps[k] == m.nodes@[iq].name@;
    assert(views[ip] == m.nodes@[ip]@);
    assert(views[ip].dependencies == deps);
    assert(has_earlier(views, ip, views[ip].dependencies[k]));
    let j = choose|j: int| 0 <= j < ip && views[j].name == views[ip].dependencies[k];
    assert(views[j] == m.nodes@[j]@);
    assert(m.nodes@[j].name@ == m.nodes@[iq].name@);
    if j != iq {
        assert(node_names(views)[j] == m.nodes@[j].name@);
        assert(node_names(views)[iq] == m.nodes@[iq].name@);
        assert(false);
    }
    assert(iq < ip);
    if p > q {
        assert(cmds[q].index > cmds[p].index);
    }
}

} // verus!
