use login_ng_session::errors::RuntimeFailure;
use login_ng_session::manager::{
    PollResult, RestartDecision, SessionManager, SessionNodePhase, SessionStatus,
};
use login_ng_session::node::{SessionNode, SessionNodeRestart, SessionNodeType, Signal};

fn service(name: &str, deps: &[&str], restart: SessionNodeRestart) -> SessionNode {
    SessionNode::new(
        name.to_string(),
        SessionNodeType::Service,
        None,
        format!("/bin/{}", name),
        Vec::new(),
        Signal::SIGTERM,
        restart,
        deps.iter().map(|d| d.to_string()).collect(),
        Vec::new(),
    )
}

fn target(name: &str, deps: &[&str]) -> SessionNode {
    SessionNode::new(
        name.to_string(),
        SessionNodeType::Target,
        None,
        String::new(),
        Vec::new(),
        Signal::SIGTERM,
        SessionNodeRestart::no_restart(),
        deps.iter().map(|d| d.to_string()).collect(),
        Vec::new(),
    )
}

#[test]
fn restart_on_failure_after_nonzero_exit() {
    // phase sequence Running -> Failed -> RestartPending -> Starting
    let nodes = vec![service("svc", &[], SessionNodeRestart::restart_on_failure(50))];
    let mut m = SessionManager::new(nodes);
    match m.poll_ready() {
        PollResult::Started(cmd) => assert_eq!(cmd.index, 0),
        other => panic!("expected a start, got {:?}", other),
    }
    assert_eq!(m.entries[0].phase, SessionNodePhase::Starting);
    m.on_spawned(0, 42, 1000);
    assert_eq!(m.entries[0].phase, SessionNodePhase::Running);
    assert_eq!(m.entries[0].pid, Some(42));
    m.on_exit(0, 3);
    assert_eq!(
        m.entries[0].phase,
        SessionNodePhase::Failed(RuntimeFailure::ProcessError(3))
    );
    assert_eq!(m.entries[0].pid, None);
    assert_eq!(m.apply_restart_policy(0), RestartDecision::Restart(50));
    assert_eq!(m.entries[0].phase, SessionNodePhase::RestartPending);
    let cmd = m.restart_due(0, 2000).expect("restart owed");
    assert_eq!(cmd.index, 0);
    assert_eq!(m.entries[0].phase, SessionNodePhase::Starting);
    assert_eq!(m.entries[0].restart_count, 1);
}

#[test]
fn restart_on_failure_leaves_clean_exit_stopped() {
    // exit status zero: the sequence ends at Stopped, no restart
    let nodes = vec![service("svc", &[], SessionNodeRestart::restart_on_failure(50))];
    let mut m = SessionManager::new(nodes);
    assert!(matches!(m.poll_ready(), PollResult::Started(_)));
    m.on_spawned(0, 7, 0);
    m.on_exit(0, 0);
    assert_eq!(m.entries[0].phase, SessionNodePhase::Exited(0));
    assert_eq!(m.apply_restart_policy(0), RestartDecision::Stop);
    assert_eq!(m.entries[0].phase, SessionNodePhase::Stopped);
}

#[test]
fn no_restart_policy_stops_after_failure() {
    let nodes = vec![service("svc", &[], SessionNodeRestart::no_restart())];
    let mut m = SessionManager::new(nodes);
    assert!(matches!(m.poll_ready(), PollResult::Started(_)));
    m.on_spawn_failed(0);
    assert_eq!(
        m.entries[0].phase,
        SessionNodePhase::Failed(RuntimeFailure::SpawnFailed)
    );
    assert_eq!(m.apply_restart_policy(0), RestartDecision::Stop);
    assert_eq!(m.entries[0].phase, SessionNodePhase::Stopped);
}

#[test]
fn restart_on_exit_restarts_after_clean_exit() {
    let nodes = vec![service("svc", &[], SessionNodeRestart::restart_on_exit(10))];
    let mut m = SessionManager::new(nodes);
    assert!(matches!(m.poll_ready(), PollResult::Started(_)));
    m.on_spawned(0, 9, 0);
    m.on_exit(0, 0);
    assert_eq!(m.apply_restart_policy(0), RestartDecision::Restart(10));
    assert_eq!(m.entries[0].phase, SessionNodePhase::RestartPending);
}

#[test]
fn target_never_has_a_process() {
    let nodes = vec![target("session.target", &[])];
    let mut m = SessionManager::new(nodes);
    match m.poll_ready() {
        PollResult::SatisfiedTarget(i) => assert_eq!(i, 0),
        other => panic!("expected target satisfaction, got {:?}", other),
    }
    assert_eq!(m.entries[0].phase, SessionNodePhase::Satisfied);
    assert_eq!(m.entries[0].pid, None);
}

#[test]
fn dependent_waits_for_its_dependency() {
    // dependency stands first, as the loader orders them
    let nodes = vec![
        service("dep", &[], SessionNodeRestart::no_restart()),
        service("main", &["dep"], SessionNodeRestart::no_restart()),
    ];
    let mut m = SessionManager::new(nodes);
    // only the dependency may start
    match m.poll_ready() {
        PollResult::Started(cmd) => assert_eq!(cmd.index, 0),
        other => panic!("expected dep to start, got {:?}", other),
    }
    // the dependent stays Pending while the dependency is merely Starting
    assert!(matches!(m.poll_ready(), PollResult::Idle));
    assert_eq!(m.entries[1].phase, SessionNodePhase::Pending);
    m.on_spawned(0, 11, 0);
    // now the dependency is Running and the dependent may start
    match m.poll_ready() {
        PollResult::Started(cmd) => assert_eq!(cmd.index, 1),
        other => panic!("expected main to start, got {:?}", other),
    }
}

#[test]
fn service_behind_target_starts_after_it() {
    let nodes = vec![
        service("base", &[], SessionNodeRestart::no_restart()),
        target("ready.target", &["base"]),
        service("app", &["ready.target"], SessionNodeRestart::no_restart()),
    ];
    let mut m = SessionManager::new(nodes);
    match m.poll_ready() {
        PollResult::Started(cmd) => assert_eq!(cmd.index, 0),
        other => panic!("expected base to start, got {:?}", other),
    }
    m.on_spawned(0, 21, 0);
    assert!(matches!(m.poll_ready(), PollResult::SatisfiedTarget(1)));
    match m.poll_ready() {
        PollResult::Started(cmd) => assert_eq!(cmd.index, 2),
        other => panic!("expected app to start, got {:?}", other),
    }
}

#[test]
fn shutdown_signals_dependents_first() {
    let nodes = vec![
        service("dep", &[], SessionNodeRestart::no_restart()),
        service("mid", &["dep"], SessionNodeRestart::no_restart()),
        service("top", &["mid"], SessionNodeRestart::no_restart()),
    ];
    let mut m = SessionManager::new(nodes);
    for i in 0..3 {
        assert!(matches!(m.poll_ready(), PollResult::Started(_)));
        m.on_spawned(i, 100 + i as u64, 0);
    }
    let cmds = m.begin_shutdown();
    let order: Vec<usize> = cmds.iter().map(|c| c.index).collect();
    // strictly falling node order: every dependent before what it depends on
    assert_eq!(order, vec![2, 1, 0]);
    assert_eq!(cmds[0].pid, 102);
    assert_eq!(cmds[0].signal, Signal::SIGTERM);
    assert!(m.shutting_down);
}

#[test]
fn shutdown_suppresses_restart() {
    let nodes = vec![service("svc", &[], SessionNodeRestart::restart_on_exit(10))];
    let mut m = SessionManager::new(nodes);
    assert!(matches!(m.poll_ready(), PollResult::Started(_)));
    m.on_spawned(0, 5, 0);
    let cmds = m.begin_shutdown();
    assert_eq!(cmds.len(), 1);
    m.on_exit(0, 0);
    // an exit during shutdown never triggers a restart
    assert_eq!(m.apply_restart_policy(0), RestartDecision::Stop);
    assert_eq!(m.entries[0].phase, SessionNodePhase::Stopped);
}

#[test]
fn shutdown_stops_waiting_nodes() {
    let nodes = vec![
        service("dep", &[], SessionNodeRestart::no_restart()),
        service("main", &["dep"], SessionNodeRestart::no_restart()),
    ];
    let mut m = SessionManager::new(nodes);
    // nothing started yet: both Pending
    let cmds = m.begin_shutdown();
    assert!(cmds.is_empty());
    assert_eq!(m.entries[0].phase, SessionNodePhase::Stopped);
    assert_eq!(m.entries[1].phase, SessionNodePhase::Stopped);
    // nothing may advance once shutdown has begun
    assert!(matches!(m.poll_ready(), PollResult::Idle));
}

#[test]
fn restart_due_under_shutdown_stops() {
    let nodes = vec![service("svc", &[], SessionNodeRestart::restart_on_exit(10))];
    let mut m = SessionManager::new(nodes);
    assert!(matches!(m.poll_ready(), PollResult::Started(_)));
    m.on_spawned(0, 5, 0);
    m.on_exit(0, 1);
    assert_eq!(m.apply_restart_policy(0), RestartDecision::Restart(10));
    let _ = m.begin_shutdown();
    assert!(m.restart_due(0, 100).is_none());
    assert_eq!(m.entries[0].phase, SessionNodePhase::Stopped);
}

#[test]
fn session_status_reflects_phases() {
    let nodes = vec![
        service("a", &[], SessionNodeRestart::no_restart()),
        service("b", &[], SessionNodeRestart::no_restart()),
    ];
    let mut m = SessionManager::new(nodes);
    assert_eq!(m.session_status(), SessionStatus::Running);
    assert!(matches!(m.poll_ready(), PollResult::Started(_)));
    m.on_spawned(0, 1, 0);
    assert_eq!(m.session_status(), SessionStatus::Running);
    m.on_exit(0, 2);
    assert_eq!(m.session_status(), SessionStatus::Failed);
    assert_eq!(m.apply_restart_policy(0), RestartDecision::Stop);
    assert!(matches!(m.poll_ready(), PollResult::Started(_)));
    m.on_spawned(1, 2, 0);
    m.on_exit(1, 0);
    assert_eq!(m.apply_restart_policy(1), RestartDecision::Stop);
    assert_eq!(m.session_status(), SessionStatus::Exited);
}

#[test]
fn escalation_uses_kill_signal() {
    let nodes = vec![service("svc", &[], SessionNodeRestart::no_restart())];
    let mut m = SessionManager::new(nodes);
    assert!(matches!(m.poll_ready(), PollResult::Started(_)));
    m.on_spawned(0, 77, 0);
    let cmds = m.begin_shutdown();
    let kill = SessionManager::escalate(&cmds[0]);
    assert_eq!(kill.pid, 77);
    assert_eq!(kill.signal, Signal::SIGKILL);
}

#[test]
fn spawn_command_carries_configuration() {
    let mut node = service("svc", &[], SessionNodeRestart::no_restart());
    node.args = vec!["--flag".to_string()];
    node.environment = vec![("K".to_string(), "V".to_string())];
    let mut m = SessionManager::new(vec![node]);
    match m.poll_ready() {
        PollResult::Started(cmd) => {
            assert_eq!(cmd.command, "/bin/svc");
            assert_eq!(cmd.args, vec!["--flag".to_string()]);
            assert_eq!(cmd.environment, vec![("K".to_string(), "V".to_string())]);
        }
        other => panic!("expected a start, got {:?}", other),
    }
}

#[test]
fn pending_on_stopped_dependency_is_stalled() {
    let nodes = vec![
        service("dep", &[], SessionNodeRestart::no_restart()),
        service("main", &["dep"], SessionNodeRestart::no_restart()),
    ];
    let mut m = SessionManager::new(nodes);
    assert!(matches!(m.poll_ready(), PollResult::Started(_)));
    m.on_spawned(0, 1, 0);
    assert!(!m.stalled(1));
    m.on_exit(0, 9);
    assert_eq!(m.apply_restart_policy(0), RestartDecision::Stop);
    // the dependency is terminally stopped: the dependent can never start
    assert!(m.stalled(1));
    assert_eq!(m.entries[1].phase, SessionNodePhase::Pending);
    assert!(matches!(m.poll_ready(), PollResult::Idle));
}
