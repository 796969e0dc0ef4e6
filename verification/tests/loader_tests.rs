use login_ng_session::desc::{DirEntry, Directory, FileContent, NodeServiceDescriptor};
use login_ng_session::errors::NodeLoadingError;
use login_ng_session::loader::load_tree;
use login_ng_session::node::{
    merge_environment, shell_fallback_node, RestartKind, SessionNodeRestart, SessionNodeType,
    Signal,
};

fn desc(kind: &str, command: &str, deps: &[&str]) -> NodeServiceDescriptor {
    NodeServiceDescriptor {
        kind: kind.to_string(),
        group: None,
        command: command.to_string(),
        args: Vec::new(),
        stop_signal: Signal::SIGTERM,
        restart: SessionNodeRestart::no_restart(),
        dependencies: deps.iter().map(|d| d.to_string()).collect(),
        environment: Vec::new(),
    }
}

fn dir(entries: Vec<(&str, FileContent)>) -> Directory {
    Directory {
        entries: entries
            .into_iter()
            .map(|(n, f)| DirEntry { name: n.to_string(), file: f })
            .collect(),
    }
}

fn parsed(d: NodeServiceDescriptor) -> FileContent {
    FileContent::Parsed(d)
}

#[test]
fn two_node_graph_from_system_dir() {
    // user dir empty; system dir holds default.service depending on net.service
    let user_dir = dir(vec![]);
    let system_dir = dir(vec![
        ("default.service", parsed(desc("service", "/bin/session", &["net.service"]))),
        ("net.service", parsed(desc("service", "/bin/net", &[]))),
    ]);
    let dirs = vec![user_dir, system_dir];
    let nodes = load_tree(&dirs, &"default.service".to_string()).unwrap();
    assert_eq!(nodes.len(), 2);
    // dependencies stand before their dependents
    assert_eq!(nodes[0].name, "net.service");
    assert_eq!(nodes[1].name, "default.service");
    assert_eq!(nodes[0].command, "/bin/net");
    assert_eq!(nodes[1].command, "/bin/session");
    assert_eq!(nodes[1].dependencies, vec!["net.service".to_string()]);
    assert_eq!(nodes[0].kind, SessionNodeType::Service);
}

#[test]
fn earlier_directory_wins() {
    let user_dir = dir(vec![("default.service", parsed(desc("service", "/user/bin", &[])))]);
    let system_dir = dir(vec![("default.service", parsed(desc("service", "/system/bin", &[])))]);
    let dirs = vec![user_dir, system_dir];
    let nodes = load_tree(&dirs, &"default.service".to_string()).unwrap();
    assert_eq!(nodes.len(), 1);
    assert_eq!(nodes[0].command, "/user/bin");
}

#[test]
fn cycle_fails_with_cyclic_dependency() {
    let d = dir(vec![
        ("a.service", parsed(desc("service", "/bin/a", &["b.service"]))),
        ("b.service", parsed(desc("service", "/bin/b", &["a.service"]))),
    ]);
    let dirs = vec![d];
    let err = load_tree(&dirs, &"a.service".to_string()).unwrap_err();
    match err {
        NodeLoadingError::CyclicDependency(name) => {
            assert!(name == "a.service" || name == "b.service");
        }
        other => panic!("unexpected error: {:?}", other),
    }
}

#[test]
fn cycle_fails_from_either_root() {
    let d = dir(vec![
        ("a.service", parsed(desc("service", "/bin/a", &["b.service"]))),
        ("b.service", parsed(desc("service", "/bin/b", &["a.service"]))),
    ]);
    let dirs = vec![d];
    let err = load_tree(&dirs, &"b.service".to_string()).unwrap_err();
    match err {
        NodeLoadingError::CyclicDependency(name) => {
            assert!(name == "a.service" || name == "b.service");
        }
        other => panic!("unexpected error: {:?}", other),
    }
}

#[test]
fn loading_twice_is_identical() {
    let d = dir(vec![
        ("default.service", parsed(desc("target", "", &["x.service", "y.service"]))),
        ("x.service", parsed(desc("service", "/bin/x", &[]))),
        ("y.service", parsed(desc("service", "/bin/y", &["x.service"]))),
    ]);
    let dirs = vec![d];
    let first = load_tree(&dirs, &"default.service".to_string()).unwrap();
    let second = load_tree(&dirs, &"default.service".to_string()).unwrap();
    assert_eq!(first, second);
}

#[test]
fn absent_root_reports_file_not_found() {
    let dirs = vec![dir(vec![]), dir(vec![])];
    let err = load_tree(&dirs, &"default.service".to_string()).unwrap_err();
    assert_eq!(err, NodeLoadingError::FileNotFound("default.service".to_string()));
}

#[test]
fn shell_fallback_after_absent_root() {
    // the caller substitutes the single-node shell fallback
    let dirs: Vec<Directory> = vec![dir(vec![])];
    let root = "default.service".to_string();
    let err = load_tree(&dirs, &root).unwrap_err();
    assert_eq!(err, NodeLoadingError::FileNotFound(root.clone()));
    let node = shell_fallback_node(root.clone(), "/bin/bash".to_string());
    assert_eq!(node.name, "default.service");
    assert_eq!(node.kind, SessionNodeType::Service);
    assert_eq!(node.command, "/bin/bash");
    assert!(node.args.is_empty());
    assert_eq!(node.stop_signal, Signal::SIGTERM);
    assert_eq!(node.restart.kind, RestartKind::NoRestart);
    assert!(node.dependencies.is_empty());
}

#[test]
fn missing_dependency_is_an_error() {
    let d = dir(vec![("default.service", parsed(desc("service", "/bin/s", &["net.service"])))]);
    let dirs = vec![d];
    let err = load_tree(&dirs, &"default.service".to_string()).unwrap_err();
    assert_eq!(err, NodeLoadingError::FileNotFound("net.service".to_string()));
}

#[test]
fn malformed_descriptor_is_an_error() {
    let d = dir(vec![("default.service", FileContent::Malformed)]);
    let dirs = vec![d];
    let err = load_tree(&dirs, &"default.service".to_string()).unwrap_err();
    assert_eq!(err, NodeLoadingError::MalformedDescriptor("default.service".to_string()));
}

#[test]
fn malformed_in_earlier_directory_wins_over_later_parse() {
    // override by first match applies to broken files too: the earlier
    // directory's file wins and its parse failure is reported
    let user_dir = dir(vec![("default.service", FileContent::Malformed)]);
    let system_dir = dir(vec![("default.service", parsed(desc("service", "/bin/ok", &[])))]);
    let dirs = vec![user_dir, system_dir];
    let err = load_tree(&dirs, &"default.service".to_string()).unwrap_err();
    assert_eq!(err, NodeLoadingError::MalformedDescriptor("default.service".to_string()));
}

#[test]
fn unrecognized_kind_is_an_error() {
    let d = dir(vec![("default.service", parsed(desc("daemon", "/bin/s", &[])))]);
    let dirs = vec![d];
    let err = load_tree(&dirs, &"default.service".to_string()).unwrap_err();
    assert_eq!(err, NodeLoadingError::InvalidKind("daemon".to_string()));
}

#[test]
fn chain_loads_in_dependency_order() {
    let d = dir(vec![
        ("a.service", parsed(desc("service", "/bin/a", &["b.service"]))),
        ("b.service", parsed(desc("service", "/bin/b", &["c.service"]))),
        ("c.service", parsed(desc("service", "/bin/c", &[]))),
    ]);
    let dirs = vec![d];
    let nodes = load_tree(&dirs, &"a.service".to_string()).unwrap();
    let names: Vec<&str> = nodes.iter().map(|n| n.name.as_str()).collect();
    assert_eq!(names, vec!["c.service", "b.service", "a.service"]);
}

#[test]
fn diamond_loads_each_node_once() {
    let d = dir(vec![
        ("top.target", parsed(desc("target", "", &["left.service", "right.service"]))),
        ("left.service", parsed(desc("service", "/bin/l", &["base.service"]))),
        ("right.service", parsed(desc("service", "/bin/r", &["base.service"]))),
        ("base.service", parsed(desc("service", "/bin/base", &[]))),
    ]);
    let dirs = vec![d];
    let nodes = load_tree(&dirs, &"top.target".to_string()).unwrap();
    assert_eq!(nodes.len(), 4);
    let names: Vec<&str> = nodes.iter().map(|n| n.name.as_str()).collect();
    assert_eq!(names, vec!["base.service", "left.service", "right.service", "top.target"]);
    assert_eq!(nodes[3].kind, SessionNodeType::Target);
}

#[test]
fn merge_environment_overrides_win() {
    let base = vec![
        ("PATH".to_string(), "/usr/bin".to_string()),
        ("HOME".to_string(), "/root".to_string()),
    ];
    let overrides = vec![
        ("HOME".to_string(), "/home/user".to_string()),
        ("LANG".to_string(), "C".to_string()),
    ];
    let merged = merge_environment(&base, &overrides);
    // the merge is the base with the overrides appended: an override entry
    // stands later and therefore wins on a repeated key
    assert_eq!(merged.len(), 4);
    assert_eq!(merged[0], ("PATH".to_string(), "/usr/bin".to_string()));
    assert_eq!(merged[1], ("HOME".to_string(), "/root".to_string()));
    assert_eq!(merged[2], ("HOME".to_string(), "/home/user".to_string()));
    assert_eq!(merged[3], ("LANG".to_string(), "C".to_string()));
    let last_home = merged.iter().rev().find(|(k, _)| k == "HOME").unwrap();
    assert_eq!(last_home.1, "/home/user");
}

#[test]
fn error_descriptions_name_the_node() {
    let e = NodeLoadingError::CyclicDependency("a.service".to_string());
    let text = e.describe();
    assert!(text.contains("a.service"));
    let e = NodeLoadingError::FileNotFound("net.service".to_string());
    assert!(e.describe().contains("net.service"));
}
