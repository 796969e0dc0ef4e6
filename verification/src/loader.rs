//! The graph loader: resolves a root name against the ordered search
//! directories, recursively loads every declared dependency, detects cycles
//! with an in-progress marking, and produces a validated node list in which
//! every node's dependencies stand earlier than the node itself.

use vstd::prelude::*;
use crate::desc::{
    Directory, FileContent, NodeServiceDescriptor, DescView, find_spec, find_descriptor, all_names,
    lemma_all_names_finite, lemma_found_name_in_all_names,
};
use crate::node::{SessionNode, SessionNodeType, NodeView, names_of};
use crate::errors::{NodeLoadingError, LoadErrView};

verus! {

/// The node kind a raw kind string denotes, if it is recognized.
pub open spec fn kind_of(k: Seq<char>) -> Option<SessionNodeType> {
    if k == "service"@ {
        Some(SessionNodeType::Service)
    } else if k == "target"@ {
        Some(SessionNodeType::Target)
    } else {
        None
    }
}

/// Recognizes a raw kind value.
pub fn parse_kind(kind: &String) -> (r: Option<SessionNodeType>)
    ensures
        r == kind_of(kind@),
{
    let service: String = "service".to_owned();
    if *kind == service {
        Some(SessionNodeType::Service)
    } else {
        let target: String = "target".to_owned();
        if *kind == target {
            Some(SessionNodeType::Target)
        } else {
            None
        }
    }
}

/// The view of the node a winning descriptor builds under a name.
pub open spec fn node_view_of(name: Seq<char>, d: DescView, kind: SessionNodeType) -> NodeView {
    NodeView {
        name,
        kind,
        group: d.group,
        command: d.command,
        args: d.args,
        stop_signal: d.stop_signal,
        restart: d.restart,
        dependencies: d.dependencies,
        environment: d.environment,
    }
}

/// The names of a sequence of node views.
pub open spec fn node_names(ns: Seq<NodeView>) -> Seq<Seq<char>> {
    ns.map_values(|n: NodeView| n.name)
}

/// The views of a sequence of nodes.
pub open spec fn views_of_nodes(s: Seq<SessionNode>) -> Seq<NodeView> {
    s.map_values(|n: SessionNode| n@)
}

/// A well-formed in-progress marking: no name twice, and every marked name is
/// one some directory resolves.
pub open spec fn stack_ok(dirs: Seq<Directory>, stack: Seq<Seq<char>>) -> bool {
    &&& stack.no_duplicates()
    &&& forall|i: int| 0 <= i < stack.len() ==> all_names(dirs).contains(#[trigger] stack[i])
}

/// An in-progress marking can never hold more names than the directories
/// resolve.
pub proof fn lemma_stack_bound(dirs: Seq<Directory>, stack: Seq<Seq<char>>)
    requires
        stack_ok(dirs, stack),
    ensures
        stack.len() <= all_names(dirs).len(),
{
    lemma_all_names_finite(dirs);
    stack.unique_seq_to_set();
    assert forall|x: Seq<char>| stack.to_set().contains(x) implies all_names(dirs).contains(x) by {
        let i = choose|i: int| 0 <= i < stack.len() && stack[i] == x;
        assert(all_names(dirs).contains(stack[i]));
    }
    vstd::set_lib::lemma_len_subset(stack.to_set(), all_names(dirs));
}

/// Marking one more resolvable, not-yet-marked name keeps the marking
/// well formed.
pub proof fn lemma_push_stack_ok(dirs: Seq<Directory>, stack: Seq<Seq<char>>, name: Seq<char>)
    requires
        stack_ok(dirs, stack),
        !stack.contains(name),
        all_names(dirs).contains(name),
    ensures
        stack_ok(dirs, stack.push(name)),
{
    let s2 = stack.push(name);
    assert forall|i: int, j: int|
        0 <= i < s2.len() && 0 <= j < s2.len() && i != j implies s2[i] != s2[j] by {
        if i < stack.len() && j < stack.len() {
            assert(s2[i] == stack[i] && s2[j] == stack[j]);
        } else if j == stack.len() {
            assert(s2[j] == name);
            assert(s2[i] == stack[i]);
            if stack[i] == name {
                assert(stack.contains(name));
            }
        } else {
            assert(s2[i] == name);
            assert(s2[j] == stack[j]);
            if stack[j] == name {
                assert(stack.contains(name));
            }
        }
    }
    assert forall|i: int| 0 <= i < s2.len() implies all_names(dirs).contains(#[trigger] s2[i]) by {
        if i < stack.len() {
            assert(s2[i] == stack[i]);
        } else {
            assert(s2[i] == name);
        }
    }
}

/// What loading one name does to an already-loaded list, under an in-progress
/// marking: the definitional model of the recursive loader. A name already
/// loaded is never reloaded; a marked name closes a cycle; otherwise the first
/// directory holding the name wins, the descriptor is validated, every
/// declared dependency is loaded in order, and the node itself is appended
/// last.
pub open spec fn load_spec(
    dirs: Seq<Directory>,
    name: Seq<char>,
    loaded: Seq<NodeView>,
    stack: Seq<Seq<char>>,
) -> Result<Seq<NodeView>, LoadErrView>
    decreases all_names(dirs).len() - stack.len(), 0int,
        when stack_ok(dirs, stack)
{
    if node_names(loaded).contains(name) {
        Ok(loaded)
    } else if stack.contains(name) {
        Err(LoadErrView::CyclicDependency(name))
    } else {
        match find_spec(dirs, name) {
            None => Err(LoadErrView::FileNotFound(name)),
            Some(FileContent::Malformed) => Err(LoadErrView::MalformedDescriptor(name)),
            Some(FileContent::Parsed(d)) => match kind_of(d@.kind) {
                None => Err(LoadErrView::InvalidKind(d@.kind)),
                Some(kind) => {
                    proof {
                        lemma_found_name_in_all_names(dirs, name);
                        lemma_push_stack_ok(dirs, stack, name);
                        lemma_stack_bound(dirs, stack.push(name));
                    }
                    match load_deps_spec(dirs, d@.dependencies, loaded, stack.push(name)) {
                        Err(e) => Err(e),
                        Ok(l2) => Ok(l2.push(node_view_of(name, d@, kind))),
                    }
                },
            },
        }
    }
}

/// Loads a list of dependency names in order, threading the loaded list
/// through; the first failure wins.
pub open spec fn load_deps_spec(
    dirs: Seq<Directory>,
    deps: Seq<Seq<char>>,
    loaded: Seq<NodeView>,
    stack: Seq<Seq<char>>,
) -> Result<Seq<NodeView>, LoadErrView>
    decreases all_names(dirs).len() - stack.len(), 1int + deps.len(),
        when stack_ok(dirs, stack)
{
    if deps.len() == 0 {
        Ok(loaded)
    } else {
        match load_spec(dirs, deps[0], loaded, stack) {
            Err(e) => Err(e),
            Ok(l2) => load_deps_spec(dirs, deps.skip(1), l2, stack),
        }
    }
}

/// What loading the whole tree from a root name yields: the model the
/// executable loader is proved against.
pub open spec fn load_tree_spec(dirs: Seq<Directory>, root: Seq<char>) -> Result<
    Seq<NodeView>,
    LoadErrView,
> {
    load_spec(dirs, root, Seq::empty(), Seq::empty())
}

/// A loaded node view is exactly what the directories resolve its name to:
/// the first directory holding the name wins, and every field comes from that
/// descriptor.
pub open spec fn resolved_ok(dirs: Seq<Directory>, n: NodeView) -> bool {
    match find_spec(dirs, n.name) {
        Some(FileContent::Parsed(d)) => kind_of(d@.kind) == Some(n.kind) && n == node_view_of(
            n.name,
            d@,
            n.kind,
        ),
        _ => false,
    }
}

/// Some node strictly before position `i` bears the name `x`.
pub open spec fn has_earlier(ns: Seq<NodeView>, i: int, x: Seq<char>) -> bool {
    exists|j: int| 0 <= j < i && ns[j].name == x
}

/// The dependencies of the node at position `i` all name nodes that stand
/// strictly earlier in the list.
pub open spec fn deps_before(ns: Seq<NodeView>, i: int) -> bool {
    forall|k: int|
        0 <= k < ns[i].dependencies.len() ==> has_earlier(ns, i, #[trigger] ns[i].dependencies[k])
}

/// A validated node list: names are unique, every node is exactly what the
/// directories resolve its name to, and every node's dependencies stand
/// earlier in the list — so the list is a topological order and the graph is
/// acyclic.
pub open spec fn nodes_inv(dirs: Seq<Directory>, ns: Seq<NodeView>) -> bool {
    &&& node_names(ns).no_duplicates()
    &&& forall|i: int| 0 <= i < ns.len() ==> resolved_ok(dirs, #[trigger] ns[i])
    &&& forall|i: int| 0 <= i < ns.len() ==> #[trigger] deps_before(ns, i)
}

/// No loaded node bears a marked name.
pub open spec fn names_disjoint(ns: Seq<NodeView>, stack: Seq<Seq<char>>) -> bool {
    forall|x: Seq<char>| stack.contains(x) ==> !node_names(ns).contains(x)
}

/// A name contained among a prefix's node names is contained among the whole
/// list's.
proof fn lemma_prefix_contains(l1: Seq<NodeView>, l2: Seq<NodeView>, x: Seq<char>)
    requires
        l1.is_prefix_of(l2),
        node_names(l1).contains(x),
    ensures
        node_names(l2).contains(x),
{
    let i = choose|i: int| 0 <= i < l1.len() && node_names(l1)[i] == x;
    assert(l1[i] == l2.subrange(0, l1.len() as int)[i]);
    assert(l2[i].name == x);
    assert(node_names(l2)[i] == x);
}

/// Loading preserves the validated-list invariant; on success the result
/// extends what was loaded, holds the requested name, and still bears no
/// marked name.
proof fn lemma_load_spec_inv(
    dirs: Seq<Directory>,
    name: Seq<char>,
    loaded: Seq<NodeView>,
    stack: Seq<Seq<char>>,
)
    requires
        stack_ok(dirs, stack),
        nodes_inv(dirs, loaded),
        names_disjoint(loaded, stack),
    ensures
        match load_spec(dirs, name, loaded, stack) {
            Ok(l2) => nodes_inv(dirs, l2) && loaded.is_prefix_of(l2) && node_names(l2).contains(
                name,
            ) && names_disjoint(l2, stack),
            Err(_) => true,
        },
    decreases all_names(dirs).len() - stack.len(), 0int,
{
    if node_names(loaded).contains(name) {
        assert(loaded =~= loaded.subrange(0, loaded.len() as int));
    } else if stack.contains(name) {
    } else {
        match find_spec(dirs, name) {
            None => {},
            Some(FileContent::Malformed) => {},
            Some(FileContent::Parsed(d)) => match kind_of(d@.kind) {
                None => {},
                Some(kind) => {
                    lemma_found_name_in_all_names(dirs, name);
                    lemma_push_stack_ok(dirs, stack, name);
                    lemma_stack_bound(dirs, stack.push(name));
                    let stack2 = stack.push(name);
                    assert(names_disjoint(loaded, stack2)) by {
                        assert forall|x: Seq<char>| stack2.contains(x) implies !node_names(
                            loaded,
                        ).contains(x) by {
                            let i = choose|i: int| 0 <= i < stack2.len() && stack2[i] == x;
                            if i < stack.len() {
                                assert(stack.contains(x));
                            } else {
                                assert(x == name);
                            }
                        }
                    }
                    lemma_load_deps_spec_inv(dirs, d@.dependencies, loaded, stack2);
                    match load_deps_spec(dirs, d@.dependencies, loaded, stack2) {
                        Err(_) => {},
                        Ok(l2) => {
                            let nv = node_view_of(name, d@, kind);
                            let l3 = l2.push(nv);
                            assert(stack2.contains(name)) by {
                                assert(stack2[stack.len() as int] == name);
                            }
                            assert(!node_names(l2).contains(name));
                            // names stay unique
                            assert(node_names(l3) =~= node_names(l2).push(name));
                            assert(node_names(l3).no_duplicates()) by {
                                let s2 = node_names(l2).push(name);
                                assert forall|i: int, j: int|
                                    0 <= i < s2.len() && 0 <= j < s2.len() && i != j implies s2[i]
                                    != s2[j] by {
                                    if i < s2.len() - 1 && j < s2.len() - 1 {
                                    } else if j == s2.len() - 1 {
                                        if s2[i] == name {
                                            assert(node_names(l2).contains(name));
                                        }
                                    } else {
                                        if s2[j] == name {
                                            assert(node_names(l2).contains(name));
                                        }
                                    }
                                }
                            }
                            // every node is still what the directories resolve
                            assert forall|i: int| 0 <= i < l3.len() implies resolved_ok(
                                dirs,
                                #[trigger] l3[i],
                            ) by {
                                if i < l2.len() {
                                    assert(l3[i] == l2[i]);
                                } else {
                                    assert(l3[i] == nv);
                                }
                            }
                            // dependencies still stand earlier
                            assert forall|i: int| 0 <= i < l3.len() implies #[trigger] deps_before(
                                l3,
                                i,
                            ) by {
                                assert forall|k: int|
                                    0 <= k < l3[i].dependencies.len() implies has_earlier(
                                    l3,
                                    i,
                                    #[trigger] l3[i].dependencies[k],
                                ) by {
                                    if i < l2.len() {
                                        assert(l3[i] == l2[i]);
                                        assert(deps_before(l2, i));
                                        assert(0 <= k < l2[i].dependencies.len());
                                        let dk = l2[i].dependencies[k];
                                        assert(has_earlier(l2, i, dk));
                                        let j = choose|j: int| 0 <= j < i && l2[j].name == dk;
                                        assert(l3[j] == l2[j]);
                                        assert(0 <= j < i && l3[j].name == l3[i].dependencies[k]);
                                    } else {
                                        assert(l3[i] == nv);
                                        assert(nv.dependencies[k] == d@.dependencies[k]);
                                        assert(node_names(l2).contains(d@.dependencies[k]));
                                        let j = choose|j: int|
                                            0 <= j < l2.len() && node_names(l2)[j]
                                                == nv.dependencies[k];
                                        assert(node_names(l2)[j] == l2[j].name);
                                        assert(l3[j] == l2[j]);
                                        assert(0 <= j < i && l3[j].name == l3[i].dependencies[k]);
                                    }
                                }
                                assert(deps_before(l3, i));
                            }
                            // the result holds the requested name
                            assert(node_names(l3)[l2.len() as int] == name);
                            assert(node_names(l3).contains(name));
                            // prefix of the result
                            assert(loaded.is_prefix_of(l2));
                            assert(l2 =~= l3.subrange(0, l2.len() as int));
                            assert(loaded =~= l3.subrange(0, loaded.len() as int)) by {
                                assert(loaded =~= l2.subrange(0, loaded.len() as int));
                            }
                            // still no marked name among the nodes
                            assert forall|x: Seq<char>| stack.contains(x) implies !node_names(
                                l3,
                            ).contains(x) by {
                                assert(stack2.contains(x)) by {
                                    let i = choose|i: int| 0 <= i < stack.len() && stack[i] == x;
                                    assert(stack2[i] == x);
                                }
                                assert(!node_names(l2).contains(x));
                                if node_names(l3).contains(x) {
                                    let i = choose|i: int|
                                        0 <= i < l3.len() && node_names(l3)[i] == x;
                                    if i < l2.len() {
                                        assert(node_names(l2)[i] == x);
                                    } else {
                                        assert(x == name);
                                        assert(!stack.contains(name));
                                    }
                                }
                            }
                        },
                    }
                },
            },
        }
    }
}

/// Loading a dependency list preserves the validated-list invariant; on
/// success every listed name is among the loaded nodes.
proof fn lemma_load_deps_spec_inv(
    dirs: Seq<Directory>,
    deps: Seq<Seq<char>>,
    loaded: Seq<NodeView>,
    stack: Seq<Seq<char>>,
)
    requires
        stack_ok(dirs, stack),
        nodes_inv(dirs, loaded),
        names_disjoint(loaded, stack),
    ensures
        match load_deps_spec(dirs, deps, loaded, stack) {
            Ok(l2) => nodes_inv(dirs, l2) && loaded.is_prefix_of(l2) && names_disjoint(l2, stack)
                && (forall|k: int|
                0 <= k < deps.len() ==> node_names(l2).contains(#[trigger] deps[k])),
            Err(_) => true,
        },
    decreases all_names(dirs).len() - stack.len(), 1int + deps.len(),
{
    if deps.len() == 0 {
        assert(loaded =~= loaded.subrange(0, loaded.len() as int));
    } else {
        lemma_load_spec_inv(dirs, deps[0], loaded, stack);
        match load_spec(dirs, deps[0], loaded, stack) {
            Err(_) => {},
            Ok(l1) => {
                lemma_load_deps_spec_inv(dirs, deps.skip(1), l1, stack);
                match load_deps_spec(dirs, deps.skip(1), l1, stack) {
                    Err(_) => {},
                    Ok(l2) => {
                        assert(loaded.is_prefix_of(l2)) by {
                            assert(loaded =~= l1.subrange(0, loaded.len() as int));
                            assert(l1 =~= l2.subrange(0, l1.len() as int));
                            assert(loaded =~= l2.subrange(0, loaded.len() as int));
                        }
                        assert forall|k: int| 0 <= k < deps.len() implies node_names(l2).contains(
                            #[trigger] deps[k],
                        ) by {
                            if k == 0 {
                                lemma_prefix_contains(l1, l2, deps[0]);
                            } else {
                                assert(deps.skip(1)[k - 1] == deps[k]);
                            }
                        }
                    },
                }
            },
        }
    }
}

/// Loading is idempotent: the loaded result is a function of the directories
/// and the root name alone, so two loads of the same acyclic graph that both
/// succeed yield structurally identical node lists.
pub proof fn lemma_load_idempotent(
    dirs: Seq<Directory>,
    root: Seq<char>,
    r1: Seq<NodeView>,
    r2: Seq<NodeView>,
)
    requires
        load_tree_spec(dirs, root) == Ok::<Seq<NodeView>, LoadErrView>(r1),
        load_tree_spec(dirs, root) == Ok::<Seq<NodeView>, LoadErrView>(r2),
    ensures
        r1 == r2,
{
}

/// Loading from `x` when `x` and `y` name each other as their sole
/// dependencies fails with `CyclicDependency(x)`: the resolution path runs
/// x, y and then meets x again, which closes the cycle.
proof fn lemma_two_cycle_from(
    dirs: Seq<Directory>,
    x: Seq<char>,
    y: Seq<char>,
    dx: NodeServiceDescriptor,
    dy: NodeServiceDescriptor,
)
    requires
        x != y,
        find_spec(dirs, x) == Some(FileContent::Parsed(dx)),
        find_spec(dirs, y) == Some(FileContent::Parsed(dy)),
        kind_of(dx@.kind) is Some,
        kind_of(dy@.kind) is Some,
        dx@.dependencies =~= seq![y],
        dy@.dependencies =~= seq![x],
    ensures
        load_tree_spec(dirs, x) == Err::<Seq<NodeView>, LoadErrView>(
            LoadErrView::CyclicDependency(x),
        ),
{
    let e0 = Seq::<NodeView>::empty();
    let s0 = Seq::<Seq<char>>::empty();
    let err = Err::<Seq<NodeView>, LoadErrView>(LoadErrView::CyclicDependency(x));
    lemma_found_name_in_all_names(dirs, x);
    lemma_found_name_in_all_names(dirs, y);
    assert(node_names(e0).len() == 0);
    assert(forall|z: Seq<char>| !node_names(e0).contains(z));
    assert(forall|z: Seq<char>| !s0.contains(z));
    assert(stack_ok(dirs, s0));
    let s1 = s0.push(x);
    lemma_push_stack_ok(dirs, s0, x);
    assert(s1[0] == x);
    assert(!s1.contains(y)) by {
        if s1.contains(y) {
            let i = choose|i: int| 0 <= i < s1.len() && s1[i] == y;
            assert(i == 0);
        }
    }
    let s2 = s1.push(y);
    lemma_push_stack_ok(dirs, s1, y);
    // innermost step: x is marked in-progress, so the cycle closes at x
    assert(s2.contains(x)) by {
        assert(s2[0] == x);
    }
    assert(load_spec(dirs, x, e0, s2) == err);
    // resolving y's sole dependency x therefore fails
    assert(dy@.dependencies[0] == x);
    assert(load_deps_spec(dirs, dy@.dependencies, e0, s2) == err);
    // so loading y under the marking of x fails
    assert(s1.contains(x)) by {
        assert(s1[0] == x);
    }
    assert(load_spec(dirs, y, e0, s1) == err);
    // so resolving x's sole dependency y fails
    assert(dx@.dependencies[0] == y);
    assert(load_deps_spec(dirs, dx@.dependencies, e0, s1) == err);
    // and the whole load from x fails with the cycle
    assert(load_spec(dirs, x, e0, s0) == err);
}

/// Loading a graph holding a two-node cycle — each of `a` and `b` names the
/// other as its sole dependency — fails with `CyclicDependency` naming
/// either `a` or `b`, whichever of the two the load was rooted at.
pub proof fn lemma_cycle_fails(
    dirs: Seq<Directory>,
    a: Seq<char>,
    b: Seq<char>,
    da: NodeServiceDescriptor,
    db: NodeServiceDescriptor,
    root: Seq<char>,
)
    requires
        a != b,
        find_spec(dirs, a) == Some(FileContent::Parsed(da)),
        find_spec(dirs, b) == Some(FileContent::Parsed(db)),
        kind_of(da@.kind) is Some,
        kind_of(db@.kind) is Some,
        da@.dependencies =~= seq![b],
        db@.dependencies =~= seq![a],
        root == a || root == b,
    ensures
        load_tree_spec(dirs, root) == Err::<Seq<NodeView>, LoadErrView>(
            LoadErrView::CyclicDependency(a),
        ) || load_tree_spec(dirs, root) == Err::<Seq<NodeView>, LoadErrView>(
            LoadErrView::CyclicDependency(b),
        ),
{
    if root == a {
        lemma_two_cycle_from(dirs, a, b, da, db);
    } else {
        lemma_two_cycle_from(dirs, b, a, db, da);
    }
}

/// Pushing a string onto a list appends its view to the list of views.
proof fn lemma_names_of_push(s: Seq<String>, x: String)
    ensures
        names_of(s.push(x)) =~= names_of(s).push(x@),
{
}

/// Pushing a node onto a list appends its view to the list of views.
proof fn lemma_views_push(s: Seq<SessionNode>, n: SessionNode)
    ensures
        views_of_nodes(s.push(n)) =~= views_of_nodes(s).push(n@),
{
}

/// Whether some string of the list bears the given view.
fn vec_contains_name(v: &Vec<String>, name: &String) -> (r: bool)
    ensures
        r == names_of(v@).contains(name@),
{
    let n = v.len();
    for i in 0..n
        invariant
            n == v@.len(),
            forall|k: int| 0 <= k < i ==> names_of(v@)[k] != name@,
    {
        proof {
            assert(names_of(v@)[i as int] == v@[i as int]@);
        }
        if v[i] == *name {
            return true;
        }
    }
    proof {
        if names_of(v@).contains(name@) {
            let k = choose|k: int| 0 <= k < names_of(v@).len() && names_of(v@)[k] == name@;
            assert(names_of(v@)[k] != name@);
        }
    }
    false
}

/// Whether some already-loaded node bears the given name.
fn nodes_contains_name(v: &Vec<SessionNode>, name: &String) -> (r: bool)
    ensures
        r == node_names(views_of_nodes(v@)).contains(name@),
{
    let n = v.len();
    for i in 0..n
        invariant
            n == v@.len(),
            forall|k: int| 0 <= k < i ==> node_names(views_of_nodes(v@))[k] != name@,
    {
        proof {
            assert(views_of_nodes(v@)[i as int] == v@[i as int]@);
            assert(node_names(views_of_nodes(v@))[i as int] == v@[i as int].name@);
        }
        if v[i].name == *name {
            return true;
        }
    }
    proof {
        if node_names(views_of_nodes(v@)).contains(name@) {
            let k = choose|k: int|
                0 <= k < node_names(views_of_nodes(v@)).len() && node_names(views_of_nodes(v@))[k]
                    == name@;
            assert(node_names(views_of_nodes(v@))[k] != name@);
        }
    }
    false
}

/// Clones a list of strings, value for value.
pub(crate) fn clone_strings(v: &Vec<String>) -> (r: Vec<String>)
    ensures
        r@ == v@,
{
    let n = v.len();
    let mut r: Vec<String> = Vec::new();
    for i in 0..n
        invariant
            n == v@.len(),
            r@ =~= v@.subrange(0, i as int),
    {
        r.push(v[i].clone());
        proof {
            assert(r@ =~= v@.subrange(0, i as int + 1));
        }
    }
    proof {
        assert(r@ =~= v@);
    }
    r
}

/// Clones a list of environment entries, value for value.
pub(crate) fn clone_env(v: &Vec<(String, String)>) -> (r: Vec<(String, String)>)
    ensures
        r@ == v@,
{
    let n = v.len();
    let mut r: Vec<(String, String)> = Vec::new();
    for i in 0..n
        invariant
            n == v@.len(),
            r@ =~= v@.subrange(0, i as int),
    {
        let entry = (v[i].0.clone(), v[i].1.clone());
        proof {
            assert(entry == v@[i as int]);
        }
        r.push(entry);
        proof {
            assert(r@ =~= v@.subrange(0, i as int + 1));
        }
    }
    proof {
        assert(r@ =~= v@);
    }
    r
}

/// Clones an optional string, value for value.
fn clone_group(g: &Option<String>) -> (r: Option<String>)
    ensures
        r == *g,
{
    match g {
        Some(s) => Some(s.clone()),
        None => None,
    }
}

/// Loads the node `name` and, recursively, everything it depends on, into
/// `nodes`, using `in_progress` as the cycle-detecting marking. Behaves
/// exactly as `load_spec` says: the in-progress marking is restored on every
/// path, and on success `nodes` has grown by the newly loaded nodes, every
/// one after its dependencies.
fn load_node(
    dirs: &Vec<Directory>,
    name: &String,
    nodes: &mut Vec<SessionNode>,
    in_progress: &mut Vec<String>,
) -> (r: Result<(), NodeLoadingError>)
    requires
        stack_ok(dirs@, names_of(old(in_progress)@)),
    ensures
        final(in_progress)@ == old(in_progress)@,
        match r {
            Ok(()) => load_spec(
                dirs@,
                name@,
                views_of_nodes(old(nodes)@),
                names_of(old(in_progress)@),
            ) == Ok::<Seq<NodeView>, LoadErrView>(views_of_nodes(final(nodes)@)),
            Err(e) => load_spec(
                dirs@,
                name@,
                views_of_nodes(old(nodes)@),
                names_of(old(in_progress)@),
            ) == Err::<Seq<NodeView>, LoadErrView>(e@),
        },
    decreases all_names(dirs@).len() - old(in_progress)@.len(),
{
    let ghost stack0 = names_of(in_progress@);
    let ghost loaded0 = views_of_nodes(nodes@);
    if nodes_contains_name(nodes, name) {
        return Ok(());
    }
    if vec_contains_name(in_progress, name) {
        return Err(NodeLoadingError::CyclicDependency(name.clone()));
    }
    let file = match find_descriptor(dirs, name) {
        None => {
            return Err(NodeLoadingError::FileNotFound(name.clone()));
        },
        Some(f) => f,
    };
    let desc = match file {
        FileContent::Malformed => {
            return Err(NodeLoadingError::MalformedDescriptor(name.clone()));
        },
        FileContent::Parsed(dd) => dd,
    };
    proof {
        assert(*file == FileContent::Parsed(*desc));
    }
    let kind = match parse_kind(&desc.kind) {
        None => {
            return Err(NodeLoadingError::InvalidKind(desc.kind.clone()));
        },
        Some(k) => k,
    };
    proof {
        lemma_found_name_in_all_names(dirs@, name@);
        lemma_push_stack_ok(dirs@, stack0, name@);
        lemma_stack_bound(dirs@, stack0.push(name@));
    }
    let ghost stack1 = stack0.push(name@);
    in_progress.push(name.clone());
    proof {
        lemma_names_of_push(old(in_progress)@, *name);
        assert(names_of(in_progress@) =~= stack1);
    }
    let deps_n = desc.dependencies.len();
    let ghost depviews = names_of(desc.dependencies@);
    proof {
        assert(depviews.skip(0) =~= depviews);
    }
    for i in 0..deps_n
        invariant
            deps_n == desc.dependencies@.len(),
            stack_ok(dirs@, stack0),
            stack_ok(dirs@, stack1),
            stack0 == names_of(old(in_progress)@),
            stack1 == stack0.push(name@),
            loaded0 == views_of_nodes(old(nodes)@),
            !node_names(loaded0).contains(name@),
            !stack0.contains(name@),
            find_spec(dirs@, name@) == Some(FileContent::Parsed(*desc)),
            kind_of(desc@.kind) == Some(kind),
            in_progress@ == old(in_progress)@.push(*name),
            names_of(in_progress@) == stack1,
            depviews == names_of(desc.dependencies@),
            depviews == desc@.dependencies,
            load_deps_spec(dirs@, depviews.skip(i as int), views_of_nodes(nodes@), stack1)
                == load_deps_spec(dirs@, depviews, loaded0, stack1),
    {
        let ghost before = views_of_nodes(nodes@);
        proof {
            lemma_stack_bound(dirs@, stack1);
            assert(depviews.skip(i as int)[0] == depviews[i as int]);
            assert(depviews[i as int] == desc.dependencies@[i as int]@);
        }
        match load_node(dirs, &desc.dependencies[i], nodes, in_progress) {
            Ok(()) => {
                proof {
                    assert(depviews.skip(i as int).skip(1) =~= depviews.skip(i as int + 1));
                }
            },
            Err(e) => {
                proof {
                    assert(load_deps_spec(dirs@, depviews.skip(i as int), before, stack1)
                        == Err::<Seq<NodeView>, LoadErrView>(e@));
                }
                in_progress.pop();
                proof {
                    assert(in_progress@ =~= old(in_progress)@);
                }
                return Err(e);
            },
        }
    }
    proof {
        assert(depviews.skip(deps_n as int).len() == 0);
        assert(load_deps_spec(dirs@, depviews, loaded0, stack1) == Ok::<
            Seq<NodeView>,
            LoadErrView,
        >(views_of_nodes(nodes@)));
    }
    in_progress.pop();
    proof {
        assert(in_progress@ =~= old(in_progress)@);
    }
    let node = SessionNode {
        name: name.clone(),
        kind,
        group: clone_group(&desc.group),
        command: desc.command.clone(),
        args: clone_strings(&desc.args),
        stop_signal: desc.stop_signal,
        restart: desc.restart,
        dependencies: clone_strings(&desc.dependencies),
        environment: clone_env(&desc.environment),
    };
    proof {
        assert(node@ =~= node_view_of(name@, desc@, kind));
    }
    let ghost nodes_before = nodes@;
    let ghost before_push = views_of_nodes(nodes@);
    nodes.push(node);
    proof {
        lemma_views_push(nodes_before, node);
        assert(views_of_nodes(nodes@) =~= before_push.push(node@));
        assert(load_spec(dirs@, name@, loaded0, stack0) == Ok::<Seq<NodeView>, LoadErrView>(
            views_of_nodes(nodes@),
        ));
    }
    Ok(())
}

/// Loads the dependency graph rooted at `root_name` from the ordered search
/// directories: the first directory holding a descriptor for a name wins, a
/// dependency cycle is reported before anything else happens, and on success
/// the returned list holds the root and everything it transitively depends
/// on, each node after all its dependencies, exactly as `load_tree_spec`
/// describes.
pub fn load_tree(dirs: &Vec<Directory>, root_name: &String) -> (r: Result<
    Vec<SessionNode>,
    NodeLoadingError,
>)
    ensures
        match r {
            Ok(nodes) => {
                &&& load_tree_spec(dirs@, root_name@) == Ok::<Seq<NodeView>, LoadErrView>(
                    views_of_nodes(nodes@),
                )
                &&& nodes_inv(dirs@, views_of_nodes(nodes@))
                &&& node_names(views_of_nodes(nodes@)).contains(root_name@)
            },
            Err(e) => load_tree_spec(dirs@, root_name@) == Err::<Seq<NodeView>, LoadErrView>(e@),
        },
{
    let mut nodes: Vec<SessionNode> = Vec::new();
    let mut in_progress: Vec<String> = Vec::new();
    proof {
        assert(names_of(in_progress@) =~= Seq::<Seq<char>>::empty());
        assert(views_of_nodes(nodes@) =~= Seq::<NodeView>::empty());
    }
    match load_node(dirs, root_name, &mut nodes, &mut in_progress) {
        Ok(()) => {
            proof {
                lemma_load_spec_inv(
                    dirs@,
                    root_name@,
                    Seq::<NodeView>::empty(),
                    Seq::<Seq<char>>::empty(),
                );
            }
            Ok(nodes)
        },
        Err(e) => Err(e),
    }
}

} // verus!
