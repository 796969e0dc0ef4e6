//! The in-memory model of the descriptor search directories: what the caller
//! read from disk, in the order the directories were given. The loader works
//! on this model alone; reading and parsing the files is the caller's job.

use vstd::prelude::*;
use crate::node::{Signal, SessionNodeRestart, names_of, env_views, opt_view};

verus! {

/// The raw contents of one descriptor file, as handed to the loader by the
/// caller that read and parsed it. The `kind` field is kept as raw text so
/// the loader itself can reject an unrecognized value.
#[derive(Clone, PartialEq, Eq, Debug)]
pub struct NodeServiceDescriptor {
    /// Raw kind value; `"service"` and `"target"` are the recognized ones.
    pub kind: String,
    /// Optional parent/target this node belongs to.
    pub group: Option<String>,
    /// Executable path (meaningful for services).
    pub command: String,
    /// Ordered command-line arguments.
    pub args: Vec<String>,
    /// Signal used to request graceful termination.
    pub stop_signal: Signal,
    /// Restart policy.
    pub restart: SessionNodeRestart,
    /// Names of the nodes this one depends on.
    pub dependencies: Vec<String>,
    /// Environment overrides; later entries win on a repeated key.
    pub environment: Vec<(String, String)>,
}

/// The mathematical view of a raw descriptor: every field as a spec value.
#[verifier::ext_equal]
pub struct DescView {
    pub kind: Seq<char>,
    pub group: Option<Seq<char>>,
    pub command: Seq<char>,
    pub args: Seq<Seq<char>>,
    pub stop_signal: Signal,
    pub restart: SessionNodeRestart,
    pub dependencies: Seq<Seq<char>>,
    pub environment: Seq<(Seq<char>, Seq<char>)>,
}

impl View for NodeServiceDescriptor {
    type V = DescView;

    open spec fn view(&self) -> DescView {
        DescView {
            kind: self.kind@,
            group: opt_view(self.group),
            command: self.command@,
            args: names_of(self.args@),
            stop_signal: self.stop_signal,
            restart: self.restart,
            dependencies: names_of(self.dependencies@),
            environment: env_views(self.environment@),
        }
    }
}

/// What a search directory holds under one node name.
#[derive(Clone, PartialEq, Eq, Debug)]
pub enum FileContent {
    /// The file parsed into a descriptor.
    Parsed(NodeServiceDescriptor),
    /// The file exists but failed to parse.
    Malformed,
}

/// One file of a search directory: the node name it is stored under and what
/// it holds.
#[derive(Clone, PartialEq, Eq, Debug)]
pub struct DirEntry {
    pub name: String,
    pub file: FileContent,
}

/// One search directory, as a list of its descriptor files.
#[derive(Clone, PartialEq, Eq, Debug)]
pub struct Directory {
    pub entries: Vec<DirEntry>,
}

/// The content stored under `name` in a list of entries: the first entry with
/// that name wins.
pub open spec fn dir_find(entries: Seq<DirEntry>, name: Seq<char>) -> Option<FileContent>
    decreases entries.len(),
{
    if entries.len() == 0 {
        None
    } else if entries[0].name@ == name {
        Some(entries[0].file)
    } else {
        dir_find(entries.skip(1), name)
    }
}

/// Whether a directory holds a file under `name`.
pub open spec fn dir_has(d: Directory, name: Seq<char>) -> bool {
    dir_find(d.entries@, name) is Some
}

/// The content the ordered directory list resolves `name` to: the first
/// directory holding a file under that name wins; later directories are
/// lower-priority fallbacks.
pub open spec fn find_spec(dirs: Seq<Directory>, name: Seq<char>) -> Option<FileContent>
    decreases dirs.len(),
{
    if dirs.len() == 0 {
        None
    } else if dir_has(dirs[0], name) {
        dir_find(dirs[0].entries@, name)
    } else {
        find_spec(dirs.skip(1), name)
    }
}

/// The index of the directory that wins the resolution of `name`, if any.
pub open spec fn winning_dir(dirs: Seq<Directory>, name: Seq<char>) -> Option<int>
    decreases dirs.len(),
{
    if dirs.len() == 0 {
        None
    } else if dir_has(dirs[0], name) {
        Some(0int)
    } else {
        match winning_dir(dirs.skip(1), name) {
            Some(i) => Some(i + 1),
            None => None,
        }
    }
}

/// Override by first match: the winning directory for a name holds that name,
/// no earlier directory does, and the resolved content is read from it. In
/// particular a descriptor present in an earlier directory always wins over
/// one in a later directory under the same name.
pub proof fn lemma_first_match_wins(dirs: Seq<Directory>, name: Seq<char>)
    requires
        exists|i: int| 0 <= i < dirs.len() && dir_has(dirs[i], name),
    ensures
        winning_dir(dirs, name) matches Some(w)
            && 0 <= w < dirs.len()
            && dir_has(dirs[w], name)
            && find_spec(dirs, name) == dir_find(dirs[w].entries@, name)
            && (forall|j: int| 0 <= j < w ==> !dir_has(dirs[j], name)),
    decreases dirs.len(),
{
    if dirs.len() == 0 {
    } else if dir_has(dirs[0], name) {
    } else {
        let i = choose|i: int| 0 <= i < dirs.len() && dir_has(dirs[i], name);
        assert(dirs.skip(1)[i - 1] == dirs[i]);
        lemma_first_match_wins(dirs.skip(1), name);
        let w1 = winning_dir(dirs.skip(1), name)->Some_0;
        assert(dirs.skip(1)[w1] == dirs[w1 + 1]);
        assert forall|j: int| 0 <= j < w1 + 1 implies !dir_has(dirs[j], name) by {
            if j > 0 {
                assert(dirs.skip(1)[j - 1] == dirs[j]);
            }
        }
    }
}

/// The set of all node names for which some directory holds a file.
pub open spec fn dir_names(d: Directory) -> Set<Seq<char>> {
    d.entries@.map_values(|e: DirEntry| e.name@).to_set()
}

/// The set of all node names resolvable from the ordered directory list.
pub open spec fn all_names(dirs: Seq<Directory>) -> Set<Seq<char>>
    decreases dirs.len(),
{
    if dirs.len() == 0 {
        Set::empty()
    } else {
        dir_names(dirs[0]).union(all_names(dirs.skip(1)))
    }
}

/// The set of resolvable names is finite.
pub proof fn lemma_all_names_finite(dirs: Seq<Directory>)
    ensures
        all_names(dirs).finite(),
    decreases dirs.len(),
{
    broadcast use vstd::seq_lib::group_seq_lib_default;

    if dirs.len() > 0 {
        lemma_all_names_finite(dirs.skip(1));
    }
}

/// A name that resolves to a file is among the resolvable names.
pub proof fn lemma_found_name_in_all_names(dirs: Seq<Directory>, name: Seq<char>)
    requires
        find_spec(dirs, name) is Some,
    ensures
        all_names(dirs).contains(name),
    decreases dirs.len(),
{
    if dirs.len() == 0 {
    } else if dir_has(dirs[0], name) {
        lemma_dir_find_name(dirs[0].entries@, name);
    } else {
        lemma_found_name_in_all_names(dirs.skip(1), name);
    }
}

/// A name a directory resolves is among the names of its entries.
proof fn lemma_dir_find_name(entries: Seq<DirEntry>, name: Seq<char>)
    requires
        dir_find(entries, name) is Some,
    ensures
        entries.map_values(|e: DirEntry| e.name@).to_set().contains(name),
    decreases entries.len(),
{
    if entries.len() == 0 {
    } else if entries[0].name@ == name {
        assert(entries.map_values(|e: DirEntry| e.name@)[0] == name);
        assert(entries.map_values(|e: DirEntry| e.name@).contains(name));
    } else {
        lemma_dir_find_name(entries.skip(1), name);
        let m = entries.skip(1).map_values(|e: DirEntry| e.name@);
        let i = choose|i: int| 0 <= i < m.len() && m[i] == name;
        assert(entries.map_values(|e: DirEntry| e.name@)[i + 1] == name);
        assert(entries.map_values(|e: DirEntry| e.name@).contains(name));
    }
}

/// Finds the content the directory list resolves `name` to, first match wins.
pub fn find_descriptor<'a>(dirs: &'a Vec<Directory>, name: &String) -> (r: Option<&'a FileContent>)
    ensures
        match r {
            Some(f) => find_spec(dirs@, name@) == Some(*f),
            None => find_spec(dirs@, name@) is None,
        },
{
    let n = dirs.len();
    proof {
        assert(dirs@.skip(0) =~= dirs@);
    }
    for i in 0..n
        invariant
            n == dirs@.len(),
            find_spec(dirs@, name@) == find_spec(dirs@.skip(i as int), name@),
    {
        let d = &dirs[i];
        let m = d.entries.len();
        proof {
            assert(dirs@.skip(i as int)[0] == dirs@[i as int]);
            assert(d.entries@.skip(0) =~= d.entries@);
        }
        for j in 0..m
            invariant
                n == dirs@.len(),
                i < n,
                m == d.entries@.len(),
                d == dirs@[i as int],
                find_spec(dirs@, name@) == find_spec(dirs@.skip(i as int), name@),
                dir_find(d.entries@, name@) == dir_find(d.entries@.skip(j as int), name@),
        {
            let e = &d.entries[j];
            proof {
                assert(d.entries@.skip(j as int)[0] == d.entries@[j as int]);
            }
            if e.name == *name {
                proof {
                    assert(dir_find(d.entries@.skip(j as int), name@) == Some(e.file));
                    assert(dir_has(dirs@[i as int], name@));
                    assert(dirs@.skip(i as int)[0] == dirs@[i as int]);
                    assert(find_spec(dirs@.skip(i as int), name@) == dir_find(d.entries@, name@));
                }
                return Some(&e.file);
            }
            proof {
                assert(e.name@ != name@);
                assert(dir_find(d.entries@.skip(j as int), name@) == dir_find(
                    d.entries@.skip(j as int).skip(1),
                    name@,
                ));
                assert(d.entries@.skip(j as int).skip(1) =~= d.entries@.skip(j as int + 1));
            }
        }
        proof {
            assert(d.entries@.skip(m as int).len() == 0);
            assert(dir_find(d.entries@.skip(m as int), name@) is None);
            assert(!dir_has(dirs@[i as int], name@));
            assert(dirs@.skip(i as int)[0] == dirs@[i as int]);
            assert(dirs@.skip(i as int).skip(1) =~= dirs@.skip(i as int + 1));
        }
    }
    proof {
        assert(dirs@.skip(n as int).len() == 0);
    }
    None
}

} // verus!
