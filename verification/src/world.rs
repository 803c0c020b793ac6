//! An explicit model of the filesystem slice the manager observes and
//! mutates: finitely many absolute paths, each with the node sitting there.
//! A snapshot is taken by the caller, handed to the decision logic, and the
//! planned mutations come back as a list of actions.

use vstd::prelude::*;

use crate::paths::{path_eq, FsPath, PathV};
use crate::perm::Perms;
use crate::util::{update_bits, Executable};

verus! {

/// What sits at one filesystem location.
#[derive(Debug, PartialEq, Eq)]
pub enum Node {
    /// A regular file with its permission bits.
    File { perms: Perms },
    /// A directory.
    Dir,
    /// A symbolic link and the path it points at.
    Link { target: FsPath },
}

/// The mathematical value of a node.
pub enum NodeV {
    File { perms: Perms },
    Dir,
    Link { target: PathV },
}

impl View for Node {
    type V = NodeV;

    open spec fn view(&self) -> NodeV {
        match self {
            Node::File { perms } => NodeV::File { perms: *perms },
            Node::Dir => NodeV::Dir,
            Node::Link { target } => NodeV::Link { target: target@ },
        }
    }
}

impl Clone for Node {
    fn clone(&self) -> (r: Node)
        ensures
            r@ == self@,
    {
        match self {
            Node::File { perms } => Node::File { perms: *perms },
            Node::Dir => Node::Dir,
            Node::Link { target } => Node::Link { target: target.clone() },
        }
    }
}

/// One planned filesystem mutation.
#[derive(Debug, PartialEq, Eq)]
pub enum FsAction {
    /// Move the node at `from` to `to`.
    Move { from: FsPath, to: FsPath },
    /// Create a symbolic link at `path` pointing at `target`.
    CreateLink { path: FsPath, target: FsPath },
    /// Remove the node at `path`.
    Remove { path: FsPath },
    /// Re-apply an executable intent to the regular file at `path`.
    SetExecutable { path: FsPath, mode: Executable },
}

/// The mathematical value of an action.
pub enum FsActionV {
    Move { from: PathV, to: PathV },
    CreateLink { path: PathV, target: PathV },
    Remove { path: PathV },
    SetExecutable { path: PathV, mode: Executable },
}

impl View for FsAction {
    type V = FsActionV;

    open spec fn view(&self) -> FsActionV {
        match self {
            FsAction::Move { from, to } => FsActionV::Move { from: from@, to: to@ },
            FsAction::CreateLink { path, target } => FsActionV::CreateLink {
                path: path@,
                target: target@,
            },
            FsAction::Remove { path } => FsActionV::Remove { path: path@ },
            FsAction::SetExecutable { path, mode } => FsActionV::SetExecutable {
                path: path@,
                mode: *mode,
            },
        }
    }
}

/// The mathematical values of a list of actions.
pub open spec fn actions_view(s: Seq<FsAction>) -> Seq<FsActionV> {
    s.map_values(|a: FsAction| a@)
}

/// Viewing a list of actions distributes over concatenation.
pub proof fn lemma_actions_view_app(a: Seq<FsAction>, b: Seq<FsAction>)
    ensures
        actions_view(a + b) == actions_view(a) + actions_view(b),
{
    assert forall|k: int| 0 <= k < a.len() + b.len() implies actions_view(a + b)[k] == (
    actions_view(a) + actions_view(b))[k] by {
        if k < a.len() {
            assert((a + b)[k] == a[k]);
        } else {
            assert((a + b)[k] == b[k - a.len()]);
        }
    }
    assert(actions_view(a + b) =~= actions_view(a) + actions_view(b));
}

/// The map denoted by a list of entries; a later entry for the same path
/// overrides an earlier one.
pub open spec fn entries_map(s: Seq<(FsPath, Node)>) -> Map<PathV, NodeV>
    decreases s.len(),
{
    if s.len() == 0 {
        Map::empty()
    } else {
        entries_map(s.drop_last()).insert(s.last().0@, s.last().1@)
    }
}

/// A filesystem snapshot.  Its mathematical value is the map from observed
/// absolute paths to the nodes sitting there.
#[derive(Debug)]
pub struct World {
    entries: Vec<(FsPath, Node)>,
}

impl View for World {
    type V = Map<PathV, NodeV>;

    closed spec fn view(&self) -> Map<PathV, NodeV> {
        entries_map(self.entries@)
    }
}

/// If no entry at or after `i` has the path `q`, the entries up to `i`
/// decide what the map holds at `q`.
proof fn lemma_entries_map_prefix(s: Seq<(FsPath, Node)>, q: PathV, i: int)
    requires
        0 <= i <= s.len(),
        forall|j: int| i <= j < s.len() ==> (#[trigger] s[j]).0@ != q,
    ensures
        entries_map(s).contains_key(q) == entries_map(s.take(i)).contains_key(q),
        entries_map(s).contains_key(q) ==> entries_map(s)[q] == entries_map(s.take(i))[q],
    decreases s.len() - i,
{
    if i == s.len() {
        assert(s.take(i) =~= s);
    } else {
        lemma_entries_map_prefix(s, q, i + 1);
        assert(s.take(i + 1).drop_last() =~= s.take(i));
        assert(s.take(i + 1).last() == s[i]);
    }
}

/// An entry whose path does not recur later decides what the map holds
/// there.
proof fn lemma_entries_map_hit(s: Seq<(FsPath, Node)>, i: int)
    requires
        0 <= i < s.len(),
        forall|j: int| i < j < s.len() ==> (#[trigger] s[j]).0@ != s[i].0@,
    ensures
        entries_map(s).contains_key(s[i].0@),
        entries_map(s)[s[i].0@] == s[i].1@,
{
    lemma_entries_map_prefix(s, s[i].0@, i + 1);
    assert(s.take(i + 1).drop_last() =~= s.take(i));
    assert(s.take(i + 1).last() == s[i]);
}

/// A path no entry carries is not in the map.
proof fn lemma_entries_map_miss(s: Seq<(FsPath, Node)>, q: PathV)
    requires
        forall|j: int| 0 <= j < s.len() ==> (#[trigger] s[j]).0@ != q,
    ensures
        !entries_map(s).contains_key(q),
{
    lemma_entries_map_prefix(s, q, 0);
    assert(s.take(0) =~= Seq::<(FsPath, Node)>::empty());
}

impl World {
    /// An empty snapshot.
    pub fn new() -> (r: World)
        ensures
            r@ == Map::<PathV, NodeV>::empty(),
    {
        World { entries: Vec::new() }
    }

    /// What sits at `p`, if anything.
    pub fn lookup(&self, p: &FsPath) -> (r: Option<Node>)
        ensures
            (match r {
                Some(n) => self@.contains_key(p@) && self@[p@] == n@,
                None => !self@.contains_key(p@),
            }),
    {
        let mut i: usize = self.entries.len();
        while i > 0
            invariant
                i <= self.entries@.len(),
                forall|j: int| i <= j < self.entries@.len() ==> (#[trigger] self.entries@[j]).0@
                    != p@,
            decreases i,
        {
            i -= 1;
            if path_eq(&self.entries[i].0, p) {
                proof {
                    lemma_entries_map_hit(self.entries@, i as int);
                }
                return Some(self.entries[i].1.clone());
            }
        }
        proof {
            lemma_entries_map_miss(self.entries@, p@);
        }
        None
    }

    /// Record that `n` sits at `p`, replacing whatever the snapshot held
    /// there.
    pub fn insert(&mut self, p: FsPath, n: Node)
        ensures
            final(self)@ == old(self)@.insert(p@, n@),
    {
        self.entries.push((p, n));
        proof {
            assert(self.entries@.drop_last() =~= old(self).entries@);
        }
    }

    /// Drop whatever the snapshot holds at `p`.
    pub fn remove(&mut self, p: &FsPath)
        ensures
            final(self)@ == old(self)@.remove(p@),
    {
        let mut out: Vec<(FsPath, Node)> = Vec::new();
        let mut i: usize = 0;
        proof {
            assert(old(self).entries@.take(0) =~= Seq::<(FsPath, Node)>::empty());
            assert(entries_map(out@) =~= entries_map(old(self).entries@.take(0)).remove(p@));
        }
        while i < self.entries.len()
            invariant
                i <= self.entries@.len(),
                self.entries@ == old(self).entries@,
                entries_map(out@) == entries_map(self.entries@.take(i as int)).remove(p@),
            decreases self.entries@.len() - i,
        {
            let ghost pre = out@;
            let e = &self.entries[i];
            proof {
                assert(self.entries@.take(i + 1).drop_last() =~= self.entries@.take(i as int));
                assert(self.entries@.take(i + 1).last() == self.entries@[i as int]);
            }
            if !path_eq(&e.0, p) {
                let pc = e.0.clone();
                let nc = e.1.clone();
                out.push((pc, nc));
                proof {
                    assert(out@.drop_last() =~= pre);
                    assert(entries_map(out@) =~= entries_map(
                        self.entries@.take(i + 1),
                    ).remove(p@));
                }
            } else {
                proof {
                    assert(entries_map(out@) =~= entries_map(
                        self.entries@.take(i + 1),
                    ).remove(p@));
                }
            }
            i += 1;
        }
        proof {
            assert(self.entries@.take(self.entries@.len() as int) =~= self.entries@);
        }
        self.entries = out;
    }

    /// A value-identical copy of the snapshot.
    pub fn duplicate(&self) -> (r: World)
        ensures
            r@ == self@,
    {
        let mut out: Vec<(FsPath, Node)> = Vec::new();
        let mut i: usize = 0;
        proof {
            assert(self.entries@.take(0) =~= Seq::<(FsPath, Node)>::empty());
            assert(entries_map(out@) =~= entries_map(self.entries@.take(0)));
        }
        while i < self.entries.len()
            invariant
                i <= self.entries@.len(),
                entries_map(out@) == entries_map(self.entries@.take(i as int)),
            decreases self.entries@.len() - i,
        {
            let ghost pre = out@;
            let e = &self.entries[i];
            let pc = e.0.clone();
            let nc = e.1.clone();
            out.push((pc, nc));
            proof {
                assert(self.entries@.take(i + 1).drop_last() =~= self.entries@.take(i as int));
                assert(self.entries@.take(i + 1).last() == self.entries@[i as int]);
                assert(out@.drop_last() =~= pre);
                assert(entries_map(out@) =~= entries_map(self.entries@.take(i + 1)));
            }
            i += 1;
        }
        proof {
            assert(self.entries@.take(self.entries@.len() as int) =~= self.entries@);
        }
        World { entries: out }
    }
}

/// The snapshot after one action.  Every action is total: moving or
/// retouching a path that holds nothing leaves the snapshot unchanged.
pub open spec fn apply_spec(m: Map<PathV, NodeV>, a: FsActionV) -> Map<PathV, NodeV> {
    match a {
        FsActionV::Move { from, to } => if m.contains_key(from) {
            m.remove(from).insert(to, m[from])
        } else {
            m
        },
        FsActionV::CreateLink { path, target } => m.insert(path, NodeV::Link { target }),
        FsActionV::Remove { path } => m.remove(path),
        FsActionV::SetExecutable { path, mode } => if m.contains_key(path) && m[path] is File {
            m.insert(
                path,
                NodeV::File { perms: (Perms { bits: update_bits(mode, m[path]->File_perms.bits) }) },
            )
        } else {
            m
        },
    }
}

/// The snapshot after a list of actions, applied in order.
pub open spec fn apply_all_spec(m: Map<PathV, NodeV>, actions: Seq<FsActionV>) -> Map<
    PathV,
    NodeV,
>
    decreases actions.len(),
{
    if actions.len() == 0 {
        m
    } else {
        apply_all_spec(apply_spec(m, actions[0]), actions.skip(1))
    }
}

/// Whether `a` leaves the location `q` alone.
pub open spec fn action_avoids(a: FsActionV, q: PathV) -> bool {
    match a {
        FsActionV::Move { from, to } => from != q && to != q,
        FsActionV::CreateLink { path, target: _ } => path != q,
        FsActionV::Remove { path } => path != q,
        FsActionV::SetExecutable { path, mode: _ } => path != q,
    }
}

/// An action that leaves `q` alone changes nothing at `q`.
pub proof fn lemma_apply_avoids(m: Map<PathV, NodeV>, a: FsActionV, q: PathV)
    requires
        action_avoids(a, q),
    ensures
        apply_spec(m, a).contains_key(q) == m.contains_key(q),
        apply_spec(m, a).contains_key(q) ==> apply_spec(m, a)[q] == m[q],
{
}

/// A list of actions that all leave `q` alone changes nothing at `q`.
pub proof fn lemma_apply_all_avoids(m: Map<PathV, NodeV>, actions: Seq<FsActionV>, q: PathV)
    requires
        forall|k: int| 0 <= k < actions.len() ==> action_avoids(#[trigger] actions[k], q),
    ensures
        apply_all_spec(m, actions).contains_key(q) == m.contains_key(q),
        apply_all_spec(m, actions).contains_key(q) ==> apply_all_spec(m, actions)[q] == m[q],
    decreases actions.len(),
{
    if actions.len() > 0 {
        lemma_apply_avoids(m, actions[0], q);
        lemma_apply_all_avoids(apply_spec(m, actions[0]), actions.skip(1), q);
    }
}

/// Applying a concatenation is applying one list after the other.
pub proof fn lemma_apply_all_app(m: Map<PathV, NodeV>, a: Seq<FsActionV>, b: Seq<FsActionV>)
    ensures
        apply_all_spec(m, a + b) == apply_all_spec(apply_all_spec(m, a), b),
    decreases a.len(),
{
    if a.len() == 0 {
        assert(a + b =~= b);
    } else {
        assert((a + b)[0] == a[0]);
        assert((a + b).skip(1) =~= a.skip(1) + b);
        lemma_apply_all_app(apply_spec(m, a[0]), a.skip(1), b);
    }
}

impl World {
    /// Apply one planned mutation to the snapshot.
    pub fn apply(&mut self, a: &FsAction)
        ensures
            final(self)@ == apply_spec(old(self)@, a@),
    {
        match a {
            FsAction::Move { from, to } => {
                match self.lookup(from) {
                    Some(n) => {
                        self.remove(from);
                        self.insert(to.clone(), n);
                    },
                    None => {},
                }
            },
            FsAction::CreateLink { path, target } => {
                self.insert(path.clone(), Node::Link { target: target.clone() });
            },
            FsAction::Remove { path } => {
                self.remove(path);
            },
            FsAction::SetExecutable { path, mode } => {
                match self.lookup(path) {
                    Some(n) => {
                        match n {
                            Node::File { perms } => {
                                let updated = mode.update_perms(perms);
                                self.insert(path.clone(), Node::File { perms: updated });
                            },
                            _ => {},
                        }
                    },
                    None => {},
                }
            },
        }
    }

    /// Apply a list of planned mutations, in order.
    pub fn apply_all(&mut self, actions: &Vec<FsAction>)
        ensures
            final(self)@ == apply_all_spec(old(self)@, actions_view(actions@)),
    {
        let mut i: usize = 0;
        proof {
            assert(actions_view(actions@).skip(0) =~= actions_view(actions@));
        }
        while i < actions.len()
            invariant
                i <= actions@.len(),
                apply_all_spec(self@, actions_view(actions@).skip(i as int)) == apply_all_spec(
                    old(self)@,
                    actions_view(actions@),
                ),
            decreases actions@.len() - i,
        {
            let ghost rest = actions_view(actions@).skip(i as int);
            proof {
                assert(rest.len() > 0);
                assert(rest[0] == actions@[i as int]@);
                assert(rest.skip(1) =~= actions_view(actions@).skip(i + 1));
            }
            self.apply(&actions[i]);
            i += 1;
        }
        proof {
            assert(actions_view(actions@).skip(actions@.len() as int) =~= Seq::<
                FsActionV,
            >::empty());
        }
    }
}

} // verus!
