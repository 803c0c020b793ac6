//! Small list helpers and the executable flag with its permission updates.

use vstd::prelude::*;

use crate::error::Error;
use crate::paths::{path_eq, FsPath, PathV};
use crate::perm::{Perm, Perms};
use crate::world::{FsAction, FsActionV, Node, NodeV, World};

verus! {

/// The mathematical values of a list of paths.
pub open spec fn paths_view(v: Seq<FsPath>) -> Seq<PathV> {
    v.map_values(|p: FsPath| p@)
}

/// Viewing a list of paths keeps its length.
pub proof fn lemma_paths_view_len(v: Seq<FsPath>)
    ensures
        paths_view(v).len() == v.len(),
{
}

/// Viewing a list of paths views each entry.
pub proof fn lemma_paths_view_index(v: Seq<FsPath>, i: int)
    requires
        0 <= i < v.len(),
    ensures
        paths_view(v)[i] == v[i]@,
{
}

/// Viewing commutes with appending one path.
pub proof fn lemma_paths_view_push(v: Seq<FsPath>, x: FsPath)
    ensures
        paths_view(v.push(x)) == paths_view(v).push(x@),
{
    assert forall|k: int| 0 <= k < v.len() + 1 implies paths_view(v.push(x))[k] == paths_view(
        v,
    ).push(x@)[k] by {
        if k < v.len() {
            assert(v.push(x)[k] == v[k]);
        } else {
            assert(v.push(x)[k] == x);
        }
    }
    assert(paths_view(v.push(x)) =~= paths_view(v).push(x@));
}

/// A value-identical copy of a list of paths.
pub fn clone_paths(v: &Vec<FsPath>) -> (r: Vec<FsPath>)
    ensures
        paths_view(r@) == paths_view(v@),
{
    let mut r: Vec<FsPath> = Vec::new();
    let mut i: usize = 0;
    proof {
        assert(paths_view(r@) =~= paths_view(v@).take(0));
    }
    while i < v.len()
        invariant
            i <= v@.len(),
            paths_view(r@) == paths_view(v@).take(i as int),
        decreases v@.len() - i,
    {
        let ghost pre = r@;
        let x = v[i].clone();
        proof {
            lemma_paths_view_push(pre, x);
            lemma_paths_view_index(v@, i as int);
        }
        r.push(x);
        proof {
            assert(paths_view(r@) =~= paths_view(v@).take(i + 1));
        }
        i += 1;
    }
    proof {
        assert(paths_view(v@).take(v@.len() as int) =~= paths_view(v@));
    }
    r
}

/// Remove the first occurrence of `item` from `vec`, if any.
pub fn remove_item(vec: &mut Vec<FsPath>, item: &FsPath)
    ensures
        (match first_index_of(paths_view(old(vec)@), item@) {
            Some(i) => paths_view(final(vec)@) == paths_view(old(vec)@).remove(i),
            None => paths_view(final(vec)@) == paths_view(old(vec)@),
        }),
{
    let mut i: usize = 0;
    while i < vec.len()
        invariant
            i <= vec.len(),
            vec@ == old(vec)@,
            forall|j: int| 0 <= j < i ==> paths_view(vec@)[j] != item@,
        decreases vec.len() - i,
    {
        if path_eq(&vec[i], item) {
            proof {
                lemma_first_index_skip(paths_view(vec@), item@, i as int);
            }
            vec.remove(i);
            proof {
                assert(paths_view(vec@) =~= paths_view(old(vec)@).remove(i as int));
            }
            return ;
        }
        i += 1;
    }
    proof {
        lemma_first_index_skip(paths_view(vec@), item@, vec@.len() as int);
    }
}

/// The index of the first occurrence of `p` in `s`, if any.
pub open spec fn first_index_of(s: Seq<PathV>, p: PathV) -> Option<int>
    decreases s.len(),
{
    if s.len() == 0 {
        None
    } else if s[0] == p {
        Some(0)
    } else {
        match first_index_of(s.skip(1), p) {
            Some(i) => Some(i + 1),
            None => None,
        }
    }
}

/// If the first `i` entries differ from `p`, the first occurrence of `p` is
/// past them; in particular, a hit at `i` is the first occurrence.
pub proof fn lemma_first_index_skip(s: Seq<PathV>, p: PathV, i: int)
    requires
        0 <= i <= s.len(),
        forall|j: int| 0 <= j < i ==> s[j] != p,
    ensures
        i < s.len() && s[i] == p ==> first_index_of(s, p) == Some(i),
        i == s.len() || s[i] == p ==> (first_index_of(s, p) is Some <==> i < s.len()),
        i == s.len() ==> first_index_of(s, p) is None,
    decreases i,
{
    if i == 0 {
        if 0 < s.len() && s[0] == p {
        } else if s.len() == 0 {
        }
    } else {
        assert(s[0] != p);
        assert(forall|j: int| 0 <= j < i - 1 ==> s.skip(1)[j] != p);
        lemma_first_index_skip(s.skip(1), p, i - 1);
        if i < s.len() {
            assert(s.skip(1)[i - 1] == s[i]);
        }
    }
}

/// Whether `s` holds `p`.
pub open spec fn contains_path(s: Seq<PathV>, p: PathV) -> bool {
    exists|i: int| 0 <= i < s.len() && s[i] == p
}

/// A path has a first occurrence exactly when it occurs at all, and that
/// occurrence is in range and equal to it.
pub proof fn lemma_first_index_contains(s: Seq<PathV>, p: PathV)
    ensures
        first_index_of(s, p) is Some <==> contains_path(s, p),
        (match first_index_of(s, p) {
            Some(i) => 0 <= i < s.len() && s[i] == p,
            None => true,
        }),
    decreases s.len(),
{
    if s.len() == 0 {
    } else if s[0] == p {
        assert(contains_path(s, p)) by {
            assert(0 <= 0 < s.len() && s[0] == p);
        }
    } else {
        lemma_first_index_contains(s.skip(1), p);
        if contains_path(s.skip(1), p) {
            let j = choose|j: int| 0 <= j < s.skip(1).len() && s.skip(1)[j] == p;
            assert(s[j + 1] == s.skip(1)[j]);
            assert(contains_path(s, p));
        }
        if contains_path(s, p) {
            let i = choose|i: int| 0 <= i < s.len() && s[i] == p;
            assert(i != 0);
            assert(s.skip(1)[i - 1] == s[i]);
            assert(contains_path(s.skip(1), p));
        }
        if first_index_of(s.skip(1), p) is Some {
            let j = first_index_of(s.skip(1), p)->Some_0;
            assert(s[j + 1] == s.skip(1)[j]);
        }
    }
}

/// Whether the list holds a path equal to `item`.
pub fn list_contains(vec: &Vec<FsPath>, item: &FsPath) -> (r: bool)
    ensures
        r == contains_path(paths_view(vec@), item@),
{
    let mut i: usize = 0;
    while i < vec.len()
        invariant
            i <= vec.len(),
            forall|j: int| 0 <= j < i ==> paths_view(vec@)[j] != item@,
        decreases vec.len() - i,
    {
        if path_eq(&vec[i], item) {
            proof {
                assert(paths_view(vec@)[i as int] == item@);
            }
            return true;
        }
        i += 1;
    }
    false
}

/// Membership in a list with one path appended.
pub proof fn lemma_contains_push(s: Seq<PathV>, x: PathV, q: PathV)
    ensures
        contains_path(s.push(x), q) <==> (contains_path(s, q) || q == x),
{
    if contains_path(s.push(x), q) {
        let i = choose|i: int| 0 <= i < s.push(x).len() && s.push(x)[i] == q;
        if i < s.len() {
            assert(s[i] == q);
            assert(contains_path(s, q));
        }
    }
    if contains_path(s, q) {
        let i = choose|i: int| 0 <= i < s.len() && s[i] == q;
        assert(s.push(x)[i] == q);
        assert(contains_path(s.push(x), q));
    }
    if q == x {
        assert(s.push(x)[s.len() as int] == q);
        assert(contains_path(s.push(x), q));
    }
}

/// Membership in a list with one entry removed.
pub proof fn lemma_contains_remove(s: Seq<PathV>, i: int, q: PathV)
    requires
        0 <= i < s.len(),
    ensures
        contains_path(s.remove(i), q) ==> contains_path(s, q),
        contains_path(s, q) && q != s[i] ==> contains_path(s.remove(i), q),
        s.no_duplicates() && q == s[i] ==> !contains_path(s.remove(i), q),
{
    if contains_path(s.remove(i), q) {
        let j = choose|j: int| 0 <= j < s.remove(i).len() && s.remove(i)[j] == q;
        if j < i {
            assert(s[j] == q);
        } else {
            assert(s[j + 1] == q);
        }
        assert(contains_path(s, q));
    }
    if contains_path(s, q) && q != s[i] {
        let j = choose|j: int| 0 <= j < s.len() && s[j] == q;
        if j < i {
            assert(s.remove(i)[j] == q);
        } else {
            assert(j > i);
            assert(s.remove(i)[j - 1] == q);
        }
        assert(contains_path(s.remove(i), q));
    }
    if s.no_duplicates() && q == s[i] && contains_path(s.remove(i), q) {
        let j = choose|j: int| 0 <= j < s.remove(i).len() && s.remove(i)[j] == q;
        if j < i {
            assert(s[j] == q);
        } else {
            assert(s[j + 1] == q);
        }
    }
}

/// Appending a path that is not yet present keeps the list free of
/// duplicates.
pub proof fn lemma_no_duplicates_push(s: Seq<PathV>, x: PathV)
    requires
        s.no_duplicates(),
        !contains_path(s, x),
    ensures
        s.push(x).no_duplicates(),
{
    assert forall|i: int, j: int|
        0 <= i < s.push(x).len() && 0 <= j < s.push(x).len() && i != j implies s.push(x)[i]
        != s.push(x)[j] by {
        if i < s.len() && j < s.len() {
        } else if i < s.len() {
            assert(s[i] == s.push(x)[i]);
            if s.push(x)[i] == x {
                assert(contains_path(s, x));
            }
        } else if j < s.len() {
            assert(s[j] == s.push(x)[j]);
            if s.push(x)[j] == x {
                assert(contains_path(s, x));
            }
        }
    }
}

/// Removing an entry keeps the list free of duplicates.
pub proof fn lemma_no_duplicates_remove(s: Seq<PathV>, i: int)
    requires
        s.no_duplicates(),
        0 <= i < s.len(),
    ensures
        s.remove(i).no_duplicates(),
{
    assert forall|a: int, b: int|
        0 <= a < s.remove(i).len() && 0 <= b < s.remove(i).len() && a != b implies s.remove(i)[a]
        != s.remove(i)[b] by {
        let a2: int = if a < i {
            a
        } else {
            a + 1
        };
        let b2: int = if b < i {
            b
        } else {
            b + 1
        };
        assert(s.remove(i)[a] == s[a2]);
        assert(s.remove(i)[b] == s[b2]);
    }
}

/// Turn an optional value into a result, with `err` for the missing case.
pub fn result_from_option<T>(opt: Option<T>, err: Error) -> (r: Result<T, Error>)
    ensures
        (match opt {
            Some(v) => r is Ok && r->Ok_0 == v,
            None => r is Err && r->Err_0 == err,
        }),
{
    match opt {
        Some(v) => Ok(v),
        None => Err(err),
    }
}

/// Whether no path occurs twice in the list.
pub fn is_unique(vec: &Vec<FsPath>) -> (r: bool)
    ensures
        r == paths_view(vec@).no_duplicates(),
{
    let mut i: usize = 0;
    while i < vec.len()
        invariant
            i <= vec.len(),
            forall|a: int, b: int|
                0 <= a < i && a < b < vec@.len() ==> paths_view(vec@)[a] != paths_view(vec@)[b],
        decreases vec.len() - i,
    {
        let mut j: usize = i + 1;
        while j < vec.len()
            invariant
                i < j <= vec.len(),
                forall|b: int| i < b < j ==> paths_view(vec@)[i as int] != paths_view(vec@)[b],
            decreases vec.len() - j,
        {
            if path_eq(&vec[i], &vec[j]) {
                proof {
                    assert(paths_view(vec@)[i as int] == paths_view(vec@)[j as int]);
                }
                return false;
            }
            j += 1;
        }
        i += 1;
    }
    true
}

/// The manifest-declared intent for a file's execute bits.
#[derive(Clone, Copy, Debug, PartialEq, Eq, Structural)]
pub enum Executable {
    Yes,
    No,
}

/// The permission bits after applying an executable intent: turning the flag
/// on sets the execute bit of every class whose read bit is set; turning it
/// off clears all three execute bits.
pub open spec fn update_bits(e: Executable, bits: u16) -> u16 {
    match e {
        Executable::Yes => bits | ((bits & 0o444) >> 2),
        Executable::No => bits & 0o666,
    }
}

impl Executable {
    /// The flag corresponding to a boolean.
    pub fn from_bool(value: bool) -> (r: Executable)
        ensures
            r == (if value {
                Executable::Yes
            } else {
                Executable::No
            }),
    {
        if value {
            Executable::Yes
        } else {
            Executable::No
        }
    }

    /// Apply this intent to a permission set: read-implies-execute when
    /// turning on, unconditional clearing when turning off.
    pub fn update_perms(self, perms: Perms) -> (r: Perms)
        ensures
            r.bits == update_bits(self, perms.bits),
            perms.wf() ==> r.wf(),
    {
        match self {
            Executable::Yes => {
                proof {
                    let b = perms.bits;
                    assert(b <= 0o777 ==> (b | ((b & 0o444) >> 2)) <= 0o777) by (bit_vector);
                }
                Perms { bits: perms.bits | ((perms.bits & 0o444) >> 2) }
            },
            Executable::No => {
                proof {
                    let b = perms.bits;
                    assert(b <= 0o777 ==> (b & 0o666) <= 0o777) by (bit_vector);
                }
                Perms { bits: perms.bits & 0o666 }
            },
        }
    }
}

/// The paths whose presence under `dir` disagrees with `expect_exists`:
/// those missing when every one should exist, or present when none should.
pub open spec fn unexpected_spec(
    w: Map<PathV, NodeV>,
    dir: PathV,
    files: Seq<PathV>,
    expect_exists: bool,
) -> Seq<PathV>
    decreases files.len(),
{
    if files.len() == 0 {
        Seq::empty()
    } else {
        let rest = unexpected_spec(w, dir, files.skip(1), expect_exists);
        if w.contains_key(dir.join(files[0])) != expect_exists {
            seq![files[0]] + rest
        } else {
            rest
        }
    }
}

/// Collect the paths whose presence under `dir` disagrees with
/// `expect_exists`.
pub fn unexpected_files(world: &World, dir: &FsPath, files: &Vec<FsPath>, expect_exists: bool) -> (r:
    Vec<FsPath>)
    ensures
        paths_view(r@) == unexpected_spec(world@, dir@, paths_view(files@), expect_exists),
{
    let ghost fv = paths_view(files@);
    let mut r: Vec<FsPath> = Vec::new();
    let mut i: usize = 0;
    proof {
        assert(fv.skip(0) =~= fv);
        assert(paths_view(r@) =~= Seq::<PathV>::empty());
    }
    while i < files.len()
        invariant
            i <= files@.len(),
            fv == paths_view(files@),
            paths_view(r@) + unexpected_spec(world@, dir@, fv.skip(i as int), expect_exists)
                == unexpected_spec(world@, dir@, fv, expect_exists),
        decreases files@.len() - i,
    {
        let ghost rest = fv.skip(i as int);
        proof {
            lemma_paths_view_index(files@, i as int);
            assert(rest[0] == fv[i as int]);
            assert(rest.skip(1) =~= fv.skip(i + 1));
        }
        let expected = dir.join(&files[i]);
        let exists_here = match world.lookup(&expected) {
            Some(_) => true,
            None => false,
        };
        if exists_here != expect_exists {
            let ghost pre = r@;
            let x = files[i].clone();
            proof {
                lemma_paths_view_push(pre, x);
            }
            r.push(x);
            proof {
                assert(paths_view(pre).push(fv[i as int]) + unexpected_spec(
                    world@,
                    dir@,
                    fv.skip(i + 1),
                    expect_exists,
                ) =~= paths_view(pre) + (seq![fv[i as int]] + unexpected_spec(
                    world@,
                    dir@,
                    fv.skip(i + 1),
                    expect_exists,
                )));
            }
        }
        i += 1;
    }
    proof {
        assert(fv.skip(fv.len() as int) =~= Seq::<PathV>::empty());
        assert(paths_view(r@) + Seq::<PathV>::empty() =~= paths_view(r@));
    }
    r
}

/// Whether a given bit position of a 9-bit value is set.
pub open spec fn bit_set(bits: u16, pos: u16) -> bool {
    (bits >> pos) & 1 == 1
}

/// Turning the executable flag on adds execute bits exactly to the classes
/// whose read bit is set, and touches nothing else; turning it off clears
/// the three execute bits and touches nothing else.  (Read bits sit at
/// positions 8, 5 and 2; execute bits at positions 6, 3 and 0.)
pub proof fn lemma_update_perms_law(bits: u16)
    ensures
        update_bits(Executable::Yes, bits) & 0o666 == bits & 0o666,
        bit_set(update_bits(Executable::Yes, bits), 6) == (bit_set(bits, 8) || bit_set(bits, 6)),
        bit_set(update_bits(Executable::Yes, bits), 3) == (bit_set(bits, 5) || bit_set(bits, 3)),
        bit_set(update_bits(Executable::Yes, bits), 0) == (bit_set(bits, 2) || bit_set(bits, 0)),
        update_bits(Executable::No, bits) & 0o111 == 0,
        update_bits(Executable::No, bits) & 0o666 == bits & 0o666,
{
    assert((bits | ((bits & 0o444) >> 2)) & 0o666 == bits & 0o666) by (bit_vector);
    assert(((bits | ((bits & 0o444) >> 2)) >> 6) & 1 == 1 <==> (((bits >> 8) & 1 == 1) || ((bits
        >> 6) & 1 == 1))) by (bit_vector);
    assert(((bits | ((bits & 0o444) >> 2)) >> 3) & 1 == 1 <==> (((bits >> 5) & 1 == 1) || ((bits
        >> 3) & 1 == 1))) by (bit_vector);
    assert(((bits | ((bits & 0o444) >> 2)) >> 0) & 1 == 1 <==> (((bits >> 2) & 1 == 1) || ((bits
        >> 0) & 1 == 1))) by (bit_vector);
    assert((bits & 0o666) & 0o111 == 0) by (bit_vector);
    assert((bits & 0o666) & 0o666 == bits & 0o666) by (bit_vector);
}

/// The executable state a regular-file node actually carries: whether its
/// user-class execute bit is set.
pub open spec fn exec_state_of(n: NodeV) -> Executable {
    if ((n->File_perms).bits >> 6) & 1 == 1 {
        Executable::Yes
    } else {
        Executable::No
    }
}

impl Executable {
    /// Read the executable state of the regular file at `path`; anything
    /// other than a regular file is refused.
    pub fn get(world: &World, path: &FsPath) -> (r: Result<Executable, Error>)
        ensures
            !world@.contains_key(path@) ==> (r matches Err(e) && e matches Error::NotFound(q)
                && q@ == path@),
            world@.contains_key(path@) && !(world@[path@] is File) ==> (r matches Err(e)
                && e matches Error::NotAFile(q) && q@ == path@),
            world@.contains_key(path@) && world@[path@] is File ==> r
                == Ok::<Executable, Error>(exec_state_of(world@[path@])),
    {
        match world.lookup(path) {
            None => Err(Error::NotFound(path.clone())),
            Some(Node::File { perms }) => {
                let user = perms.user();
                let x = Perm { bits: 1 };
                proof {
                    let b = perms.bits;
                    assert((((b >> 6) & 0o7) as u8) & 1 == 1 <==> (b >> 6) & 1 == 1)
                        by (bit_vector);
                }
                Ok(Executable::from_bool(user.contains(x)))
            },
            Some(_) => Err(Error::NotAFile(path.clone())),
        }
    }

    /// Plan applying this intent to the regular file at `path`; anything
    /// other than a regular file is refused.
    pub fn set(self, world: &World, path: &FsPath) -> (r: Result<FsAction, Error>)
        ensures
            !world@.contains_key(path@) ==> (r matches Err(e) && e matches Error::NotFound(q)
                && q@ == path@),
            world@.contains_key(path@) && !(world@[path@] is File) ==> (r matches Err(e)
                && e matches Error::NotAFile(q) && q@ == path@),
            world@.contains_key(path@) && world@[path@] is File ==> (r matches Ok(a) && a@
                == (FsActionV::SetExecutable { path: path@, mode: self })),
    {
        match world.lookup(path) {
            None => Err(Error::NotFound(path.clone())),
            Some(Node::File { perms: _ }) => Ok(
                FsAction::SetExecutable { path: path.clone(), mode: self },
            ),
            Some(_) => Err(Error::NotAFile(path.clone())),
        }
    }
}

} // verus!
