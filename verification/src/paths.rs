//! Lexical path model: a path is an absoluteness flag plus a list of
//! segments (`..`, `.`, or a plain name held as bytes).  All reasoning about
//! paths here is purely lexical; nothing touches a real filesystem.

use vstd::prelude::*;
use vstd::pervasive::cloned;

verus! {

/// One path segment.
#[derive(Debug, PartialEq, Eq)]
pub enum Seg {
    /// The parent segment `..`.
    Up,
    /// The current-directory segment `.`.
    Cur,
    /// A plain name.
    Name(Vec<u8>),
}

/// The mathematical value of a segment.
pub enum SegV {
    Up,
    Cur,
    Name(Seq<u8>),
}

/// The mathematical values of a list of segments.
pub open spec fn segs_view(v: Seq<Seg>) -> Seq<SegV> {
    v.map_values(|s: Seg| s@)
}

/// Viewing a list of segments keeps its length.
pub proof fn lemma_segs_view_len(s: Seq<Seg>)
    ensures
        segs_view(s).len() == s.len(),
{
}

/// Viewing commutes with appending one segment.
pub proof fn lemma_segs_view_push(s: Seq<Seg>, x: Seg)
    ensures
        segs_view(s.push(x)) == segs_view(s).push(x@),
{
    assert forall|k: int| 0 <= k < s.len() + 1 implies segs_view(s.push(x))[k] == segs_view(
        s,
    ).push(x@)[k] by {
        if k < s.len() {
            assert(s.push(x)[k] == s[k]);
        } else {
            assert(s.push(x)[k] == x);
        }
    }
    assert(segs_view(s.push(x)) =~= segs_view(s).push(x@));
}

/// Viewing a list of segments views each entry.
pub proof fn lemma_segs_view_index(s: Seq<Seg>, i: int)
    requires
        0 <= i < s.len(),
    ensures
        segs_view(s)[i] == s[i]@,
{
}

impl View for Seg {
    type V = SegV;

    open spec fn view(&self) -> SegV {
        match self {
            Seg::Up => SegV::Up,
            Seg::Cur => SegV::Cur,
            Seg::Name(n) => SegV::Name(n@),
        }
    }
}

impl Clone for Seg {
    fn clone(&self) -> (r: Seg)
        ensures
            r@ == self@,
    {
        match self {
            Seg::Up => Seg::Up,
            Seg::Cur => Seg::Cur,
            Seg::Name(n) => {
                let c = n.clone();
                proof {
                    assert(c@ =~= n@);
                }
                Seg::Name(c)
            },
        }
    }
}

/// The mathematical value of a path.
#[verifier::ext_equal]
pub struct PathV {
    pub absolute: bool,
    pub segs: Seq<SegV>,
}

/// A filesystem path: absolute or relative, with its segments in order.
#[derive(Debug, PartialEq, Eq)]
pub struct FsPath {
    pub absolute: bool,
    pub segs: Vec<Seg>,
}

impl View for FsPath {
    type V = PathV;

    open spec fn view(&self) -> PathV {
        PathV { absolute: self.absolute, segs: segs_view(self.segs@) }
    }
}

impl SegV {
    /// A name is nonempty, holds no separator byte, and is not one of the
    /// two dot segments (those are represented by their own variants).
    pub open spec fn wf(self) -> bool {
        match self {
            SegV::Up => true,
            SegV::Cur => true,
            SegV::Name(n) => n.len() > 0 && (forall|i: int| 0 <= i < n.len() ==> n[i] != 47u8)
                && n != seq![46u8] && n != seq![46u8, 46u8],
        }
    }
}

/// Whether every segment of `s` is a plain name.
pub open spec fn all_names(s: Seq<SegV>) -> bool {
    forall|i: int| 0 <= i < s.len() ==> s[i] is Name
}

impl PathV {
    /// Every segment is well formed.
    pub open spec fn wf(self) -> bool {
        forall|i: int| 0 <= i < self.segs.len() ==> (#[trigger] self.segs[i]).wf()
    }

    /// An absolute, well-formed path made of plain names only.
    pub open spec fn normal(self) -> bool {
        self.wf() && self.absolute && all_names(self.segs)
    }

    /// Whether `base` is a lexical prefix of `self`.
    pub open spec fn starts_with(self, base: PathV) -> bool {
        self.absolute == base.absolute && base.segs.len() <= self.segs.len()
            && base.segs == self.segs.subrange(0, base.segs.len() as int)
    }

    /// `self` with the segments of `rel` appended.
    pub open spec fn join(self, rel: PathV) -> PathV {
        PathV { absolute: self.absolute, segs: self.segs + rel.segs }
    }

    /// `self` with one more name appended.
    pub open spec fn child(self, name: Seq<u8>) -> PathV {
        PathV { absolute: self.absolute, segs: self.segs.push(SegV::Name(name)) }
    }
}

impl Clone for FsPath {
    fn clone(&self) -> (r: FsPath)
        ensures
            r@ == self@,
    {
        let segs = self.segs.clone();
        proof {
            assert forall|i: int| 0 <= i < segs@.len() implies segs_view(segs@)[i] == segs_view(
                self.segs@,
            )[i] by {
                assert(cloned::<Seg>(self.segs@[i], segs@[i]));
            }
            assert(segs_view(segs@) =~= segs_view(self.segs@));
        }
        FsPath { absolute: self.absolute, segs }
    }
}

/// Byte-for-byte equality of two byte vectors.
pub fn bytes_eq(a: &Vec<u8>, b: &Vec<u8>) -> (r: bool)
    ensures
        r == (a@ == b@),
{
    if a.len() != b.len() {
        return false;
    }
    let mut i: usize = 0;
    while i < a.len()
        invariant
            i <= a.len(),
            a@.len() == b@.len(),
            forall|j: int| 0 <= j < i ==> a@[j] == b@[j],
        decreases a.len() - i,
    {
        if a[i] != b[i] {
            return false;
        }
        i += 1;
    }
    proof {
        assert(a@ =~= b@);
    }
    true
}

/// Whether two segments denote the same value.
pub fn seg_eq(a: &Seg, b: &Seg) -> (r: bool)
    ensures
        r == (a@ == b@),
{
    match (a, b) {
        (Seg::Up, Seg::Up) => true,
        (Seg::Cur, Seg::Cur) => true,
        (Seg::Name(x), Seg::Name(y)) => bytes_eq(x, y),
        _ => false,
    }
}

/// Whether two paths denote the same value.
pub fn path_eq(a: &FsPath, b: &FsPath) -> (r: bool)
    ensures
        r == (a@ == b@),
{
    if a.absolute != b.absolute {
        return false;
    }
    if a.segs.len() != b.segs.len() {
        proof {
            lemma_segs_view_len(a.segs@);
            lemma_segs_view_len(b.segs@);
        }
        return false;
    }
    let mut i: usize = 0;
    while i < a.segs.len()
        invariant
            i <= a.segs.len(),
            a.segs@.len() == b.segs@.len(),
            a.absolute == b.absolute,
            forall|j: int| 0 <= j < i ==> segs_view(a.segs@)[j] == segs_view(b.segs@)[j],
        decreases a.segs.len() - i,
    {
        if !seg_eq(&a.segs[i], &b.segs[i]) {
            proof {
                lemma_segs_view_index(a.segs@, i as int);
                lemma_segs_view_index(b.segs@, i as int);
            }
            return false;
        }
        i += 1;
    }
    proof {
        assert(a@.segs =~= b@.segs);
    }
    true
}

impl FsPath {
    /// Whether `base` is a lexical prefix of `self`.
    pub fn starts_with(&self, base: &FsPath) -> (r: bool)
        ensures
            r == self@.starts_with(base@),
    {
        if self.absolute != base.absolute {
            return false;
        }
        if base.segs.len() > self.segs.len() {
            return false;
        }
        let mut i: usize = 0;
        while i < base.segs.len()
            invariant
                i <= base.segs.len(),
                base.segs@.len() <= self.segs@.len(),
                forall|j: int| 0 <= j < i ==> segs_view(base.segs@)[j] == segs_view(self.segs@)[j],
            decreases base.segs.len() - i,
        {
            if !seg_eq(&base.segs[i], &self.segs[i]) {
                proof {
                    let bs = self@.segs.subrange(0, base@.segs.len() as int);
                    assert(bs[i as int] == self@.segs[i as int]);
                }
                return false;
            }
            i += 1;
        }
        proof {
            assert(base@.segs =~= self@.segs.subrange(0, base@.segs.len() as int));
        }
        true
    }

    /// `self` with the segments of `rel` appended.
    pub fn join(&self, rel: &FsPath) -> (r: FsPath)
        ensures
            r@ == self@.join(rel@),
    {
        let mut segs = self.segs.clone();
        proof {
            assert forall|k: int| 0 <= k < segs@.len() implies segs_view(segs@)[k] == segs_view(
                self.segs@,
            )[k] by {
                assert(cloned::<Seg>(self.segs@[k], segs@[k]));
            }
            assert(segs_view(segs@) =~= segs_view(self.segs@));
        }
        let mut i: usize = 0;
        while i < rel.segs.len()
            invariant
                i <= rel.segs.len(),
                segs_view(segs@) == segs_view(self.segs@) + segs_view(rel.segs@).take(i as int),
            decreases rel.segs.len() - i,
        {
            let ghost pre = segs@;
            let x = rel.segs[i].clone();
            proof {
                lemma_segs_view_push(pre, x);
                lemma_segs_view_index(rel.segs@, i as int);
            }
            segs.push(x);
            proof {
                assert(segs_view(segs@) =~= segs_view(self.segs@) + segs_view(rel.segs@).take(
                    i + 1,
                ));
            }
            i += 1;
        }
        proof {
            assert(segs_view(rel.segs@).take(rel.segs@.len() as int) =~= segs_view(rel.segs@));
        }
        FsPath { absolute: self.absolute, segs }
    }
}

impl FsPath {
    /// `self` with one more name appended.
    pub fn child(&self, name: Vec<u8>) -> (r: FsPath)
        ensures
            r@ == self@.child(name@),
    {
        let mut p = self.clone();
        let ghost pre = p.segs@;
        let x = Seg::Name(name);
        proof {
            lemma_segs_view_push(pre, x);
        }
        p.segs.push(x);
        p
    }
}

/// Joining to the same base is injective among paths of one absoluteness.
pub proof fn lemma_join_injective(base: PathV, p: PathV, q: PathV)
    requires
        p.absolute == q.absolute,
        base.join(p) == base.join(q),
    ensures
        p == q,
{
    let a = base.segs;
    assert(a + p.segs == a + q.segs);
    assert(p.segs.len() == q.segs.len());
    assert forall|k: int| 0 <= k < p.segs.len() implies p.segs[k] == q.segs[k] by {
        assert((a + p.segs)[a.len() + k] == p.segs[k]);
        assert((a + q.segs)[a.len() + k] == q.segs[k]);
    }
    assert(p.segs =~= q.segs);
    assert(p =~= q);
}

// ---------------------------------------------------------------------------
// Parsing byte strings into paths
// ---------------------------------------------------------------------------

/// The index of the first separator byte at or after `pos`, or the length if
/// there is none.
pub open spec fn first_slash_from(bytes: Seq<u8>, pos: int) -> int
    decreases bytes.len() - pos,
{
    if pos >= bytes.len() {
        bytes.len() as int
    } else if bytes[pos] == 47u8 {
        pos
    } else {
        first_slash_from(bytes, pos + 1)
    }
}

pub proof fn lemma_first_slash_bounds(bytes: Seq<u8>, pos: int)
    requires
        pos <= bytes.len(),
    ensures
        pos <= first_slash_from(bytes, pos) <= bytes.len(),
        forall|j: int| pos <= j < first_slash_from(bytes, pos) ==> bytes[j] != 47u8,
        pos < bytes.len() && bytes[pos] != 47u8 ==> first_slash_from(bytes, pos) > pos,
    decreases bytes.len() - pos,
{
    if pos >= bytes.len() {
    } else if bytes[pos] == 47u8 {
    } else {
        lemma_first_slash_bounds(bytes, pos + 1);
    }
}

/// The segment denoted by one separator-free token.
pub open spec fn token_seg(tok: Seq<u8>) -> SegV {
    if tok == seq![46u8] {
        SegV::Cur
    } else if tok == seq![46u8, 46u8] {
        SegV::Up
    } else {
        SegV::Name(tok)
    }
}

/// The segments of `bytes` from `pos` on: separators split tokens, empty
/// tokens vanish, `.` and `..` become the dot segments.
pub open spec fn parse_segs(bytes: Seq<u8>, pos: int) -> Seq<SegV>
    decreases bytes.len() - pos,
    when pos >= 0
    via parse_segs_decreases
{
    if pos >= bytes.len() {
        Seq::empty()
    } else if bytes[pos] == 47u8 {
        parse_segs(bytes, pos + 1)
    } else {
        seq![token_seg(bytes.subrange(pos, first_slash_from(bytes, pos)))] + parse_segs(
            bytes,
            first_slash_from(bytes, pos),
        )
    }
}

#[via_fn]
proof fn parse_segs_decreases(bytes: Seq<u8>, pos: int) {
    if 0 <= pos && pos < bytes.len() && bytes[pos] != 47u8 {
        lemma_first_slash_bounds(bytes, pos);
    }
}

/// The path denoted by a byte string such as `/a/b/c`.
pub open spec fn parse_path(bytes: Seq<u8>) -> PathV {
    PathV {
        absolute: bytes.len() > 0 && bytes[0] == 47u8,
        segs: parse_segs(bytes, 0),
    }
}

/// Every segment a parse produces is well formed.
pub proof fn lemma_parse_segs_wf(bytes: Seq<u8>, pos: int)
    requires
        0 <= pos <= bytes.len(),
    ensures
        forall|i: int|
            0 <= i < parse_segs(bytes, pos).len() ==> (#[trigger] parse_segs(bytes, pos)[i]).wf(),
    decreases bytes.len() - pos,
{
    if pos >= bytes.len() {
        assert(parse_segs(bytes, pos).len() == 0);
    } else if bytes[pos] == 47u8 {
        lemma_parse_segs_wf(bytes, pos + 1);
        assert(parse_segs(bytes, pos) == parse_segs(bytes, pos + 1));
    } else {
        let e = first_slash_from(bytes, pos);
        lemma_first_slash_bounds(bytes, pos);
        lemma_parse_segs_wf(bytes, e);
        let tok = bytes.subrange(pos, e);
        assert(tok.len() > 0);
        assert(forall|j: int| 0 <= j < tok.len() ==> tok[j] != 47u8);
        assert(token_seg(tok).wf());
        let ps = parse_segs(bytes, pos);
        let rest = parse_segs(bytes, e);
        assert(ps == seq![token_seg(tok)] + rest);
        assert forall|i: int| 0 <= i < ps.len() implies (#[trigger] ps[i]).wf() by {
            if i == 0 {
                assert(ps[i] == (seq![token_seg(tok)] + rest)[0]);
            } else {
                assert(ps[i] == (seq![token_seg(tok)] + rest)[i]);
                assert((seq![token_seg(tok)] + rest)[i] == rest[i - 1]);
            }
        }
    }
}

fn first_slash_exec(bytes: &Vec<u8>, pos: usize) -> (r: usize)
    requires
        pos <= bytes.len(),
    ensures
        r == first_slash_from(bytes@, pos as int),
        pos <= r <= bytes.len(),
    decreases bytes.len() - pos,
{
    if pos >= bytes.len() {
        bytes.len()
    } else if bytes[pos] == 47u8 {
        pos
    } else {
        first_slash_exec(bytes, pos + 1)
    }
}

fn copy_range(bytes: &Vec<u8>, from: usize, to: usize) -> (r: Vec<u8>)
    requires
        from <= to <= bytes.len(),
    ensures
        r@ == bytes@.subrange(from as int, to as int),
{
    let mut r: Vec<u8> = Vec::new();
    let mut i: usize = from;
    while i < to
        invariant
            from <= i <= to <= bytes.len(),
            r@ == bytes@.subrange(from as int, i as int),
        decreases to - i,
    {
        r.push(bytes[i]);
        proof {
            assert(r@ =~= bytes@.subrange(from as int, i + 1));
        }
        i += 1;
    }
    r
}

fn token_of(tok: Vec<u8>) -> (r: Seg)
    ensures
        r@ == token_seg(tok@),
{
    if tok.len() == 1 && tok[0] == 46u8 {
        proof {
            assert(tok@ =~= seq![46u8]);
        }
        Seg::Cur
    } else if tok.len() == 2 && tok[0] == 46u8 && tok[1] == 46u8 {
        proof {
            assert(tok@ =~= seq![46u8, 46u8]);
        }
        Seg::Up
    } else {
        proof {
            assert(tok@ != seq![46u8]);
            assert(tok@ != seq![46u8, 46u8]);
        }
        Seg::Name(tok)
    }
}

fn parse_segs_exec(bytes: &Vec<u8>, pos: usize) -> (r: Vec<Seg>)
    requires
        pos <= bytes.len(),
    ensures
        segs_view(r@) == parse_segs(bytes@, pos as int),
    decreases bytes.len() - pos,
{
    if pos >= bytes.len() {
        let r: Vec<Seg> = Vec::new();
        proof {
            assert(segs_view(r@) =~= parse_segs(bytes@, pos as int));
        }
        r
    } else if bytes[pos] == 47u8 {
        parse_segs_exec(bytes, pos + 1)
    } else {
        let e = first_slash_exec(bytes, pos);
        proof {
            lemma_first_slash_bounds(bytes@, pos as int);
        }
        let tok = copy_range(bytes, pos, e);
        let seg = token_of(tok);
        let mut rest = parse_segs_exec(bytes, e);
        rest.insert(0, seg);
        proof {
            assert(segs_view(rest@) =~= seq![
                token_seg(bytes@.subrange(pos as int, e as int)),
            ] + parse_segs(bytes@, e as int));
        }
        rest
    }
}

impl FsPath {
    /// Parse a byte string such as `/a/b/c` into a path.  A leading
    /// separator makes the path absolute; empty tokens are dropped; the
    /// tokens `.` and `..` become the dot segments.
    pub fn from_bytes(bytes: &Vec<u8>) -> (r: FsPath)
        ensures
            r@ == parse_path(bytes@),
            r@.wf(),
    {
        let absolute = bytes.len() > 0 && bytes[0] == 47u8;
        let segs = parse_segs_exec(bytes, 0);
        proof {
            lemma_parse_segs_wf(bytes@, 0);
        }
        FsPath { absolute, segs }
    }
}

// ---------------------------------------------------------------------------
// Lexical canonicalization
// ---------------------------------------------------------------------------

/// One canonicalization step: names accumulate, `.` vanishes, and `..`
/// removes a trailing name, or accumulates where there is nothing left to
/// remove.
pub open spec fn canon_push(acc: Seq<SegV>, seg: SegV) -> Seq<SegV> {
    match seg {
        SegV::Cur => acc,
        SegV::Name(n) => acc.push(SegV::Name(n)),
        SegV::Up => if acc.len() == 0 || acc.last() is Up {
            acc.push(SegV::Up)
        } else {
            acc.drop_last()
        },
    }
}

/// Canonicalize `segs` on top of the already-canonical `acc`.
pub open spec fn canon_fold(acc: Seq<SegV>, segs: Seq<SegV>) -> Seq<SegV>
    decreases segs.len(),
{
    if segs.len() == 0 {
        acc
    } else {
        canon_fold(canon_push(acc, segs[0]), segs.skip(1))
    }
}

/// The lexical canonicalization of a path: `.` and `..` are resolved without
/// consulting any filesystem.
pub open spec fn canon_spec(p: PathV) -> PathV {
    PathV { absolute: p.absolute, segs: canon_fold(Seq::empty(), p.segs) }
}

fn is_up(s: &Seg) -> (r: bool)
    ensures
        r == (s@ is Up),
{
    match s {
        Seg::Up => true,
        _ => false,
    }
}

/// Resolve `.` and `..` segments lexically, without touching a filesystem.
pub fn canonicalize_light(p: &FsPath) -> (r: FsPath)
    ensures
        r@ == canon_spec(p@),
{
    let mut segs: Vec<Seg> = Vec::new();
    let mut i: usize = 0;
    proof {
        assert(segs_view(segs@) =~= Seq::<SegV>::empty());
        assert(p@.segs.skip(0) =~= p@.segs);
    }
    while i < p.segs.len()
        invariant
            i <= p.segs.len(),
            canon_fold(segs_view(segs@), p@.segs.skip(i as int)) == canon_fold(
                Seq::empty(),
                p@.segs,
            ),
        decreases p.segs.len() - i,
    {
        let ghost acc_old = segs_view(segs@);
        let ghost rest_old = p@.segs.skip(i as int);
        proof {
            assert(rest_old.len() > 0);
            assert(rest_old[0] == p@.segs[i as int]);
            assert(rest_old.skip(1) =~= p@.segs.skip(i + 1));
        }
        match &p.segs[i] {
            Seg::Cur => {
                proof {
                    assert(canon_push(acc_old, rest_old[0]) == acc_old);
                }
            },
            Seg::Name(n) => {
                segs.push(Seg::Name(n.clone()));
                proof {
                    assert(segs_view(segs@) =~= acc_old.push(SegV::Name(n@)));
                }
            },
            Seg::Up => {
                let push_up = if segs.len() == 0 {
                    true
                } else {
                    is_up(&segs[segs.len() - 1])
                };
                if push_up {
                    segs.push(Seg::Up);
                    proof {
                        assert(segs_view(segs@) =~= acc_old.push(SegV::Up));
                    }
                } else {
                    segs.pop();
                    proof {
                        assert(acc_old.len() > 0 && !(acc_old.last() is Up));
                        assert(segs_view(segs@) =~= acc_old.drop_last());
                    }
                }
            },
        }
        i += 1;
    }
    proof {
        assert(p@.segs.skip(p.segs@.len() as int) =~= Seq::<SegV>::empty());
    }
    FsPath { absolute: p.absolute, segs }
}

// ---------------------------------------------------------------------------
// Relative paths between absolute bases
// ---------------------------------------------------------------------------

/// The length of the longest common prefix of two segment lists.
pub open spec fn common_prefix_len(a: Seq<SegV>, b: Seq<SegV>) -> int
    decreases a.len(),
{
    if a.len() == 0 || b.len() == 0 || a[0] != b[0] {
        0
    } else {
        1 + common_prefix_len(a.skip(1), b.skip(1))
    }
}

pub proof fn lemma_common_prefix_bounds(a: Seq<SegV>, b: Seq<SegV>)
    ensures
        0 <= common_prefix_len(a, b) <= a.len(),
        common_prefix_len(a, b) <= b.len(),
        forall|j: int| 0 <= j < common_prefix_len(a, b) ==> a[j] == b[j],
    decreases a.len(),
{
    if a.len() == 0 || b.len() == 0 || a[0] != b[0] {
    } else {
        lemma_common_prefix_bounds(a.skip(1), b.skip(1));
        assert forall|j: int| 0 <= j < common_prefix_len(a, b) implies a[j] == b[j] by {
            if j > 0 {
                assert(a.skip(1)[j - 1] == b.skip(1)[j - 1]);
            }
        }
    }
}

/// The common-prefix length is pinned by pointwise agreement up to `n` and a
/// difference (or an end) at `n`.
pub proof fn lemma_common_prefix_char(a: Seq<SegV>, b: Seq<SegV>, n: int)
    requires
        0 <= n <= a.len(),
        n <= b.len(),
        forall|j: int| 0 <= j < n ==> a[j] == b[j],
        n == a.len() || n == b.len() || a[n] != b[n],
    ensures
        common_prefix_len(a, b) == n,
    decreases n,
{
    if n == 0 {
    } else {
        assert(a[0] == b[0]);
        lemma_common_prefix_char(a.skip(1), b.skip(1), n - 1);
    }
}

/// A run of `n` parent segments.
pub open spec fn ups(n: int) -> Seq<SegV> {
    Seq::new(n as nat, |i: int| SegV::Up)
}

/// The relative path that leads from `from` to `to`: one `..` for every
/// segment of `from` past their common prefix, then the rest of `to`.
pub open spec fn relative_to_spec(from: PathV, to: PathV) -> PathV {
    let n = common_prefix_len(from.segs, to.segs);
    PathV { absolute: false, segs: ups(from.segs.len() - n) + to.segs.skip(n) }
}

/// Compute the path that, resolved against `from`, leads to `to`: walk up
/// out of `from` until `to` is below, then descend.
pub fn relative_to(from: &FsPath, to: &FsPath) -> (r: FsPath)
    requires
        from@.absolute,
        to@.absolute,
    ensures
        r@ == relative_to_spec(from@, to@),
{
    let mut n: usize = 0;
    let mut stop = false;
    while !stop && n < from.segs.len() && n < to.segs.len()
        invariant
            n <= from.segs.len(),
            n <= to.segs.len(),
            forall|j: int| 0 <= j < n ==> from@.segs[j] == to@.segs[j],
            stop ==> n < from.segs@.len() && n < to.segs@.len() && from@.segs[n as int]
                != to@.segs[n as int],
        decreases from.segs.len() - n + (if stop { 0int } else { 1int }),
    {
        if seg_eq(&from.segs[n], &to.segs[n]) {
            n += 1;
        } else {
            stop = true;
        }
    }
    proof {
        lemma_common_prefix_char(from@.segs, to@.segs, n as int);
    }
    let k = from.segs.len() - n;
    let mut segs: Vec<Seg> = Vec::new();
    let mut i: usize = 0;
    proof {
        assert(segs_view(segs@) =~= ups(0));
    }
    while i < k
        invariant
            i <= k,
            segs_view(segs@) == ups(i as int),
        decreases k - i,
    {
        let ghost pre = segs@;
        segs.push(Seg::Up);
        proof {
            lemma_segs_view_push(pre, Seg::Up);
            assert(segs_view(segs@) =~= ups(i + 1));
        }
        i += 1;
    }
    let mut j: usize = n;
    proof {
        assert(segs_view(segs@) =~= ups(k as int) + to@.segs.subrange(n as int, n as int));
    }
    while j < to.segs.len()
        invariant
            n <= j <= to.segs.len(),
            k == from.segs@.len() - n,
            segs_view(segs@) == ups(k as int) + to@.segs.subrange(n as int, j as int),
        decreases to.segs.len() - j,
    {
        let ghost pre = segs@;
        let x = to.segs[j].clone();
        proof {
            lemma_segs_view_push(pre, x);
            lemma_segs_view_index(to.segs@, j as int);
        }
        segs.push(x);
        proof {
            assert(segs_view(segs@) =~= ups(k as int) + to@.segs.subrange(n as int, j + 1));
        }
        j += 1;
    }
    proof {
        assert(to@.segs.subrange(n as int, to@.segs.len() as int) =~= to@.segs.skip(n as int));
    }
    FsPath { absolute: false, segs }
}

// ---------------------------------------------------------------------------
// The round-trip law
// ---------------------------------------------------------------------------

proof fn lemma_canon_fold_app(acc: Seq<SegV>, a: Seq<SegV>, b: Seq<SegV>)
    ensures
        canon_fold(acc, a + b) == canon_fold(canon_fold(acc, a), b),
    decreases a.len(),
{
    if a.len() == 0 {
        assert(a + b =~= b);
    } else {
        assert((a + b)[0] == a[0]);
        assert((a + b).skip(1) =~= a.skip(1) + b);
        lemma_canon_fold_app(canon_push(acc, a[0]), a.skip(1), b);
    }
}

proof fn lemma_canon_fold_names(acc: Seq<SegV>, s: Seq<SegV>)
    requires
        all_names(s),
    ensures
        canon_fold(acc, s) == acc + s,
    decreases s.len(),
{
    if s.len() == 0 {
        assert(acc + s =~= acc);
    } else {
        assert(s[0] is Name);
        assert(all_names(s.skip(1)));
        lemma_canon_fold_names(acc.push(s[0]), s.skip(1));
        assert(acc.push(s[0]) + s.skip(1) =~= acc + s);
    }
}

proof fn lemma_canon_fold_ups(acc: Seq<SegV>, k: int)
    requires
        0 <= k <= acc.len(),
        all_names(acc),
    ensures
        canon_fold(acc, ups(k)) == acc.take(acc.len() - k),
    decreases k,
{
    if k == 0 {
        assert(acc.take(acc.len() as int) =~= acc);
    } else {
        assert(ups(k)[0] == SegV::Up);
        assert(acc.len() > 0);
        assert(acc.last() is Name);
        assert(canon_push(acc, SegV::Up) == acc.drop_last());
        assert(acc.drop_last() =~= acc.take(acc.len() - 1));
        let acc2 = acc.take(acc.len() - 1);
        assert(all_names(acc2));
        assert(ups(k).skip(1) =~= ups(k - 1));
        lemma_canon_fold_ups(acc2, k - 1);
        assert(acc2.take(acc2.len() - (k - 1)) =~= acc.take(acc.len() - k));
    }
}

/// Resolving `relative_to(from, to)` against `from` and canonicalizing
/// lexically yields `to` again, for every pair of absolute, well-formed,
/// dot-free paths.
pub proof fn lemma_relative_to_round_trip(from: PathV, to: PathV)
    requires
        from.normal(),
        to.normal(),
    ensures
        canon_spec(from.join(relative_to_spec(from, to))) == to,
{
    let n = common_prefix_len(from.segs, to.segs);
    lemma_common_prefix_bounds(from.segs, to.segs);
    let k = from.segs.len() - n;
    let tail = to.segs.skip(n);
    let rel = ups(k) + tail;
    lemma_canon_fold_app(Seq::empty(), from.segs, rel);
    lemma_canon_fold_names(Seq::empty(), from.segs);
    assert(Seq::<SegV>::empty() + from.segs =~= from.segs);
    lemma_canon_fold_app(from.segs, ups(k), tail);
    lemma_canon_fold_ups(from.segs, k);
    let pref = from.segs.take(n);
    assert(all_names(tail));
    lemma_canon_fold_names(pref, tail);
    assert(pref =~= to.segs.take(n));
    assert(to.segs.take(n) + to.segs.skip(n) =~= to.segs);
    assert(canon_spec(from.join(relative_to_spec(from, to))) =~= to);
}

} // verus!
