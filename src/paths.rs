//! Paths as sequences of components, and the lexical steps of resolving a
//! request target to a file under the server root.

use vstd::prelude::*;

use crate::bytes::{append_bytes, byte_strings, bytes_equal, clone_bytes, copy_range, DOT, SLASH};

verus! {

/// Index of the last slash in `p`, or -1 when there is none.
pub open spec fn last_slash(p: Seq<u8>) -> int
    decreases p.len(),
{
    if p.len() == 0 {
        -1
    } else if p.last() == SLASH {
        p.len() - 1
    } else {
        last_slash(p.drop_last())
    }
}

/// The component that a piece between slashes contributes: none for an
/// empty piece or `.`, the piece itself otherwise.
pub open spec fn piece_component(piece: Seq<u8>) -> Seq<Seq<u8>> {
    if piece.len() == 0 || piece == seq![DOT] {
        Seq::empty()
    } else {
        seq![piece]
    }
}

/// The components of a path: the pieces between slashes, without empty
/// pieces and `.` (so repeated and trailing slashes do not count). `..` is
/// kept.
pub open spec fn components(p: Seq<u8>) -> Seq<Seq<u8>>
    decreases p.len(),
{
    let k = last_slash(p);
    if k < 0 || k >= p.len() {
        piece_component(p)
    } else {
        components(p.subrange(0, k)) + piece_component(p.subrange(k + 1, p.len() as int))
    }
}

/// When `p[start..i]` holds no slash and `start` follows a slash (or is 0),
/// the last slash before `i` is at `start - 1`.
proof fn lemma_last_slash_of_prefix(p: Seq<u8>, start: int, i: int)
    requires
        0 <= start <= i <= p.len(),
        start == 0 || p[start - 1] == SLASH,
        forall|j: int| start <= j < i ==> p[j] != SLASH,
    ensures
        last_slash(p.subrange(0, i)) == start - 1,
    decreases i,
{
    let q = p.subrange(0, i);
    if i == 0 {
    } else if i == start {
        assert(q.last() == SLASH);
    } else {
        assert(q.drop_last() =~= p.subrange(0, i - 1));
        lemma_last_slash_of_prefix(p, start, i - 1);
    }
}

fn is_dot(piece: &[u8]) -> (r: bool)
    ensures
        r == (piece@ == seq![DOT]),
{
    let r = piece.len() == 1 && piece[0] == DOT;
    proof {
        if piece@.len() == 1 {
            assert(r ==> piece@ =~= seq![DOT]);
        }
    }
    r
}

/// Splits a path into its components.
pub fn split_components(p: &[u8]) -> (r: Vec<Vec<u8>>)
    ensures
        byte_strings(r@) == components(p@),
{
    let mut out: Vec<Vec<u8>> = Vec::new();
    let mut start: usize = 0;
    let mut i: usize = 0;
    while i < p.len()
        invariant
            start <= i <= p@.len(),
            start == 0 || p@[start - 1] == SLASH,
            forall|j: int| start <= j < i ==> p@[j] != SLASH,
            start == 0 ==> byte_strings(out@) == Seq::<Seq<u8>>::empty(),
            start > 0 ==> byte_strings(out@) == components(p@.subrange(0, start - 1)),
        decreases p.len() - i,
    {
        if p[i] == SLASH {
            let piece = copy_range(p, start, i);
            proof {
                lemma_last_slash_of_prefix(p@, start as int, i as int);
                let q = p@.subrange(0, i as int);
                if start > 0 {
                    assert(q.subrange(0, start - 1) =~= p@.subrange(0, start - 1));
                }
                assert(q.subrange(start as int, i as int) =~= piece@);
            }
            let ghost before = byte_strings(out@);
            if piece.len() != 0 && !is_dot(piece.as_slice()) {
                out.push(piece);
                assert(byte_strings(out@) =~= before + seq![piece@]);
            } else {
                assert(byte_strings(out@) =~= before + Seq::<Seq<u8>>::empty());
            }
            proof {
                assert(p@.subrange(0, i as int).subrange(start as int, i as int) =~= piece@);
                if start == 0 {
                    assert(components(p@.subrange(0, i as int)) == piece_component(piece@)) by {
                        assert(Seq::<Seq<u8>>::empty() + piece_component(piece@) =~= piece_component(piece@));
                    }
                }
            }
            start = i + 1;
        }
        i = i + 1;
    }
    let piece = copy_range(p, start, p.len());
    proof {
        lemma_last_slash_of_prefix(p@, start as int, p@.len() as int);
        assert(p@.subrange(0, p@.len() as int) =~= p@);
        assert(p@.subrange(start as int, p@.len() as int) =~= piece@);
    }
    let ghost before = byte_strings(out@);
    if piece.len() != 0 && !is_dot(piece.as_slice()) {
        out.push(piece);
        assert(byte_strings(out@) =~= before + seq![piece@]);
    } else {
        assert(byte_strings(out@) =~= before + Seq::<Seq<u8>>::empty());
    }
    proof {
        if start == 0 {
            assert(Seq::<Seq<u8>>::empty() + piece_component(piece@) =~= piece_component(piece@));
        }
    }
    out
}

/// `index.html`, served for the root.
pub open spec fn index_name() -> Seq<u8> {
    seq![105u8, 110, 100, 101, 120, DOT, 104, 116, 109, 108]
}

/// `.html`, tried after a missing name without an extension.
pub open spec fn html_suffix() -> Seq<u8> {
    seq![DOT, 104u8, 116, 109, 108]
}

/// `..`, the parent component.
pub open spec fn parent_name() -> Seq<u8> {
    seq![DOT, DOT]
}

/// The path relative to the server root that a request target names: the
/// target's components, read as rooted at `/`, or `index.html` when they
/// name the root itself.
pub open spec fn target_relative(t: Seq<u8>) -> Seq<Seq<u8>> {
    let c = components(t);
    if c.len() == 0 {
        seq![index_name()]
    } else {
        c
    }
}

/// A file name has an extension when it holds a dot after its first byte
/// (so `.profile` has none, and neither does `name`).
pub open spec fn has_extension(name: Seq<u8>) -> bool {
    exists|i: int| 1 <= i < name.len() && name[i] == DOT
}

/// The candidate after the extension fallback: a path that does not exist
/// and whose last name has no extension gets `.html` appended to that name.
pub open spec fn html_fallback(rel: Seq<Seq<u8>>, exists: bool) -> Seq<Seq<u8>> {
    if !exists && rel.len() > 0 && !has_extension(rel.last()) {
        rel.drop_last().push(rel.last() + html_suffix())
    } else {
        rel
    }
}

/// The components joined by slashes.
pub open spec fn joined(parts: Seq<Seq<u8>>) -> Seq<u8>
    decreases parts.len(),
{
    if parts.len() == 0 {
        Seq::empty()
    } else if parts.len() == 1 {
        parts[0]
    } else {
        joined(parts.drop_last()) + seq![SLASH] + parts.last()
    }
}

/// The lexical normal form of an absolute path: each `..` removes the
/// component before it (none at the root); no link is followed.
pub open spec fn normalized(parts: Seq<Seq<u8>>) -> Seq<Seq<u8>>
    decreases parts.len(),
{
    if parts.len() == 0 {
        Seq::empty()
    } else {
        let n = normalized(parts.drop_last());
        if parts.last() == parent_name() {
            if n.len() > 0 {
                n.drop_last()
            } else {
                n
            }
        } else {
            n.push(parts.last())
        }
    }
}

/// `root` is a leading run of whole components of `p`.
pub open spec fn within(root: Seq<Seq<u8>>, p: Seq<Seq<u8>>) -> bool {
    root.len() <= p.len() && p.subrange(0, root.len() as int) == root
}

/// A candidate for serving: the path relative to the server root, and the
/// same path made absolute by the root's components, before any link is
/// resolved.
pub struct ResolvedPath {
    pub relative: Vec<Vec<u8>>,
    pub absolute: Vec<Vec<u8>>,
}

/// The path relative to the server root that the request target names.
pub fn relative_target(t: &[u8]) -> (r: Vec<Vec<u8>>)
    ensures
        byte_strings(r@) == target_relative(t@),
        r@.len() > 0,
{
    let mut c = split_components(t);
    if c.len() == 0 {
        let index: [u8; 10] = [105, 110, 100, 101, 120, DOT, 104, 116, 109, 108];
        let name = copy_range(index.as_slice(), 0, 10);
        assert(name@ =~= index_name());
        c.push(name);
        assert(byte_strings(c@) =~= seq![index_name()]);
    }
    c
}

/// Whether the file name has an extension.
pub fn name_has_extension(name: &[u8]) -> (r: bool)
    ensures
        r == has_extension(name@),
{
    let mut i: usize = 1;
    while i < name.len()
        invariant
            1 <= i,
            forall|j: int| 1 <= j < i && j < name@.len() ==> name@[j] != DOT,
        decreases name.len() - i,
    {
        if name[i] == DOT {
            return true;
        }
        i = i + 1;
    }
    false
}

/// Resolves a request target to a candidate under `root` (the canonical
/// server root's components). `exists` tells whether the path that the
/// target names relative to the root exists; when it does not and its last
/// name has no extension, the candidate is that name with `.html` appended.
pub fn resolve(target: &[u8], exists: bool, root: &Vec<Vec<u8>>) -> (r: ResolvedPath)
    ensures
        byte_strings(r.relative@) == html_fallback(target_relative(target@), exists),
        byte_strings(r.absolute@) == byte_strings(root@) + byte_strings(r.relative@),
{
    let mut rel = relative_target(target);
    let last: usize = rel.len() - 1;
    if !exists && !name_has_extension(rel[last].as_slice()) {
        let ghost before = byte_strings(rel@);
        let mut name = rel.pop().unwrap();
        let suffix: [u8; 5] = [DOT, 104, 116, 109, 108];
        assert(suffix@ =~= html_suffix());
        append_bytes(&mut name, suffix.as_slice());
        rel.push(name);
        assert(byte_strings(rel@) =~= before.drop_last().push(before.last() + html_suffix()));
    }
    let mut absolute: Vec<Vec<u8>> = Vec::new();
    let mut i: usize = 0;
    while i < root.len()
        invariant
            i <= root@.len(),
            byte_strings(absolute@) == byte_strings(root@).subrange(0, i as int),
        decreases root.len() - i,
    {
        let ghost before = byte_strings(absolute@);
        absolute.push(clone_bytes(&root[i]));
        assert(byte_strings(absolute@) =~= before.push(root@[i as int]@));
        i = i + 1;
        assert(byte_strings(absolute@) =~= byte_strings(root@).subrange(0, i as int));
    }
    let mut j: usize = 0;
    while j < rel.len()
        invariant
            j <= rel@.len(),
            byte_strings(absolute@) == byte_strings(root@) + byte_strings(rel@).subrange(0, j as int),
        decreases rel.len() - j,
    {
        let ghost before = byte_strings(absolute@);
        absolute.push(clone_bytes(&rel[j]));
        assert(byte_strings(absolute@) =~= before.push(rel@[j as int]@));
        j = j + 1;
        assert(byte_strings(absolute@) =~= byte_strings(root@) + byte_strings(rel@).subrange(0, j as int));
    }
    assert(byte_strings(root@).subrange(0, root@.len() as int) =~= byte_strings(root@));
    assert(byte_strings(rel@).subrange(0, rel@.len() as int) =~= byte_strings(rel@));
    ResolvedPath { relative: rel, absolute }
}

/// The components joined by slashes, with a leading slash when `absolute`.
pub fn join_components(parts: &Vec<Vec<u8>>, absolute: bool) -> (r: Vec<u8>)
    ensures
        r@ == if absolute {
            seq![SLASH] + joined(byte_strings(parts@))
        } else {
            joined(byte_strings(parts@))
        },
{
    let mut out: Vec<u8> = Vec::new();
    if absolute {
        out.push(SLASH);
    }
    let ghost lead = out@;
    let mut i: usize = 0;
    while i < parts.len()
        invariant
            i <= parts@.len(),
            out@ == lead + joined(byte_strings(parts@).subrange(0, i as int)),
        decreases parts.len() - i,
    {
        let ghost done = byte_strings(parts@).subrange(0, i as int);
        if i > 0 {
            out.push(SLASH);
        }
        append_bytes(&mut out, parts[i].as_slice());
        let ghost now = byte_strings(parts@).subrange(0, i + 1);
        assert(now.drop_last() =~= done);
        if i == 0 {
            assert(out@ =~= lead + joined(now));
        } else {
            assert(out@ =~= lead + joined(now));
        }
        i = i + 1;
    }
    assert(byte_strings(parts@).subrange(0, parts@.len() as int) =~= byte_strings(parts@));
    if !absolute {
        assert(lead =~= Seq::<u8>::empty());
        assert(out@ =~= joined(byte_strings(parts@)));
    }
    out
}

/// Whether two byte vectors hold the same bytes.
fn same_bytes(a: &Vec<u8>, b: &Vec<u8>) -> (r: bool)
    ensures
        r == (a@ == b@),
{
    bytes_equal(a.as_slice(), b.as_slice())
}

/// Whether `root` is a leading run of whole components of `p`.
pub fn is_within(root: &Vec<Vec<u8>>, p: &Vec<Vec<u8>>) -> (r: bool)
    ensures
        r == within(byte_strings(root@), byte_strings(p@)),
{
    if root.len() > p.len() {
        return false;
    }
    let mut i: usize = 0;
    while i < root.len()
        invariant
            root@.len() <= p@.len(),
            i <= root@.len(),
            forall|j: int| 0 <= j < i ==> root@[j]@ == p@[j]@,
        decreases root.len() - i,
    {
        if !same_bytes(&root[i], &p[i]) {
            assert(byte_strings(p@).subrange(0, root@.len() as int)[i as int] != byte_strings(root@)[i as int]);
            return false;
        }
        i = i + 1;
    }
    assert(byte_strings(p@).subrange(0, root@.len() as int) =~= byte_strings(root@));
    true
}

/// Whether two paths have the same components.
pub fn same_components(a: &Vec<Vec<u8>>, b: &Vec<Vec<u8>>) -> (r: bool)
    ensures
        r == (byte_strings(a@) == byte_strings(b@)),
{
    if a.len() != b.len() {
        assert(byte_strings(a@).len() != byte_strings(b@).len());
        return false;
    }
    let r = is_within(a, b);
    assert(byte_strings(b@).subrange(0, a@.len() as int) =~= byte_strings(b@));
    r
}

/// The lexical normal form of an absolute path's components.
pub fn normalize(parts: &Vec<Vec<u8>>) -> (r: Vec<Vec<u8>>)
    ensures
        byte_strings(r@) == normalized(byte_strings(parts@)),
{
    let mut out: Vec<Vec<u8>> = Vec::new();
    let parent: [u8; 2] = [DOT, DOT];
    assert(parent@ =~= parent_name());
    let mut i: usize = 0;
    while i < parts.len()
        invariant
            i <= parts@.len(),
            parent@ == parent_name(),
            byte_strings(out@) == normalized(byte_strings(parts@).subrange(0, i as int)),
        decreases parts.len() - i,
    {
        let ghost done = byte_strings(parts@).subrange(0, i as int);
        let ghost now = byte_strings(parts@).subrange(0, i + 1);
        assert(now.drop_last() =~= done);
        let ghost before = byte_strings(out@);
        if bytes_equal(parts[i].as_slice(), parent.as_slice()) {
            if out.len() > 0 {
                out.pop();
                assert(byte_strings(out@) =~= before.drop_last());
            }
        } else {
            out.push(clone_bytes(&parts[i]));
            assert(byte_strings(out@) =~= before.push(parts@[i as int]@));
        }
        i = i + 1;
    }
    assert(byte_strings(parts@).subrange(0, parts@.len() as int) =~= byte_strings(parts@));
    out
}

} // verus!
