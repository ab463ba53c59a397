//! Byte-sequence helpers shared by the parser, the path model and the
//! response writer.

use vstd::prelude::*;

verus! {

/// ASCII line feed.
pub const NEWLINE: u8 = 10;
/// ASCII space.
pub const SPACE: u8 = 32;
/// ASCII full stop.
pub const DOT: u8 = 46;
/// ASCII slash, the path separator.
pub const SLASH: u8 = 47;
/// ASCII question mark, which opens a query string.
pub const QUESTION: u8 = 63;

/// The contents of a sequence of byte vectors.
pub open spec fn byte_strings(v: Seq<Vec<u8>>) -> Seq<Seq<u8>> {
    v.map_values(|x: Vec<u8>| x@)
}

/// `pat` occurs in `b` starting at index `i`.
pub open spec fn occurs_at(b: Seq<u8>, i: int, pat: Seq<u8>) -> bool {
    0 <= i && i + pat.len() <= b.len() && b.subrange(i, i + pat.len()) == pat
}

/// A copy of `b[lo..hi]`.
pub fn copy_range(b: &[u8], lo: usize, hi: usize) -> (r: Vec<u8>)
    requires
        lo <= hi <= b@.len(),
    ensures
        r@ == b@.subrange(lo as int, hi as int),
{
    let mut r: Vec<u8> = Vec::new();
    let mut i: usize = lo;
    while i < hi
        invariant
            lo <= i <= hi <= b@.len(),
            r@ == b@.subrange(lo as int, i as int),
        decreases hi - i,
    {
        r.push(b[i]);
        i = i + 1;
        assert(r@ =~= b@.subrange(lo as int, i as int));
    }
    r
}

/// A copy of `v`.
pub fn clone_bytes(v: &Vec<u8>) -> (r: Vec<u8>)
    ensures
        r@ == v@,
{
    let r = copy_range(v.as_slice(), 0, v.len());
    assert(r@ =~= v@);
    r
}

/// Whether `pat` occurs in `b` starting at index `i`.
pub fn matches_at(b: &[u8], i: usize, pat: &[u8]) -> (r: bool)
    ensures
        r == occurs_at(b@, i as int, pat@),
{
    if i > b.len() || pat.len() > b.len() - i {
        return false;
    }
    let mut j: usize = 0;
    while j < pat.len()
        invariant
            i + pat@.len() <= b@.len() <= usize::MAX,
            j <= pat@.len(),
            b@.subrange(i as int, i + j) == pat@.subrange(0, j as int),
        decreases pat.len() - j,
    {
        if b[i + j] != pat[j] {
            assert(b@.subrange(i as int, i + pat@.len())[j as int] != pat@[j as int]);
            return false;
        }
        j = j + 1;
        assert(b@.subrange(i as int, i + j) =~= pat@.subrange(0, j as int));
    }
    assert(pat@.subrange(0, j as int) =~= pat@);
    true
}

/// Appends `src` to `dst`.
pub fn append_bytes(dst: &mut Vec<u8>, src: &[u8])
    ensures
        final(dst)@ == old(dst)@ + src@,
{
    let mut i: usize = 0;
    while i < src.len()
        invariant
            i <= src@.len(),
            dst@ == old(dst)@ + src@.subrange(0, i as int),
        decreases src.len() - i,
    {
        dst.push(src[i]);
        i = i + 1;
        assert(dst@ =~= old(dst)@ + src@.subrange(0, i as int));
    }
    assert(src@.subrange(0, i as int) =~= src@);
}

/// Whether `a` and `b` hold the same bytes.
pub fn bytes_equal(a: &[u8], b: &[u8]) -> (r: bool)
    ensures
        r == (a@ == b@),
{
    if a.len() != b.len() {
        return false;
    }
    let r = matches_at(a, 0, b);
    assert(a@.subrange(0, b@.len() as int) =~= a@);
    r
}

} // verus!
