//! The request line: `GET <path>[?query] HTTP/<anything>`.

use vstd::prelude::*;

use crate::bytes::{bytes_equal, copy_range, matches_at, occurs_at, NEWLINE, QUESTION, SLASH, SPACE};

verus! {

/// Largest number of bytes read from a connection for its request line.
pub const REQUEST_BUFFER_LEN: usize = 4096;

/// The bytes that open an acceptable request: the method and the slash
/// that starts the path.
pub open spec fn method_prefix() -> Seq<u8> {
    seq![71u8, 69, 84, SPACE, SLASH]  // "GET /"
}

/// The bytes that end the path and open the protocol version.
pub open spec fn version_marker() -> Seq<u8> {
    seq![SPACE, 72u8, 84, 84, 80, SLASH]  // " HTTP/"
}

/// Index of the first version marker at or after `i` on the first line of
/// `b`; `None` when a line break or the end of `b` comes first.
pub open spec fn version_from(b: Seq<u8>, i: int) -> Option<int>
    decreases b.len() - i,
{
    if i < 0 || i >= b.len() {
        None
    } else if occurs_at(b, i, version_marker()) {
        Some(i)
    } else if b[i] == NEWLINE {
        None
    } else {
        version_from(b, i + 1)
    }
}

/// Index of the first `?` in `b[i..end]`, or `end` when there is none.
pub open spec fn query_from(b: Seq<u8>, i: int, end: int) -> int
    decreases end - i,
{
    if i >= end {
        end
    } else if b[i] == QUESTION {
        i
    } else {
        query_from(b, i + 1, end)
    }
}

/// The request target in the raw bytes of a request: the path after `GET `
/// up to the query string or the version marker, whichever comes first.
/// `None` when the bytes are not an acceptable request line.
pub open spec fn request_target(b: Seq<u8>) -> Option<Seq<u8>> {
    if !occurs_at(b, 0, method_prefix()) {
        None
    } else {
        match version_from(b, 5) {
            Some(v) => Some(b.subrange(4, query_from(b, 5, v))),
            None => None,
        }
    }
}

proof fn lemma_query_from_bounds(b: Seq<u8>, i: int, end: int)
    requires
        i <= end,
    ensures
        i <= query_from(b, i, end) <= end,
    decreases end - i,
{
    if i < end && b[i] != QUESTION {
        lemma_query_from_bounds(b, i + 1, end);
    }
}

proof fn lemma_version_from_bounds(b: Seq<u8>, i: int)
    ensures
        version_from(b, i) matches Some(v) ==> i <= v && v + 6 <= b.len(),
    decreases b.len() - i,
{
    if 0 <= i < b.len() && !occurs_at(b, i, version_marker()) && b[i] != NEWLINE {
        lemma_version_from_bounds(b, i + 1);
    }
}

/// Index of the first version marker at or after `from` on the first line.
fn find_version(b: &[u8], from: usize) -> (r: Option<usize>)
    ensures
        match r {
            Some(v) => version_from(b@, from as int) == Some(v as int),
            None => version_from(b@, from as int) is None,
        },
{
    let marker: [u8; 6] = [SPACE, 72, 84, 84, 80, SLASH];
    assert(marker@ =~= version_marker());
    let mut i: usize = from;
    while i < b.len()
        invariant
            from <= i,
            marker@ == version_marker(),
            version_from(b@, from as int) == version_from(b@, i as int),
        decreases b.len() - i,
    {
        if matches_at(b, i, marker.as_slice()) {
            return Some(i);
        }
        if b[i] == NEWLINE {
            return None;
        }
        i = i + 1;
    }
    None
}

/// Index of the first `?` in `b[from..end]`, or `end`.
fn find_query(b: &[u8], from: usize, end: usize) -> (r: usize)
    requires
        from <= end <= b@.len(),
    ensures
        r as int == query_from(b@, from as int, end as int),
{
    let mut q: usize = from;
    while q < end
        invariant
            from <= q <= end <= b@.len(),
            query_from(b@, from as int, end as int) == query_from(b@, q as int, end as int),
        decreases end - q,
    {
        if b[q] == QUESTION {
            return q;
        }
        q = q + 1;
    }
    q
}

/// Extracts the request target from the bytes read from a connection, or
/// `None` when they do not start with an acceptable request line (another
/// method, a path without a leading slash, no version).
pub fn parse_request(b: &[u8]) -> (r: Option<Vec<u8>>)
    ensures
        match r {
            Some(t) => request_target(b@) == Some(t@),
            None => request_target(b@) is None,
        },
{
    let prefix: [u8; 5] = [71, 69, 84, SPACE, SLASH];
    assert(prefix@ =~= method_prefix());
    if !matches_at(b, 0, prefix.as_slice()) {
        return None;
    }
    match find_version(b, 5) {
        None => None,
        Some(v) => {
            proof {
                lemma_version_from_bounds(b@, 5);
                lemma_query_from_bounds(b@, 5, v as int);
            }
            let q = find_query(b, 5, v);
            Some(copy_range(b, 4, q))
        },
    }
}

/// A request that does not open with `GET /` (another method, or a path
/// without its leading slash) has no target; the server answers `400`
/// before it looks at any file.
pub proof fn lemma_malformed_has_no_target(b: Seq<u8>)
    requires
        !occurs_at(b, 0, method_prefix()),
    ensures
        request_target(b) is None,
{
}

/// `/exit`, the diagnostic route that stops a server started for testing.
pub open spec fn exit_route() -> Seq<u8> {
    seq![SLASH, 101u8, 120, 105, 116]
}

/// Whether the target is the diagnostic `/exit` route.
pub fn is_exit_route(target: &[u8]) -> (r: bool)
    ensures
        r == (target@ == exit_route()),
{
    let route: [u8; 5] = [SLASH, 101, 120, 105, 116];
    assert(route@ =~= exit_route());
    bytes_equal(target, route.as_slice())
}

} // verus!
