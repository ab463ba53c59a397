//! What the server writes back: status lines, error bodies, and file
//! responses.

use vstd::prelude::*;
use vstd::string::is_ascii;

use crate::bytes::append_bytes;

verus! {

/// The bytes of a text made of ASCII characters.
pub open spec fn ascii(s: Seq<char>) -> Seq<u8> {
    Seq::new(s.len(), |i: int| s[i] as u8)
}

/// The bytes of an ASCII string literal.
fn literal_bytes(s: &str) -> (r: &[u8])
    requires
        is_ascii(s),
    ensures
        r@ == ascii(s@),
{
    let b = s.as_bytes();
    proof {
        vstd::string::is_ascii_spec_bytes(s);
    }
    b
}

/// A vector holding the bytes of an ASCII string literal.
pub fn literal_vec(s: &str) -> (r: Vec<u8>)
    requires
        is_ascii(s),
    ensures
        r@ == ascii(s@),
{
    let mut r: Vec<u8> = Vec::new();
    append_bytes(&mut r, literal_bytes(s));
    assert(r@ =~= ascii(s@));
    r
}

/// Decimal digits of `n`, most significant first, without leading zeros.
pub open spec fn decimal(n: nat) -> Seq<u8>
    decreases n,
{
    if n < 10 {
        seq![(48 + n) as u8]
    } else {
        decimal(n / 10).push((48 + n % 10) as u8)
    }
}

/// The status of a response.
#[derive(Clone, Copy, Debug, PartialEq, Eq, Structural)]
pub enum Status {
    Served,
    BadRequest,
    NotFound,
    TooManyRequests { retry_after: u64 },
    InternalError,
}

/// The bytes that open a response with this status: the status line, the
/// headers and, for an error, the whole body (its numeric code).
pub open spec fn head(s: Status) -> Seq<u8> {
    match s {
        Status::Served => ascii("HTTP/1.1 200 OK\n\n"@),
        Status::BadRequest => ascii("HTTP/1.1 400 Bad Request\n\n400\n"@),
        Status::NotFound => ascii("HTTP/1.1 404 Not Found\n\n404\n"@),
        Status::TooManyRequests { retry_after } => ascii(
            "HTTP/1.1 429 Too Many Requests\nRetry-After: "@,
        ) + decimal(retry_after as nat) + ascii("\n\n429\n"@),
        Status::InternalError => ascii("HTTP/1.1 500 Internal Server Error\n\n500\n"@),
    }
}

/// The decimal digits of `n`.
pub fn render_decimal(n: u64) -> (r: Vec<u8>)
    ensures
        r@ == decimal(n as nat),
    decreases n,
{
    if n < 10 {
        let mut r: Vec<u8> = Vec::new();
        r.push((48 + n) as u8);
        assert(r@ =~= decimal(n as nat));
        r
    } else {
        let mut r = render_decimal(n / 10);
        r.push((48 + n % 10) as u8);
        r
    }
}

/// The bytes that open a response with status `s`.
pub fn render_head(s: Status) -> (r: Vec<u8>)
    ensures
        r@ == head(s),
{
    let mut r: Vec<u8> = Vec::new();
    match s {
        Status::Served => {
            proof {
                reveal_strlit("HTTP/1.1 200 OK\n\n");
            }
            append_bytes(&mut r, literal_bytes("HTTP/1.1 200 OK\n\n"));
        },
        Status::BadRequest => {
            proof {
                reveal_strlit("HTTP/1.1 400 Bad Request\n\n400\n");
            }
            append_bytes(&mut r, literal_bytes("HTTP/1.1 400 Bad Request\n\n400\n"));
        },
        Status::NotFound => {
            proof {
                reveal_strlit("HTTP/1.1 404 Not Found\n\n404\n");
            }
            append_bytes(&mut r, literal_bytes("HTTP/1.1 404 Not Found\n\n404\n"));
        },
        Status::TooManyRequests { retry_after } => {
            proof {
                reveal_strlit("HTTP/1.1 429 Too Many Requests\nRetry-After: ");
                reveal_strlit("\n\n429\n");
            }
            append_bytes(&mut r, literal_bytes("HTTP/1.1 429 Too Many Requests\nRetry-After: "));
            let digits = render_decimal(retry_after);
            append_bytes(&mut r, digits.as_slice());
            append_bytes(&mut r, literal_bytes("\n\n429\n"));
        },
        Status::InternalError => {
            proof {
                reveal_strlit("HTTP/1.1 500 Internal Server Error\n\n500\n");
            }
            append_bytes(&mut r, literal_bytes("HTTP/1.1 500 Internal Server Error\n\n500\n"));
        },
    }
    assert(r@ =~= head(s));
    r
}

/// The numeric code of a status.
pub fn status_code(s: Status) -> (r: u16)
    ensures
        r == match s {
            Status::Served => 200u16,
            Status::BadRequest => 400u16,
            Status::NotFound => 404u16,
            Status::TooManyRequests { .. } => 429u16,
            Status::InternalError => 500u16,
        },
{
    match s {
        Status::Served => 200,
        Status::BadRequest => 400,
        Status::NotFound => 404,
        Status::TooManyRequests { .. } => 429,
        Status::InternalError => 500,
    }
}

/// The whole response for a regular file: its contents after the `200`
/// head, or `404` when the file could not be read (it went away after the
/// access check).
pub fn file_response(contents: Option<Vec<u8>>) -> (r: Vec<u8>)
    ensures
        r@ == match contents {
            Some(c) => head(Status::Served) + c@,
            None => head(Status::NotFound),
        },
{
    match contents {
        Some(c) => {
            let mut r = render_head(Status::Served);
            append_bytes(&mut r, c.as_slice());
            r
        },
        None => render_head(Status::NotFound),
    }
}

} // verus!
