//! Directory listings: an HTML page with one link per entry that is not
//! blacklisted.

use vstd::prelude::*;
use vstd::string::is_ascii;

use crate::bytes::{append_bytes, byte_strings, SLASH};
use crate::guard::Blacklist;
use crate::paths::{components, split_components};
use crate::response::{ascii, head, literal_vec, render_head, Status};

verus! {

/// One entry of a directory: its file name, and its canonical path when it
/// could be canonicalized.
pub struct ListingEntry {
    pub name: Vec<u8>,
    pub canonical: Option<Vec<u8>>,
}

/// An entry is listed unless its canonical path is blacklisted.
pub open spec fn is_listed(e: ListingEntry, blacklist: Seq<Seq<Seq<u8>>>) -> bool {
    match e.canonical {
        Some(c) => !blacklist.contains(components(c@)),
        None => true,
    }
}

/// The names of the entries that are listed, in order.
pub open spec fn listed_names(entries: Seq<ListingEntry>, blacklist: Seq<Seq<Seq<u8>>>) -> Seq<
    Seq<u8>,
>
    decreases entries.len(),
{
    if entries.len() == 0 {
        Seq::empty()
    } else {
        let before = listed_names(entries.drop_last(), blacklist);
        if is_listed(entries.last(), blacklist) {
            before.push(entries.last().name@)
        } else {
            before
        }
    }
}

/// The start of the links: the request target, or nothing for the root so
/// that links do not begin with two slashes.
pub open spec fn link_base(target: Seq<u8>) -> Seq<u8> {
    if target == seq![SLASH] {
        Seq::empty()
    } else {
        target
    }
}

/// One list item: a link to `target/name` showing `name`.
pub open spec fn list_item(target: Seq<u8>, name: Seq<u8>) -> Seq<u8> {
    ascii("<li><a href=\""@) + link_base(target) + seq![SLASH] + name + ascii("\">"@) + name
        + ascii("</a></li>"@)
}

/// The list items for `names`, one per line.
pub open spec fn list_items(target: Seq<u8>, names: Seq<Seq<u8>>) -> Seq<u8>
    decreases names.len(),
{
    if names.len() == 0 {
        Seq::empty()
    } else if names.len() == 1 {
        list_item(target, names[0])
    } else {
        list_items(target, names.drop_last()) + ascii("\n"@) + list_item(target, names.last())
    }
}

/// The listing page of the directory requested as `target`, linking to
/// each of `names`.
pub open spec fn listing_page(target: Seq<u8>, names: Seq<Seq<u8>>) -> Seq<u8> {
    ascii("<!DOCTYPE html>\n<html>\n<head>\n<meta charset=\"utf-8\">\n<title>"@) + target + ascii(
        "</title>\n</head>\n<body>\n<h1>"@,
    ) + target + ascii("</h1>\n<ul>\n"@) + list_items(target, names) + ascii(
        "\n</ul>\n</body>\n</html>\n"@,
    )
}

fn push_literal(out: &mut Vec<u8>, s: &str)
    requires
        is_ascii(s),
    ensures
        final(out)@ == old(out)@ + ascii(s@),
{
    let b = literal_vec(s);
    append_bytes(out, b.as_slice());
}

fn is_root_target(target: &[u8]) -> (r: bool)
    ensures
        r == (target@ == seq![SLASH]),
{
    let r = target.len() == 1 && target[0] == SLASH;
    proof {
        if target@.len() == 1 {
            assert(r ==> target@ =~= seq![SLASH]);
        }
    }
    r
}

/// Appends one list item to `out`.
fn push_item(out: &mut Vec<u8>, target: &[u8], name: &[u8])
    ensures
        final(out)@ == old(out)@ + list_item(target@, name@),
{
    proof {
        reveal_strlit("<li><a href=\"");
        reveal_strlit("\">");
        reveal_strlit("</a></li>");
    }
    push_literal(out, "<li><a href=\"");
    if !is_root_target(target) {
        append_bytes(out, target);
    }
    out.push(SLASH);
    append_bytes(out, name);
    push_literal(out, "\">");
    append_bytes(out, name);
    push_literal(out, "</a></li>");
    assert(final(out)@ =~= old(out)@ + list_item(target@, name@));
}

/// The listing page of the directory requested as `target`, with the
/// entries that are not blacklisted.
pub fn render_listing(target: &[u8], entries: &Vec<ListingEntry>, blacklist: &Blacklist) -> (r: Vec<
    u8,
>)
    ensures
        r@ == listing_page(target@, listed_names(entries@, blacklist@)),
{
    proof {
        reveal_strlit("<!DOCTYPE html>\n<html>\n<head>\n<meta charset=\"utf-8\">\n<title>");
        reveal_strlit("</title>\n</head>\n<body>\n<h1>");
        reveal_strlit("</h1>\n<ul>\n");
        reveal_strlit("\n</ul>\n</body>\n</html>\n");
        reveal_strlit("\n");
    }
    let mut out: Vec<u8> = Vec::new();
    push_literal(&mut out, "<!DOCTYPE html>\n<html>\n<head>\n<meta charset=\"utf-8\">\n<title>");
    append_bytes(&mut out, target);
    push_literal(&mut out, "</title>\n</head>\n<body>\n<h1>");
    append_bytes(&mut out, target);
    push_literal(&mut out, "</h1>\n<ul>\n");
    let ghost lead = out@;
    let mut i: usize = 0;
    let mut any = false;
    while i < entries.len()
        invariant
            i <= entries@.len(),
            any == (listed_names(entries@.subrange(0, i as int), blacklist@).len() > 0),
            out@ == lead + list_items(target@, listed_names(entries@.subrange(0, i as int), blacklist@)),
        decreases entries.len() - i,
    {
        let ghost done = entries@.subrange(0, i as int);
        let ghost now = entries@.subrange(0, i + 1);
        assert(now.drop_last() =~= done);
        let e = &entries[i];
        let listed = match &e.canonical {
            Some(c) => {
                let p = split_components(c.as_slice());
                !blacklist.contains(&p)
            },
            None => true,
        };
        assert(listed == is_listed(entries@[i as int], blacklist@));
        let ghost names = listed_names(done, blacklist@);
        if listed {
            assert(listed_names(now, blacklist@) == names.push(e.name@));
            assert(names.push(e.name@).drop_last() =~= names);
            if any {
                proof {
                    reveal_strlit("\n");
                }
                push_literal(&mut out, "\n");
            }
            push_item(&mut out, target, e.name.as_slice());
            any = true;
            assert(out@ =~= lead + list_items(target@, listed_names(now, blacklist@)));
        } else {
            assert(listed_names(now, blacklist@) == names);
        }
        i = i + 1;
    }
    assert(entries@.subrange(0, entries@.len() as int) =~= entries@);
    push_literal(&mut out, "\n</ul>\n</body>\n</html>\n");
    assert(out@ =~= listing_page(target@, listed_names(entries@, blacklist@)));
    out
}

/// The whole response for a directory listing: the page after the `200`
/// head, or `500` when the directory could not be read.
pub fn listing_response(target: &[u8], entries: Option<Vec<ListingEntry>>, blacklist: &Blacklist) -> (r:
    Vec<u8>)
    ensures
        r@ == match entries {
            Some(es) => head(Status::Served) + listing_page(target@, listed_names(es@, blacklist@)),
            None => head(Status::InternalError),
        },
{
    match entries {
        Some(es) => {
            let mut r = render_head(Status::Served);
            let page = render_listing(target, &es, blacklist);
            append_bytes(&mut r, page.as_slice());
            r
        },
        None => render_head(Status::InternalError),
    }
}

/// No blacklisted entry is ever listed: each listed name is the name of an
/// entry whose canonical path is not on the blacklist.
pub proof fn lemma_listed_entries_not_blacklisted(
    entries: Seq<ListingEntry>,
    blacklist: Seq<Seq<Seq<u8>>>,
)
    ensures
        forall|k: int|
            0 <= k < listed_names(entries, blacklist).len() ==> exists|i: int|
                0 <= i < entries.len() && #[trigger] listed_names(entries, blacklist)[k]
                    == entries[i].name@ && is_listed(entries[i], blacklist),
    decreases entries.len(),
{
    if entries.len() > 0 {
        let rest = entries.drop_last();
        lemma_listed_entries_not_blacklisted(rest, blacklist);
        let before = listed_names(rest, blacklist);
        assert forall|k: int| 0 <= k < listed_names(entries, blacklist).len() implies exists|i: int|
            0 <= i < entries.len() && #[trigger] listed_names(entries, blacklist)[k]
                == entries[i].name@ && is_listed(entries[i], blacklist) by {
            if k < before.len() {
                let i = choose|i: int|
                    0 <= i < rest.len() && #[trigger] before[k] == rest[i].name@ && is_listed(
                        rest[i],
                        blacklist,
                    );
                assert(entries[i] == rest[i]);
            } else {
                assert(entries[entries.len() - 1] == entries.last());
            }
        }
    }
}

} // verus!
