//! The access guard: which canonical paths may be served, decided at the
//! last moment before the file is opened.

use vstd::prelude::*;

use crate::bytes::{byte_strings, clone_bytes, DOT, SLASH};
use crate::paths::{
    components, has_extension, html_fallback, html_suffix, index_name, is_within, normalize,
    normalized, resolve, same_components, split_components, target_relative, within,
    ResolvedPath,
};
use crate::response::{ascii, Status};

verus! {

/// Why a candidate path is not served. The client sees `404` for each,
/// except that a request for the root without `index.html` gets a listing.
#[derive(Clone, Copy, Debug, PartialEq, Eq, Structural)]
pub enum Denial {
    /// The canonical path lies outside the server root.
    Traversal,
    /// The canonical path is on the blacklist.
    Blacklisted,
    /// The path could not be canonicalized: it does not exist (any more).
    Vanished,
}

/// The blacklist's entries as mathematical values.
pub open spec fn entries_view(v: Seq<Vec<Vec<u8>>>) -> Seq<Seq<Seq<u8>>> {
    v.map_values(|e: Vec<Vec<u8>>| byte_strings(e@))
}

/// Paths, by their components, that are never served or listed.
pub struct Blacklist {
    entries: Vec<Vec<Vec<u8>>>,
}

impl View for Blacklist {
    type V = Seq<Seq<Seq<u8>>>;

    closed spec fn view(&self) -> Seq<Seq<Seq<u8>>> {
        entries_view(self.entries@)
    }
}

/// File names blacklisted when none are configured: the server's own logs.
pub open spec fn default_blacklist_names() -> Seq<Seq<u8>> {
    seq![ascii("SimpleWebServer.log"@), ascii("SimpleWebServer-FULL.log"@)]
}

/// The names to blacklist: the defaults when none are configured, none
/// when the configuration is a single empty name, the configured ones
/// otherwise.
pub open spec fn blacklist_names(configured: Option<Seq<Seq<u8>>>) -> Seq<Seq<u8>> {
    match configured {
        None => default_blacklist_names(),
        Some(v) => if v.len() == 1 && v[0].len() == 0 {
            Seq::empty()
        } else {
            v
        },
    }
}

/// The components of `name` taken under `root`: an absolute name stands
/// for itself, any other is appended to the root.
pub open spec fn under_root(root: Seq<Seq<u8>>, name: Seq<u8>) -> Seq<Seq<u8>> {
    if name.len() > 0 && name[0] == SLASH {
        components(name)
    } else {
        root + components(name)
    }
}

/// The names to blacklist, from the configured ones if any.
pub fn configured_blacklist_names(configured: Option<Vec<Vec<u8>>>) -> (r: Vec<Vec<u8>>)
    ensures
        byte_strings(r@) == blacklist_names(
            match configured {
                Some(v) => Some(byte_strings(v@)),
                None => None,
            },
        ),
{
    match configured {
        None => {
            let mut r: Vec<Vec<u8>> = Vec::new();
            proof {
                reveal_strlit("SimpleWebServer.log");
                reveal_strlit("SimpleWebServer-FULL.log");
            }
            let a = crate::response::literal_vec("SimpleWebServer.log");
            let b = crate::response::literal_vec("SimpleWebServer-FULL.log");
            r.push(a);
            r.push(b);
            assert(byte_strings(r@) =~= default_blacklist_names());
            r
        },
        Some(v) => {
            if v.len() == 1 && v[0].len() == 0 {
                let r: Vec<Vec<u8>> = Vec::new();
                assert(byte_strings(r@) =~= Seq::<Seq<u8>>::empty());
                r
            } else {
                v
            }
        },
    }
}

/// The components of `name` taken under `root`.
pub fn name_under_root(root: &Vec<Vec<u8>>, name: &[u8]) -> (r: Vec<Vec<u8>>)
    ensures
        byte_strings(r@) == under_root(byte_strings(root@), name@),
{
    let tail = split_components(name);
    if name.len() > 0 && name[0] == SLASH {
        return tail;
    }
    let mut r: Vec<Vec<u8>> = Vec::new();
    let mut i: usize = 0;
    while i < root.len()
        invariant
            i <= root@.len(),
            byte_strings(r@) == byte_strings(root@).subrange(0, i as int),
        decreases root.len() - i,
    {
        let ghost before = byte_strings(r@);
        r.push(clone_bytes(&root[i]));
        assert(byte_strings(r@) =~= before.push(root@[i as int]@));
        i = i + 1;
        assert(byte_strings(r@) =~= byte_strings(root@).subrange(0, i as int));
    }
    let mut j: usize = 0;
    while j < tail.len()
        invariant
            j <= tail@.len(),
            byte_strings(r@) == byte_strings(root@) + byte_strings(tail@).subrange(0, j as int),
        decreases tail.len() - j,
    {
        let ghost before = byte_strings(r@);
        r.push(clone_bytes(&tail[j]));
        assert(byte_strings(r@) =~= before.push(tail@[j as int]@));
        j = j + 1;
        assert(byte_strings(r@) =~= byte_strings(root@) + byte_strings(tail@).subrange(0, j as int));
    }
    assert(byte_strings(root@).subrange(0, root@.len() as int) =~= byte_strings(root@));
    assert(byte_strings(tail@).subrange(0, tail@.len() as int) =~= byte_strings(tail@));
    r
}

impl Blacklist {
    /// A blacklist holding `entries`, each the components of a path.
    pub fn new(entries: Vec<Vec<Vec<u8>>>) -> (r: Blacklist)
        ensures
            r@ == entries_view(entries@),
    {
        Blacklist { entries }
    }

    pub fn len(&self) -> (r: usize)
        ensures
            r == self@.len(),
    {
        self.entries.len()
    }

    /// Whether the path with components `p` is blacklisted.
    pub fn contains(&self, p: &Vec<Vec<u8>>) -> (r: bool)
        ensures
            r == self@.contains(byte_strings(p@)),
    {
        let mut i: usize = 0;
        while i < self.entries.len()
            invariant
                i <= self@.len(),
                self@ == entries_view(self.entries@),
                forall|j: int| 0 <= j < i ==> self@[j] != byte_strings(p@),
            decreases self.entries.len() - i,
        {
            if same_components(&self.entries[i], p) {
                assert(self@[i as int] == byte_strings(p@));
                return true;
            }
            i = i + 1;
        }
        false
    }
}

/// The guard's decision on a candidate: the canonical path's components
/// when it may be served. `canonical` is the candidate's canonical path, or
/// `None` when it could not be canonicalized; `absolute_is_link` tells
/// whether the candidate's absolute form is itself a symbolic link.
pub open spec fn verdict(
    root: Seq<Seq<u8>>,
    blacklist: Seq<Seq<Seq<u8>>>,
    allow_external_links: bool,
    absolute: Seq<Seq<u8>>,
    canonical: Option<Seq<u8>>,
    absolute_is_link: bool,
) -> Result<Seq<Seq<u8>>, Denial> {
    match canonical {
        None => Err(Denial::Vanished),
        Some(c) => {
            let p = components(c);
            if !(within(root, p) || (allow_external_links && absolute_is_link && within(
                root,
                normalized(absolute),
            ))) {
                Err(Denial::Traversal)
            } else if blacklist.contains(p) {
                Err(Denial::Blacklisted)
            } else {
                Ok(p)
            }
        },
    }
}

/// What to do with a request once the guard has decided.
pub enum Plan {
    /// Serve the file or directory at this canonical path.
    Serve { path: Vec<Vec<u8>> },
    /// The root has no `index.html`: list the root directory.
    ListRoot,
    /// Answer with this error status.
    Reject { status: Status },
}

/// The server root, the blacklist and the link policy, fixed at startup.
pub struct AccessGuard {
    root: Vec<Vec<u8>>,
    blacklist: Blacklist,
    allow_external_links: bool,
}

impl AccessGuard {
    pub closed spec fn root_view(&self) -> Seq<Seq<u8>> {
        byte_strings(self.root@)
    }

    pub closed spec fn blacklist_view(&self) -> Seq<Seq<Seq<u8>>> {
        self.blacklist@
    }

    pub closed spec fn allows_external_links(&self) -> bool {
        self.allow_external_links
    }

    /// A guard for the canonical server root with components `root`. With
    /// `allow_external_links`, a candidate that is itself a symbolic link
    /// inside the root may point anywhere.
    pub fn new(root: Vec<Vec<u8>>, blacklist: Blacklist, allow_external_links: bool) -> (r:
        AccessGuard)
        ensures
            r.root_view() == byte_strings(root@),
            r.blacklist_view() == blacklist@,
            r.allows_external_links() == allow_external_links,
    {
        AccessGuard { root, blacklist, allow_external_links }
    }

    pub fn root(&self) -> (r: &Vec<Vec<u8>>)
        ensures
            byte_strings(r@) == self.root_view(),
    {
        &self.root
    }

    pub fn blacklist(&self) -> (r: &Blacklist)
        ensures
            r@ == self.blacklist_view(),
    {
        &self.blacklist
    }

    /// The candidate for a request target (see [`resolve`]).
    pub fn candidate(&self, target: &[u8], exists: bool) -> (r: ResolvedPath)
        ensures
            byte_strings(r.relative@) == html_fallback(target_relative(target@), exists),
            byte_strings(r.absolute@) == self.root_view() + byte_strings(r.relative@),
    {
        resolve(target, exists, &self.root)
    }

    /// Decides whether the candidate may be served, given its canonical path
    /// (or `None` when canonicalization failed) and whether its absolute form
    /// is a symbolic link.
    pub fn authorize(
        &self,
        candidate: &ResolvedPath,
        canonical: Option<&Vec<u8>>,
        absolute_is_link: bool,
    ) -> (r: Result<Vec<Vec<u8>>, Denial>)
        ensures
            verdict_view(r) == verdict(
                self.root_view(),
                self.blacklist_view(),
                self.allows_external_links(),
                byte_strings(candidate.absolute@),
                match canonical {
                    Some(c) => Some(c@),
                    None => None,
                },
                absolute_is_link,
            ),
    {
        let c = match canonical {
            None => {
                return Err(Denial::Vanished);
            },
            Some(c) => c,
        };
        let p = split_components(c.as_slice());
        let inside = if is_within(&self.root, &p) {
            true
        } else if self.allow_external_links && absolute_is_link {
            let n = normalize(&candidate.absolute);
            is_within(&self.root, &n)
        } else {
            false
        };
        if !inside {
            return Err(Denial::Traversal);
        }
        if self.blacklist.contains(&p) {
            return Err(Denial::Blacklisted);
        }
        Ok(p)
    }
}

/// The mathematical form of a [`Plan`].
pub enum Step {
    Serve(Seq<Seq<u8>>),
    ListRoot,
    Reject(Status),
}

impl Plan {
    pub open spec fn step(&self) -> Step {
        match self {
            Plan::Serve { path } => Step::Serve(byte_strings(path@)),
            Plan::ListRoot => Step::ListRoot,
            Plan::Reject { status } => Step::Reject(*status),
        }
    }
}

/// The mathematical form of a guard decision.
pub open spec fn verdict_view(v: Result<Vec<Vec<u8>>, Denial>) -> Result<Seq<Seq<u8>>, Denial> {
    match v {
        Ok(p) => Ok(byte_strings(p@)),
        Err(d) => Err(d),
    }
}

/// What to do after the guard's decision `v` on a request for `target`:
/// serve an authorized path; list the root when it was asked for and has
/// no `index.html`; answer `404` otherwise.
pub open spec fn next_step(target: Seq<u8>, v: Result<Seq<Seq<u8>>, Denial>) -> Step {
    match v {
        Ok(p) => Step::Serve(p),
        Err(Denial::Vanished) => if components(target).len() == 0 {
            Step::ListRoot
        } else {
            Step::Reject(Status::NotFound)
        },
        Err(_) => Step::Reject(Status::NotFound),
    }
}

/// What to do after the guard's decision on a request for `target`.
pub fn plan(target: &[u8], v: Result<Vec<Vec<u8>>, Denial>) -> (r: Plan)
    ensures
        r.step() == next_step(target@, verdict_view(v)),
{
    match v {
        Ok(p) => Plan::Serve { path: p },
        Err(Denial::Vanished) => {
            let c = split_components(target);
            if c.len() == 0 {
                Plan::ListRoot
            } else {
                Plan::Reject { status: Status::NotFound }
            }
        },
        Err(_) => Plan::Reject { status: Status::NotFound },
    }
}

/// A request whose canonical path lies outside the server root is never
/// served, however its target is spelled: unless external links are
/// allowed, the guard refuses it as a traversal and the answer is `404`.
pub proof fn lemma_outside_root_not_served(
    root: Seq<Seq<u8>>,
    blacklist: Seq<Seq<Seq<u8>>>,
    target: Seq<u8>,
    absolute: Seq<Seq<u8>>,
    canonical: Seq<u8>,
    absolute_is_link: bool,
)
    requires
        !within(root, components(canonical)),
    ensures
        verdict(root, blacklist, false, absolute, Some(canonical), absolute_is_link) == Err::<
            Seq<Seq<u8>>,
            Denial,
        >(Denial::Traversal),
        next_step(
            target,
            verdict(root, blacklist, false, absolute, Some(canonical), absolute_is_link),
        ) == Step::Reject(Status::NotFound),
{
}

/// A request whose canonical path is blacklisted is answered `404`, with
/// or without external links.
pub proof fn lemma_blacklisted_not_served(
    root: Seq<Seq<u8>>,
    blacklist: Seq<Seq<Seq<u8>>>,
    allow_external_links: bool,
    target: Seq<u8>,
    absolute: Seq<Seq<u8>>,
    canonical: Seq<u8>,
    absolute_is_link: bool,
)
    requires
        blacklist.contains(components(canonical)),
    ensures
        verdict(root, blacklist, allow_external_links, absolute, Some(canonical), absolute_is_link)
            is Err,
        next_step(
            target,
            verdict(root, blacklist, allow_external_links, absolute, Some(canonical), absolute_is_link),
        ) == Step::Reject(Status::NotFound),
{
}

/// A request for the root names `index.html`, whether or not it exists;
/// when it cannot be canonicalized (it is absent), the root is listed.
pub proof fn lemma_root_request(
    root: Seq<Seq<u8>>,
    blacklist: Seq<Seq<Seq<u8>>>,
    allow_external_links: bool,
    target: Seq<u8>,
    exists: bool,
    absolute_is_link: bool,
)
    requires
        components(target).len() == 0,
    ensures
        html_fallback(target_relative(target), exists) == seq![index_name()],
        next_step(
            target,
            verdict(
                root,
                blacklist,
                allow_external_links,
                root + seq![index_name()],
                None,
                absolute_is_link,
            ),
        ) == Step::ListRoot,
{
    assert(index_name()[5] == DOT);
    assert(has_extension(index_name()));
}

/// A target whose last name has no extension and does not exist resolves
/// to that name with `.html` appended; once that file is found inside the
/// root and not blacklisted, it is what is served.
pub proof fn lemma_html_fallback_served(
    root: Seq<Seq<u8>>,
    blacklist: Seq<Seq<Seq<u8>>>,
    allow_external_links: bool,
    target: Seq<u8>,
    canonical: Seq<u8>,
    absolute_is_link: bool,
)
    requires
        !has_extension(target_relative(target).last()),
        within(root, components(canonical)),
        !blacklist.contains(components(canonical)),
    ensures
        ({
            let rel = target_relative(target);
            html_fallback(rel, false) == rel.drop_last().push(rel.last() + html_suffix())
        }),
        next_step(
            target,
            verdict(
                root,
                blacklist,
                allow_external_links,
                root + html_fallback(target_relative(target), false),
                Some(canonical),
                absolute_is_link,
            ),
        ) == Step::Serve(components(canonical)),
{
    assert(target_relative(target).len() > 0);
}

} // verus!
