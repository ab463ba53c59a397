use simple_web_server::guard::{
    configured_blacklist_names, name_under_root, plan, AccessGuard, Blacklist, Denial, Plan,
};
use simple_web_server::paths::{
    is_within, join_components, name_has_extension, normalize, relative_target, resolve,
    same_components, split_components,
};
use simple_web_server::request::{is_exit_route, parse_request};
use simple_web_server::response::Status;

fn parts(p: &str) -> Vec<Vec<u8>> {
    split_components(p.as_bytes())
}

fn names(v: &[&str]) -> Vec<Vec<u8>> {
    v.iter().map(|s| s.as_bytes().to_vec()).collect()
}

fn guard(root: &str, blacklisted: &[&str], allow_links: bool) -> AccessGuard {
    let entries = blacklisted.iter().map(|p| parts(p)).collect();
    AccessGuard::new(parts(root), Blacklist::new(entries), allow_links)
}

#[test]
fn parses_plain_get() {
    let t = parse_request(b"GET /index.html HTTP/1.1\r\nHost: x\r\n\r\n");
    assert_eq!(t, Some(b"/index.html".to_vec()));
}

#[test]
fn parses_root_request() {
    assert_eq!(parse_request(b"GET / HTTP/1.0\n\n"), Some(b"/".to_vec()));
}

#[test]
fn query_string_is_dropped() {
    assert_eq!(parse_request(b"GET /a/b?x=1&y=2 HTTP/1.0\n"), Some(b"/a/b".to_vec()));
}

#[test]
fn path_may_hold_spaces() {
    assert_eq!(parse_request(b"GET /a b HTTP/1.0\n"), Some(b"/a b".to_vec()));
}

#[test]
fn version_is_not_checked() {
    assert_eq!(parse_request(b"GET /x HTTP/whatever"), Some(b"/x".to_vec()));
}

#[test]
fn other_method_is_rejected() {
    assert_eq!(parse_request(b"POST / HTTP/1.0\n\n"), None);
}

#[test]
fn missing_leading_slash_is_rejected() {
    assert_eq!(parse_request(b"GET index.html HTTP/1.0\n\n"), None);
}

#[test]
fn missing_version_is_rejected() {
    assert_eq!(parse_request(b"GET /index.html\n"), None);
    assert_eq!(parse_request(b""), None);
}

#[test]
fn version_on_a_later_line_is_rejected() {
    assert_eq!(parse_request(b"GET /a\n HTTP/1.0\n"), None);
}

#[test]
fn question_mark_after_version_stays_out_of_target() {
    assert_eq!(parse_request(b"GET /a HTTP/1.0?b HTTP/1.1\n"), Some(b"/a".to_vec()));
}

#[test]
fn exit_route_is_recognised() {
    assert!(is_exit_route(b"/exit"));
    assert!(!is_exit_route(b"/exit/"));
    assert!(!is_exit_route(b"/"));
}

#[test]
fn components_skip_empty_and_dot() {
    assert_eq!(parts("/a//b/./c/"), names(&["a", "b", "c"]));
    assert_eq!(parts("/"), Vec::<Vec<u8>>::new());
    assert_eq!(parts("/../secret"), names(&["..", "secret"]));
    assert_eq!(parts("rel/x"), names(&["rel", "x"]));
}

#[test]
fn root_target_names_index() {
    assert_eq!(relative_target(b"/"), names(&["index.html"]));
    assert_eq!(relative_target(b"//./"), names(&["index.html"]));
    assert_eq!(relative_target(b"/docs/a.txt"), names(&["docs", "a.txt"]));
}

#[test]
fn extensions() {
    assert!(!name_has_extension(b"about"));
    assert!(!name_has_extension(b".profile"));
    assert!(name_has_extension(b"a.txt"));
    assert!(name_has_extension(b".."));
    assert!(name_has_extension(b"..x"));
}

#[test]
fn html_fallback_for_missing_name_without_extension() {
    let root = parts("/srv/www");
    let r = resolve(b"/about", false, &root);
    assert_eq!(r.relative, names(&["about.html"]));
    assert_eq!(r.absolute, names(&["srv", "www", "about.html"]));
}

#[test]
fn no_fallback_when_present_or_with_extension() {
    let root = parts("/srv/www");
    assert_eq!(resolve(b"/about", true, &root).relative, names(&["about"]));
    assert_eq!(resolve(b"/a.txt", false, &root).relative, names(&["a.txt"]));
    assert_eq!(resolve(b"/d/.profile", false, &root).relative, names(&["d", ".profile.html"]));
    assert_eq!(resolve(b"/..", false, &root).relative, names(&[".."]));
}

#[test]
fn joining_paths() {
    assert_eq!(join_components(&names(&["a", "b"]), false), b"a/b".to_vec());
    assert_eq!(join_components(&names(&["a", "b"]), true), b"/a/b".to_vec());
    assert_eq!(join_components(&Vec::new(), true), b"/".to_vec());
}

#[test]
fn containment_is_by_whole_components() {
    assert!(is_within(&parts("/srv/www"), &parts("/srv/www/a")));
    assert!(is_within(&parts("/srv/www"), &parts("/srv/www")));
    assert!(!is_within(&parts("/srv/www"), &parts("/srv/wwwx/a")));
    assert!(!is_within(&parts("/srv/www"), &parts("/srv")));
    assert!(same_components(&parts("/a/b/"), &parts("/a//b")));
}

#[test]
fn lexical_normalization() {
    assert_eq!(normalize(&parts("/srv/www/../etc/x")), names(&["srv", "etc", "x"]));
    assert_eq!(normalize(&parts("/../../a")), names(&["a"]));
}

#[test]
fn default_blacklist_is_the_log_files() {
    assert_eq!(
        configured_blacklist_names(None),
        names(&["SimpleWebServer.log", "SimpleWebServer-FULL.log"])
    );
}

#[test]
fn single_empty_name_disables_blacklist() {
    assert_eq!(configured_blacklist_names(Some(names(&[""]))), Vec::<Vec<u8>>::new());
    assert_eq!(
        configured_blacklist_names(Some(names(&["", "x"]))),
        names(&["", "x"])
    );
}

#[test]
fn blacklist_names_go_under_root() {
    let root = parts("/srv/www");
    assert_eq!(name_under_root(&root, b"secret.txt"), names(&["srv", "www", "secret.txt"]));
    assert_eq!(name_under_root(&root, b"/etc/passwd"), names(&["etc", "passwd"]));
}

#[test]
fn served_inside_root() {
    let g = guard("/srv/www", &[], false);
    let c = g.candidate(b"/a.txt", true);
    let canonical = b"/srv/www/a.txt".to_vec();
    let v = g.authorize(&c, Some(&canonical), false);
    assert_eq!(v, Ok(parts("/srv/www/a.txt")));
    assert!(matches!(plan(b"/a.txt", v), Plan::Serve { path } if path == parts("/srv/www/a.txt")));
}

#[test]
fn traversal_is_refused_with_404() {
    let g = guard("/srv/www", &[], false);
    for target in [&b"/../secret"[..], &b"/a/../../secret"[..]] {
        let c = g.candidate(target, true);
        let canonical = b"/srv/secret".to_vec();
        let v = g.authorize(&c, Some(&canonical), false);
        assert_eq!(v, Err(Denial::Traversal));
        assert!(matches!(plan(target, v), Plan::Reject { status: Status::NotFound }));
    }
}

#[test]
fn traversal_through_a_link_is_refused_by_default() {
    let g = guard("/srv/www", &[], false);
    let c = g.candidate(b"/link", true);
    let canonical = b"/etc/passwd".to_vec();
    assert_eq!(g.authorize(&c, Some(&canonical), true), Err(Denial::Traversal));
}

#[test]
fn external_link_allowed_by_policy() {
    let g = guard("/srv/www", &[], true);
    let c = g.candidate(b"/link", true);
    let canonical = b"/opt/shared/file".to_vec();
    assert_eq!(g.authorize(&c, Some(&canonical), true), Ok(parts("/opt/shared/file")));
    // Not a link itself: the canonical path decides.
    assert_eq!(g.authorize(&c, Some(&canonical), false), Err(Denial::Traversal));
    // A link whose own place is outside the root is refused.
    let up = g.candidate(b"/../outside", true);
    assert_eq!(g.authorize(&up, Some(&canonical), true), Err(Denial::Traversal));
}

#[test]
fn blacklisted_is_refused_with_404() {
    let g = guard("/srv/www", &["/srv/www/SimpleWebServer.log"], false);
    let c = g.candidate(b"/SimpleWebServer.log", true);
    let canonical = b"/srv/www/SimpleWebServer.log".to_vec();
    let v = g.authorize(&c, Some(&canonical), false);
    assert_eq!(v, Err(Denial::Blacklisted));
    assert!(matches!(
        plan(b"/SimpleWebServer.log", v),
        Plan::Reject { status: Status::NotFound }
    ));
}

#[test]
fn vanished_file_is_404() {
    let g = guard("/srv/www", &[], false);
    let c = g.candidate(b"/missing", false);
    assert_eq!(c.relative, names(&["missing.html"]));
    let v = g.authorize(&c, None, false);
    assert_eq!(v, Err(Denial::Vanished));
    assert!(matches!(plan(b"/missing", v), Plan::Reject { status: Status::NotFound }));
}

#[test]
fn root_without_index_is_listed() {
    let g = guard("/srv/www", &[], false);
    let c = g.candidate(b"/", false);
    assert_eq!(c.relative, names(&["index.html"]));
    let v = g.authorize(&c, None, false);
    assert!(matches!(plan(b"/", v), Plan::ListRoot));
}

#[test]
fn root_with_index_serves_it() {
    let g = guard("/srv/www", &[], false);
    let c = g.candidate(b"/", true);
    let canonical = b"/srv/www/index.html".to_vec();
    let v = g.authorize(&c, Some(&canonical), false);
    assert!(matches!(plan(b"/", v), Plan::Serve { path } if path == parts("/srv/www/index.html")));
}

#[test]
fn extension_fallback_is_served() {
    let g = guard("/srv/www", &[], false);
    let c = g.candidate(b"/about", false);
    assert_eq!(c.relative, names(&["about.html"]));
    let canonical = b"/srv/www/about.html".to_vec();
    let v = g.authorize(&c, Some(&canonical), false);
    assert!(matches!(plan(b"/about", v), Plan::Serve { path } if path == parts("/srv/www/about.html")));
}
