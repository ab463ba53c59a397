use simple_web_server::clock::Moment;
use simple_web_server::guard::Blacklist;
use simple_web_server::limiter::{Admission, ClientAddress, RateLimiter};
use simple_web_server::listing::{listing_response, render_listing, ListingEntry};
use simple_web_server::paths::split_components;
use simple_web_server::response::{file_response, render_decimal, render_head, status_code, Status};

const SECOND: i128 = 1_000_000_000;
const MINUTE: i128 = 60 * SECOND;

fn at(nanos: i128) -> Moment {
    Moment::from_unix_nanos(nanos).unwrap()
}

fn text(b: Vec<u8>) -> String {
    String::from_utf8(b).unwrap()
}

fn entry(name: &str, canonical: Option<&str>) -> ListingEntry {
    ListingEntry {
        name: name.as_bytes().to_vec(),
        canonical: canonical.map(|c| c.as_bytes().to_vec()),
    }
}

#[test]
fn status_heads_are_exact() {
    assert_eq!(text(render_head(Status::Served)), "HTTP/1.1 200 OK\n\n");
    assert_eq!(text(render_head(Status::BadRequest)), "HTTP/1.1 400 Bad Request\n\n400\n");
    assert_eq!(text(render_head(Status::NotFound)), "HTTP/1.1 404 Not Found\n\n404\n");
    assert_eq!(
        text(render_head(Status::TooManyRequests { retry_after: 2 })),
        "HTTP/1.1 429 Too Many Requests\nRetry-After: 2\n\n429\n"
    );
    assert_eq!(
        text(render_head(Status::InternalError)),
        "HTTP/1.1 500 Internal Server Error\n\n500\n"
    );
}

#[test]
fn status_codes() {
    assert_eq!(status_code(Status::Served), 200);
    assert_eq!(status_code(Status::BadRequest), 400);
    assert_eq!(status_code(Status::NotFound), 404);
    assert_eq!(status_code(Status::TooManyRequests { retry_after: 9 }), 429);
    assert_eq!(status_code(Status::InternalError), 500);
}

#[test]
fn decimal_rendering() {
    assert_eq!(render_decimal(0), b"0".to_vec());
    assert_eq!(render_decimal(10), b"10".to_vec());
    assert_eq!(render_decimal(180), b"180".to_vec());
    assert_eq!(render_decimal(u64::MAX), u64::MAX.to_string().into_bytes());
}

#[test]
fn index_file_is_served_with_contents() {
    assert_eq!(text(file_response(Some(b"hi".to_vec()))), "HTTP/1.1 200 OK\n\nhi");
}

#[test]
fn file_gone_before_open_is_404() {
    assert_eq!(text(file_response(None)), "HTTP/1.1 404 Not Found\n\n404\n");
}

#[test]
fn listing_of_root_links_without_double_slash() {
    let bl = Blacklist::new(Vec::new());
    let page = text(render_listing(b"/", &vec![entry("a.txt", Some("/srv/www/a.txt"))], &bl));
    assert!(page.contains("<h1>/</h1>"));
    assert!(page.contains("<li><a href=\"/a.txt\">a.txt</a></li>"));
}

#[test]
fn listing_of_subdirectory() {
    let bl = Blacklist::new(Vec::new());
    let entries = vec![entry("x", None), entry("y.html", Some("/srv/www/docs/y.html"))];
    let page = text(render_listing(b"/docs", &entries, &bl));
    let expected = "<!DOCTYPE html>\n<html>\n<head>\n<meta charset=\"utf-8\">\n<title>/docs</title>\n</head>\n<body>\n<h1>/docs</h1>\n<ul>\n<li><a href=\"/docs/x\">x</a></li>\n<li><a href=\"/docs/y.html\">y.html</a></li>\n</ul>\n</body>\n</html>\n";
    assert_eq!(page, expected);
}

#[test]
fn blacklisted_entry_is_not_listed() {
    let bl = Blacklist::new(vec![split_components(b"/srv/www/SimpleWebServer.log")]);
    let entries = vec![
        entry("SimpleWebServer.log", Some("/srv/www/SimpleWebServer.log")),
        entry("index.html", Some("/srv/www/index.html")),
    ];
    let page = text(render_listing(b"/", &entries, &bl));
    assert!(!page.contains("SimpleWebServer.log"));
    assert!(page.contains("<li><a href=\"/index.html\">index.html</a></li>"));
}

#[test]
fn unreadable_directory_is_500() {
    let bl = Blacklist::new(Vec::new());
    assert_eq!(
        text(listing_response(b"/", None, &bl)),
        "HTTP/1.1 500 Internal Server Error\n\n500\n"
    );
    let ok = text(listing_response(b"/", Some(Vec::new()), &bl));
    assert!(ok.starts_with("HTTP/1.1 200 OK\n\n<!DOCTYPE html>"));
}

#[test]
fn minute_of_moment() {
    assert_eq!(at(0).minute(), 0);
    assert_eq!(at(90 * SECOND).minute(), 1);
    assert_eq!(at(59 * MINUTE + 59 * SECOND).minute(), 59);
    assert_eq!(at(60 * MINUTE).minute(), 0);
    assert_eq!(at(-1).minute(), 59);
    assert!(Moment::from_unix_nanos(i128::MAX).is_none());
}

#[test]
fn ipv4_is_held_mapped() {
    assert_eq!(ClientAddress::from_ipv4(0x7f00_0001).bits, 0xffff_7f00_0001);
    assert_eq!(ClientAddress::from_ipv6(1).bits, 1);
}

#[test]
fn limit_reached_on_the_limit_th_request() {
    let start = at(10 * MINUTE);
    let mut rl = RateLimiter::new(3, 180, start);
    let a = ClientAddress::from_ipv4(1);
    assert_eq!(rl.decide(a, at(10 * MINUTE + SECOND)), Admission::Allow);
    assert_eq!(rl.decide(a, at(10 * MINUTE + 2 * SECOND)), Admission::Allow);
    assert_eq!(rl.decide(a, at(10 * MINUTE + 3 * SECOND)), Admission::Deny { retry_after: 180 });
}

#[test]
fn threshold_two_timeout_two() {
    let mut rl = RateLimiter::new(2, 2, at(0));
    let a = ClientAddress::from_ipv4(7);
    assert_eq!(rl.decide(a, at(SECOND)), Admission::Allow);
    let d = rl.decide(a, at(SECOND + 1));
    assert_eq!(d, Admission::Deny { retry_after: 2 });
    let Admission::Deny { retry_after } = d else { unreachable!() };
    assert_eq!(
        text(render_head(Status::TooManyRequests { retry_after })),
        "HTTP/1.1 429 Too Many Requests\nRetry-After: 2\n\n429\n"
    );
}

#[test]
fn threshold_one_refuses_first_request() {
    let mut rl = RateLimiter::new(1, 2, at(0));
    let a = ClientAddress::from_ipv4(7);
    assert_eq!(rl.decide(a, at(SECOND)), Admission::Deny { retry_after: 2 });
}

#[test]
fn retry_hint_does_not_grow_during_cooldown() {
    let mut rl = RateLimiter::new(1, 10, at(0));
    let a = ClientAddress::from_ipv4(7);
    assert_eq!(rl.decide(a, at(0)), Admission::Deny { retry_after: 10 });
    assert_eq!(rl.decide(a, at(SECOND / 2)), Admission::Deny { retry_after: 9 });
    assert_eq!(rl.decide(a, at(3 * SECOND)), Admission::Deny { retry_after: 7 });
    assert_eq!(rl.decide(a, at(10 * SECOND - 1)), Admission::Deny { retry_after: 0 });
}

#[test]
fn fresh_after_cooldown() {
    let mut rl = RateLimiter::new(2, 5, at(0));
    let a = ClientAddress::from_ipv4(7);
    assert_eq!(rl.decide(a, at(SECOND)), Admission::Allow);
    assert_eq!(rl.decide(a, at(2 * SECOND)), Admission::Deny { retry_after: 5 });
    assert_eq!(rl.decide(a, at(4 * SECOND)), Admission::Deny { retry_after: 3 });
    assert_eq!(rl.decide(a, at(7 * SECOND)), Admission::Allow);
    assert_eq!(rl.decide(a, at(8 * SECOND)), Admission::Deny { retry_after: 5 });
}

#[test]
fn other_addresses_are_counted_apart() {
    let mut rl = RateLimiter::new(2, 5, at(0));
    let a = ClientAddress::from_ipv4(1);
    let b = ClientAddress::from_ipv4(2);
    assert_eq!(rl.decide(a, at(SECOND)), Admission::Allow);
    assert_eq!(rl.decide(b, at(SECOND)), Admission::Allow);
    assert_eq!(rl.decide(a, at(2 * SECOND)), Admission::Deny { retry_after: 5 });
    assert_eq!(rl.decide(b, at(3 * SECOND)), Admission::Deny { retry_after: 5 });
}

#[test]
fn new_minute_clears_every_count() {
    let mut rl = RateLimiter::new(2, 5, at(0));
    let a = ClientAddress::from_ipv4(1);
    let b = ClientAddress::from_ipv4(2);
    assert_eq!(rl.decide(a, at(59 * SECOND)), Admission::Allow);
    assert_eq!(rl.decide(b, at(59 * SECOND)), Admission::Allow);
    // The window is global: just past the minute both start over.
    assert_eq!(rl.decide(a, at(MINUTE + 1)), Admission::Allow);
    assert_eq!(rl.decide(b, at(MINUTE + 2)), Admission::Allow);
    assert_eq!(rl.decide(a, at(MINUTE + 3)), Admission::Deny { retry_after: 5 });
}

#[test]
fn zero_limit_disables() {
    let mut rl = RateLimiter::new(0, 5, at(0));
    let a = ClientAddress::from_ipv4(1);
    for i in 0..1000 {
        assert_eq!(rl.decide(a, at(i)), Admission::Allow);
    }
    assert_eq!(rl.limit(), 0);
    assert_eq!(rl.timeout(), 5);
}
