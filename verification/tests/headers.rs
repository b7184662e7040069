use fdm::headers::{fit, is_denied, sanitize, MAX_HEADERS};
use reqwest::header::HeaderMap;

fn sanitized(pairs: &[(&str, &str)]) -> HeaderMap {
    let owned: Vec<(String, String)> = pairs
        .iter()
        .map(|(k, v)| (k.to_string(), v.to_string()))
        .collect();
    sanitize(&owned)
}

#[test]
fn headers_keeps_the_headers_that_make_authenticated_downloads_work() {
    let map = sanitized(&[
        ("Cookie", "session=abc123"),
        ("Referer", "https://example.com/page"),
        ("User-Agent", "Mozilla/5.0"),
    ]);
    assert_eq!(map.get("cookie").unwrap(), "session=abc123");
    assert_eq!(map.get("referer").unwrap(), "https://example.com/page");
    assert_eq!(map.get("user-agent").unwrap(), "Mozilla/5.0");
}

#[test]
fn headers_drops_accept_encoding_whatever_case_it_arrives_in() {
    let map = sanitized(&[
        ("Accept-Encoding", "gzip, deflate, br"),
        ("accept-encoding", "gzip"),
        ("ACCEPT-ENCODING", "br"),
    ]);
    assert!(map.get("accept-encoding").is_none());
}

#[test]
fn headers_drops_connection_level_headers() {
    let map = sanitized(&[
        ("Host", "evil.example"),
        ("Content-Length", "0"),
        ("Range", "bytes=0-10"),
        ("Transfer-Encoding", "chunked"),
        ("Cookie", "keep=me"),
    ]);
    assert_eq!(map.len(), 1, "only Cookie should survive");
    assert!(map.get("cookie").is_some());
}

#[test]
fn headers_one_malformed_cookie_does_not_lose_the_others() {
    let map = sanitized(&[
        ("Cookie", "fine=yes"),
        ("X-Bad", "line\nbreak"),
        ("Referer", "https://example.com/"),
    ]);
    assert!(map.get("x-bad").is_none());
    assert_eq!(map.len(), 2);
}

#[test]
fn is_denied_is_case_insensitive() {
    assert!(is_denied("Accept-Encoding"));
    assert!(is_denied("RANGE"));
    assert!(!is_denied("Cookie"));
}

#[test]
fn the_last_of_several_values_is_kept() {
    let map = sanitized(&[("X-A", "1"), ("x-a", "2"), ("X A", "bad name"), ("X-Uni", "é")]);
    assert_eq!(map.get("x-a").unwrap(), "2");
    assert_eq!(map.get_all("x-a").iter().count(), 1);
    assert_eq!(map.get("x-uni").unwrap().as_bytes(), "é".as_bytes());
    assert_eq!(map.len(), 2);
}

#[test]
fn only_distinct_names_count_against_the_limit() {
    let one: Vec<(String, String)> = (0..7000).map(|n| ("X-A".to_string(), n.to_string())).collect();
    assert!(fit(&one));
    let map = sanitize(&one);
    assert_eq!(map.len(), 1);
    assert_eq!(map["x-a"], "6999");

    let denied: Vec<(String, String)> =
        (0..7000).map(|n| (format!("bad name {n}"), "v".to_string())).collect();
    assert!(fit(&denied));
    assert!(sanitize(&denied).is_empty());

    let full: Vec<(String, String)> =
        (0..MAX_HEADERS).map(|n| (format!("x-{n}"), "v".to_string())).collect();
    assert!(fit(&full));
    assert_eq!(sanitize(&full).len(), MAX_HEADERS);
    let over: Vec<(String, String)> =
        (0..MAX_HEADERS + 1).map(|n| (format!("x-{n}"), "v".to_string())).collect();
    assert!(!fit(&over));
}
