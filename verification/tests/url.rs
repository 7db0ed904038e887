use plain_http::error::HttpError;
use plain_http::number::parse_port;
use plain_http::url::{check_scheme, parse_host_port, parse_url, resolve, strip_scheme, Target};

fn pair(a: &str, b: &str) -> Result<(String, String), HttpError> {
    Ok((a.to_string(), b.to_string()))
}

#[test]
fn decomposes_url_with_path() {
    assert_eq!(parse_url("http://host/path"), pair("host", "/path"));
    assert_eq!(
        parse_url("http://example.com:8080/a/b?c=d"),
        pair("example.com:8080", "/a/b?c=d")
    );
}

#[test]
fn decomposes_url_without_path() {
    assert_eq!(parse_url("http://host"), pair("host", "/"));
    assert_eq!(parse_url("http://example.com:81"), pair("example.com:81", "/"));
}

#[test]
fn decomposes_remainder_without_scheme() {
    assert_eq!(parse_url("host/path"), pair("host", "/path"));
    assert_eq!(parse_url("host"), pair("host", "/"));
}

#[test]
fn decomposes_empty_host() {
    assert_eq!(parse_url("http://"), pair("", "/"));
    assert_eq!(parse_url(""), pair("", "/"));
    assert_eq!(parse_url("http:///x"), pair("", "/x"));
    assert_eq!(parse_url("/"), pair("", "/"));
}

#[test]
fn path_keeps_everything_after_first_slash() {
    assert_eq!(parse_url("http://h/a/b/c/"), pair("h", "/a/b/c/"));
    assert_eq!(parse_url("http://h//"), pair("h", "//"));
}

#[test]
fn decomposes_non_ascii_url() {
    assert_eq!(parse_url("http://bücher.example/straße"), pair("bücher.example", "/straße"));
}

#[test]
fn scheme_is_stripped_from_the_front() {
    assert_eq!(strip_scheme("http://host/x"), "host/x");
    assert_eq!(strip_scheme("host/x"), "host/x");
    assert_eq!(strip_scheme("HTTP://host"), "HTTP://host");
    assert_eq!(strip_scheme("http:/"), "http:/");
    assert_eq!(strip_scheme("http://"), "");
    assert_eq!(strip_scheme("xhttp://host"), "xhttp://host");
}

#[test]
fn scheme_is_stripped_once() {
    assert_eq!(strip_scheme("http://http://x"), "http://x");
    assert_eq!(strip_scheme("http://http://http://"), "http://http://");
    assert_eq!(strip_scheme("http://http:/http://y"), "http:/http://y");
}

#[test]
fn doubled_scheme_leaves_the_second_in_place() {
    assert_eq!(parse_url("http://http://h/x"), pair("http:", "//h/x"));
    assert_eq!(parse_url("http://http://a/b"), pair("http:", "//a/b"));
    assert_eq!(parse_url("http://http://"), pair("http:", "//"));
}

#[test]
fn doubled_scheme_has_no_port() {
    assert_eq!(resolve("http://http://h/x"), Err(HttpError::Parse));
    assert_eq!(resolve("http://http://h/x").unwrap_err().message(), "Invalid port");
}

#[test]
fn scheme_is_stripped_like_the_standard_prefix_strip() {
    let samples = [
        "", "h", "http:/", "http://", "http://a", "http://http://", "http://http://a/b",
        "http://http:/", "ahttp://", "http://é/ü", "HTTP://a", "http:///", "http://http",
    ];
    for s in samples {
        assert_eq!(strip_scheme(s), s.strip_prefix("http://").unwrap_or(s), "url {:?}", s);
    }
}

#[test]
fn parts_join_back_to_the_remainder() {
    let samples = [
        "http://host/path", "http://host/", "host/a/b", "/x", "http:///", "http://a:1/b?c#d",
        "http://http://h/x", "http://é/ü",
    ];
    for s in samples {
        let (authority, path) = parse_url(s).unwrap();
        assert!(!authority.contains('/'), "url {:?}", s);
        assert_eq!(format!("{}{}", authority, path), strip_scheme(s), "url {:?}", s);
    }
    for s in ["http://host", "host", "", "http://", "http://a:1"] {
        let (authority, path) = parse_url(s).unwrap();
        assert_eq!(authority, strip_scheme(s), "url {:?}", s);
        assert_eq!(path, "/", "url {:?}", s);
    }
}

#[test]
fn scheme_check_is_exact() {
    assert!(check_scheme("http://example.com"));
    assert!(check_scheme("http://"));
    assert!(!check_scheme("https://example.com"));
    assert!(!check_scheme("ftp://x"));
    assert!(!check_scheme("HTTP://example.com"));
    assert!(!check_scheme(" http://example.com"));
    assert!(!check_scheme("http:/"));
    assert!(!check_scheme(""));
}

#[test]
fn authority_with_port() {
    assert_eq!(parse_host_port("host:8080"), Ok(("host", 8080)));
    assert_eq!(parse_host_port("example.com:443"), Ok(("example.com", 443)));
    assert_eq!(parse_host_port("host:0"), Ok(("host", 0)));
    assert_eq!(parse_host_port("host:65535"), Ok(("host", 65535)));
    assert_eq!(parse_host_port(":81"), Ok(("", 81)));
}

#[test]
fn authority_without_port_defaults_to_80() {
    assert_eq!(parse_host_port("host"), Ok(("host", 80)));
    assert_eq!(parse_host_port("example.com"), Ok(("example.com", 80)));
    assert_eq!(parse_host_port(""), Ok(("", 80)));
}

#[test]
fn authority_port_accepts_plus_and_leading_zeros() {
    assert_eq!(parse_host_port("host:+80"), Ok(("host", 80)));
    assert_eq!(parse_host_port("host:0080"), Ok(("host", 80)));
    assert_eq!(parse_host_port("host:000000000000000000000065535"), Ok(("host", 65535)));
}

#[test]
fn authority_rejects_non_numeric_port() {
    assert_eq!(parse_host_port("host:notaport"), Err(HttpError::Parse));
    assert_eq!(parse_host_port("host:"), Err(HttpError::Parse));
    assert_eq!(parse_host_port("host:+"), Err(HttpError::Parse));
    assert_eq!(parse_host_port("host:-1"), Err(HttpError::Parse));
    assert_eq!(parse_host_port("host: 80"), Err(HttpError::Parse));
    assert_eq!(parse_host_port("host:80 "), Err(HttpError::Parse));
    assert_eq!(parse_host_port("host:8_0"), Err(HttpError::Parse));
    assert_eq!(parse_host_port("host:80:90"), Err(HttpError::Parse));
    assert_eq!(parse_host_port("host:٣"), Err(HttpError::Parse));
    assert_eq!(parse_host_port("[::1]:80"), Err(HttpError::Parse));
}

#[test]
fn authority_rejects_out_of_range_port() {
    assert_eq!(parse_host_port("host:99999"), Err(HttpError::Parse));
    assert_eq!(parse_host_port("host:65536"), Err(HttpError::Parse));
    assert_eq!(parse_host_port("host:4294967376"), Err(HttpError::Parse));
    assert_eq!(parse_host_port("host:18446744073709551696"), Err(HttpError::Parse));
}

#[test]
fn parse_error_message() {
    let e = parse_host_port("host:notaport").unwrap_err();
    assert_eq!(e.message(), "Invalid port");
}

#[test]
fn port_text_reads_like_the_standard_parser() {
    let samples = [
        "", "0", "7", "80", "+80", "++80", "-80", "080", "65535", "65536", "65540", "99999",
        "655350", "+", "-", "+0", "8e1", "0x50", " 80", "80 ", "8 0", "１２", "4294967296",
        "00000000000000000000000000000000000001", "+65535", "+65536", "6553a",
    ];
    for s in samples {
        assert_eq!(parse_port(s), s.parse::<u16>().ok(), "port text {:?}", s);
    }
}

#[test]
fn every_port_round_trips() {
    let mut port: u32 = 0;
    while port <= 65535 {
        let p = port as u16;
        assert_eq!(parse_port(&p.to_string()), Some(p));
        port += 1;
    }
}

#[test]
fn resolve_combines_both_steps() {
    assert_eq!(
        resolve("http://example.com:8080/index.html"),
        Ok(Target {
            host: "example.com".to_string(),
            port: 8080,
            path: "/index.html".to_string()
        })
    );
    assert_eq!(
        resolve("http://example.com"),
        Ok(Target { host: "example.com".to_string(), port: 80, path: "/".to_string() })
    );
    assert_eq!(
        resolve("example.com/x"),
        Ok(Target { host: "example.com".to_string(), port: 80, path: "/x".to_string() })
    );
}

#[test]
fn resolve_looks_for_the_colon_in_the_authority_only() {
    assert_eq!(
        resolve("http://host/a:b"),
        Ok(Target { host: "host".to_string(), port: 80, path: "/a:b".to_string() })
    );
}

#[test]
fn resolve_fails_on_bad_port() {
    assert_eq!(resolve("http://host:http/x"), Err(HttpError::Parse));
    assert_eq!(resolve("http://host:70000/"), Err(HttpError::Parse));
    assert_eq!(resolve("https://example.com"), Err(HttpError::Parse));
}

#[test]
fn resolved_path_begins_with_slash() {
    for url in ["http://a", "http://a/", "a", "", "http://a:1/b/c", "http://a?x=1"] {
        let target = resolve(url).unwrap();
        assert!(target.path.starts_with('/'), "url {:?}", url);
    }
}
