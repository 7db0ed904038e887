use plain_http::client::{plan_fetch, plan_post, Exchange};
use plain_http::error::HttpError;
use plain_http::response::decode_response;

#[test]
fn fetch_refuses_other_schemes() {
    assert_eq!(plan_fetch("https://example.com"), Err(HttpError::InvalidUrl));
    assert_eq!(plan_fetch("ftp://x"), Err(HttpError::InvalidUrl));
    assert_eq!(plan_fetch("HTTP://example.com"), Err(HttpError::InvalidUrl));
    assert_eq!(plan_fetch("example.com"), Err(HttpError::InvalidUrl));
    assert_eq!(plan_fetch(""), Err(HttpError::InvalidUrl));
}

#[test]
fn fetch_checks_scheme_before_port() {
    assert_eq!(plan_fetch("https://example.com:bad/"), Err(HttpError::InvalidUrl));
    assert_eq!(plan_fetch("http://example.com:bad/"), Err(HttpError::Parse));
}

#[test]
fn doubled_scheme_is_a_parse_error() {
    assert_eq!(plan_fetch("http://http://h/x"), Err(HttpError::Parse));
    assert_eq!(plan_post("http://http://h/x", "{}"), Err(HttpError::Parse));
    assert_eq!(plan_fetch("http://http://h/x").unwrap_err().message(), "Invalid port");
}

#[test]
fn invalid_url_message() {
    assert_eq!(plan_fetch("ftp://x").unwrap_err().message(), "Invalid URL");
}

#[test]
fn fetch_plans_get_request() {
    assert_eq!(
        plan_fetch("http://example.com:8080/data?id=1"),
        Ok(Exchange {
            host: "example.com".to_string(),
            port: 8080,
            request: "GET /data?id=1 HTTP/1.1\r\nHost: example.com\r\nConnection: close\r\n\r\n"
                .to_string(),
        })
    );
}

#[test]
fn fetch_defaults_port_and_path() {
    assert_eq!(
        plan_fetch("http://example.com"),
        Ok(Exchange {
            host: "example.com".to_string(),
            port: 80,
            request: "GET / HTTP/1.1\r\nHost: example.com\r\nConnection: close\r\n\r\n"
                .to_string(),
        })
    );
}

#[test]
fn post_plans_post_request() {
    let exchange = plan_post("http://host/api", "{\"a\":1}").unwrap();
    assert_eq!(exchange.host, "host");
    assert_eq!(exchange.port, 80);
    let (head, body) = exchange.request.split_once("\r\n\r\n").unwrap();
    assert_eq!(body, "{\"a\":1}");
    let length = head
        .split("\r\n")
        .find_map(|line| line.strip_prefix("Content-Length: "))
        .unwrap();
    assert_eq!(length, "7");
    assert_eq!(length.parse::<usize>().unwrap(), "{\"a\":1}".len());
    assert!(head.starts_with("POST /api HTTP/1.1\r\nHost: host\r\n"));
}

#[test]
fn post_does_not_demand_the_scheme() {
    assert_eq!(
        plan_post("host:8080/api", "{}"),
        Ok(Exchange {
            host: "host".to_string(),
            port: 8080,
            request: "POST /api HTTP/1.1\r\nHost: host\r\nContent-Type: application/json\r\nContent-Length: 2\r\nConnection: close\r\n\r\n{}"
                .to_string(),
        })
    );
    assert_eq!(plan_post("https://example.com", "{}"), Err(HttpError::Parse));
}

#[test]
fn post_fails_on_bad_port() {
    assert_eq!(plan_post("http://host:99999/api", "{}"), Err(HttpError::Parse));
    assert_eq!(plan_post("http://host:notaport/api", "{}"), Err(HttpError::Parse));
}

#[test]
fn exchange_end_to_end_on_text() {
    let exchange = plan_fetch("http://localhost:3000/hello").unwrap();
    assert_eq!((exchange.host.as_str(), exchange.port), ("localhost", 3000));
    let reply = "HTTP/1.1 200 OK\r\nContent-Length: 5\r\n\r\nhello";
    assert_eq!(decode_response(reply).map_err(|e| e.message()), Ok("hello".to_string()));
    let reply = "HTTP/1.1 404 Not Found\r\n\r\n";
    assert_eq!(
        decode_response(reply).map_err(|e| e.message()),
        Err("HTTP error: HTTP/1.1 404 Not Found".to_string())
    );
}

#[test]
fn error_messages() {
    assert_eq!(HttpError::InvalidUrl.message(), "Invalid URL");
    assert_eq!(HttpError::Parse.message(), "Invalid port");
    assert_eq!(HttpError::Connection("connection refused".to_string()).message(), "connection refused");
    assert_eq!(HttpError::Write("broken pipe".to_string()).message(), "broken pipe");
    assert_eq!(HttpError::Read("timed out".to_string()).message(), "timed out");
    assert_eq!(
        HttpError::HttpStatus("HTTP/1.1 302 Found".to_string()).message(),
        "HTTP error: HTTP/1.1 302 Found"
    );
    assert_eq!(HttpError::HttpStatus(String::new()).message(), "HTTP error: ");
}
