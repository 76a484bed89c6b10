use route_rs::route_http::method::{HttpMethod, InvalidHttpMethod};
use route_rs::route_http::request::{parse_usize, split_char, split_words, to_ascii_lower, Request};
use route_rs::route_http::response::{check_header_value, check_unique_names, check_visible_ascii, Response};
use route_rs::route_http::status::StatusCode;

#[test]
fn method_names_parse() {
    assert_eq!(HttpMethod::try_from_str("GET"), Ok(HttpMethod::Get));
    assert_eq!(HttpMethod::try_from_str("TRACE"), Ok(HttpMethod::Trace));
    assert_eq!(HttpMethod::try_from_str("get"), Err(InvalidHttpMethod));
    assert_eq!(HttpMethod::try_from_str("CONNECT"), Err(InvalidHttpMethod));
}

#[test]
fn method_classes() {
    assert!(HttpMethod::Get.is_safe());
    assert!(HttpMethod::Get.is_cacheable());
    assert!(HttpMethod::Put.is_idempotent());
    assert!(!HttpMethod::Put.is_safe());
    assert!(!HttpMethod::Post.is_idempotent());
    assert!(!HttpMethod::Options.is_cacheable());
    assert!(HttpMethod::Options.is_safe());
}

#[test]
fn status_numbers() {
    assert_eq!(StatusCode::OK.as_u16(), 200);
    assert_eq!(StatusCode::NoContent.as_u16(), 204);
    assert_eq!(StatusCode::ImATeapot.as_u16(), 418);
    assert_eq!(StatusCode::GatewayTimeout.as_u16(), 504);
    assert_eq!(StatusCode::Other(307).as_u16(), 307);
}

#[test]
fn status_from_number_round_trips() {
    assert_eq!(StatusCode::from_u16(404), StatusCode::NotFound);
    assert_eq!(StatusCode::from_u16(299), StatusCode::Other(299));
    for n in [200u16, 201, 400, 409, 418, 500, 503, 1, 999] {
        assert_eq!(StatusCode::from_u16(n).as_u16(), n);
    }
}

#[test]
fn response_head_text() {
    let mut res = Response::new("hi".to_string());
    res.insert_header("content-type".to_string(), "text/plain".to_string());
    assert_eq!(res.head_text().unwrap(), "HTTP/1.1 200 200\r\ncontent-type: text/plain\r\n");
    assert_eq!(res.to_text().unwrap(), "HTTP/1.1 200 200\r\ncontent-type: text/plain\r\n\r\nhi");
}

#[test]
fn insert_header_replaces_in_place() {
    let mut res = Response::with_status(StatusCode::NotFound);
    res.insert_header("a".to_string(), "1".to_string());
    res.insert_header("b".to_string(), "2".to_string());
    res.insert_header("a".to_string(), "3".to_string());
    assert_eq!(
        res.headers,
        vec![("a".to_string(), "3".to_string()), ("b".to_string(), "2".to_string())]
    );
    assert_eq!(res.to_text().unwrap(), "HTTP/1.1 404 404\r\na: 3\r\nb: 2\r\n\r\n");
}

#[test]
fn response_with_repeated_header_cannot_be_written() {
    let mut res = Response::new(String::new());
    res.headers.push(("x".to_string(), "1".to_string()));
    res.headers.push(("x".to_string(), "2".to_string()));
    assert!(res.to_text().is_none());
}

#[test]
fn response_with_non_ascii_value_cannot_be_written() {
    let mut res = Response::new(String::new());
    res.headers.push(("x".to_string(), "caf\u{e9}".to_string()));
    assert!(res.head_text().is_none());
}

#[test]
fn header_value_checks() {
    assert!(check_header_value("text/plain"));
    assert!(check_header_value("caf\u{e9}\t"));
    assert!(!check_header_value("a\nb"));
    assert!(!check_header_value("\u{7f}"));
    assert!(check_visible_ascii("abc ~"));
    assert!(!check_visible_ascii("caf\u{e9}"));
    let pairs = vec![("a".to_string(), "1".to_string()), ("a".to_string(), "2".to_string())];
    assert!(!check_unique_names(&pairs));
    assert!(check_unique_names(&vec![]));
}

#[test]
fn splitting_text() {
    assert_eq!(split_char("a\nb\n", '\n'), vec!["a".to_string(), "b".to_string(), "".to_string()]);
    assert_eq!(split_char("", '\n'), vec!["".to_string()]);
    assert_eq!(
        split_words("  GET /x\tHTTP/1.1 "),
        vec!["GET".to_string(), "/x".to_string(), "HTTP/1.1".to_string()]
    );
    assert_eq!(split_words("   "), Vec::<String>::new());
    assert_eq!(to_ascii_lower("Content-Type"), "content-type");
}

#[test]
fn parsing_numbers() {
    assert_eq!(parse_usize("42"), Some(42));
    assert_eq!(parse_usize("+7"), Some(7));
    assert_eq!(parse_usize("0"), Some(0));
    assert_eq!(parse_usize(""), None);
    assert_eq!(parse_usize("+"), None);
    assert_eq!(parse_usize("-1"), None);
    assert_eq!(parse_usize("4a"), None);
    assert_eq!(parse_usize("99999999999999999999999"), None);
}

#[test]
fn request_head_is_read() {
    let text = "POST /submit HTTP/1.1\nHost: example.com\nContent-Length: 5\nContent-Type: application/json";
    let req = Request::from_head_text(text).unwrap();
    assert_eq!(req.method, "POST");
    assert_eq!(req.uri, "/submit");
    // the last line comes first, then the others in order
    assert_eq!(
        req.headers,
        vec![
            ("content-type".to_string(), "application/json".to_string()),
            ("host".to_string(), "example.com".to_string()),
            ("content-length".to_string(), "5".to_string()),
        ]
    );
    assert!(req.body.is_empty());
    assert_eq!(req.content_length(), Some(5));
    assert_eq!(req.header("Host").unwrap(), "example.com");
    assert!(req.header("accept").is_none());
    assert_eq!(req.http_method(), Some(HttpMethod::Post));
}

#[test]
fn request_line_alone() {
    let req = Request::from_head_text("GET / HTTP/1.1").unwrap();
    assert_eq!(req.method, "GET");
    assert_eq!(req.uri, "/");
    assert!(req.headers.is_empty());
    assert_eq!(req.content_length(), Some(0));
}

#[test]
fn extension_methods_are_kept() {
    let req = Request::from_head_text("PURGE /cache").unwrap();
    assert_eq!(req.method, "PURGE");
    assert_eq!(req.http_method(), None);
}

#[test]
fn header_value_ends_at_a_second_separator() {
    let req = Request::from_head_text("GET /\nx-a: b: c").unwrap();
    assert_eq!(req.headers, vec![("x-a".to_string(), "b".to_string())]);
}

#[test]
fn bad_request_heads_are_refused() {
    assert!(Request::from_head_text("").is_none());
    assert!(Request::from_head_text("GET").is_none());
    assert!(Request::from_head_text("G(T / HTTP/1.1").is_none());
    assert!(Request::from_head_text("GET /a<b HTTP/1.1").is_none());
    assert!(Request::from_head_text("GET / HTTP/1.1\nno separator").is_none());
    assert!(Request::from_head_text("GET / HTTP/1.1\nbad name: x").is_none());
    assert!(Request::from_head_text("GET / HTTP/1.1\nx: a\rb").is_none());
    assert!(Request::from_head_text("GET / HTTP/1.1\n").is_none());
}

#[test]
fn bad_content_length() {
    let req = Request::from_head_text("GET /\ncontent-length: ten").unwrap();
    assert_eq!(req.content_length(), None);
}

#[test]
fn content_length_reads_back_a_written_number() {
    for n in [0usize, 7, 10, 4096, usize::MAX] {
        let text = route_rs::text::decimal_u128(n as u128);
        assert_eq!(parse_usize(&text), Some(n));
    }
}

#[test]
fn insert_header_drops_later_headers_of_that_name() {
    let mut res = Response::new(String::new());
    res.headers.push(("x".to_string(), "1".to_string()));
    res.headers.push(("y".to_string(), "2".to_string()));
    res.headers.push(("x".to_string(), "3".to_string()));
    res.insert_header("x".to_string(), "9".to_string());
    assert_eq!(res.headers, vec![("x".to_string(), "9".to_string()), ("y".to_string(), "2".to_string())]);
    res.insert_header("z".to_string(), "0".to_string());
    assert_eq!(res.headers.len(), 3);
    assert_eq!(res.headers[2], ("z".to_string(), "0".to_string()));
}

#[test]
fn header_names_are_tokens_kept_in_lower_case() {
    let req = Request::from_head_text("GET /\nX-Tag!~: v").unwrap();
    assert_eq!(req.headers, vec![("x-tag!~".to_string(), "v".to_string())]);
    let long = format!("GET /\n{}: v", "a".repeat(65536));
    assert!(Request::from_head_text(&long).is_none());
    assert!(Request::from_head_text("G~T! /").is_some());
}
