use route_rs::route_core::extract::{json_body, urlencoded_body, BodyParseError, Bytes, RequestExtractor};
use route_rs::route_core::redirect::Redirect;
use route_rs::route_core::respond::{text_response, Respondable};
use route_rs::route_http::request::Request;
use route_rs::route_http::response::Response;
use route_rs::route_http::status::StatusCode;
use route_rs::route_server::{finish_response, head_line, http_date, trim_text, NoApp};
use route_rs::text::{decimal_i128, decimal_u128, join_strings};

fn request(headers: Vec<(&str, &str)>, body: &[u8]) -> Request {
    Request {
        method: "POST".to_string(),
        uri: "/".to_string(),
        headers: headers.into_iter().map(|(k, v)| (k.to_string(), v.to_string())).collect(),
        body: body.to_vec(),
    }
}

fn text_plain() -> Vec<(String, String)> {
    vec![("content-type".to_string(), "text/plain".to_string())]
}

#[test]
fn decimal_text() {
    assert_eq!(decimal_u128(0), "0");
    assert_eq!(decimal_u128(1234567890), "1234567890");
    assert_eq!(decimal_u128(u128::MAX), u128::MAX.to_string());
    assert_eq!(decimal_i128(-45), "-45");
    assert_eq!(decimal_i128(i128::MIN), i128::MIN.to_string());
    assert_eq!(decimal_i128(7), "7");
}

#[test]
fn numbers_respond_as_text() {
    let r = 42u8.respond();
    assert_eq!(r.status, StatusCode::OK);
    assert_eq!(r.headers, text_plain());
    assert_eq!(r.body, "42");
    assert_eq!((-3i64).respond().body, "-3");
    assert_eq!(usize::MAX.respond().body, usize::MAX.to_string());
    assert_eq!(isize::MIN.respond().body, isize::MIN.to_string());
    assert_eq!(i8::MIN.respond().body, "-128");
    assert_eq!(65535u16.respond().body, "65535");
    assert_eq!(7u32.respond().body, "7");
    assert_eq!(8u64.respond().body, "8");
    assert_eq!(9u128.respond().body, "9");
    assert_eq!(10i16.respond().body, "10");
    assert_eq!(11i32.respond().body, "11");
    assert_eq!(12i128.respond().body, "12");
}

#[test]
fn strings_respond_as_text() {
    let r = "hello".respond();
    assert_eq!(r.body, "hello");
    assert_eq!(r.headers, text_plain());
    let r = String::from("owned").respond();
    assert_eq!(r.body, "owned");
    assert_eq!(text_response("x".to_string()).status, StatusCode::OK);
}

#[test]
fn unit_and_response_respond() {
    let r = ().respond();
    assert_eq!(r.status, StatusCode::OK);
    assert!(r.headers.is_empty());
    assert!(r.body.is_empty());
    let r = Response::with_status(StatusCode::Conflict).respond();
    assert_eq!(r.status, StatusCode::Conflict);
}

#[test]
fn status_pairs_and_results() {
    let r = (StatusCode::NotFound, "missing").respond();
    assert_eq!(r.status, StatusCode::NotFound);
    assert_eq!(r.body, "missing");
    let ok: Result<&str, (StatusCode, &str)> = Ok("fine");
    assert_eq!(ok.respond().body, "fine");
    let err: Result<&str, (StatusCode, &str)> = Err((StatusCode::BadRequest, "bad"));
    let r = err.respond();
    assert_eq!(r.status, StatusCode::BadRequest);
    assert_eq!(r.body, "bad");
}

#[test]
fn redirect_responds_with_location() {
    let redirect = Redirect::new("/login");
    assert_eq!(redirect.status_code, StatusCode::Other(307));
    let r = redirect.respond();
    assert_eq!(r.status.as_u16(), 307);
    assert!(r.body.is_empty());
    assert_eq!(r.headers, vec![("location".to_string(), "/login".to_string())]);
    assert_eq!(r.to_text().unwrap(), "HTTP/1.1 307 307\r\nlocation: /login\r\n\r\n");
}

#[test]
fn redirect_to_an_impossible_location_has_no_header() {
    let r = Redirect::new("/a\nb").respond();
    assert!(r.headers.is_empty());
}

#[test]
fn json_body_checks() {
    let req = request(vec![("content-type", "application/json")], b"{\"a\":1}");
    assert_eq!(json_body(&req).unwrap(), &b"{\"a\":1}".to_vec());
    let req = request(vec![("content-type", "application/json")], b"");
    assert_eq!(json_body(&req).unwrap_err(), BodyParseError::NoBody);
    let req = request(vec![("content-type", "text/plain")], b"x");
    assert_eq!(json_body(&req).unwrap_err(), BodyParseError::ContentTypeInvalid);
    let req = request(vec![], b"x");
    assert_eq!(json_body(&req).unwrap_err(), BodyParseError::ContentTypeInvalid);
    let req = request(vec![("content-type", "application/json; charset=utf-8")], b"x");
    assert_eq!(json_body(&req).unwrap_err(), BodyParseError::ContentTypeInvalid);
}

#[test]
fn form_body_checks() {
    let req = request(vec![("content-type", "application/x-www-form-urlencoded")], b"a=1");
    assert_eq!(urlencoded_body(&req).unwrap(), &b"a=1".to_vec());
    let req = request(vec![("content-type", "application/json")], b"a=1");
    assert_eq!(urlencoded_body(&req).unwrap_err(), BodyParseError::ContentTypeInvalid);
}

#[test]
fn request_extracts_itself_and_its_bytes() {
    let req = request(vec![("x", "1")], b"abc");
    let copy: Request = RequestExtractor::<Request, std::convert::Infallible>::extract(&req).unwrap();
    assert_eq!(copy.method, "POST");
    assert_eq!(copy.headers, vec![("x".to_string(), "1".to_string())]);
    assert_eq!(copy.body, b"abc".to_vec());
    let Bytes(bytes) = Bytes::from_request(&req);
    assert_eq!(bytes, b"abc".to_vec());
}

#[test]
fn head_lines_are_trimmed() {
    assert_eq!(head_line("GET / HTTP/1.1\r\n"), Some("GET / HTTP/1.1".to_string()));
    assert_eq!(head_line("  Host: x \t"), Some("Host: x".to_string()));
    assert_eq!(head_line("\r\n"), None);
    assert_eq!(head_line(""), None);
    assert_eq!(trim_text("\u{3000}a b\u{a0}"), "a b");
}

#[test]
fn head_lines_join_into_a_request() {
    let raw = ["GET /x HTTP/1.1\r\n", "Host: h\r\n", "\r\n"];
    let mut lines = Vec::new();
    for l in raw {
        match head_line(l) {
            Some(t) => lines.push(t),
            None => break,
        }
    }
    let text = join_strings(&lines, "\n");
    let req = Request::from_head_text(&text).unwrap();
    assert_eq!(req.uri, "/x");
    assert_eq!(req.headers, vec![("host".to_string(), "h".to_string())]);
}

#[test]
fn finished_response_has_date_and_server() {
    let res = "ok".respond();
    let text = finish_response(res, "Thu, 01 Jan 1970 00:00:00 GMT".to_string()).unwrap();
    assert_eq!(
        text,
        "HTTP/1.1 200 200\r\ncontent-type: text/plain\r\ndate: Thu, 01 Jan 1970 00:00:00 GMT\r\nserver: route-rs\r\n\r\nok"
    );
}

#[test]
fn finished_response_with_a_date_already_cannot_be_written() {
    let mut res = Response::new(String::new());
    res.insert_header("date".to_string(), "x".to_string());
    assert!(finish_response(res, "y".to_string()).is_none());
}

#[test]
fn no_app() {
    assert_eq!(NoApp, NoApp);
}

#[test]
fn http_dates() {
    assert_eq!(http_date(0), "Thu, 01 Jan 1970 00:00:00 GMT");
    assert_eq!(http_date(86399), "Thu, 01 Jan 1970 23:59:59 GMT");
    assert_eq!(http_date(951782400), "Tue, 29 Feb 2000 00:00:00 GMT");
    assert_eq!(http_date(1700000000), "Tue, 14 Nov 2023 22:13:20 GMT");
    assert_eq!(http_date(4102444799), "Thu, 31 Dec 2099 23:59:59 GMT");
}
