use webserver::http::{Response, Status};

#[test]
fn response_round_trip() {
    let mut r = Response::new();
    r.set_status(Status::ok());
    r.set_header("Content-Type", "text/html");
    r.set_body_str("<h1>x</h1>");
    let bytes = r.as_bytes();
    let text = String::from_utf8(bytes.clone()).unwrap();
    let (head, body) = text.split_once("\r\n\r\n").unwrap();
    assert_eq!(body, "<h1>x</h1>");
    let length: Vec<&str> = head.split("\r\n").filter(|l| l.starts_with("Content-Length: ")).collect();
    assert_eq!(length, vec!["Content-Length: 10"]);
    assert_eq!(
        bytes,
        b"HTTP/1.1 200 OK\r\nContent-Type: text/html\r\nContent-Length: 10\r\n\r\n<h1>x</h1>".to_vec()
    );
}

#[test]
fn new_response_is_200_and_empty() {
    let r = Response::new();
    assert_eq!(r.status().code(), 200);
    assert_eq!(r.status().desc(), "OK");
    assert_eq!(r.headers().len(), 0);
    assert!(r.body().is_empty());
    assert_eq!(r.as_bytes(), b"HTTP/1.1 200 OK\r\n\r\n".to_vec());
}

#[test]
fn status_values() {
    assert_eq!(Status::ok().code(), 200);
    assert_eq!(Status::ok().desc(), "OK");
    assert_eq!(Status::not_found().code(), 404);
    assert_eq!(Status::not_found().desc(), "Not Found");
}

#[test]
fn body_grows_and_length_follows() {
    let mut r = Response::new();
    r.set_body(b"abc");
    assert_eq!(r.headers().get("Content-Length"), Some("3"));
    r.set_body(b"defghijkl");
    assert_eq!(r.headers().get("Content-Length"), Some("12"));
    assert_eq!(r.body(), b"abcdefghijkl");
    assert_eq!(r.headers().len(), 1);
    r.set_body(b"");
    assert_eq!(r.headers().get("Content-Length"), Some("12"));
}

#[test]
fn headers_overwrite() {
    let mut r = Response::new();
    r.set_header("A", "1").set_header("B", "2").set_header("A", "3");
    assert_eq!(r.as_bytes(), b"HTTP/1.1 200 OK\r\nA: 3\r\nB: 2\r\n\r\n".to_vec());
    r.set_headers(&[("B", "4"), ("C", "5"), ("C", "6")]);
    assert_eq!(r.as_bytes(), b"HTTP/1.1 200 OK\r\nA: 3\r\nB: 4\r\nC: 6\r\n\r\n".to_vec());
    r.set_headers(&[]);
    assert_eq!(r.headers().len(), 3);
}

#[test]
fn set_length_writes_decimal() {
    let mut r = Response::new();
    r.set_length(0);
    assert_eq!(r.headers().get("Content-Length"), Some("0"));
    r.set_length(10485760);
    assert_eq!(r.headers().get("Content-Length"), Some("10485760"));
    r.set_length(u64::MAX);
    assert_eq!(r.headers().get("Content-Length"), Some("18446744073709551615"));
}

#[test]
fn not_found_response() {
    let mut r = Response::new();
    r.set_not_found();
    assert_eq!(r.status().code(), 404);
    assert_eq!(
        r.as_bytes(),
        b"HTTP/1.1 404 Not Found\r\nContent-Type: text/html\r\nContent-Length: 35\r\n\r\n<html><h1>404 Not found</h1></html>".to_vec()
    );
}

#[test]
fn send_queues_the_message_and_clears_headers_and_body() {
    let mut r = Response::new();
    r.set_not_found().send();
    assert_eq!(r.headers().len(), 0);
    assert!(r.body().is_empty());
    assert_eq!(r.status().code(), 404);
    let first = r.take_sent();
    assert_eq!(
        first,
        b"HTTP/1.1 404 Not Found\r\nContent-Type: text/html\r\nContent-Length: 35\r\n\r\n<html><h1>404 Not found</h1></html>".to_vec()
    );
    assert!(r.take_sent().is_empty());
    r.set_status(Status::ok()).set_body_str("hi");
    r.send();
    assert_eq!(r.take_sent(), b"HTTP/1.1 200 OK\r\nContent-Length: 2\r\n\r\nhi".to_vec());
}

#[test]
fn raw_data_goes_out_as_it_is_and_in_order() {
    let mut r = Response::new();
    r.set_length(6);
    r.send();
    r.send_data(b"abc");
    r.send_str("d\u{e9}");
    assert_eq!(r.headers().len(), 0);
    assert_eq!(r.take_sent(), b"HTTP/1.1 200 OK\r\nContent-Length: 6\r\n\r\nabcd\xc3\xa9".to_vec());
}

#[test]
fn two_sends_queue_two_messages() {
    let mut r = Response::new();
    r.set_body_str("one");
    r.send();
    r.set_body_str("two!");
    r.send();
    assert_eq!(
        r.take_sent(),
        b"HTTP/1.1 200 OK\r\nContent-Length: 3\r\n\r\noneHTTP/1.1 200 OK\r\nContent-Length: 4\r\n\r\ntwo!".to_vec()
    );
}
