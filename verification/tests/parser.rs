use webserver::http::{Request, RequestBuilder, State};

fn summary(r: &Request) -> (String, String, Vec<(String, String)>, Vec<(String, String)>, Vec<u8>) {
    let mut headers = Vec::new();
    for i in 0..r.headers().len() {
        headers.push((r.headers().name_at(i).to_string(), r.headers().value_at(i).to_string()));
    }
    let mut params = Vec::new();
    for i in 0..r.params().len() {
        params.push((r.params().name_at(i).to_string(), r.params().value_at(i).to_string()));
    }
    (r.uri.clone(), r.version().to_string(), headers, params, r.body().to_vec())
}

fn feed_chunks(chunks: &[&[u8]]) -> (Vec<(String, String, Vec<(String, String)>, Vec<(String, String)>, Vec<u8>)>, State, usize) {
    let mut b = RequestBuilder::new();
    let mut out = Vec::new();
    for c in chunks {
        for r in b.read_all(c) {
            out.push(summary(&r));
        }
    }
    (out, b.state(), b.buffered())
}

const STREAM: &[u8] = b"GET /a?x=1&y=2 HTTP/1.1\r\nHost: h\r\nContent-Length: 5\r\n\r\nhelloGET /b HTTP/1.0\nAccept: */*\n\nGET /c HT";

#[test]
fn whole_stream_yields_two_requests_and_keeps_the_rest() {
    let (out, state, buffered) = feed_chunks(&[STREAM]);
    assert_eq!(out.len(), 2);
    assert_eq!(out[0].0, "/a");
    assert_eq!(out[0].1, "HTTP/1.1");
    assert_eq!(
        out[0].2,
        vec![("Host".to_string(), "h".to_string()), ("Content-Length".to_string(), "5".to_string())]
    );
    assert_eq!(out[0].3, vec![("x".to_string(), "1".to_string()), ("y".to_string(), "2".to_string())]);
    assert_eq!(out[0].4, b"hello".to_vec());
    assert_eq!(out[1].0, "/b");
    assert_eq!(out[1].1, "HTTP/1.0");
    assert_eq!(out[1].2, vec![("Accept".to_string(), "*/*".to_string())]);
    assert_eq!(out[1].4, Vec::<u8>::new());
    assert_eq!(state, State::ParseRequestLine);
    assert_eq!(buffered, b"GET /c HT".len());
}

#[test]
fn chunk_boundary_independence_two_chunks() {
    let whole = feed_chunks(&[STREAM]);
    for cut in 0..=STREAM.len() {
        let split = feed_chunks(&[&STREAM[..cut], &STREAM[cut..]]);
        assert_eq!(split, whole, "cut at {}", cut);
    }
}

#[test]
fn chunk_boundary_independence_byte_by_byte() {
    let whole = feed_chunks(&[STREAM]);
    let chunks: Vec<&[u8]> = (0..STREAM.len()).map(|i| &STREAM[i..i + 1]).collect();
    assert_eq!(feed_chunks(&chunks), whole);
}

#[test]
fn chunk_boundary_independence_three_chunks_with_empty_ones() {
    let whole = feed_chunks(&[STREAM]);
    for a in (0..STREAM.len()).step_by(7) {
        for b in (a..STREAM.len()).step_by(11) {
            let split = feed_chunks(&[&STREAM[..a], b"", &STREAM[a..b], &STREAM[b..], b""]);
            assert_eq!(split, whole, "cuts at {} and {}", a, b);
        }
    }
}

#[test]
fn pipelining_two_requests_in_one_buffer() {
    let mut b = RequestBuilder::new();
    let first = b.read(b"GET /one HTTP/1.1\r\nHost: x\r\n\r\nGET /two HTTP/1.1\r\nHost: y\r\n\r\n");
    let first = first.expect("first request");
    assert_eq!(first.uri, "/one");
    assert_eq!(first.get_header("Host"), Some("x".to_string()));
    let second = b.read(b"").expect("second request");
    assert_eq!(second.uri, "/two");
    assert_eq!(second.get_header("Host"), Some("y".to_string()));
    assert!(b.read(b"").is_none());
    assert_eq!(b.buffered(), 0);
    assert_eq!(b.state(), State::ParseRequestLine);
}

#[test]
fn pipelining_with_read_all() {
    let mut b = RequestBuilder::new();
    let all = b.read_all(b"GET /one HTTP/1.1\r\n\r\nGET /two HTTP/1.1\r\n\r\n");
    assert_eq!(all.len(), 2);
    assert_eq!(all[0].uri, "/one");
    assert_eq!(all[1].uri, "/two");
    assert_eq!(b.buffered(), 0);
}

#[test]
fn buffer_does_not_grow_across_requests() {
    let mut b = RequestBuilder::new();
    for _ in 0..50 {
        assert!(b.read(b"GET / HTTP/1.1\r\nContent-Length: 3\r\n\r\nabc").is_some());
        assert_eq!(b.buffered(), 0);
    }
}

#[test]
fn request_line_with_two_tokens_is_an_error() {
    let mut b = RequestBuilder::new();
    assert!(b.read(b"GET /\r\n").is_none());
    assert_eq!(b.state(), State::Error);
}

#[test]
fn request_line_with_four_tokens_is_an_error() {
    let mut b = RequestBuilder::new();
    assert!(b.read(b"GET / HTTP/1.1 extra\r\n").is_none());
    assert_eq!(b.state(), State::Error);
}

#[test]
fn request_line_with_double_space_is_an_error() {
    let mut b = RequestBuilder::new();
    assert!(b.read(b"GET  / HTTP/1.1\r\n").is_none());
    assert_eq!(b.state(), State::Error);
}

#[test]
fn empty_request_line_is_an_error() {
    let mut b = RequestBuilder::new();
    assert!(b.read(b"\r\n").is_none());
    assert_eq!(b.state(), State::Error);
}

#[test]
fn non_get_method_is_an_error() {
    let mut b = RequestBuilder::new();
    assert!(b.read(b"POST / HTTP/1.1\r\n\r\n").is_none());
    assert_eq!(b.state(), State::Error);
    let mut b = RequestBuilder::new();
    assert!(b.read(b"get / HTTP/1.1\r\n\r\n").is_none());
    assert_eq!(b.state(), State::Error);
}

#[test]
fn error_is_final() {
    let mut b = RequestBuilder::new();
    assert!(b.read(b"BAD\r\n").is_none());
    assert_eq!(b.state(), State::Error);
    assert!(b.read(b"GET / HTTP/1.1\r\n\r\n").is_none());
    assert!(b.read_all(b"GET / HTTP/1.1\r\n\r\n").is_empty());
    assert!(b.parse_request().is_none());
    assert_eq!(b.state(), State::Error);
}

#[test]
fn request_before_the_malformed_one_is_still_handed_out() {
    let mut b = RequestBuilder::new();
    let all = b.read_all(b"GET /ok HTTP/1.1\r\n\r\nBROKEN\r\nGET /late HTTP/1.1\r\n\r\n");
    assert_eq!(all.len(), 1);
    assert_eq!(all[0].uri, "/ok");
    assert_eq!(b.state(), State::Error);
}

#[test]
fn invalid_utf8_request_line_is_an_error() {
    let mut b = RequestBuilder::new();
    assert!(b.read(b"GET /\xff HTTP/1.1\r\n").is_none());
    assert_eq!(b.state(), State::Error);
}

#[test]
fn invalid_utf8_header_line_is_an_error() {
    let mut b = RequestBuilder::new();
    assert!(b.read(b"GET / HTTP/1.1\r\nName: \xc3\x28\r\n").is_none());
    assert_eq!(b.state(), State::Error);
}

#[test]
fn non_ascii_text_is_kept() {
    let mut b = RequestBuilder::new();
    let r = b.read("GET /caf\u{e9}?k\u{fc}=v\u{e4} HTTP/1.1\r\nX-N\u{e4}me: w\u{f6}rt\r\n\r\n".as_bytes()).unwrap();
    assert_eq!(r.uri, "/caf\u{e9}");
    assert_eq!(r.get_param("k\u{fc}"), Some("v\u{e4}".to_string()));
    assert_eq!(r.get_header("X-N\u{e4}me"), Some("w\u{f6}rt".to_string()));
}

#[test]
fn content_length_absent_means_no_body() {
    let mut b = RequestBuilder::new();
    let r = b.read(b"GET / HTTP/1.1\r\nHost: x\r\n\r\n").unwrap();
    assert!(r.body().is_empty());
    assert_eq!(b.state(), State::ParseRequestLine);
}

#[test]
fn content_length_zero_means_no_body() {
    let mut b = RequestBuilder::new();
    let r = b.read(b"GET / HTTP/1.1\r\nContent-Length: 0\r\n\r\nrest").unwrap();
    assert!(r.body().is_empty());
    assert_eq!(b.buffered(), 4);
    assert_eq!(b.state(), State::ParseRequestLine);
}

#[test]
fn content_length_waits_for_the_whole_body() {
    let mut b = RequestBuilder::new();
    assert!(b.read(b"GET / HTTP/1.1\r\nContent-Length: 4\r\n\r\n").is_none());
    assert_eq!(b.state(), State::ParseBody);
    assert!(b.read(b"ab").is_none());
    assert_eq!(b.state(), State::ParseBody);
    assert!(b.read(b"c").is_none());
    let r = b.read(b"dEXTRA").unwrap();
    assert_eq!(r.body(), b"abcd");
    assert_eq!(b.buffered(), 5);
}

#[test]
fn body_may_hold_line_ends_and_any_byte() {
    let mut b = RequestBuilder::new();
    let r = b.read(b"GET / HTTP/1.1\r\nContent-Length: 6\r\n\r\n\r\n\n\xff\x00z").unwrap();
    assert_eq!(r.body(), b"\r\n\n\xff\x00z");
}

#[test]
fn content_length_that_is_no_number_is_an_error() {
    for bad in ["abc", "", "12a", "-1", " 5", "5 ", "+", "1.0", "0x10"] {
        let mut b = RequestBuilder::new();
        let text = format!("GET / HTTP/1.1\r\nContent-Length: {}\r\n\r\n", bad);
        assert!(b.read(text.as_bytes()).is_none(), "value {:?}", bad);
        assert_eq!(b.state(), State::Error, "value {:?}", bad);
    }
}

#[test]
fn content_length_too_large_is_an_error() {
    let mut b = RequestBuilder::new();
    assert!(b.read(b"GET / HTTP/1.1\r\nContent-Length: 340282366920938463463374607431768211456\r\n\r\n").is_none());
    assert_eq!(b.state(), State::Error);
}

#[test]
fn content_length_with_plus_and_leading_zeros() {
    let mut b = RequestBuilder::new();
    let r = b.read(b"GET / HTTP/1.1\r\nContent-Length: +003\r\n\r\nxyz").unwrap();
    assert_eq!(r.body(), b"xyz");
}

#[test]
fn content_length_is_case_sensitive() {
    let mut b = RequestBuilder::new();
    let r = b.read(b"GET / HTTP/1.1\r\ncontent-length: 3\r\n\r\nxyz").unwrap();
    assert!(r.body().is_empty());
    assert_eq!(r.get_header("content-length"), Some("3".to_string()));
    assert_eq!(r.get_header("Content-Length"), None);
}

#[test]
fn bare_lf_ends_a_line() {
    let mut b = RequestBuilder::new();
    let r = b.read(b"GET /x HTTP/1.1\nA: 1\n\n").unwrap();
    assert_eq!(r.uri, "/x");
    assert_eq!(r.version(), "HTTP/1.1");
    assert_eq!(r.get_header("A"), Some("1".to_string()));
}

#[test]
fn only_one_cr_belongs_to_the_terminator() {
    let mut b = RequestBuilder::new();
    let r = b.read(b"GET /x HTTP/1.1\r\r\n\r\n").unwrap();
    assert_eq!(r.version(), "HTTP/1.1\r");
}

#[test]
fn incomplete_line_changes_nothing() {
    let mut b = RequestBuilder::new();
    assert!(b.read(b"GET / HTTP/1.1\r").is_none());
    assert_eq!(b.state(), State::ParseRequestLine);
    assert_eq!(b.buffered(), 15);
    assert!(b.get_line().is_none());
    assert_eq!(b.buffered(), 15);
    assert!(b.read(b"\n").is_none());
    assert_eq!(b.state(), State::ParseHeaders);
}

#[test]
fn get_line_takes_lines_one_by_one() {
    let mut b = RequestBuilder::new();
    b.extend(b"one\r\ntwo\n\nrest");
    assert_eq!(b.get_line(), Some(b"one".to_vec()));
    assert_eq!(b.get_line(), Some(b"two".to_vec()));
    assert_eq!(b.get_line(), Some(Vec::new()));
    assert_eq!(b.get_line(), None);
}

#[test]
fn header_without_separator_is_an_error() {
    for bad in ["NoSeparator", "Name:value", "Name :value", ":"] {
        let mut b = RequestBuilder::new();
        let text = format!("GET / HTTP/1.1\r\n{}\r\n\r\n", bad);
        assert!(b.read(text.as_bytes()).is_none(), "line {:?}", bad);
        assert_eq!(b.state(), State::Error, "line {:?}", bad);
    }
}

#[test]
fn header_splits_at_the_first_separator() {
    let mut b = RequestBuilder::new();
    let r = b.read(b"GET / HTTP/1.1\r\nA: b: c\r\n: v\r\nE: \r\n\r\n").unwrap();
    assert_eq!(r.get_header("A"), Some("b: c".to_string()));
    assert_eq!(r.get_header(""), Some("v".to_string()));
    assert_eq!(r.get_header("E"), Some("".to_string()));
}

#[test]
fn last_occurrence_of_a_header_wins() {
    let mut b = RequestBuilder::new();
    let r = b.read(b"GET / HTTP/1.1\r\nA: 1\r\nB: 2\r\nA: 3\r\n\r\n").unwrap();
    assert_eq!(r.get_header("A"), Some("3".to_string()));
    assert_eq!(r.headers().len(), 2);
    assert_eq!(r.headers().name_at(0), "A");
    assert_eq!(r.headers().name_at(1), "B");
    assert_eq!(r.get_header("a"), None);
}

#[test]
fn query_pairs_and_the_skipped_ones() {
    let mut b = RequestBuilder::new();
    let r = b.read(b"GET /p?a=1&b=2&bad&c=3=4&=e&f=&a=5& HTTP/1.1\r\n\r\n").unwrap();
    assert_eq!(r.uri, "/p");
    assert_eq!(r.get_param("a"), Some("5".to_string()));
    assert_eq!(r.get_param("b"), Some("2".to_string()));
    assert_eq!(r.get_param("bad"), None);
    assert_eq!(r.get_param("c"), None);
    assert_eq!(r.get_param(""), Some("e".to_string()));
    assert_eq!(r.get_param("f"), Some("".to_string()));
    assert_eq!(r.params().len(), 4);
}

#[test]
fn only_the_first_question_mark_splits() {
    let mut b = RequestBuilder::new();
    let r = b.read(b"GET /p?a=b?c HTTP/1.1\r\n\r\n").unwrap();
    assert_eq!(r.uri, "/p");
    assert_eq!(r.get_param("a"), Some("b?c".to_string()));
    let r = b.read(b"GET ? HTTP/1.1\r\n\r\n").unwrap();
    assert_eq!(r.uri, "");
    assert_eq!(r.params().len(), 0);
}

#[test]
fn target_without_query_has_no_parameters() {
    let mut b = RequestBuilder::new();
    let r = b.read(b"GET /plain/path HTTP/1.1\r\n\r\n").unwrap();
    assert_eq!(r.uri, "/plain/path");
    assert_eq!(r.path(), "/plain/path");
    assert_eq!(r.params().len(), 0);
}

#[test]
fn fresh_parser() {
    let mut b = RequestBuilder::new();
    assert_eq!(b.state(), State::ParseRequestLine);
    assert_eq!(b.buffered(), 0);
    assert!(b.parse_request().is_none());
    assert!(b.read(b"").is_none());
}
