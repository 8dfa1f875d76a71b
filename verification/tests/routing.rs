use webserver::app_server::{App, AppEventHandler};
use webserver::event_loop::{Action, Dispatch, EventHandler, EventLoop, Msg, Ready, Readiness, Wakeup, SERVER};
use webserver::handler_lib::{Handler, HandlerApp, HandlerRoute, RouteError};
use webserver::handlers::{FileHandler, FileSystemHandler};
use webserver::http::{Request, Response, Status};
use webserver::http_file::FileSystem;
use webserver::WebServer;

struct Say {
    text: String,
    served: usize,
}

impl Say {
    fn new(text: &str) -> Say {
        Say { text: text.to_string(), served: 0 }
    }
}

impl Handler for Say {
    fn process(&mut self, _request: Request, response: &mut Response) {
        self.served += 1;
        response.set_status(Status::ok()).set_body_str(&self.text);
        response.send();
    }

    fn duplicate(&self) -> Say {
        Say::new(&self.text)
    }
}

fn app(routes: &[(&str, &str)]) -> HandlerApp<Say> {
    let defs = routes.iter().map(|(p, t)| HandlerRoute(p.to_string(), Say::new(t))).collect();
    match HandlerApp::new(defs) {
        Ok(a) => a,
        Err(_) => panic!("patterns must compile"),
    }
}

const NOT_FOUND: &[u8] = b"HTTP/1.1 404 Not Found\r\nContent-Type: text/html\r\nContent-Length: 35\r\n\r\n<html><h1>404 Not found</h1></html>";

#[test]
fn end_to_end_hello() {
    let mut a = app(&[("^/hello$", "hi")]);
    let mut resp = Response::new();
    let keep = a.handle(b"GET /hello HTTP/1.1\r\nHost: x\r\n\r\n", &mut resp);
    assert!(keep);
    let out = String::from_utf8(resp.take_sent()).unwrap();
    assert!(out.starts_with("HTTP/1.1 200 OK\r\n"));
    let (_, body) = out.split_once("\r\n\r\n").unwrap();
    assert_eq!(body, "hi");
    assert_eq!(out, "HTTP/1.1 200 OK\r\nContent-Length: 2\r\n\r\nhi");
}

#[test]
fn end_to_end_not_found() {
    let mut a = app(&[("^/hello$", "hi")]);
    let mut resp = Response::new();
    let keep = a.handle(b"GET /nope HTTP/1.1\r\nHost: x\r\n\r\n", &mut resp);
    assert!(keep);
    assert_eq!(resp.take_sent(), NOT_FOUND.to_vec());
}

#[test]
fn every_request_of_a_chunk_is_answered_in_order() {
    let mut a = app(&[("^/a$", "A"), ("^/b$", "B")]);
    let mut resp = Response::new();
    a.handle(b"GET /b HTTP/1.1\r\n\r\nGET /zzz HTTP/1.1\r\n\r\nGET /a HTTP/1.1\r\n\r\nGET /a", &mut resp);
    let mut expected = b"HTTP/1.1 200 OK\r\nContent-Length: 1\r\n\r\nB".to_vec();
    expected.extend_from_slice(NOT_FOUND);
    expected.extend_from_slice(b"HTTP/1.1 200 OK\r\nContent-Length: 1\r\n\r\nA");
    assert_eq!(resp.take_sent(), expected);
    a.handle(b" HTTP/1.1\r\n\r\n", &mut resp);
    assert_eq!(resp.take_sent(), b"HTTP/1.1 200 OK\r\nContent-Length: 1\r\n\r\nA".to_vec());
}

#[test]
fn no_complete_request_no_response() {
    let mut a = app(&[("^/a$", "A")]);
    let mut resp = Response::new();
    assert!(a.handle(b"GET /a HTTP/1.1\r\nHost", &mut resp));
    assert!(resp.take_sent().is_empty());
    assert!(a.handle(b"", &mut resp));
    assert!(resp.take_sent().is_empty());
}

#[test]
fn parse_error_gives_the_connection_up_without_a_response() {
    let mut a = app(&[("^/a$", "A")]);
    let mut resp = Response::new();
    assert!(!a.handle(b"POST /a HTTP/1.1\r\n\r\n", &mut resp));
    assert!(resp.take_sent().is_empty());
    assert!(a.failed());
    assert!(!a.handle(b"GET /a HTTP/1.1\r\n\r\n", &mut resp));
    assert!(resp.take_sent().is_empty());
}

#[test]
fn first_matching_rule_wins() {
    let a = app(&[("^/x/.*$", "first"), ("^/x/y$", "second"), ("^/.*$", "third")]);
    assert_eq!(a.len(), 3);
    assert_eq!(a.route("/x/y"), Some(0));
    assert_eq!(a.route("/x/"), Some(0));
    assert_eq!(a.route("/other"), Some(2));
    assert_eq!(a.route("other"), None);
    let b = app(&[("^/x/y$", "second"), ("^/x/.*$", "first")]);
    assert_eq!(b.route("/x/y"), Some(0));
    assert_eq!(b.route("/x/z"), Some(1));
}

#[test]
fn unanchored_patterns_match_anywhere() {
    let a = app(&[("b+", "bees")]);
    assert_eq!(a.route("/aabbcc"), Some(0));
    assert_eq!(a.route("/aacc"), None);
    assert_eq!(a.route(""), None);
}

#[test]
fn empty_table_answers_nothing() {
    let mut a = app(&[]);
    assert_eq!(a.len(), 0);
    assert_eq!(a.route("/"), None);
    let mut resp = Response::new();
    let mut req = Request::new();
    req.set_uri("/");
    assert_eq!(a.dispatch(req, &mut resp), None);
    assert_eq!(resp.take_sent(), NOT_FOUND.to_vec());
}

#[test]
fn dispatch_reports_the_rule() {
    let mut a = app(&[("^/a$", "A"), ("^/b$", "B")]);
    let mut resp = Response::new();
    let mut req = Request::new();
    req.set_uri("/b");
    assert_eq!(a.dispatch(req, &mut resp), Some(1));
    assert_eq!(resp.take_sent(), b"HTTP/1.1 200 OK\r\nContent-Length: 1\r\n\r\nB".to_vec());
}

#[test]
fn pattern_that_does_not_compile_is_reported() {
    let defs = vec![
        HandlerRoute("^/ok$".to_string(), Say::new("a")),
        HandlerRoute("^/(unclosed$".to_string(), Say::new("b")),
        HandlerRoute("^/never$".to_string(), Say::new("c")),
    ];
    match HandlerApp::new(defs) {
        Err(RouteError::BadPattern(i)) => assert_eq!(i, 1),
        Ok(_) => panic!("the second pattern does not compile"),
    }
}

#[test]
fn duplicate_keeps_the_rules_and_starts_a_fresh_parser() {
    let mut a = app(&[("^/a$", "A")]);
    let mut resp = Response::new();
    a.handle(b"GET /a HTTP", &mut resp);
    let mut d = a.duplicate();
    assert_eq!(d.len(), 1);
    assert_eq!(d.route("/a"), Some(0));
    assert_eq!(d.route("/b"), None);
    assert!(d.handle(b"GET /a HTTP/1.1\r\n\r\n", &mut resp));
    assert_eq!(resp.take_sent(), b"HTTP/1.1 200 OK\r\nContent-Length: 1\r\n\r\nA".to_vec());
}

#[test]
fn web_server_anchors_its_patterns() {
    let mut s: WebServer<Say> = WebServer::new("127.0.0.1:8080", 4);
    assert!(s.add_handler("/", Say::new("root")).is_ok());
    assert!(s.add_handler("/.*", Say::new("rest")).is_ok());
    match s.add_handler("/[", Say::new("bad")) {
        Err(RouteError::BadPattern(i)) => assert_eq!(i, 2),
        Ok(()) => panic!("the pattern does not compile"),
    }
    let l = s.build().event_loop();
    assert_eq!(l.host(), "127.0.0.1:8080");
    assert_eq!(l.num_workers(), 4);
    let mut worker = l.worker();
    worker.new_conn(1);
    let r = worker.conn_data(1, b"GET / HTTP/1.1\r\n\r\nGET /x/ HTTP/1.1\r\n\r\nGET x/ HTTP/1.1\r\n\r\n");
    let mut expected = b"HTTP/1.1 200 OK\r\nContent-Length: 4\r\n\r\nroot".to_vec();
    expected.extend_from_slice(b"HTTP/1.1 200 OK\r\nContent-Length: 4\r\n\r\nrest");
    expected.extend_from_slice(NOT_FOUND);
    assert_eq!(r.output, expected);
    assert!(!r.close);
}

/// An application that sends back what it takes in and gives the
/// connection up on an empty chunk.
struct Echo {
    chunks: usize,
}

impl App for Echo {
    fn handle(&mut self, data: &[u8], response: &mut Response) -> bool {
        self.chunks += 1;
        response.send_data(data);
        !data.is_empty()
    }

    fn duplicate(&self) -> Echo {
        Echo { chunks: 0 }
    }
}

#[test]
fn worker_runs_any_application() {
    let mut w = AppEventHandler::new(Echo { chunks: 0 });
    w.new_conn(1);
    w.new_conn(2);
    let r = w.conn_data(1, b"abc");
    assert_eq!(r.output, b"abc".to_vec());
    assert!(!r.close);
    let r = w.conn_data(2, b"");
    assert!(r.output.is_empty());
    assert!(r.close);
    assert!(w.owns(1));
    assert!(!w.owns(2));
    let r = w.conn_data(1, b"def");
    assert_eq!(r.output, b"def".to_vec());
}

fn worker() -> AppEventHandler<HandlerApp<Say>> {
    AppEventHandler::new(app(&[("^/hello$", "hi")]))
}

const READABLE: Ready = Ready { readable: true, error: false, hup: false };
const HUP: Ready = Ready { readable: false, error: false, hup: true };
const ERROR: Ready = Ready { readable: false, error: true, hup: false };
const READABLE_HUP: Ready = Ready { readable: true, error: false, hup: true };
const NOTHING: Ready = Ready { readable: false, error: false, hup: false };

#[test]
fn worker_takes_connections_in() {
    let mut w = worker();
    assert_eq!(w.len(), 0);
    assert!(!w.owns(1));
    w.new_conn(1);
    w.new_conn(5);
    assert!(w.owns(1));
    assert!(w.owns(5));
    assert!(!w.owns(2));
    assert_eq!(w.len(), 2);
}

#[test]
fn worker_reads_a_readable_connection() {
    let mut w = worker();
    w.new_conn(3);
    assert_eq!(w.conn_event(3, READABLE), Action::Read);
    assert!(w.owns(3));
    assert_eq!(w.conn_event(3, NOTHING), Action::Ignore);
    assert!(w.owns(3));
}

#[test]
fn worker_ignores_unknown_connections() {
    let mut w = worker();
    w.new_conn(3);
    assert_eq!(w.conn_event(4, READABLE), Action::Ignore);
    assert_eq!(w.conn_event(4, HUP), Action::Ignore);
    assert_eq!(w.conn_event(4, READABLE_HUP), Action::Ignore);
    let r = w.conn_data(4, b"GET /hello HTTP/1.1\r\n\r\n");
    assert!(r.output.is_empty());
    assert!(!r.close);
    assert_eq!(w.len(), 1);
}

#[test]
fn worker_drops_a_connection_on_error_or_hangup() {
    let mut w = worker();
    w.new_conn(1);
    w.new_conn(2);
    w.new_conn(3);
    assert_eq!(w.conn_event(1, HUP), Action::Shutdown { drain: false });
    assert_eq!(w.conn_event(2, ERROR), Action::Shutdown { drain: false });
    assert_eq!(w.conn_event(3, READABLE_HUP), Action::Shutdown { drain: true });
    assert_eq!(w.len(), 0);
    assert_eq!(w.conn_event(1, HUP), Action::Ignore);
    assert_eq!(w.conn_event(3, READABLE), Action::Ignore);
}

#[test]
fn worker_answers_and_keeps_the_connection() {
    let mut w = worker();
    w.new_conn(7);
    let r = w.conn_data(7, b"GET /hello HTTP/1.1\r\nHost: x\r\n\r\n");
    assert_eq!(r.output, b"HTTP/1.1 200 OK\r\nContent-Length: 2\r\n\r\nhi".to_vec());
    assert!(!r.close);
    assert!(w.owns(7));
    let r = w.conn_data(7, b"GET /nope HTTP/1.1\r\n\r\n");
    assert_eq!(r.output, NOT_FOUND.to_vec());
    assert!(w.owns(7));
}

#[test]
fn worker_keeps_the_parsers_of_its_connections_apart() {
    let mut w = worker();
    w.new_conn(1);
    w.new_conn(2);
    assert!(w.conn_data(1, b"GET /hel").output.is_empty());
    assert_eq!(w.conn_data(2, b"GET /nope HTTP/1.1\r\n\r\n").output, NOT_FOUND.to_vec());
    assert_eq!(
        w.conn_data(1, b"lo HTTP/1.1\r\n\r\n").output,
        b"HTTP/1.1 200 OK\r\nContent-Length: 2\r\n\r\nhi".to_vec()
    );
}

#[test]
fn worker_drops_a_connection_after_a_parse_error() {
    let mut w = worker();
    w.new_conn(9);
    let r = w.conn_data(9, b"GET /hello HTTP/1.1\r\n\r\nBROKEN\r\n");
    assert_eq!(r.output, b"HTTP/1.1 200 OK\r\nContent-Length: 2\r\n\r\nhi".to_vec());
    assert!(r.close);
    assert!(!w.owns(9));
    assert_eq!(w.conn_event(9, READABLE), Action::Ignore);
}

#[test]
fn worker_duplicate_owns_nothing() {
    let mut w = worker();
    w.new_conn(1);
    let mut d = EventHandler::duplicate(&w);
    assert_eq!(d.len(), 0);
    d.new_conn(2);
    let r = d.conn_data(2, b"GET /hello HTTP/1.1\r\n\r\n");
    assert_eq!(r.output, b"HTTP/1.1 200 OK\r\nContent-Length: 2\r\n\r\nhi".to_vec());
    assert!(w.owns(1));
    assert!(!w.owns(2));
}

#[test]
fn process_events_hands_messages_to_the_worker() {
    let mut w = worker();
    assert_eq!(EventLoop::process_events(Msg::NewConn(4), &mut w), Action::Ignore);
    assert!(w.owns(4));
    assert_eq!(EventLoop::process_events(Msg::ConnEvent(4, READABLE), &mut w), Action::Read);
    assert_eq!(EventLoop::process_events(Msg::ConnEvent(5, READABLE), &mut w), Action::Ignore);
    assert_eq!(
        EventLoop::process_events(Msg::ConnEvent(4, READABLE_HUP), &mut w),
        Action::Shutdown { drain: true }
    );
    assert!(!w.owns(4));
}

#[test]
fn readiness_kinds() {
    assert_eq!(READABLE.kind(), Readiness::Readable);
    assert_eq!(HUP.kind(), Readiness::ErrorOrHangup);
    assert_eq!(ERROR.kind(), Readiness::ErrorOrHangup);
    assert_eq!(READABLE_HUP.kind(), Readiness::ErrorOrHangup);
    assert_eq!(NOTHING.kind(), Readiness::Other);
    assert_eq!(Ready::readable(), READABLE);
    assert!(READABLE.is_readable() && !READABLE.is_error() && !READABLE.is_hup());
    assert!(ERROR.is_error());
    assert!(HUP.is_hup());
}

#[test]
fn identities_start_at_one_and_count_up() {
    let mut l = EventLoop::new("0.0.0.0:80", 3, worker());
    assert_eq!(l.host(), "0.0.0.0:80");
    assert_eq!(l.num_workers(), 3);
    for id in 1..=10usize {
        assert_eq!(l.accept(), Some(Dispatch { worker: id % 3, msg: Msg::NewConn(id) }));
    }
}

#[test]
fn partition_by_identity() {
    for n in 1..=5usize {
        let mut l = EventLoop::new("h", n, worker());
        let mut owner = Vec::new();
        for id in 1..=40usize {
            match l.accept() {
                Some(Dispatch { worker, msg: Msg::NewConn(got) }) => {
                    assert_eq!(got, id);
                    assert_eq!(worker, id % n);
                    assert!(worker < n);
                    owner.push(worker);
                },
                other => panic!("unexpected {:?}", other),
            }
        }
        for round in 0..3 {
            for id in 1..=40usize {
                let ev = if round == 1 { HUP } else { READABLE };
                assert_eq!(
                    l.wake(id, ev),
                    Wakeup::Forward(Dispatch { worker: owner[id - 1], msg: Msg::ConnEvent(id, ev) })
                );
                assert_eq!(l.owner(id), owner[id - 1]);
            }
        }
    }
}

#[test]
fn listener_token_asks_for_accepting() {
    let l = EventLoop::new("h", 2, worker());
    assert_eq!(SERVER, 0);
    assert_eq!(l.wake(SERVER, READABLE), Wakeup::Accept);
    assert_eq!(l.wake(SERVER, HUP), Wakeup::Accept);
    assert_eq!(
        l.wake(usize::MAX, READABLE),
        Wakeup::Forward(Dispatch { worker: usize::MAX % 2, msg: Msg::ConnEvent(usize::MAX, READABLE) })
    );
}

#[test]
fn mime_types() {
    assert_eq!(FileSystem::get_mime("index.html"), "text/html");
    assert_eq!(FileSystem::get_mime("a/b/style.css"), "text/css");
    assert_eq!(FileSystem::get_mime("app.js"), "text/javascript");
    assert_eq!(FileSystem::get_mime("p.jpg"), "image/jpeg");
    assert_eq!(FileSystem::get_mime("p.jpeg"), "image/jpeg");
    assert_eq!(FileSystem::get_mime("p.png"), "image/png");
    assert_eq!(FileSystem::get_mime("p.svg"), "image/svg+xml");
    assert_eq!(FileSystem::get_mime("f.woff"), "application/x-font-woff");
    assert_eq!(FileSystem::get_mime("f.woff2"), "application/x-font-woff");
    assert_eq!(FileSystem::get_mime("archive.tar.gz"), "application/octet-stream");
    assert_eq!(FileSystem::get_mime("page.html.png"), "image/png");
    assert_eq!(FileSystem::get_mime("noext"), "application/octet-stream");
    assert_eq!(FileSystem::get_mime(""), "application/octet-stream");
    assert_eq!(FileSystem::get_mime("x."), "application/octet-stream");
    assert_eq!(FileSystem::get_mime(".html"), "text/html");
    assert_eq!(FileSystem::get_mime("x.HTML"), "application/octet-stream");
    assert_eq!(FileSystem::get_mime("dir.css/file"), "application/octet-stream");
    assert_eq!(FileSystem::get_mime("\u{e9}.css"), "text/css");
}

#[test]
fn file_system_paths() {
    let fs = FileSystem::new("http");
    assert_eq!(fs.full_path("/index.html"), "http/index.html");
    assert_eq!(fs.full_path(""), "http");
}

#[test]
fn file_system_serves_a_file() {
    let mut fs = FileSystem::new("http");
    let mut resp = Response::new();
    resp.set_status(Status::not_found()).set_length(5);
    assert!(fs.serve("/pic.png", Some(1234), &mut resp));
    resp.send_data(b"<bytes>");
    let text = String::from_utf8(resp.take_sent()).unwrap();
    assert!(text.starts_with("HTTP/1.1 200 OK\r\n"));
    assert!(text.contains("\r\nContent-Type: image/png\r\n"));
    assert!(text.contains("\r\nContent-Length: 1234\r\n"));
    assert!(text.ends_with("\r\n\r\n<bytes>"));
    assert_eq!(text.matches("Content-Length").count(), 1);
}

#[test]
fn file_system_answers_not_found() {
    let mut fs = FileSystem::new("http");
    let mut resp = Response::new();
    assert!(!fs.serve("/missing", None, &mut resp));
    assert_eq!(resp.take_sent(), NOT_FOUND.to_vec());
}

#[test]
fn file_system_handler_serves_by_path() {
    let mut h = FileSystemHandler::new("root");
    let mut req = Request::new();
    req.set_uri("/a/b.css");
    assert_eq!(h.target(&req), "root/a/b.css");
    let mut resp = Response::new();
    assert!(h.process(req, Some(3), &mut resp));
    assert_eq!(
        resp.take_sent(),
        b"HTTP/1.1 200 OK\r\nContent-Type: text/css\r\nContent-Length: 3\r\n\r\n".to_vec()
    );
    let d = h.duplicate();
    let mut req = Request::new();
    req.set_uri("/x");
    assert_eq!(d.target(&req), "root/x");
}

#[test]
fn file_handler_serves_one_file() {
    let mut h = FileHandler::new("http/index.html");
    assert_eq!(h.target(), "http/index.html");
    let mut req = Request::new();
    req.set_uri("/whatever.png");
    let mut resp = Response::new();
    assert!(h.process(req, Some(0), &mut resp));
    assert_eq!(
        resp.take_sent(),
        b"HTTP/1.1 200 OK\r\nContent-Type: text/html\r\nContent-Length: 0\r\n\r\n".to_vec()
    );
    assert!(!h.process(Request::new(), None, &mut resp));
    assert_eq!(resp.take_sent(), NOT_FOUND.to_vec());
    assert_eq!(h.duplicate().target(), "http/index.html");
}

#[test]
fn message_subjects() {
    assert_eq!(Msg::NewConn(8).subject(), 8);
    assert_eq!(Msg::ConnEvent(9, HUP).subject(), 9);
}

#[test]
fn anchored_rule_matches_the_whole_path_only() {
    let mut s: WebServer<Say> = WebServer::new("h", 1);
    assert!(s.add_handler("/hello", Say::new("hi")).is_ok());
    let mut worker = s.build().event_loop().worker();
    worker.new_conn(1);
    let hi = b"HTTP/1.1 200 OK\r\nContent-Length: 2\r\n\r\nhi".to_vec();
    assert_eq!(worker.conn_data(1, b"GET /hello HTTP/1.1\r\n\r\n").output, hi);
    assert_eq!(worker.conn_data(1, b"GET /hello/x HTTP/1.1\r\n\r\n").output, NOT_FOUND.to_vec());
    assert_eq!(worker.conn_data(1, b"GET /say/hello HTTP/1.1\r\n\r\n").output, NOT_FOUND.to_vec());
}

#[test]
fn readiness_report_keeps_what_a_connection_has_buffered() {
    let mut w = worker();
    w.new_conn(1);
    assert!(w.conn_data(1, b"GET /hel").output.is_empty());
    assert_eq!(w.conn_event(1, READABLE), Action::Read);
    assert_eq!(w.conn_event(1, NOTHING), Action::Ignore);
    assert_eq!(w.conn_event(2, HUP), Action::Ignore);
    assert_eq!(
        w.conn_data(1, b"lo HTTP/1.1\r\n\r\n").output,
        b"HTTP/1.1 200 OK\r\nContent-Length: 2\r\n\r\nhi".to_vec()
    );
}
