//! The incremental request parser: a state machine over an append-only
//! receive buffer.
//!
//! Bytes arrive in chunks of any size. The parser consumes complete lines
//! (ended by LF or CRLF) and complete bodies only, so a call that runs out of
//! bytes leaves the state exactly where the next call picks it up.

use vstd::prelude::*;
use vstd::slice::{slice_subrange, slice_to_vec};
use vstd::utf8::encode_utf8;
use crate::fields::{spec_assign, spec_lookup};
use crate::http::request::{
    parse_header_line, parse_request_line, spec_empty_request, spec_header_line,
    spec_request_line, Request, RequestView,
};
use crate::text::{find_byte, lemma_find, parse_number, spec_find, spec_number_usize, CR, LF};

verus! {

/// Where the parser stands within one request.
#[derive(Clone, Copy, Debug, PartialEq, Eq, Structural)]
pub enum State {
    ParseRequestLine,
    ParseHeaders,
    ParseBody,
    Done,
    Error,
}

/// The parser as plain values.
pub struct BuilderView {
    pub state: State,
    /// The receive buffer.
    pub data: Seq<u8>,
    /// How many bytes of the buffer have been consumed.
    pub parsed: nat,
    /// The body length that the headers announced.
    pub body_size: nat,
    /// The request under construction.
    pub request: RequestView,
}

impl BuilderView {
    /// The parser after `extra` has arrived at the tail of its buffer.
    pub open spec fn append(self, extra: Seq<u8>) -> BuilderView {
        BuilderView { data: self.data + extra, ..self }
    }

    /// The bytes not yet consumed.
    pub open spec fn pending(self) -> int {
        self.data.len() - self.parsed
    }

    /// What holds of every parser: the cursor lies within the buffer, no
    /// request is under construction before its request line, and none has a
    /// body before its headers end.
    pub open spec fn inv(self) -> bool {
        &&& self.parsed <= self.data.len()
        &&& self.state == State::ParseRequestLine ==> self.request == spec_empty_request()
        &&& self.state == State::ParseHeaders ==> self.request.body.len() == 0
    }
}

/// The parser that has seen nothing.
pub open spec fn spec_fresh() -> BuilderView {
    BuilderView {
        state: State::ParseRequestLine,
        data: Seq::empty(),
        parsed: 0,
        body_size: 0,
        request: spec_empty_request(),
    }
}

/// The first complete line at or after `from` and the cursor just past its
/// terminator, or `None` while no LF has arrived. The terminator is LF, or
/// CRLF where a CR of the same line stands right before the LF.
pub open spec fn spec_line(data: Seq<u8>, from: nat) -> Option<(Seq<u8>, nat)> {
    let i = spec_find(data, LF, from as int);
    if from <= data.len() && 0 <= i < data.len() {
        let end = if i > from && data[i - 1] == CR {
            i - 1
        } else {
            i
        };
        Some((data.subrange(from as int, end), (i + 1) as nat))
    } else {
        None
    }
}

/// The name of the header that announces a body.
pub open spec fn spec_content_length() -> Seq<char> {
    "Content-Length"@
}

/// The parser after the blank line that ends the headers, cursor at `next`:
/// it expects a body where `Content-Length` is a positive number, is done
/// where the header is absent or zero, and fails where its value is no
/// number that fits `usize`.
pub open spec fn spec_end_of_headers(s: BuilderView, next: nat) -> BuilderView {
    match spec_lookup(s.request.headers, spec_content_length()) {
        None => BuilderView { state: State::Done, parsed: next, ..s },
        Some(value) => match spec_number_usize(encode_utf8(value)) {
            None => BuilderView { state: State::Error, parsed: next, ..s },
            Some(n) => if n > 0 {
                BuilderView { state: State::ParseBody, parsed: next, body_size: n as nat, ..s }
            } else {
                BuilderView { state: State::Done, parsed: next, ..s }
            },
        },
    }
}

/// Whether the parser can do nothing more with the bytes it has: it waits
/// for the rest of a line or of a body, or it has failed.
pub open spec fn spec_stalled(s: BuilderView) -> bool {
    match s.state {
        State::ParseRequestLine | State::ParseHeaders => spec_line(s.data, s.parsed) is None,
        State::ParseBody => s.parsed + s.body_size > s.data.len(),
        State::Done => s.parsed > s.data.len(),
        State::Error => true,
    }
}

/// One transition of a parser that is not stalled.
pub open spec fn spec_step(s: BuilderView) -> BuilderView {
    match s.state {
        State::ParseRequestLine => {
            let (line, next) = spec_line(s.data, s.parsed).unwrap();
            match spec_request_line(line) {
                Some(request) => BuilderView {
                    state: State::ParseHeaders,
                    parsed: next,
                    request,
                    ..s
                },
                None => BuilderView { state: State::Error, parsed: next, ..s },
            }
        },
        State::ParseHeaders => {
            let (line, next) = spec_line(s.data, s.parsed).unwrap();
            if line.len() == 0 {
                spec_end_of_headers(s, next)
            } else {
                match spec_header_line(line) {
                    Some((name, value)) => BuilderView {
                        parsed: next,
                        request: RequestView {
                            headers: spec_assign(s.request.headers, name, value),
                            ..s.request
                        },
                        ..s
                    },
                    None => BuilderView { state: State::Error, parsed: next, ..s },
                }
            }
        },
        State::ParseBody => BuilderView {
            state: State::Done,
            parsed: s.parsed + s.body_size,
            request: RequestView {
                body: s.data.subrange(s.parsed as int, (s.parsed + s.body_size) as int),
                ..s.request
            },
            ..s
        },
        State::Done => BuilderView {
            state: State::ParseRequestLine,
            data: s.data.subrange(s.parsed as int, s.data.len() as int),
            parsed: 0,
            body_size: 0,
            request: spec_empty_request(),
        },
        State::Error => s,
    }
}

/// A tie-breaker for steps that consume no byte.
pub open spec fn spec_rank(state: State) -> int {
    match state {
        State::ParseBody => 2,
        State::Done => 1,
        _ => 0,
    }
}

/// Every transition consumes bytes or moves towards handing out a request.
pub proof fn lemma_step_progress(s: BuilderView)
    requires
        !spec_stalled(s),
    ensures
        0 <= spec_step(s).pending() <= s.pending(),
        spec_step(s).pending() == s.pending() ==> spec_rank(spec_step(s).state) < spec_rank(
            s.state,
        ),
        s.state == State::ParseRequestLine || s.state == State::ParseHeaders ==> spec_step(
            s,
        ).pending() < s.pending(),
{
    match s.state {
        State::ParseRequestLine | State::ParseHeaders => {
            lemma_find(s.data, LF, s.parsed as int);
        },
        _ => {},
    }
}

/// Transitions keep the parser's invariant, and so do arriving bytes.
pub proof fn lemma_step_inv(s: BuilderView, extra: Seq<u8>)
    requires
        s.inv(),
    ensures
        s.append(extra).inv(),
        !spec_stalled(s) ==> spec_step(s).inv(),
        spec_fresh().inv(),
{
    if !spec_stalled(s) {
        lemma_step_progress(s);
    }
}

/// What one `read` does once the new bytes are in the buffer: it runs
/// transitions until a request is complete, which it hands out, or until the
/// parser stalls.
pub open spec fn spec_drive(s: BuilderView) -> (BuilderView, Option<RequestView>)
    decreases s.pending(), spec_rank(s.state),
    via spec_drive_decreases
{
    if spec_stalled(s) {
        (s, None)
    } else if s.state == State::Done {
        (spec_step(s), Some(s.request))
    } else {
        spec_drive(spec_step(s))
    }
}

#[via_fn]
proof fn spec_drive_decreases(s: BuilderView) {
    if !spec_stalled(s) {
        lemma_step_progress(s);
    }
}

/// Every request that the buffered bytes complete, in order, and the parser
/// left behind once it stalls.
pub open spec fn spec_drain(s: BuilderView) -> (Seq<RequestView>, BuilderView)
    decreases s.pending(), spec_rank(s.state),
    via spec_drain_decreases
{
    if spec_stalled(s) {
        (Seq::empty(), s)
    } else {
        let rest = spec_drain(spec_step(s));
        if s.state == State::Done {
            (seq![s.request] + rest.0, rest.1)
        } else {
            rest
        }
    }
}

#[via_fn]
proof fn spec_drain_decreases(s: BuilderView) {
    if !spec_stalled(s) {
        lemma_step_progress(s);
    }
}

/// Draining is reading again and again until a read hands out nothing.
pub proof fn lemma_drain_by_reads(s: BuilderView)
    ensures
        spec_drain(s) == (match spec_drive(s).1 {
            None => (Seq::empty(), spec_drive(s).0),
            Some(request) => (
                seq![request] + spec_drain(spec_drive(s).0).0,
                spec_drain(spec_drive(s).0).1,
            ),
        }),
    decreases s.pending(), spec_rank(s.state),
{
    if !spec_stalled(s) {
        lemma_step_progress(s);
        if s.state != State::Done {
            lemma_drain_by_reads(spec_step(s));
        }
    }
}

/// A read keeps the invariant. One that hands out a request leaves the
/// parser at a request line with fewer bytes pending, or with as many where
/// it began past the headers. One that hands out nothing leaves it stalled.
pub proof fn lemma_drive_progress(s: BuilderView)
    requires
        s.inv(),
    ensures
        spec_drive(s).0.inv(),
        spec_drive(s).0.pending() <= s.pending(),
        spec_drive(s).1 is Some ==> spec_drive(s).0.state == State::ParseRequestLine,
        spec_drive(s).1 is Some ==> spec_drive(s).0.pending() < s.pending() || spec_rank(s.state)
            > 0,
        spec_drive(s).1 is None ==> spec_stalled(spec_drive(s).0),
    decreases s.pending(), spec_rank(s.state),
{
    if !spec_stalled(s) {
        lemma_step_progress(s);
        lemma_step_inv(s, Seq::empty());
        if s.state != State::Done {
            lemma_drive_progress(spec_step(s));
        }
    }
}

/// Draining keeps the invariant and leaves the parser stalled.
pub proof fn lemma_drain_stalls(s: BuilderView)
    requires
        s.inv(),
    ensures
        spec_drain(s).1.inv(),
        spec_stalled(spec_drain(s).1),
    decreases s.pending(), spec_rank(s.state),
{
    if !spec_stalled(s) {
        lemma_step_progress(s);
        lemma_step_inv(s, Seq::empty());
        lemma_drain_stalls(spec_step(s));
    }
}

/// The requests that a vector holds, as plain values.
pub open spec fn spec_views(v: Seq<Request>) -> Seq<RequestView> {
    Seq::new(v.len(), |i: int| v[i]@)
}

/// The incremental request parser.
pub struct RequestBuilder {
    data: Vec<u8>,
    parsed: usize,
    body_size: usize,
    request: Request,
    state: State,
}

/// What one attempt at a transition came to.
enum Progress {
    /// Nothing can be done until more bytes arrive, or ever.
    Stalled,
    /// The parser moved on.
    Moved,
    /// A request is complete and the parser is ready for the next.
    Complete(Request),
}

impl View for RequestBuilder {
    type V = BuilderView;

    closed spec fn view(&self) -> BuilderView {
        BuilderView {
            state: self.state,
            data: self.data@,
            parsed: self.parsed as nat,
            body_size: self.body_size as nat,
            request: self.request@,
        }
    }
}

impl RequestBuilder {
    /// The parser's invariant: that of its view, and a well-formed request
    /// under construction.
    pub closed spec fn wf(&self) -> bool {
        self@.inv() && self.request.wf()
    }

    /// A well-formed parser has the invariant of its view.
    pub proof fn lemma_wf(&self)
        requires
            self.wf(),
        ensures
            self@.inv(),
    {
    }

    pub fn new() -> (b: RequestBuilder)
        ensures
            b@ == spec_fresh(),
            b.wf(),
    {
        RequestBuilder {
            state: State::ParseRequestLine,
            data: Vec::new(),
            parsed: 0,
            body_size: 0,
            request: Request::new(),
        }
    }

    /// The state the parser is in.
    pub fn state(&self) -> (s: State)
        ensures
            s == self@.state,
    {
        self.state
    }

    /// How many bytes the receive buffer holds, consumed or not.
    pub fn buffered(&self) -> (n: usize)
        ensures
            n == self@.data.len(),
    {
        self.data.len()
    }

    /// Takes the next complete line off the buffer. Without an LF in the
    /// unconsumed bytes nothing changes.
    pub fn get_line(&mut self) -> (r: Option<Vec<u8>>)
        requires
            old(self).wf(),
        ensures
            final(self).wf(),
            match spec_line(old(self)@.data, old(self)@.parsed) {
                None => r is None && final(self)@ == old(self)@,
                Some((line, next)) => r matches Some(v) && v@ == line && final(self)@ == (
                BuilderView { parsed: next, ..old(self)@ }),
            },
    {
        let i = find_byte(self.data.as_slice(), LF, self.parsed);
        if i >= self.data.len() {
            return None;
        }
        proof {
            lemma_find(self.data@, LF, self.parsed as int);
        }
        let end = if i > self.parsed && self.data[i - 1] == CR {
            i - 1
        } else {
            i
        };
        let line = slice_to_vec(slice_subrange(self.data.as_slice(), self.parsed, end));
        self.parsed = i + 1;
        Some(line)
    }

    /// Decides from `Content-Length` what follows the headers.
    fn end_of_headers(&mut self)
        ensures
            final(self).request == old(self).request,
            final(self)@ == spec_end_of_headers(old(self)@, old(self)@.parsed),
    {
        proof {
            reveal_strlit("Content-Length");
        }
        match self.request.get_header("Content-Length") {
            None => {
                self.state = State::Done;
            },
            Some(value) => match parse_number(value.as_str().as_bytes()) {
                None => {
                    self.state = State::Error;
                },
                Some(n) => {
                    if n > 0 {
                        self.body_size = n;
                        self.state = State::ParseBody;
                    } else {
                        self.state = State::Done;
                    }
                },
            },
        }
    }

    /// Attempts one transition.
    fn advance(&mut self) -> (p: Progress)
        requires
            old(self).wf(),
        ensures
            final(self).wf(),
            spec_stalled(old(self)@) ==> p is Stalled && final(self)@ == old(self)@,
            !spec_stalled(old(self)@) ==> final(self)@ == spec_step(old(self)@),
            !spec_stalled(old(self)@) && old(self)@.state != State::Done ==> p is Moved,
            !spec_stalled(old(self)@) && old(self)@.state == State::Done ==> (p matches Progress::Complete(
                request,
            ) && request@ == old(self)@.request && request.wf()),
    {
        proof {
            if !spec_stalled(self@) {
                lemma_step_inv(self@, Seq::empty());
            }
        }
        match self.state {
            State::ParseRequestLine => {
                match self.get_line() {
                    None => Progress::Stalled,
                    Some(line) => {
                        match parse_request_line(line.as_slice()) {
                            Some(request) => {
                                self.request = request;
                                self.state = State::ParseHeaders;
                            },
                            None => {
                                self.state = State::Error;
                            },
                        }
                        Progress::Moved
                    },
                }
            },
            State::ParseHeaders => {
                match self.get_line() {
                    None => Progress::Stalled,
                    Some(line) => {
                        if line.len() == 0 {
                            self.end_of_headers();
                        } else {
                            match parse_header_line(line.as_slice()) {
                                Some((name, value)) => {
                                    self.request.set_header(name, value);
                                },
                                None => {
                                    self.state = State::Error;
                                },
                            }
                        }
                        Progress::Moved
                    },
                }
            },
            State::ParseBody => {
                if self.data.len() - self.parsed < self.body_size {
                    Progress::Stalled
                } else {
                    let end = self.parsed + self.body_size;
                    self.request.set_body(slice_subrange(self.data.as_slice(), self.parsed, end));
                    self.parsed = end;
                    self.state = State::Done;
                    Progress::Moved
                }
            },
            State::Done => {
                let mut request = Request::new();
                core::mem::swap(&mut self.request, &mut request);
                let rest = self.data.split_off(self.parsed);
                self.data = rest;
                self.parsed = 0;
                self.body_size = 0;
                self.state = State::ParseRequestLine;
                Progress::Complete(request)
            },
            State::Error => Progress::Stalled,
        }
    }

    /// Runs the state machine over the buffered bytes until a request is
    /// complete, which it hands out, or until more bytes are needed.
    pub fn parse_request(&mut self) -> (r: Option<Request>)
        requires
            old(self).wf(),
        ensures
            final(self).wf(),
            final(self)@ == spec_drive(old(self)@).0,
            r is Some <==> spec_drive(old(self)@).1 is Some,
            r matches Some(request) ==> Some(request@) == spec_drive(old(self)@).1
                && request.wf(),
    {
        loop
            invariant
                self.wf(),
                spec_drive(self@) == spec_drive(old(self)@),
            decreases self@.pending(), spec_rank(self@.state),
        {
            proof {
                if !spec_stalled(self@) {
                    lemma_step_progress(self@);
                }
            }
            match self.advance() {
                Progress::Stalled => {
                    return None;
                },
                Progress::Moved => {},
                Progress::Complete(request) => {
                    return Some(request);
                },
            }
        }
    }

    /// Appends `data` to the receive buffer without parsing.
    pub fn extend(&mut self, data: &[u8])
        requires
            old(self).wf(),
        ensures
            final(self).wf(),
            final(self)@ == old(self)@.append(data@),
    {
        self.data.extend_from_slice(data);
        assert(self.data@ =~= old(self).data@ + data@);
    }

    /// Appends `data` to the receive buffer and parses on. Hands out the
    /// next complete request, if the bytes so far complete one; a request
    /// that the same bytes complete after it waits for the next call.
    pub fn read(&mut self, data: &[u8]) -> (r: Option<Request>)
        requires
            old(self).wf(),
        ensures
            final(self).wf(),
            final(self)@ == spec_drive(old(self)@.append(data@)).0,
            r is Some <==> spec_drive(old(self)@.append(data@)).1 is Some,
            r matches Some(request) ==> Some(request@) == spec_drive(
                old(self)@.append(data@),
            ).1 && request.wf(),
    {
        self.extend(data);
        self.parse_request()
    }

    /// Appends `data` to the receive buffer and hands out every request
    /// that the bytes so far complete, in order.
    pub fn read_all(&mut self, data: &[u8]) -> (out: Vec<Request>)
        requires
            old(self).wf(),
        ensures
            final(self).wf(),
            final(self)@ == spec_drain(old(self)@.append(data@)).1,
            spec_views(out@) == spec_drain(old(self)@.append(data@)).0,
            forall|i: int| 0 <= i < out@.len() ==> (#[trigger] out@[i]).wf(),
    {
        let mut out: Vec<Request> = Vec::new();
        self.extend(data);
        let ghost target = spec_drain(old(self)@.append(data@));
        assert(spec_views(out@) + spec_drain(self@).0 =~= target.0);
        loop
            invariant_except_break
                spec_views(out@) + spec_drain(self@).0 == target.0,
                spec_drain(self@).1 == target.1,
            invariant
                self.wf(),
                forall|i: int| 0 <= i < out@.len() ==> (#[trigger] out@[i]).wf(),
            ensures
                self@ == target.1,
                spec_views(out@) == target.0,
            decreases self@.pending(), spec_rank(self@.state),
        {
            proof {
                lemma_drain_by_reads(self@);
                lemma_drive_progress(self@);
            }
            let ghost before = out@;
            let ghost rest = spec_drain(self@).0;
            match self.parse_request() {
                None => {
                    assert(spec_views(out@) + Seq::<RequestView>::empty() =~= spec_views(out@));
                    break ;
                },
                Some(request) => {
                    out.push(request);
                    assert(spec_views(out@) =~= spec_views(before) + seq![request@]);
                    assert(spec_views(before) + (seq![request@] + spec_drain(self@).0)
                        =~= spec_views(out@) + spec_drain(self@).0);
                },
            }
        }
        out
    }
}

} // verus!
