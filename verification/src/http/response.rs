//! The response writer: status, headers and body of the response under
//! construction, and the bytes already handed to the transport.
//!
//! The writer never touches a socket. What it sends is queued in order;
//! whoever owns the connection takes the queue and writes it out.

use vstd::prelude::*;
use vstd::utf8::encode_utf8;
use crate::fields::{lemma_assign, spec_assign, spec_lookup, Entries, FieldMap};
use crate::text::{
    decimal, lemma_decimal_reads_back, spec_decimal, spec_number, COLON, CR, LF, SPACE,
};

verus! {

/// A status line's code and reason.
pub struct Status {
    code: u32,
    desc: String,
}

/// A status as plain values.
pub struct StatusView {
    pub code: u32,
    pub desc: Seq<char>,
}

impl View for Status {
    type V = StatusView;

    closed spec fn view(&self) -> StatusView {
        StatusView { code: self.code, desc: self.desc@ }
    }
}

/// `200 OK`.
pub open spec fn spec_ok() -> StatusView {
    StatusView { code: 200, desc: "OK"@ }
}

/// `404 Not Found`.
pub open spec fn spec_not_found() -> StatusView {
    StatusView { code: 404, desc: "Not Found"@ }
}

impl Status {
    pub fn ok() -> (s: Status)
        ensures
            s@ == spec_ok(),
    {
        Status { code: 200, desc: "OK".to_owned() }
    }

    pub fn not_found() -> (s: Status)
        ensures
            s@ == spec_not_found(),
    {
        Status { code: 404, desc: "Not Found".to_owned() }
    }

    /// The numeric status code.
    pub fn code(&self) -> (c: u32)
        ensures
            c == self@.code,
    {
        self.code
    }

    /// The reason phrase.
    pub fn desc(&self) -> (d: &str)
        ensures
            d@ == self@.desc,
    {
        self.desc.as_str()
    }
}

/// A response writer as plain values.
pub struct ResponseView {
    pub version: Seq<char>,
    pub status: StatusView,
    pub headers: Entries,
    /// The body buffered for the next `send`.
    pub body: Seq<u8>,
    /// The bytes sent so far and not yet taken by the transport.
    pub sent: Seq<u8>,
}

/// The protocol version that responses announce.
pub open spec fn spec_version() -> Seq<char> {
    "HTTP/1.1"@
}

/// The name of the header that carries the body length.
pub open spec fn spec_length_name() -> Seq<char> {
    "Content-Length"@
}

/// The name of the header that carries the media type.
pub open spec fn spec_type_name() -> Seq<char> {
    "Content-Type"@
}

/// The media type of the canned not-found page.
pub open spec fn spec_html() -> Seq<char> {
    "text/html"@
}

/// The body of the canned not-found page.
pub open spec fn spec_not_found_page() -> Seq<char> {
    "<html><h1>404 Not found</h1></html>"@
}

/// A writer with nothing set and nothing sent.
pub open spec fn spec_new_response() -> ResponseView {
    ResponseView {
        version: spec_version(),
        status: spec_ok(),
        headers: Seq::empty(),
        body: Seq::empty(),
        sent: Seq::empty(),
    }
}

/// The status line: version, code in decimal, reason, CRLF.
pub open spec fn spec_status_line(version: Seq<char>, status: StatusView) -> Seq<u8> {
    encode_utf8(version) + seq![SPACE] + encode_utf8(spec_decimal(status.code as nat)) + seq![
        SPACE,
    ] + encode_utf8(status.desc) + seq![CR, LF]
}

/// One header line: `Name: Value` and CRLF.
pub open spec fn spec_header_bytes(name: Seq<char>, value: Seq<char>) -> Seq<u8> {
    encode_utf8(name) + seq![COLON, SPACE] + encode_utf8(value) + seq![CR, LF]
}

/// The header lines, in the order of the table.
pub open spec fn spec_header_lines(headers: Entries) -> Seq<u8>
    decreases headers.len(),
{
    if headers.len() == 0 {
        Seq::empty()
    } else {
        spec_header_lines(headers.drop_last()) + spec_header_bytes(
            headers.last().0,
            headers.last().1,
        )
    }
}

/// Everything before the body: status line, header lines, blank line.
pub open spec fn spec_head(r: ResponseView) -> Seq<u8> {
    spec_status_line(r.version, r.status) + spec_header_lines(r.headers) + seq![CR, LF]
}

/// The response on the wire: head, then the body bytes as they are.
pub open spec fn spec_message(r: ResponseView) -> Seq<u8> {
    spec_head(r) + r.body
}

/// The writer after `name` has been set to `value`.
pub open spec fn spec_with_header(r: ResponseView, name: Seq<char>, value: Seq<char>)
    -> ResponseView {
    ResponseView { headers: spec_assign(r.headers, name, value), ..r }
}

/// The writer after `more` has been added to the body: the body grows and
/// `Content-Length` states its new length.
pub open spec fn spec_with_body(r: ResponseView, more: Seq<u8>) -> ResponseView {
    ResponseView {
        body: r.body + more,
        headers: spec_assign(
            r.headers,
            spec_length_name(),
            spec_decimal((r.body + more).len()),
        ),
        ..r
    }
}

/// The writer after each of `headers` has been set, in order.
pub open spec fn spec_with_headers(r: ResponseView, headers: Seq<(Seq<char>, Seq<char>)>)
    -> ResponseView
    decreases headers.len(),
{
    if headers.len() == 0 {
        r
    } else {
        spec_with_header(
            spec_with_headers(r, headers.drop_last()),
            headers.last().0,
            headers.last().1,
        )
    }
}

/// The writer made into the canned not-found response.
pub open spec fn spec_with_not_found(r: ResponseView) -> ResponseView {
    spec_with_body(
        spec_with_header(
            ResponseView { status: spec_not_found(), ..r },
            spec_type_name(),
            spec_html(),
        ),
        encode_utf8(spec_not_found_page()),
    )
}

/// The writer after `send`: the message is queued, headers and body are
/// cleared for the next response, status and version stay.
pub open spec fn spec_after_send(r: ResponseView) -> ResponseView {
    ResponseView {
        headers: Seq::empty(),
        body: Seq::empty(),
        sent: r.sent + spec_message(r),
        ..r
    }
}

/// The names and values of a slice of header pairs.
pub open spec fn spec_pairs(headers: Seq<(&str, &str)>) -> Seq<(Seq<char>, Seq<char>)> {
    Seq::new(headers.len(), |i: int| (headers[i].0@, headers[i].1@))
}

/// The announced length is the body's: after bytes were added to the body,
/// `Content-Length` is set, and its value reads as the number of body
/// bytes buffered; the message to be sent ends with exactly those bytes.
pub proof fn lemma_length_matches_body(r: ResponseView, more: Seq<u8>)
    ensures
        spec_lookup(spec_with_body(r, more).headers, spec_length_name()) matches Some(value)
            && spec_number(encode_utf8(value)) == Some(spec_with_body(r, more).body.len()),
        spec_message(spec_with_body(r, more)) == spec_head(spec_with_body(r, more)) + (r.body
            + more),
{
    let length = spec_decimal((r.body + more).len());
    lemma_assign(r.headers, spec_length_name(), length);
    lemma_decimal_reads_back((r.body + more).len());
}

fn append_bytes(out: &mut Vec<u8>, bytes: &[u8])
    ensures
        final(out)@ == old(out)@ + bytes@,
{
    out.extend_from_slice(bytes);
    assert(out@ =~= old(out)@ + bytes@);
}

fn append_str(out: &mut Vec<u8>, s: &str)
    ensures
        final(out)@ == old(out)@ + encode_utf8(s@),
{
    append_bytes(out, s.as_bytes());
}

/// The response writer.
pub struct Response {
    version: String,
    status: Status,
    headers: FieldMap,
    body: Vec<u8>,
    sent: Vec<u8>,
}

impl View for Response {
    type V = ResponseView;

    closed spec fn view(&self) -> ResponseView {
        ResponseView {
            version: self.version@,
            status: self.status@,
            headers: self.headers@,
            body: self.body@,
            sent: self.sent@,
        }
    }
}

impl Response {
    /// The writer's invariant: no header occurs twice. Every operation
    /// keeps it.
    pub closed spec fn wf(&self) -> bool {
        self.headers.wf()
    }

    pub fn new() -> (r: Response)
        ensures
            r@ == spec_new_response(),
            r.wf(),
    {
        Response {
            version: "HTTP/1.1".to_owned(),
            status: Status::ok(),
            headers: FieldMap::new(),
            body: Vec::new(),
            sent: Vec::new(),
        }
    }

    /// Makes this the canned not-found response: status 404, an HTML
    /// content type, and the fixed page added to the body.
    pub fn set_not_found(&mut self) -> (r: &mut Response)
        ensures
            r@ == spec_with_not_found(old(self)@),
            old(self).wf() ==> r.wf(),
            *final(self) == *final(r),
    {
        self.set_status(Status::not_found()).set_header("Content-Type", "text/html").set_body_str(
            "<html><h1>404 Not found</h1></html>",
        )
    }

    pub fn set_status(&mut self, status: Status) -> (r: &mut Response)
        ensures
            r@ == (ResponseView { status: status@, ..old(self)@ }),
            old(self).wf() ==> r.wf(),
            *final(self) == *final(r),
    {
        self.status = status;
        self
    }

    /// Sets a header, replacing an earlier value of the same name.
    pub fn set_header(&mut self, header_name: &str, value: &str) -> (r: &mut Response)
        ensures
            r@ == spec_with_header(old(self)@, header_name@, value@),
            old(self).wf() ==> r.wf(),
            *final(self) == *final(r),
    {
        self.headers.set(header_name, value);
        self
    }

    /// Announces a body of `length` bytes.
    pub fn set_length(&mut self, length: u64) -> (r: &mut Response)
        ensures
            r@ == spec_with_header(old(self)@, spec_length_name(), spec_decimal(length as nat)),
            old(self).wf() ==> r.wf(),
            *final(self) == *final(r),
    {
        let value = decimal(length);
        self.set_header("Content-Length", value.as_str());
        self
    }

    /// Sets each of `headers`, in order.
    pub fn set_headers(&mut self, headers: &[(&str, &str)]) -> (r: &mut Response)
        ensures
            r@ == spec_with_headers(old(self)@, spec_pairs(headers@)),
            old(self).wf() ==> r.wf(),
            *final(self) == *final(r),
    {
        let ghost all = spec_pairs(headers@);
        let mut i: usize = 0;
        assert(all.take(0) =~= Seq::<(Seq<char>, Seq<char>)>::empty());
        while i < headers.len()
            invariant
                i <= headers@.len(),
                all == spec_pairs(headers@),
                old(self).wf() ==> self.wf(),
                self@ == spec_with_headers(old(self)@, all.take(i as int)),
            decreases headers@.len() - i,
        {
            let (name, value) = headers[i];
            proof {
                assert(all.take(i + 1).drop_last() =~= all.take(i as int));
                assert(all.take(i + 1).last() == (name@, value@));
            }
            self.set_header(name, value);
            i += 1;
        }
        assert(all.take(i as int) =~= all);
        self
    }

    /// Adds `body` to the buffered body and brings `Content-Length` up to
    /// the body's new length.
    pub fn set_body(&mut self, body: &[u8]) -> (r: &mut Response)
        ensures
            r@ == spec_with_body(old(self)@, body@),
            old(self).wf() ==> r.wf(),
            *final(self) == *final(r),
    {
        append_bytes(&mut self.body, body);
        let value = decimal(self.body.len() as u64);
        self.set_header("Content-Length", value.as_str());
        self
    }

    pub fn set_body_str(&mut self, body: &str) -> (r: &mut Response)
        ensures
            r@ == spec_with_body(old(self)@, encode_utf8(body@)),
            old(self).wf() ==> r.wf(),
            *final(self) == *final(r),
    {
        self.set_body(body.as_bytes());
        self
    }

    /// The response as it goes on the wire.
    pub fn as_bytes(&self) -> (b: Vec<u8>)
        ensures
            b@ == spec_message(self@),
    {
        let mut b: Vec<u8> = Vec::new();
        append_str(&mut b, self.version.as_str());
        b.push(SPACE);
        let code = decimal(self.status.code as u64);
        append_str(&mut b, code.as_str());
        b.push(SPACE);
        append_str(&mut b, self.status.desc.as_str());
        b.push(CR);
        b.push(LF);
        assert(b@ =~= spec_status_line(self@.version, self@.status));
        let ghost start = b@;
        let ghost all = self.headers@;
        let n = self.headers.len();
        let mut i: usize = 0;
        assert(all.take(0) =~= Seq::<(Seq<char>, Seq<char>)>::empty());
        assert(b@ =~= start + spec_header_lines(all.take(0)));
        while i < n
            invariant
                i <= n,
                n == all.len(),
                all == self.headers@,
                b@ == start + spec_header_lines(all.take(i as int)),
            decreases n - i,
        {
            let ghost before = b@;
            append_str(&mut b, self.headers.name_at(i));
            b.push(COLON);
            b.push(SPACE);
            append_str(&mut b, self.headers.value_at(i));
            b.push(CR);
            b.push(LF);
            proof {
                assert(all.take(i + 1).drop_last() =~= all.take(i as int));
                assert(all.take(i + 1).last() == all[i as int]);
                assert(b@ =~= before + spec_header_bytes(all[i as int].0, all[i as int].1));
                assert(b@ =~= start + spec_header_lines(all.take(i + 1)));
            }
            i += 1;
        }
        assert(all.take(i as int) =~= all);
        b.push(CR);
        b.push(LF);
        assert(b@ =~= spec_head(self@));
        append_bytes(&mut b, self.body.as_slice());
        b
    }

    /// Sends raw bytes, past all framing.
    pub fn send_data(&mut self, data: &[u8])
        ensures
            final(self)@ == (ResponseView { sent: old(self)@.sent + data@, ..old(self)@ }),
            old(self).wf() ==> final(self).wf(),
    {
        append_bytes(&mut self.sent, data);
    }

    /// Sends the bytes of a string, past all framing.
    pub fn send_str(&mut self, data: &str)
        ensures
            final(self)@ == (ResponseView {
                sent: old(self)@.sent + encode_utf8(data@),
                ..old(self)@
            }),
            old(self).wf() ==> final(self).wf(),
    {
        append_str(&mut self.sent, data);
    }

    /// Sends status line, headers, blank line and the buffered body, then
    /// clears headers and body so that the writer can frame the next
    /// response on the same connection.
    pub fn send(&mut self)
        ensures
            final(self)@ == spec_after_send(old(self)@),
            old(self).wf() ==> final(self).wf(),
    {
        let bytes = self.as_bytes();
        append_bytes(&mut self.sent, bytes.as_slice());
        self.headers.clear();
        self.body.clear();
    }

    /// Hands the queued bytes to the transport and empties the queue.
    pub fn take_sent(&mut self) -> (out: Vec<u8>)
        ensures
            out@ == old(self)@.sent,
            final(self)@ == (ResponseView { sent: Seq::empty(), ..old(self)@ }),
            old(self).wf() ==> final(self).wf(),
    {
        let mut out: Vec<u8> = Vec::new();
        core::mem::swap(&mut self.sent, &mut out);
        out
    }

    /// The status that the next `send` will announce.
    pub fn status(&self) -> (s: &Status)
        ensures
            s@ == self@.status,
    {
        &self.status
    }

    /// The headers set so far for the next `send`.
    pub fn headers(&self) -> (h: &FieldMap)
        ensures
            h@ == self@.headers,
    {
        &self.headers
    }

    /// The body buffered so far for the next `send`.
    pub fn body(&self) -> (b: &[u8])
        ensures
            b@ == self@.body,
    {
        self.body.as_slice()
    }
}

} // verus!
