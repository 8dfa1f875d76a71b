//! Requests as they are written on the wire, and the law that the parser
//! reads back what was written.

use vstd::prelude::*;
use vstd::utf8::{
    encode_utf8, encode_utf8_decode_utf8, encode_utf8_valid_utf8, is_ascii_chars,
    is_ascii_chars_encode_utf8, valid_utf8, valid_utf8_concat,
};
use crate::fields::{spec_assign, spec_lookup, Entries};
use crate::http::laws::spec_feed;
use crate::http::parser::{
    lemma_step_progress, spec_content_length, spec_drain, spec_fresh, spec_line, spec_stalled,
    spec_step, BuilderView, State,
};
use crate::http::request::{
    lemma_separator_unique, spec_get_token, spec_header_line, spec_request_line,
    spec_separator_at, spec_target_params, spec_target_path, Method, RequestView,
};
use crate::text::{lemma_find_unique, spec_split, spec_text, COLON, CR, LF, SPACE};

verus! {

/// Whether `line` can stand as one line: it holds no LF.
pub open spec fn spec_one_line(line: Seq<u8>) -> bool {
    forall|i: int| 0 <= i < line.len() ==> #[trigger] line[i] != LF
}

/// The bytes of `lines`, each ended by CRLF.
pub open spec fn spec_lines(lines: Seq<Seq<u8>>) -> Seq<u8>
    decreases lines.len(),
{
    if lines.len() == 0 {
        Seq::empty()
    } else {
        lines[0] + seq![CR, LF] + spec_lines(lines.drop_first())
    }
}

/// Whether each of `lines` is one line, not blank, that reads as a header.
pub open spec fn spec_header_lines_ok(lines: Seq<Seq<u8>>) -> bool {
    forall|i: int|
        0 <= i < lines.len() ==> spec_one_line(#[trigger] lines[i]) && lines[i].len() > 0
            && spec_header_line(lines[i]) is Some
}

/// The headers after the header lines `lines` have been read into
/// `headers`, in order.
pub open spec fn spec_headers_read(headers: Entries, lines: Seq<Seq<u8>>) -> Entries
    decreases lines.len(),
{
    if lines.len() == 0 {
        headers
    } else {
        let read = spec_header_line(lines[0]).unwrap();
        spec_headers_read(spec_assign(headers, read.0, read.1), lines.drop_first())
    }
}

/// A request without a body as it is written: the request line, the header
/// lines, and a blank line, each ended by CRLF.
pub open spec fn spec_written(line: Seq<u8>, headers: Seq<Seq<u8>>) -> Seq<u8> {
    line + seq![CR, LF] + spec_lines(headers) + seq![CR, LF]
}

/// A line that stands in the buffer at the cursor, ended by CRLF, is the
/// line that the parser takes, and the cursor moves past its terminator.
pub proof fn lemma_line_at(before: Seq<u8>, line: Seq<u8>, after: Seq<u8>)
    requires
        spec_one_line(line),
    ensures
        spec_line(before + line + seq![CR, LF] + after, before.len()) == Some(
            (line, (before.len() + line.len() + 2) as nat),
        ),
{
    let data = before + line + seq![CR, LF] + after;
    let from = before.len() as int;
    let at = from + line.len() + 1;
    assert(data[at] == LF);
    assert(data[at - 1] == CR);
    assert forall|j: int| from <= j < at implies data[j] != LF by {
        if j < from + line.len() {
            assert(data[j] == line[j - from]);
        }
    }
    lemma_find_unique(data, LF, from, at);
    assert(data.subrange(from, at - 1) =~= line);
}

/// The parser that is left when a request has been handed out and `rest`
/// is what the buffer still holds.
pub open spec fn spec_ready(rest: Seq<u8>) -> BuilderView {
    BuilderView { data: rest, ..spec_fresh() }
}

/// A parser that stands before header lines and the blank line after
/// them, where the headers announce no body, hands out its request with
/// those headers read and goes on with what follows the blank line.
pub proof fn lemma_headers_read(
    s: BuilderView,
    before: Seq<u8>,
    lines: Seq<Seq<u8>>,
    after: Seq<u8>,
)
    requires
        s.state == State::ParseHeaders,
        s.data == before + spec_lines(lines) + seq![CR, LF] + after,
        s.parsed == before.len(),
        spec_header_lines_ok(lines),
        spec_lookup(spec_headers_read(s.request.headers, lines), spec_content_length()) is None,
    ensures
        spec_drain(s) == (
            seq![
                RequestView {
                    headers: spec_headers_read(s.request.headers, lines),
                    ..s.request
                },
            ] + spec_drain(spec_ready(after)).0,
            spec_drain(spec_ready(after)).1,
        ),
    decreases lines.len(),
{
    if lines.len() == 0 {
        assert(s.data =~= before + Seq::<u8>::empty() + seq![CR, LF] + after);
        lemma_line_at(before, Seq::empty(), after);
        lemma_step_progress(s);
        let t = spec_step(s);
        assert(t.state == State::Done);
        assert(t.parsed == before.len() + 2);
        assert(!spec_stalled(t));
        lemma_step_progress(t);
        let u = spec_step(t);
        assert(u.data =~= after);
        assert(u == spec_ready(after));
        assert(spec_drain(t) == (seq![t.request] + spec_drain(u).0, spec_drain(u).1));
        assert(spec_drain(s) == spec_drain(t));
    } else {
        let first = lines[0];
        let others = lines.drop_first();
        let longer = before + first + seq![CR, LF];
        assert(s.data =~= before + first + seq![CR, LF] + (spec_lines(others) + seq![CR, LF]
            + after));
        lemma_line_at(before, first, spec_lines(others) + seq![CR, LF] + after);
        lemma_step_progress(s);
        let t = spec_step(s);
        assert(t.state == State::ParseHeaders);
        assert(t.data =~= longer + spec_lines(others) + seq![CR, LF] + after);
        assert forall|i: int| 0 <= i < others.len() implies spec_one_line(#[trigger] others[i])
            && others[i].len() > 0 && spec_header_line(others[i]) is Some by {
            assert(others[i] == lines[i + 1]);
        }
        lemma_headers_read(t, longer, others, after);
        assert(spec_drain(s) == spec_drain(t));
    }
}

/// The parser reads back a request without a body as it was written: a
/// fresh parser that is fed the request line, header lines that announce no
/// body, and the blank line hands out exactly one request, which holds
/// what the request line says and the headers in order, and is fresh again
/// with nothing left in its buffer.
pub proof fn lemma_written_is_read(line: Seq<u8>, headers: Seq<Seq<u8>>)
    requires
        spec_one_line(line),
        spec_request_line(line) is Some,
        spec_header_lines_ok(headers),
        spec_lookup(spec_headers_read(Seq::empty(), headers), spec_content_length()) is None,
    ensures
        spec_feed(spec_fresh(), spec_written(line, headers)) == (
            seq![
                RequestView {
                    headers: spec_headers_read(Seq::empty(), headers),
                    ..spec_request_line(line).unwrap()
                },
            ],
            spec_fresh(),
        ),
{
    let data = spec_written(line, headers);
    let s = spec_fresh().append(data);
    assert(s.data =~= Seq::<u8>::empty() + line + seq![CR, LF] + (spec_lines(headers) + seq![
        CR,
        LF,
    ]));
    lemma_line_at(Seq::empty(), line, spec_lines(headers) + seq![CR, LF]);
    lemma_step_progress(s);
    let t = spec_step(s);
    assert(t.state == State::ParseHeaders);
    assert(t.request == spec_request_line(line).unwrap());
    assert(t.request.headers =~= Seq::empty());
    assert(t.data =~= (line + seq![CR, LF]) + spec_lines(headers) + seq![CR, LF] + Seq::<
        u8,
    >::empty());
    lemma_headers_read(t, line + seq![CR, LF], headers, Seq::empty());
    assert(spec_ready(Seq::empty()) == spec_fresh());
    assert(spec_stalled(spec_fresh()));
    assert(spec_drain(s) == spec_drain(t));
    assert(seq![
        RequestView { headers: spec_headers_read(Seq::empty(), headers), ..t.request },
    ] + Seq::<RequestView>::empty() =~= seq![
        RequestView { headers: spec_headers_read(Seq::empty(), headers), ..t.request },
    ]);
}

/// Whether `s` holds no byte `b`.
pub open spec fn spec_without(s: Seq<u8>, b: u8) -> bool {
    forall|i: int| 0 <= i < s.len() ==> #[trigger] s[i] != b
}

/// ASCII text is written as its character codes, one byte each: those
/// bytes are UTF-8 and spell the text.
pub proof fn lemma_ascii_bytes(chars: Seq<char>, bytes: Seq<u8>)
    requires
        is_ascii_chars(chars),
        bytes.len() == chars.len(),
        forall|i: int| 0 <= i < chars.len() ==> #[trigger] bytes[i] == chars[i] as u8,
    ensures
        encode_utf8(chars) == bytes,
        valid_utf8(bytes),
        spec_text(bytes) == chars,
{
    is_ascii_chars_encode_utf8(chars);
    assert(encode_utf8(chars) =~= bytes);
    encode_utf8_valid_utf8(chars);
    encode_utf8_decode_utf8(chars);
}

/// Bytes without the separator are one piece.
pub proof fn lemma_split_none(s: Seq<u8>, sep: u8)
    requires
        spec_without(s, sep),
    ensures
        spec_split(s, sep) == seq![s],
{
    lemma_find_unique(s, sep, 0, s.len() as int);
}

/// What stands before the first separator is the first piece, and the
/// rest is split on.
pub proof fn lemma_split_first(head: Seq<u8>, tail: Seq<u8>, sep: u8)
    requires
        spec_without(head, sep),
    ensures
        spec_split(head + seq![sep] + tail, sep) == seq![head] + spec_split(tail, sep),
{
    let s = head + seq![sep] + tail;
    let at = head.len() as int;
    assert(s[at] == sep);
    assert forall|j: int| 0 <= j < at implies s[j] != sep by {
        assert(s[j] == head[j]);
    }
    lemma_find_unique(s, sep, 0, at);
    assert(s.subrange(0, at) =~= head);
    assert(s.subrange(at + 1, s.len() as int) =~= tail);
}

/// The method token `GET` as bytes.
pub open spec fn spec_get_bytes() -> Seq<u8> {
    seq![71u8, 69u8, 84u8]
}

/// A request line as it is written: `GET`, the target and the version,
/// with one space between each two.
pub open spec fn spec_request_line_written(target: Seq<u8>, version: Seq<u8>) -> Seq<u8> {
    spec_get_bytes() + seq![SPACE] + target + seq![SPACE] + version
}

/// A header line as it is written: the name, `": "`, the value.
pub open spec fn spec_header_written(name: Seq<u8>, value: Seq<u8>) -> Seq<u8> {
    name + seq![COLON, SPACE] + value
}

/// A written request line reads as a `GET` for its target, in its version:
/// the target and the version are UTF-8 without a space.
pub proof fn lemma_request_line_written(target: Seq<u8>, version: Seq<u8>)
    requires
        valid_utf8(target),
        valid_utf8(version),
        spec_without(target, SPACE),
        spec_without(version, SPACE),
    ensures
        spec_request_line(spec_request_line_written(target, version)) == Some(
            RequestView {
                method: Method::Get,
                uri: spec_target_path(target),
                params: spec_target_params(Seq::empty(), target),
                version: spec_text(version),
                headers: Seq::empty(),
                body: Seq::empty(),
            },
        ),
{
    let get = spec_get_bytes();
    let space = seq![SPACE];
    let line = spec_request_line_written(target, version);
    lemma_ascii_bytes(spec_get_token(), get);
    lemma_ascii_bytes(seq![' '], space);
    valid_utf8_concat(get, space);
    valid_utf8_concat(get + space, target);
    valid_utf8_concat(get + space + target, space);
    valid_utf8_concat(get + space + target + space, version);
    assert(line =~= get + space + (target + space + version));
    lemma_split_first(get, target + space + version, SPACE);
    lemma_split_first(target, version, SPACE);
    lemma_split_none(version, SPACE);
    assert(spec_split(line, SPACE) =~= seq![get, target, version]);
}

/// A written header line reads as its name and its value: both are UTF-8,
/// and the name holds no `": "`.
pub proof fn lemma_header_written(name: Seq<u8>, value: Seq<u8>)
    requires
        valid_utf8(name),
        valid_utf8(value),
        forall|i: int| !#[trigger] spec_separator_at(name, i),
    ensures
        spec_header_line(spec_header_written(name, value)) == Some(
            (spec_text(name), spec_text(value)),
        ),
{
    let mark = seq![COLON, SPACE];
    let line = spec_header_written(name, value);
    let at = name.len() as int;
    lemma_ascii_bytes(seq![':', ' '], mark);
    valid_utf8_concat(name, mark);
    valid_utf8_concat(name + mark, value);
    assert(spec_separator_at(line, at));
    assert forall|j: int| 0 <= j < at implies !#[trigger] spec_separator_at(line, j) by {
        if j + 1 < at {
            assert(line[j] == name[j] && line[j + 1] == name[j + 1]);
            assert(!spec_separator_at(name, j));
        } else {
            assert(line[j + 1] == COLON);
        }
    }
    lemma_separator_unique(line, 0, at);
    assert(line.subrange(0, at) =~= name);
    assert(line.subrange(at + 2, line.len() as int) =~= value);
}

} // verus!
