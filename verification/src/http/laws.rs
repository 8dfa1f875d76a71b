//! What holds of the request parser whatever the bytes and however they
//! are cut into chunks.

use vstd::prelude::*;
use vstd::utf8::encode_utf8;
use crate::fields::spec_lookup;
use crate::http::parser::{
    lemma_drain_stalls, lemma_step_inv, lemma_step_progress, spec_content_length, spec_drain,
    spec_fresh, spec_line, spec_rank, spec_stalled, spec_step, BuilderView, State,
};
use crate::http::request::{spec_get_token, RequestView};
use crate::text::{
    lemma_find, lemma_find_append, spec_find, spec_number_usize, spec_split, spec_text, LF, SPACE,
};

verus! {

/// What feeding one chunk hands out and leaves behind: the chunk joins the
/// buffer, then every request that is complete is taken off.
pub open spec fn spec_feed(s: BuilderView, chunk: Seq<u8>) -> (Seq<RequestView>, BuilderView) {
    spec_drain(s.append(chunk))
}

/// What feeding a sequence of chunks, one at a time, hands out in all and
/// leaves behind.
pub open spec fn spec_feed_each(s: BuilderView, chunks: Seq<Seq<u8>>) -> (
    Seq<RequestView>,
    BuilderView,
)
    decreases chunks.len(),
{
    if chunks.len() == 0 {
        (Seq::empty(), s)
    } else {
        let first = spec_feed(s, chunks[0]);
        let rest = spec_feed_each(first.1, chunks.drop_first());
        (first.0 + rest.0, rest.1)
    }
}

/// The byte stream that a sequence of chunks makes up.
pub open spec fn spec_concat(chunks: Seq<Seq<u8>>) -> Seq<u8>
    decreases chunks.len(),
{
    if chunks.len() == 0 {
        Seq::empty()
    } else {
        chunks[0] + spec_concat(chunks.drop_first())
    }
}

/// A line that is complete stays the same line when more bytes arrive.
pub proof fn lemma_line_append(data: Seq<u8>, from: nat, extra: Seq<u8>)
    requires
        spec_line(data, from) is Some,
    ensures
        spec_line(data + extra, from) == spec_line(data, from),
{
    lemma_find(data, LF, from as int);
    lemma_find_append(data, extra, LF, from as int);
    let i = spec_find(data, LF, from as int);
    let end = spec_line(data, from).unwrap().0.len() + from;
    assert((data + extra).subrange(from as int, end as int) =~= data.subrange(
        from as int,
        end as int,
    ));
    if i > from {
        assert((data + extra)[i - 1] == data[i - 1]);
    }
}

/// A transition that the buffered bytes allow is the same transition when
/// more bytes have arrived behind them.
pub proof fn lemma_step_append(s: BuilderView, extra: Seq<u8>)
    requires
        !spec_stalled(s),
    ensures
        !spec_stalled(s.append(extra)),
        spec_step(s.append(extra)) == spec_step(s).append(extra),
{
    match s.state {
        State::ParseRequestLine | State::ParseHeaders => {
            lemma_line_append(s.data, s.parsed, extra);
        },
        State::ParseBody => {
            assert((s.data + extra).subrange(s.parsed as int, (s.parsed + s.body_size) as int)
                =~= s.data.subrange(s.parsed as int, (s.parsed + s.body_size) as int));
        },
        State::Done => {
            assert((s.data + extra).subrange(s.parsed as int, (s.data + extra).len() as int)
                =~= s.data.subrange(s.parsed as int, s.data.len() as int) + extra);
        },
        State::Error => {},
    }
}

/// Taking the complete requests off before more bytes arrive, or only
/// after, hands out the same requests and leaves the same parser.
pub proof fn lemma_drain_append(s: BuilderView, extra: Seq<u8>)
    ensures
        spec_drain(s.append(extra)) == (
            spec_drain(s).0 + spec_drain(spec_drain(s).1.append(extra)).0,
            spec_drain(spec_drain(s).1.append(extra)).1,
        ),
    decreases s.pending(), spec_rank(s.state),
{
    let later = spec_drain(spec_drain(s).1.append(extra));
    if spec_stalled(s) {
        assert(Seq::<RequestView>::empty() + later.0 =~= later.0);
    } else {
        lemma_step_progress(s);
        lemma_step_append(s, extra);
        lemma_drain_append(spec_step(s), extra);
        let rest = spec_drain(spec_step(s));
        if s.state == State::Done {
            assert(seq![s.request] + (rest.0 + later.0) =~= (seq![s.request] + rest.0) + later.0);
        }
    }
}

/// Chunk-boundary independence: a parser that is fed a byte stream in
/// chunks, cut anywhere, hands out the same requests in the same order and
/// ends in the same state as one that is fed the whole stream at once.
///
/// This holds of a parser at rest, as a fresh one is and every one that
/// `read_all` has left, and of any parser that is fed at least one chunk.
/// (A parser that still holds a complete request hands it out on the first
/// chunk fed, even an empty one, and not before.)
pub proof fn lemma_chunk_independence(s: BuilderView, chunks: Seq<Seq<u8>>)
    requires
        s.inv(),
        spec_stalled(s) || chunks.len() > 0,
    ensures
        spec_feed_each(s, chunks) == spec_feed(s, spec_concat(chunks)),
    decreases chunks.len(),
{
    if chunks.len() == 0 {
        assert(s.append(Seq::empty()) =~= s);
    } else {
        let first = chunks[0];
        let rest = chunks.drop_first();
        let t = spec_feed(s, first).1;
        lemma_step_inv(s, first);
        lemma_drain_stalls(s.append(first));
        lemma_chunk_independence(t, rest);
        lemma_drain_append(s.append(first), spec_concat(rest));
        assert((s.data + first) + spec_concat(rest) =~= s.data + spec_concat(chunks));
    }
}

/// Pipelining: where each of two byte strings alone is one whole request to
/// a fresh parser, the two in one buffer hand out exactly those two
/// requests, in order, and leave the buffer empty.
pub proof fn lemma_pipelining(a: Seq<u8>, b: Seq<u8>, first: RequestView, second: RequestView)
    requires
        spec_feed(spec_fresh(), a) == (seq![first], spec_fresh()),
        spec_feed(spec_fresh(), b) == (seq![second], spec_fresh()),
    ensures
        spec_feed(spec_fresh(), a + b) == (seq![first, second], spec_fresh()),
        spec_feed(spec_fresh(), a + b).1.data.len() == 0,
{
    lemma_drain_append(spec_fresh().append(a), b);
    assert((spec_fresh().data + a) + b =~= spec_fresh().data + (a + b));
    assert(seq![first] + seq![second] =~= seq![first, second]);
}

/// A request line that does not hold exactly three tokens separated by
/// single spaces, or whose method is not `GET`, takes the parser to `Error`,
/// and nothing is handed out.
pub proof fn lemma_malformed_request_line(s: BuilderView)
    requires
        s.state == State::ParseRequestLine,
        spec_line(s.data, s.parsed) is Some,
        ({
            let tokens = spec_split(spec_line(s.data, s.parsed).unwrap().0, SPACE);
            tokens.len() != 3 || spec_text(tokens[0]) != spec_get_token()
        }),
    ensures
        spec_step(s).state == State::Error,
        spec_drain(s).0 == Seq::<RequestView>::empty(),
        spec_drain(s).1.state == State::Error,
{
    lemma_step_progress(s);
    assert(spec_stalled(spec_step(s)));
    assert(spec_drain(spec_step(s)) == (Seq::<RequestView>::empty(), spec_step(s)));
}

/// `Error` is final: whatever arrives afterwards, the parser stays there
/// and hands out no request.
pub proof fn lemma_error_is_final(s: BuilderView, chunks: Seq<Seq<u8>>)
    requires
        s.state == State::Error,
    ensures
        spec_feed_each(s, chunks).0 == Seq::<RequestView>::empty(),
        spec_feed_each(s, chunks).1.state == State::Error,
    decreases chunks.len(),
{
    if chunks.len() > 0 {
        lemma_error_is_final(s.append(chunks[0]), chunks.drop_first());
        assert(Seq::<RequestView>::empty() + Seq::<RequestView>::empty() =~= Seq::<
            RequestView,
        >::empty());
    }
}

/// Without a `Content-Length`, or with one that is zero, the blank line
/// after the headers takes the parser straight to `Done`, past `ParseBody`,
/// and the request it will hand out has an empty body.
pub proof fn lemma_no_body(s: BuilderView)
    requires
        s.inv(),
        s.state == State::ParseHeaders,
        spec_line(s.data, s.parsed) is Some,
        spec_line(s.data, s.parsed).unwrap().0.len() == 0,
        match spec_lookup(s.request.headers, spec_content_length()) {
            None => true,
            Some(value) => spec_number_usize(encode_utf8(value)) == Some(0usize),
        },
    ensures
        spec_step(s).state == State::Done,
        spec_step(s).request == s.request,
        spec_step(s).request.body == Seq::<u8>::empty(),
        !spec_stalled(spec_step(s)),
        spec_drain(s).0.len() > 0,
        spec_drain(s).0[0] == s.request,
{
    lemma_step_progress(s);
    assert(s.request.body =~= Seq::<u8>::empty());
    let t = spec_step(s);
    lemma_find(s.data, LF, s.parsed as int);
    assert(t.parsed <= t.data.len());
    lemma_step_progress(t);
    let rest = spec_drain(spec_step(t));
    assert(spec_drain(t) == (seq![t.request] + rest.0, rest.1));
    assert(spec_drain(s) == spec_drain(t));
}

/// The receive buffer grows at its tail only, when bytes arrive, and
/// shrinks at its head only, by the bytes consumed, when a complete request
/// is handed out. No other transition touches it.
pub proof fn lemma_buffer_discipline(s: BuilderView, extra: Seq<u8>)
    ensures
        s.append(extra).data == s.data + extra,
        s.append(extra).parsed == s.parsed,
        s.state != State::Done ==> spec_step(s).data == s.data,
        s.state != State::Done && !spec_stalled(s) ==> spec_step(s).parsed >= s.parsed,
        s.state == State::Done ==> spec_step(s).data == s.data.subrange(
            s.parsed as int,
            s.data.len() as int,
        ) && spec_step(s).parsed == 0,
{
    if !spec_stalled(s) {
        lemma_step_progress(s);
    }
}

/// The parser moves forward only: from the request line to the headers,
/// from the headers to the body or to `Done`, from the body to `Done`, and
/// from `Done` back to the request line of the next request. Only the two
/// line states can fail, and `Error` is left by no transition.
pub proof fn lemma_forward_only(s: BuilderView)
    ensures
        match s.state {
            State::ParseRequestLine => spec_step(s).state == State::ParseHeaders || spec_step(
                s,
            ).state == State::Error,
            State::ParseHeaders => spec_step(s).state != State::ParseRequestLine,
            State::ParseBody => spec_step(s).state == State::Done,
            State::Done => spec_step(s).state == State::ParseRequestLine,
            State::Error => spec_step(s).state == State::Error && spec_stalled(s),
        },
{
}

} // verus!
