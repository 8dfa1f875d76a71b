//! Handlers and the ordered table that routes a request path to one of
//! them: the first rule whose pattern matches wins, and a path that no rule
//! matches gets the canned not-found response.

use vstd::prelude::*;
use regex::Regex;
use crate::app_server::App;
use crate::http::laws::spec_feed;
use crate::http::parser::{
    lemma_drain_by_reads, lemma_drive_progress, spec_drain, spec_fresh, spec_rank, RequestBuilder,
    State,
};
use crate::fields::spec_lookup;
use crate::http::parser::spec_content_length;
use crate::http::request::{spec_request_line, Request, RequestView};
use crate::http::written::{
    lemma_written_is_read, spec_header_lines_ok, spec_headers_read, spec_one_line, spec_written,
};
use crate::http::response::{spec_after_send, spec_with_not_found, Response, ResponseView};
use crate::pattern::{spec_compiles, spec_is_match, spec_pattern_text, spec_texts};

verus! {

/// What answers a request. Each worker holds instances of its own:
/// `duplicate` makes a fresh, independent one from the same configuration.
pub trait Handler: Sized {
    /// What the handler says of itself: whether answering `request` can take
    /// it from `self` to `then` and the response writer from `before` to
    /// `after`. A handler that says nothing admits everything.
    open spec fn answers(
        &self,
        request: RequestView,
        before: ResponseView,
        then: Self,
        after: ResponseView,
    ) -> bool {
        true
    }

    fn process(&mut self, request: Request, response: &mut Response)
        ensures
            old(self).answers(request@, old(response)@, *final(self), final(response)@),
    ;

    /// What the handler says of its duplicates: whether `copy` can be one.
    /// A handler that says nothing admits everything.
    open spec fn duplicated(&self, copy: Self) -> bool {
        true
    }

    fn duplicate(&self) -> (copy: Self)
        ensures
            self.duplicated(copy),
    ;
}

/// Why a routing table could not be built.
#[derive(Debug)]
pub enum RouteError {
    /// The pattern of the rule at this index did not compile.
    BadPattern(usize),
}

/// A compiled rule: a pattern and the handler for the paths it matches.
pub struct HandlerRule<H> {
    regex: Regex,
    handler: H,
}

impl<H> HandlerRule<H> {
    /// The rule's compiled pattern.
    pub closed spec fn regex(&self) -> Regex {
        self.regex
    }

    /// The rule's handler.
    pub closed spec fn handler(&self) -> H {
        self.handler
    }
}

/// A rule as it is written down: the pattern text and the handler.
pub struct HandlerRoute<H>(pub String, pub H);

/// The compiled patterns of a table of rules, in order.
pub open spec fn spec_regexes<H>(rules: Seq<HandlerRule<H>>) -> Seq<Regex> {
    Seq::new(rules.len(), |i: int| rules[i].regex())
}

/// The handlers of a table of rules, in order.
pub open spec fn spec_handlers<H>(rules: Seq<HandlerRule<H>>) -> Seq<H> {
    Seq::new(rules.len(), |i: int| rules[i].handler())
}

/// Whether `copies` are duplicates of `handlers`, one for one and in order,
/// by what the handlers say of their duplicates.
pub open spec fn spec_duplicated<H: Handler>(handlers: Seq<H>, copies: Seq<H>) -> bool {
    &&& copies.len() == handlers.len()
    &&& forall|i: int| 0 <= i < handlers.len() ==> handlers[i].duplicated(#[trigger] copies[i])
}

/// The handlers of a list of written rules, in order.
pub open spec fn spec_route_handlers<H>(routes: Seq<HandlerRoute<H>>) -> Seq<H> {
    Seq::new(routes.len(), |i: int| routes[i].1)
}

/// Whether every one of `texts` compiles.
pub open spec fn spec_all_compile(texts: Seq<Seq<char>>) -> bool {
    forall|i: int| 0 <= i < texts.len() ==> spec_compiles(#[trigger] texts[i])
}

/// The pattern texts of a list of written rules, in order.
pub open spec fn spec_route_patterns<H>(routes: Seq<HandlerRoute<H>>) -> Seq<Seq<char>> {
    Seq::new(routes.len(), |i: int| routes[i].0@)
}

/// Index of the first pattern at or after `from` that matches `path`, or
/// the number of patterns when none does.
pub open spec fn spec_first_match(regexes: Seq<Regex>, path: Seq<char>, from: int) -> int
    decreases regexes.len() - from,
{
    if from < 0 || from >= regexes.len() {
        regexes.len() as int
    } else if spec_is_match(regexes[from], path) {
        from
    } else {
        spec_first_match(regexes, path, from + 1)
    }
}

/// The rule that answers `path`: the first whose pattern matches.
pub open spec fn spec_route(regexes: Seq<Regex>, path: Seq<char>) -> Option<int> {
    let i = spec_first_match(regexes, path, 0);
    if 0 <= i < regexes.len() {
        Some(i)
    } else {
        None
    }
}

/// An index that matches, with no match before it, is the first match.
pub proof fn lemma_first_match_unique(
    regexes: Seq<Regex>,
    path: Seq<char>,
    from: int,
    i: int,
)
    requires
        0 <= from <= i <= regexes.len(),
        i < regexes.len() ==> spec_is_match(regexes[i], path),
        forall|j: int| from <= j < i ==> !spec_is_match(#[trigger] regexes[j], path),
    ensures
        spec_first_match(regexes, path, from) == i,
    decreases i - from,
{
    if from < i {
        lemma_first_match_unique(regexes, path, from + 1, i);
    }
}

/// First match wins: the rule that answers a path matches it, and no rule
/// before it does; a path that no rule answers matches none.
pub proof fn lemma_first_match_wins(regexes: Seq<Regex>, path: Seq<char>)
    ensures
        match spec_route(regexes, path) {
            Some(i) => 0 <= i < regexes.len() && spec_is_match(regexes[i], path) && forall|
                j: int,
            |
                0 <= j < i ==> !spec_is_match(#[trigger] regexes[j], path),
            None => forall|j: int|
                0 <= j < regexes.len() ==> !spec_is_match(#[trigger] regexes[j], path),
        },
{
    lemma_first_match_from(regexes, path, 0);
}

proof fn lemma_first_match_from(regexes: Seq<Regex>, path: Seq<char>, from: int)
    requires
        0 <= from <= regexes.len(),
    ensures
        from <= spec_first_match(regexes, path, from) <= regexes.len(),
        spec_first_match(regexes, path, from) < regexes.len() ==> spec_is_match(
            regexes[spec_first_match(regexes, path, from)],
            path,
        ),
        forall|j: int|
            from <= j < spec_first_match(regexes, path, from) ==> !spec_is_match(
                #[trigger] regexes[j],
                path,
            ),
    decreases regexes.len() - from,
{
    if from < regexes.len() && !spec_is_match(regexes[from], path) {
        lemma_first_match_from(regexes, path, from + 1);
    }
}

/// The response writer after `n` requests in a row went unanswered: each
/// got the canned not-found response.
pub open spec fn spec_not_found_each(r: ResponseView, n: nat) -> ResponseView
    decreases n,
{
    if n == 0 {
        r
    } else {
        spec_after_send(spec_with_not_found(spec_not_found_each(r, (n - 1) as nat)))
    }
}

/// Whether no rule answers any of `requests`.
pub open spec fn spec_all_unrouted(regexes: Seq<Regex>, requests: Seq<RequestView>) -> bool {
    forall|i: int|
        0 <= i < requests.len() ==> spec_route(regexes, (#[trigger] requests[i]).uri) is None
}

/// Whether answering `request` can take the handlers of a table from
/// `handlers` to `handlers_after` and the response writer from `response`
/// to `response_after`: the handler of the first matching rule answers, by
/// what it says of itself, and the others stay as they are; where no rule
/// matches, the canned not-found response is sent and no handler changes.
pub open spec fn spec_answered<H: Handler>(
    regexes: Seq<Regex>,
    handlers: Seq<H>,
    request: RequestView,
    response: ResponseView,
    handlers_after: Seq<H>,
    response_after: ResponseView,
) -> bool {
    match spec_route(regexes, request.uri) {
        Some(i) => {
            &&& i < handlers.len()
            &&& handlers_after.len() == handlers.len()
            &&& handlers[i].answers(request, response, handlers_after[i], response_after)
            &&& forall|j: int|
                0 <= j < handlers.len() && j != i ==> #[trigger] handlers_after[j] == handlers[j]
        },
        None => {
            &&& handlers_after == handlers
            &&& response_after == spec_after_send(spec_with_not_found(response))
        },
    }
}

/// Whether `states` are the handlers and the response writer before the
/// first of `requests`, between each two, and after the last, as answering
/// them one after the other, in order, can make them.
pub open spec fn spec_is_trace<H: Handler>(
    regexes: Seq<Regex>,
    requests: Seq<RequestView>,
    states: Seq<(Seq<H>, ResponseView)>,
) -> bool {
    &&& states.len() == requests.len() + 1
    &&& forall|i: int|
        0 <= i < requests.len() ==> spec_answered(
            regexes,
            states[i].0,
            #[trigger] requests[i],
            states[i].1,
            states[i + 1].0,
            states[i + 1].1,
        )
}

/// Whether answering `requests` one after the other, in order, can take
/// the handlers and the response writer from the first pair of values to
/// the second.
pub open spec fn spec_answered_all<H: Handler>(
    regexes: Seq<Regex>,
    handlers: Seq<H>,
    requests: Seq<RequestView>,
    response: ResponseView,
    handlers_after: Seq<H>,
    response_after: ResponseView,
) -> bool {
    exists|states: Seq<(Seq<H>, ResponseView)>|
        #[trigger] spec_is_trace(regexes, requests, states) && states[0] == (handlers, response)
            && states.last() == (handlers_after, response_after)
}

/// Along a trace of requests that no rule answers, every handler stays as
/// it is, and each request gets the canned not-found response.
proof fn lemma_unrouted_trace<H: Handler>(
    regexes: Seq<Regex>,
    requests: Seq<RequestView>,
    states: Seq<(Seq<H>, ResponseView)>,
    i: int,
)
    requires
        spec_all_unrouted(regexes, requests),
        spec_is_trace(regexes, requests, states),
        0 <= i <= requests.len(),
    ensures
        states[i] == (states[0].0, spec_not_found_each(states[0].1, i as nat)),
    decreases i,
{
    if i > 0 {
        lemma_unrouted_trace(regexes, requests, states, i - 1);
        assert(spec_route(regexes, requests[i - 1].uri) is None);
    }
}

/// Requests that no rule answers leave every handler as it is, and each
/// gets the canned not-found response.
pub proof fn lemma_unrouted<H: Handler>(
    regexes: Seq<Regex>,
    handlers: Seq<H>,
    requests: Seq<RequestView>,
    response: ResponseView,
    handlers_after: Seq<H>,
    response_after: ResponseView,
)
    requires
        spec_all_unrouted(regexes, requests),
        spec_answered_all(regexes, handlers, requests, response, handlers_after, response_after),
    ensures
        handlers_after == handlers,
        response_after == spec_not_found_each(response, requests.len()),
{
    let states = choose|states: Seq<(Seq<H>, ResponseView)>|
        #[trigger] spec_is_trace(regexes, requests, states) && states[0] == (handlers, response)
            && states.last() == (handlers_after, response_after);
    lemma_unrouted_trace(regexes, requests, states, requests.len() as int);
}

/// Adds the rule for `handler` to `rules` where its pattern compiled, and
/// reports the rule's index as the error where it did not.
pub fn push_rule<H>(
    rules: &mut Vec<HandlerRule<H>>,
    compiled: Result<Regex, regex::Error>,
    handler: H,
) -> (r: Result<(), RouteError>)
    ensures
        match compiled {
            Ok(regex) => r is Ok && spec_regexes(final(rules)@) == spec_regexes(
                old(rules)@,
            ).push(regex) && spec_handlers(final(rules)@) == spec_handlers(
                old(rules)@,
            ).push(handler),
            Err(_) => r == Err::<(), RouteError>(RouteError::BadPattern(old(rules)@.len() as usize))
                && final(rules)@ == old(rules)@,
        },
{
    match compiled {
        Ok(regex) => {
            rules.push(HandlerRule { regex, handler });
            assert(spec_regexes(rules@) =~= spec_regexes(old(rules)@).push(regex));
            assert(spec_handlers(rules@) =~= spec_handlers(old(rules)@).push(handler));
            Ok(())
        },
        Err(_) => Err(RouteError::BadPattern(rules.len())),
    }
}

/// A routing table together with the request parser of one connection.
pub struct HandlerApp<H: Handler> {
    handlers: Vec<HandlerRule<H>>,
    builder: RequestBuilder,
}

impl<H: Handler> HandlerApp<H> {
    /// The compiled patterns of the rules, in order.
    pub closed spec fn regexes(&self) -> Seq<Regex> {
        spec_regexes(self.handlers@)
    }

    /// The pattern texts of the rules, in order.
    pub open spec fn patterns(&self) -> Seq<Seq<char>> {
        spec_texts(self.regexes())
    }

    /// The handlers of the rules, in order.
    pub closed spec fn handlers(&self) -> Seq<H> {
        spec_handlers(self.handlers@)
    }

    /// The request parser.
    pub closed spec fn parser(&self) -> crate::http::parser::BuilderView {
        self.builder@
    }

    /// The invariant of the parser inside.
    pub closed spec fn parser_wf(&self) -> bool {
        self.builder.wf()
    }

    /// Compiles the rules in order, with a duplicate of each handler. Stops
    /// at the first pattern that does not compile and reports its index.
    pub fn new(handler_defs: Vec<HandlerRoute<H>>) -> (r: Result<HandlerApp<H>, RouteError>)
        ensures
            r is Ok <==> spec_all_compile(spec_route_patterns(handler_defs@)),
            r matches Ok(app) ==> app.patterns() == spec_route_patterns(handler_defs@)
                && spec_duplicated(spec_route_handlers(handler_defs@), app.handlers())
                && app.parser() == spec_fresh() && app.parser_wf(),
            r matches Err(RouteError::BadPattern(i)) ==> i < handler_defs@.len() && !spec_compiles(
                handler_defs@[i as int].0@,
            ) && spec_all_compile(spec_route_patterns(handler_defs@).take(i as int)),
    {
        let mut handlers: Vec<HandlerRule<H>> = Vec::new();
        let mut i: usize = 0;
        assert(spec_texts(spec_regexes(handlers@)) =~= spec_route_patterns(handler_defs@).take(0));
        while i < handler_defs.len()
            invariant
                i <= handler_defs@.len(),
                handlers@.len() == i,
                spec_texts(spec_regexes(handlers@)) == spec_route_patterns(handler_defs@).take(
                    i as int,
                ),
                spec_all_compile(spec_route_patterns(handler_defs@).take(i as int)),
                spec_duplicated(
                    spec_route_handlers(handler_defs@).take(i as int),
                    spec_handlers(handlers@),
                ),
            decreases handler_defs@.len() - i,
        {
            let compiled = Regex::new(handler_defs[i].0.as_str());
            let handler = handler_defs[i].1.duplicate();
            let ghost earlier = spec_handlers(handlers@);
            let ghost regexes_before = spec_regexes(handlers@);
            proof {
                let given = spec_route_patterns(handler_defs@);
                assert(given[i as int] == handler_defs@[i as int].0@);
                if compiled is Ok {
                    assert forall|j: int| 0 <= j < i + 1 implies spec_compiles(
                        #[trigger] given.take(i + 1)[j],
                    ) by {
                        if j < i {
                            assert(given.take(i as int)[j] == given.take(i + 1)[j]);
                        }
                    }
                }
            }
            match push_rule(&mut handlers, compiled, handler) {
                Ok(()) => {},
                Err(e) => {
                    return Err(e);
                },
            }
            assert(spec_texts(spec_regexes(handlers@)) =~= spec_route_patterns(handler_defs@).take(
                i + 1,
            )) by {
                let texts = spec_texts(spec_regexes(handlers@));
                let given = spec_route_patterns(handler_defs@);
                assert forall|j: int| 0 <= j < i + 1 implies texts[j] == given.take(i + 1)[j] by {
                    if j < i {
                        assert(spec_regexes(handlers@)[j] == regexes_before[j]);
                        assert(given.take(i as int)[j] == given[j]);
                        assert(spec_texts(regexes_before)[j] == given.take(i as int)[j]);
                    }
                }
            }
            proof {
                let given = spec_route_handlers(handler_defs@);
                let copies = spec_handlers(handlers@);
                assert forall|j: int| 0 <= j < i + 1 implies given.take(i + 1)[j].duplicated(
                    #[trigger] copies[j],
                ) by {
                    if j < i {
                        assert(copies[j] == earlier[j]);
                        assert(given.take(i as int)[j] == given.take(i + 1)[j]);
                    }
                }
            }
            i += 1;
        }
        assert(spec_route_patterns(handler_defs@).take(i as int) =~= spec_route_patterns(
            handler_defs@,
        ));
        assert(spec_route_handlers(handler_defs@).take(i as int) =~= spec_route_handlers(
            handler_defs@,
        ));
        Ok(HandlerApp { handlers, builder: RequestBuilder::new() })
    }

    /// A table of rules that are compiled already, with a fresh parser.
    pub fn from_rules(handlers: Vec<HandlerRule<H>>) -> (app: HandlerApp<H>)
        ensures
            app.regexes() == spec_regexes(handlers@),
            app.handlers() == spec_handlers(handlers@),
            app.parser() == spec_fresh(),
            app.parser_wf(),
    {
        HandlerApp { handlers, builder: RequestBuilder::new() }
    }

    /// How many rules the table holds.
    pub fn len(&self) -> (n: usize)
        ensures
            n == self.regexes().len(),
    {
        self.handlers.len()
    }

    /// Whether the parser has failed, so that the connection must close.
    pub fn failed(&self) -> (b: bool)
        ensures
            b == (self.parser().state == State::Error),
    {
        match self.builder.state() {
            State::Error => true,
            _ => false,
        }
    }

    /// The index of the rule that answers `path`.
    pub fn route(&self, path: &str) -> (r: Option<usize>)
        ensures
            r is Some <==> spec_route(self.regexes(), path@) is Some,
            r matches Some(i) ==> spec_route(self.regexes(), path@) == Some(i as int),
    {
        let mut i: usize = 0;
        while i < self.handlers.len()
            invariant
                i <= self.handlers@.len(),
                forall|j: int|
                    0 <= j < i ==> !spec_is_match(#[trigger] self.regexes()[j], path@),
            decreases self.handlers@.len() - i,
        {
            if self.handlers[i].regex.is_match(path) {
                proof {
                    assert(self.regexes()[i as int] == self.handlers@[i as int].regex());
                    lemma_first_match_unique(self.regexes(), path@, 0, i as int);
                }
                return Some(i);
            }
            proof {
                assert(self.regexes()[i as int] == self.handlers@[i as int].regex());
            }
            i += 1;
        }
        proof {
            lemma_first_match_unique(self.regexes(), path@, 0, i as int);
        }
        None
    }

    /// Answers one request: the handler of the first matching rule
    /// processes it; where no rule matches, the canned not-found response
    /// is sent. Returns the index of the rule that answered.
    pub fn dispatch(&mut self, request: Request, response: &mut Response) -> (r: Option<usize>)
        ensures
            final(self).regexes() == old(self).regexes(),
            final(self).parser() == old(self).parser(),
            final(self).parser_wf() == old(self).parser_wf(),
            r is Some <==> spec_route(old(self).regexes(), request@.uri) is Some,
            r matches Some(i) ==> spec_route(old(self).regexes(), request@.uri) == Some(i as int),
            spec_answered(
                old(self).regexes(),
                old(self).handlers(),
                request@,
                old(response)@,
                final(self).handlers(),
                final(response)@,
            ),
    {
        match self.route(request.path()) {
            Some(i) => {
                let ghost before = self.handlers@;
                self.handlers[i].handler.process(request, response);
                proof {
                    assert(spec_regexes(self.handlers@) =~= spec_regexes(before));
                    assert(self.handlers@.len() == before.len());
                    assert(spec_handlers(before)[i as int] == before[i as int].handler());
                    assert(spec_handlers(self.handlers@)[i as int] == self.handlers@[i as int].handler());
                    assert forall|j: int| 0 <= j < before.len() && j != i implies #[trigger] spec_handlers(
                        self.handlers@,
                    )[j] == spec_handlers(before)[j] by {
                        assert(self.handlers@[j] == before[j]);
                    }
                }
                Some(i)
            },
            None => {
                response.set_not_found().send();
                None
            },
        }
    }
}

/// Bytes that complete no request get no response: no handler changes and
/// nothing is written. So a protocol error, which hands out no request, is
/// answered by nothing but the end of the connection.
pub proof fn lemma_no_request_no_response<H: Handler>(
    app: HandlerApp<H>,
    data: Seq<u8>,
    before: ResponseView,
    then: HandlerApp<H>,
    after: ResponseView,
    keep: bool,
)
    requires
        app.handles(data, before, then, after, keep),
        spec_feed(app.parser(), data).0.len() == 0,
    ensures
        after == before,
        then.handlers() == app.handlers(),
        keep == (spec_feed(app.parser(), data).1.state != State::Error),
{
    let requests = spec_feed(app.parser(), data).0;
    lemma_unrouted(app.regexes(), app.handlers(), requests, before, then.handlers(), after);
}

/// One request, one answer: bytes that complete exactly one request have
/// it answered once, by the handler of the first rule that matches its
/// path, or by the canned not-found response where no rule does.
pub proof fn lemma_one_request<H: Handler>(
    app: HandlerApp<H>,
    data: Seq<u8>,
    before: ResponseView,
    then: HandlerApp<H>,
    after: ResponseView,
    keep: bool,
    request: RequestView,
)
    requires
        app.handles(data, before, then, after, keep),
        spec_feed(app.parser(), data).0 == seq![request],
    ensures
        spec_answered(app.regexes(), app.handlers(), request, before, then.handlers(), after),
        then.regexes() == app.regexes(),
        keep == (spec_feed(app.parser(), data).1.state != State::Error),
{
    let requests = spec_feed(app.parser(), data).0;
    let states = choose|states: Seq<(Seq<H>, ResponseView)>|
        #[trigger] spec_is_trace(app.regexes(), requests, states) && states[0] == (
            app.handlers(),
            before,
        ) && states.last() == (then.handlers(), after);
    assert(requests[0] == request);
}

/// End to end: an application with a fresh parser that takes in one
/// written request without a body answers exactly that request, once, as
/// its rules route it; the connection stays open and the parser is fresh
/// for the next request.
pub proof fn lemma_end_to_end<H: Handler>(
    app: HandlerApp<H>,
    line: Seq<u8>,
    headers: Seq<Seq<u8>>,
    before: ResponseView,
    then: HandlerApp<H>,
    after: ResponseView,
    keep: bool,
)
    requires
        app.parser() == spec_fresh(),
        spec_one_line(line),
        spec_request_line(line) is Some,
        spec_header_lines_ok(headers),
        spec_lookup(spec_headers_read(Seq::empty(), headers), spec_content_length()) is None,
        app.handles(spec_written(line, headers), before, then, after, keep),
    ensures
        keep,
        then.parser() == spec_fresh(),
        spec_answered(
            app.regexes(),
            app.handlers(),
            RequestView {
                headers: spec_headers_read(Seq::empty(), headers),
                ..spec_request_line(line).unwrap()
            },
            before,
            then.handlers(),
            after,
        ),
{
    lemma_written_is_read(line, headers);
    lemma_one_request(
        app,
        spec_written(line, headers),
        before,
        then,
        after,
        keep,
        RequestView {
            headers: spec_headers_read(Seq::empty(), headers),
            ..spec_request_line(line).unwrap()
        },
    );
}

impl<H: Handler> App for HandlerApp<H> {
    open spec fn wf(&self) -> bool {
        self.parser_wf()
    }

    /// The rules stay, the parser takes the bytes in, every request they
    /// complete is answered in order, and the connection can stay open
    /// unless the parser has failed.
    open spec fn handles(
        &self,
        data: Seq<u8>,
        before: ResponseView,
        then: Self,
        after: ResponseView,
        keep: bool,
    ) -> bool {
        &&& then.regexes() == self.regexes()
        &&& then.parser() == spec_feed(self.parser(), data).1
        &&& keep == (then.parser().state != State::Error)
        &&& spec_answered_all(
            self.regexes(),
            self.handlers(),
            spec_feed(self.parser(), data).0,
            before,
            then.handlers(),
            after,
        )
    }

    /// Takes in the bytes read from the connection and answers every
    /// request they complete, in order. Returns whether the connection can
    /// stay open: it cannot once the parser has failed.
    fn handle(&mut self, data: &[u8], response: &mut Response) -> (keep: bool)
        ensures
            final(self).regexes() == old(self).regexes(),
            final(self).parser() == spec_feed(old(self).parser(), data@).1,
            keep == (final(self).parser().state != State::Error),
            spec_answered_all(
                old(self).regexes(),
                old(self).handlers(),
                spec_feed(old(self).parser(), data@).0,
                old(response)@,
                final(self).handlers(),
                final(response)@,
            ),
    {
        self.builder.extend(data);
        let ghost target = spec_feed(old(self).parser(), data@);
        let ghost mut done: Seq<RequestView> = Seq::empty();
        let ghost mut trace: Seq<(Seq<H>, ResponseView)> = seq![(self.handlers(), response@)];
        assert(done + spec_drain(self.builder@).0 =~= target.0);
        loop
            invariant_except_break
                done + spec_drain(self.builder@).0 == target.0,
                spec_drain(self.builder@).1 == target.1,
            invariant
                self.parser_wf(),
                self.regexes() == old(self).regexes(),
                spec_is_trace(old(self).regexes(), done, trace),
                trace[0] == (old(self).handlers(), old(response)@),
                trace.last() == (self.handlers(), response@),
            ensures
                self.parser() == target.1,
                done == target.0,
            decreases self.builder@.pending(), spec_rank(self.builder@.state),
        {
            proof {
                self.builder.lemma_wf();
                lemma_drain_by_reads(self.builder@);
                lemma_drive_progress(self.builder@);
            }
            match self.builder.parse_request() {
                None => {
                    assert(done + Seq::<RequestView>::empty() =~= done);
                    break ;
                },
                Some(request) => {
                    let ghost before = done;
                    let ghost earlier = trace;
                    proof {
                        done = done.push(request@);
                        assert(before + (seq![request@] + spec_drain(self.builder@).0) =~= done
                            + spec_drain(self.builder@).0);
                    }
                    self.dispatch(request, response);
                    proof {
                        trace = trace.push((self.handlers(), response@));
                        assert forall|i: int| 0 <= i < done.len() implies spec_answered(
                            old(self).regexes(),
                            trace[i].0,
                            #[trigger] done[i],
                            trace[i].1,
                            trace[i + 1].0,
                            trace[i + 1].1,
                        ) by {
                            if i < before.len() {
                                assert(done[i] == before[i]);
                                assert(trace[i] == earlier[i]);
                                assert(trace[i + 1] == earlier[i + 1]);
                            } else {
                                assert(trace[i] == earlier.last());
                            }
                        }
                    }
                },
            }
        }
        !self.failed()
    }

    /// The same patterns, a duplicate of each handler, and a fresh parser.
    open spec fn duplicated(&self, copy: Self) -> bool {
        &&& copy.regexes() == self.regexes()
        &&& copy.parser() == spec_fresh()
        &&& spec_duplicated(self.handlers(), copy.handlers())
    }

    /// A table with the same patterns, a duplicate of each handler, and a
    /// fresh parser.
    fn duplicate(&self) -> (r: HandlerApp<H>)
    {
        let mut handlers: Vec<HandlerRule<H>> = Vec::new();
        let mut i: usize = 0;
        while i < self.handlers.len()
            invariant
                i <= self.handlers@.len(),
                handlers@.len() == i,
                forall|j: int|
                    0 <= j < i ==> (#[trigger] handlers@[j]).regex()
                        == self.handlers@[j].regex(),
                forall|j: int|
                    0 <= j < i ==> self.handlers@[j].handler().duplicated(
                        (#[trigger] handlers@[j]).handler(),
                    ),
            decreases self.handlers@.len() - i,
        {
            let rule = &self.handlers[i];
            handlers.push(HandlerRule { regex: rule.regex.clone(), handler: rule.handler.duplicate() });
            i += 1;
        }
        assert(spec_regexes(handlers@) =~= spec_regexes(self.handlers@));
        assert forall|j: int| 0 <= j < self.handlers@.len() implies spec_handlers(
            self.handlers@,
        )[j].duplicated(#[trigger] spec_handlers(handlers@)[j]) by {
            assert(handlers@[j].handler() == spec_handlers(handlers@)[j]);
        }
        HandlerApp { handlers, builder: RequestBuilder::new() }
    }
}

} // verus!
