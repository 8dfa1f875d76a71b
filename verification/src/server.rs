//! The server as its user sets it up: an address, a number of workers, and
//! the handlers by path pattern.

use vstd::prelude::*;
use vstd::string::StringExecFns;
use regex::Regex;
use crate::app_server::AppServer;
use crate::handler_lib::{
    push_rule, spec_handlers, spec_regexes, Handler, HandlerApp, HandlerRule, RouteError,
};
use crate::pattern::{spec_compiles, spec_pattern_text, spec_texts};
use crate::http::parser::spec_fresh;

verus! {

/// The pattern that a rule for `pattern` is compiled from: it must match
/// the whole path.
pub open spec fn spec_anchored(pattern: Seq<char>) -> Seq<char> {
    "^"@ + pattern + "$"@
}

/// A server under construction.
pub struct WebServer<H: Handler> {
    host: String,
    handlers: Vec<HandlerRule<H>>,
    num_workers: usize,
}

impl<H: Handler> WebServer<H> {
    /// The address to listen on.
    pub closed spec fn spec_host(&self) -> Seq<char> {
        self.host@
    }

    /// The number of workers.
    pub closed spec fn spec_num_workers(&self) -> usize {
        self.num_workers
    }

    /// The compiled patterns of the rules added so far, in order.
    pub closed spec fn regexes(&self) -> Seq<Regex> {
        spec_regexes(self.handlers@)
    }

    /// The pattern texts of the rules added so far, in order.
    pub open spec fn patterns(&self) -> Seq<Seq<char>> {
        spec_texts(self.regexes())
    }

    /// The handlers of the rules added so far, in order.
    pub closed spec fn handlers(&self) -> Seq<H> {
        spec_handlers(self.handlers@)
    }

    pub fn new(host: &str, num_workers: usize) -> (s: WebServer<H>)
        ensures
            s.spec_host() == host@,
            s.spec_num_workers() == num_workers,
            s.regexes() == Seq::<Regex>::empty(),
            s.handlers() == Seq::<H>::empty(),
    {
        let s = WebServer { host: host.to_owned(), handlers: Vec::new(), num_workers };
        assert(s.regexes() =~= Seq::<Regex>::empty());
        assert(s.handlers() =~= Seq::<H>::empty());
        s
    }

    /// Adds the rule that was compiled from the anchored pattern, or
    /// reports that the pattern did not compile.
    pub fn add_compiled(&mut self, compiled: Result<Regex, regex::Error>, handler: H) -> (r: Result<
        (),
        RouteError,
    >)
        ensures
            final(self).spec_host() == old(self).spec_host(),
            final(self).spec_num_workers() == old(self).spec_num_workers(),
            match compiled {
                Ok(regex) => r is Ok && final(self).regexes() == old(self).regexes().push(regex)
                    && final(self).handlers() == old(self).handlers().push(handler),
                Err(_) => r == Err::<(), RouteError>(
                    RouteError::BadPattern(old(self).regexes().len() as usize),
                ) && final(self).regexes() == old(self).regexes() && final(self).handlers()
                    == old(self).handlers(),
            },
    {
        push_rule(&mut self.handlers, compiled, handler)
    }

    /// Adds a rule at the end of the table: paths that `pattern` matches as
    /// a whole go to `handler`, unless an earlier rule takes them. It
    /// succeeds where the anchored pattern compiles; a pattern that does
    /// not is reported and changes nothing.
    pub fn add_handler(&mut self, pattern: &str, handler: H) -> (r: Result<(), RouteError>)
        ensures
            final(self).spec_host() == old(self).spec_host(),
            final(self).spec_num_workers() == old(self).spec_num_workers(),
            r is Ok <==> spec_compiles(spec_anchored(pattern@)),
            r is Ok ==> final(self).regexes().len() == old(self).regexes().len() + 1 && final(self).regexes().drop_last() == old(self).regexes() && spec_pattern_text(
                final(self).regexes().last(),
            ) == spec_anchored(pattern@) && final(self).handlers() == old(self).handlers().push(
                handler,
            ),
            r is Err ==> r == Err::<(), RouteError>(
                RouteError::BadPattern(old(self).regexes().len() as usize),
            ) && final(self).regexes() == old(self).regexes() && final(self).handlers() == old(self).handlers(),
    {
        let anchored = String::from_str("^").concat(pattern).concat("$");
        let compiled = Regex::new(anchored.as_str());
        self.add_compiled(compiled, handler)
    }

    /// The server that runs the rules added so far.
    pub fn build(self) -> (s: AppServer<HandlerApp<H>>)
        ensures
            s.spec_host() == self.spec_host(),
            s.spec_num_workers() == self.spec_num_workers(),
            s.app().regexes() == self.regexes(),
            s.app().handlers() == self.handlers(),
            s.app().parser() == spec_fresh(),
            s.app().parser_wf(),
    {
        let app = HandlerApp::from_rules(self.handlers);
        AppServer::new(self.host.as_str(), self.num_workers, app)
    }
}

} // verus!
