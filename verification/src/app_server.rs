//! A worker's side of the server: the connections it owns and what it does
//! with the reactor's messages.
//!
//! A worker keeps one application instance and one response writer per
//! connection, keyed by the connection's identity. The sockets themselves
//! stay with the transport, which acts on what the worker returns.

use vstd::prelude::*;
use std::collections::HashMap;
use crate::event_loop::{Action, EventHandler, EventLoop, Msg, Ready};
use crate::http::response::{spec_new_response, Response, ResponseView};

verus! {

broadcast use vstd::std_specs::hash::group_hash_axioms;

/// What turns the bytes of one connection into responses. Each connection
/// gets an instance of its own: `duplicate` makes a fresh, independent one
/// from the same configuration.
pub trait App: Sized {
    /// What the instance needs to hold between calls. An application that
    /// says nothing needs nothing.
    open spec fn wf(&self) -> bool {
        true
    }

    /// What the application says of itself: whether taking in `data` can
    /// take it from `self` to `then` and the response writer from `before`
    /// to `after`, with `keep` as the answer to whether the connection can
    /// stay open. An application that says nothing admits everything.
    open spec fn handles(
        &self,
        data: Seq<u8>,
        before: ResponseView,
        then: Self,
        after: ResponseView,
        keep: bool,
    ) -> bool {
        true
    }

    /// Takes in bytes read from the connection and writes what answers
    /// them. Returns whether the connection can stay open.
    fn handle(&mut self, data: &[u8], response: &mut Response) -> (keep: bool)
        requires
            old(self).wf(),
        ensures
            final(self).wf(),
            old(self).handles(data@, old(response)@, *final(self), final(response)@, keep),
    ;

    /// What the application says of its duplicates: whether `copy` can be
    /// one. An application that says nothing admits everything.
    open spec fn duplicated(&self, copy: Self) -> bool {
        true
    }

    fn duplicate(&self) -> (r: Self)
        ensures
            r.wf(),
            self.duplicated(r),
    ;
}

/// One connection as its worker sees it.
pub struct Connection<A> {
    app: A,
    response: Response,
}

/// What a worker hands back after it took in bytes of a connection.
pub struct Reply {
    /// The bytes to write to the socket, in order.
    pub output: Vec<u8>,
    /// Whether the connection is gone and its socket is to be closed.
    pub close: bool,
}

/// A worker: the connections it owns and the application they run.
pub struct AppEventHandler<A: App> {
    app: A,
    conns: HashMap<usize, Connection<A>>,
}

impl<A: App> AppEventHandler<A> {
    /// The identities of the connections that the worker owns.
    pub closed spec fn ids(&self) -> Set<usize> {
        self.conns@.dom()
    }

    /// The application that every connection gets a duplicate of.
    pub closed spec fn prototype(&self) -> A {
        self.app
    }

    /// The application instance of connection `id`.
    pub closed spec fn app_of(&self, id: usize) -> A {
        self.conns@[id].app
    }

    /// The response writer of connection `id`.
    pub closed spec fn writer_of(&self, id: usize) -> ResponseView {
        self.conns@[id].response@
    }

    /// Whether the connections other than `id` are the same in `self` and
    /// in `other`.
    pub open spec fn same_but(&self, other: &Self, id: usize) -> bool {
        forall|k: usize|
            k != id && #[trigger] self.ids().contains(k) ==> self.app_of(k) == other.app_of(k)
                && self.writer_of(k) == other.writer_of(k)
    }

    /// Whether the connection `id` is the same in `self` and in `other`.
    pub open spec fn same_at(&self, other: &Self, id: usize) -> bool {
        self.app_of(id) == other.app_of(id) && self.writer_of(id) == other.writer_of(id)
    }

    /// The worker's invariant: every application instance it holds keeps
    /// its own, and between calls no connection has bytes queued that the
    /// transport has not been given.
    pub open spec fn inv(&self) -> bool {
        &&& self.prototype().wf()
        &&& forall|id: usize| #[trigger]
            self.ids().contains(id) ==> self.app_of(id).wf() && self.writer_of(id).sent
                == Seq::<u8>::empty()
    }

    /// A worker without connections.
    pub fn new(app: A) -> (w: AppEventHandler<A>)
        requires
            app.wf(),
        ensures
            w.ids() == Set::<usize>::empty(),
            w.prototype() == app,
            w.inv(),
    {
        let w = AppEventHandler { app, conns: HashMap::new() };
        assert(w.ids() =~= Set::<usize>::empty());
        w
    }

    /// Whether the worker owns connection `id`.
    pub fn owns(&self, id: usize) -> (b: bool)
        ensures
            b == self.ids().contains(id),
    {
        self.conns.contains_key(&id)
    }

    /// How many connections the worker owns.
    pub fn len(&self) -> (n: usize)
        ensures
            n == self.ids().len(),
    {
        self.conns.len()
    }

    /// Takes in bytes that the transport read from connection `id` and
    /// returns what is to be written back. A connection whose application
    /// gives it up is dropped; bytes for an unknown connection are ignored.
    pub fn conn_data(&mut self, id: usize, data: &[u8]) -> (r: Reply)
        requires
            old(self).inv(),
        ensures
            final(self).inv(),
            !old(self).ids().contains(id) ==> !r.close && r.output@.len() == 0 && final(self).ids() == old(self).ids(),
            old(self).ids().contains(id) && !r.close ==> final(self).ids() == old(self).ids(),
            old(self).ids().contains(id) && r.close ==> final(self).ids() == old(self).ids().remove(id),
            final(self).same_but(old(self), id),
            final(self).prototype() == old(self).prototype(),
            old(self).ids().contains(id) ==> exists|then: A, after: ResponseView, keep: bool|
                {
                    &&& #[trigger] old(self).app_of(id).handles(
                        data@,
                        old(self).writer_of(id),
                        then,
                        after,
                        keep,
                    )
                    &&& keep != r.close
                    &&& r.output@ == after.sent
                    &&& !r.close ==> final(self).app_of(id) == then && final(self).writer_of(id)
                        == (ResponseView { sent: Seq::empty(), ..after })
                },
    {
        match self.conns.remove(&id) {
            None => {
                assert(self.conns@ =~= old(self).conns@);
                assert forall|k: usize| #[trigger] self.ids().contains(k) implies self.app_of(
                    k,
                ).wf() && self.writer_of(k).sent == Seq::<u8>::empty() by {
                    assert(old(self).ids().contains(k));
                }
                Reply { output: Vec::new(), close: false }
            },
            Some(conn) => {
                let mut conn = conn;
                assert(old(self).ids().contains(id));
                let keep = conn.app.handle(data, &mut conn.response);
                let ghost then = conn.app;
                let ghost after = conn.response@;
                let output = conn.response.take_sent();
                let ghost kept = conn;
                if keep {
                    self.conns.insert(id, conn);
                    assert(self.conns@.dom() =~= old(self).conns@.dom());
                    assert(self.conns@[id] == kept);
                }
                assert(old(self).app_of(id).handles(
                    data@,
                    old(self).writer_of(id),
                    then,
                    after,
                    keep,
                ));
                assert forall|k: usize| #[trigger] self.ids().contains(k) implies self.app_of(
                    k,
                ).wf() && self.writer_of(k).sent == Seq::<u8>::empty() by {
                    if k != id {
                        assert(old(self).ids().contains(k));
                    }
                }
                Reply { output, close: !keep }
            },
        }
    }
}

impl<A: App> EventHandler for AppEventHandler<A> {
    open spec fn wf(&self) -> bool {
        self.inv()
    }

    /// A new connection joins with a fresh response writer; a readiness
    /// report is answered by `spec_conn_event`, and a shutdown removes the
    /// connection. Every other connection stays as it is.
    open spec fn reacts(&self, msg: Msg, then: Self, action: Action) -> bool {
        match msg {
            Msg::NewConn(id) => {
                &&& action == Action::Ignore
                &&& then.prototype() == self.prototype()
                &&& then.ids() == self.ids().insert(id)
                &&& self.prototype().duplicated(then.app_of(id))
                &&& then.writer_of(id) == spec_new_response()
                &&& then.same_but(self, id)
            },
            Msg::ConnEvent(id, event) => {
                &&& action == spec_conn_event(self.ids(), id, event)
                &&& then.prototype() == self.prototype()
                &&& then.ids() == (if action is Shutdown {
                    self.ids().remove(id)
                } else {
                    self.ids()
                })
                &&& then.same_but(self, id)
                &&& !(action is Shutdown) && self.ids().contains(id) ==> then.same_at(self, id)
            },
        }
    }

    /// Takes a new connection in, with a fresh application instance and a
    /// fresh response writer.
    fn new_conn(&mut self, id: usize)
        ensures
            final(self).ids() == old(self).ids().insert(id),
            old(self).prototype().duplicated(final(self).app_of(id)),
            final(self).writer_of(id) == spec_new_response(),
            final(self).same_but(old(self), id),
            final(self).prototype() == old(self).prototype(),
    {
        let conn = Connection { app: self.app.duplicate(), response: Response::new() };
        self.conns.insert(id, conn);
        assert forall|k: usize| #[trigger] self.ids().contains(k) implies self.app_of(k).wf()
            && self.writer_of(k).sent == Seq::<u8>::empty() by {
            if k != id {
                assert(old(self).ids().contains(k));
            }
        }
    }

    /// Decides what a readiness report means for connection `id`. Error and
    /// hang-up end a connection that the worker owns; a readable socket of
    /// an owned connection is to be read; a report about a connection that
    /// the worker does not own is ignored. A connection that is not ended
    /// stays as it is, with all that it has buffered.
    fn conn_event(&mut self, id: usize, event: Ready) -> (a: Action)
        ensures
            a == spec_conn_event(old(self).ids(), id, event),
            final(self).ids() == (if a is Shutdown {
                old(self).ids().remove(id)
            } else {
                old(self).ids()
            }),
            final(self).same_but(old(self), id),
            !(a is Shutdown) && old(self).ids().contains(id) ==> final(self).same_at(old(self), id),
            final(self).prototype() == old(self).prototype(),
    {
        if event.is_error() || event.is_hup() {
            match self.conns.remove(&id) {
                None => {
                    assert(self.conns@ =~= old(self).conns@);
                },
                Some(_) => {
                    return Action::Shutdown { drain: event.is_readable() };
                },
            }
        }
        if event.is_readable() && self.conns.contains_key(&id) {
            Action::Read
        } else {
            Action::Ignore
        }
    }

    /// No connections, and a duplicate of the application.
    open spec fn duplicated(&self, copy: Self) -> bool {
        &&& copy.ids() == Set::<usize>::empty()
        &&& self.prototype().duplicated(copy.prototype())
    }

    fn duplicate(&self) -> (r: AppEventHandler<A>)
    {
        AppEventHandler::new(self.app.duplicate())
    }
}

/// What a worker that owns the connections `ids` does on a readiness
/// report about `id`.
pub open spec fn spec_conn_event(ids: Set<usize>, id: usize, event: Ready) -> Action {
    if (event.error || event.hup) && ids.contains(id) {
        Action::Shutdown { drain: event.readable }
    } else if event.readable && ids.contains(id) && !(event.error || event.hup) {
        Action::Read
    } else {
        Action::Ignore
    }
}

/// A server before it runs: where to listen, how many workers, and the
/// application that every connection gets a duplicate of.
pub struct AppServer<A: App> {
    host: String,
    num_workers: usize,
    app: A,
}

impl<A: App> AppServer<A> {
    /// The address to listen on.
    pub closed spec fn spec_host(&self) -> Seq<char> {
        self.host@
    }

    /// The number of workers.
    pub closed spec fn spec_num_workers(&self) -> usize {
        self.num_workers
    }

    /// The application.
    pub closed spec fn app(&self) -> A {
        self.app
    }

    pub fn new(host: &str, num_workers: usize, app: A) -> (s: AppServer<A>)
        ensures
            s.spec_host() == host@,
            s.spec_num_workers() == num_workers,
            s.app() == app,
    {
        AppServer { host: host.to_owned(), num_workers, app }
    }

    /// The reactor's bookkeeping for this server, with the worker that the
    /// others are duplicates of: it owns no connection, and every
    /// connection gets a duplicate of the server's application.
    pub fn event_loop(self) -> (l: EventLoop<AppEventHandler<A>>)
        requires
            self.app().wf(),
        ensures
            l@.host == self.spec_host(),
            l@.num_workers == self.spec_num_workers(),
            l@.next_conn == 1,
            l@.handler.ids() == Set::<usize>::empty(),
            l@.handler.prototype() == self.app(),
            l@.handler.inv(),
    {
        EventLoop::new(self.host.as_str(), self.num_workers, AppEventHandler::new(self.app))
    }
}

} // verus!
