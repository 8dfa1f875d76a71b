//! The reactor's decisions: which identity a new connection gets and which
//! worker hears about it.
//!
//! The reactor itself waits on the operating system and moves sockets; that
//! part lives outside this library. What is decided here is pure: a counter
//! hands out identities, and a connection with identity `id` belongs to
//! worker `id mod N` for as long as it lives.

use vstd::prelude::*;

verus! {

/// The token of the listening socket. No connection ever gets it.
pub const SERVER: usize = 0;

/// What the operating system reported about a socket.
#[derive(Clone, Copy, Debug, PartialEq, Eq, Structural)]
pub struct Ready {
    pub readable: bool,
    pub error: bool,
    pub hup: bool,
}

/// The three kinds of readiness that a worker tells apart.
#[derive(Clone, Copy, Debug, PartialEq, Eq, Structural)]
pub enum Readiness {
    Readable,
    ErrorOrHangup,
    Other,
}

/// Error and hang-up outrank readable.
pub open spec fn spec_kind(event: Ready) -> Readiness {
    if event.error || event.hup {
        Readiness::ErrorOrHangup
    } else if event.readable {
        Readiness::Readable
    } else {
        Readiness::Other
    }
}

impl Ready {
    pub fn readable() -> (r: Ready)
        ensures
            r == (Ready { readable: true, error: false, hup: false }),
    {
        Ready { readable: true, error: false, hup: false }
    }

    pub fn is_readable(&self) -> (b: bool)
        ensures
            b == self.readable,
    {
        self.readable
    }

    pub fn is_error(&self) -> (b: bool)
        ensures
            b == self.error,
    {
        self.error
    }

    pub fn is_hup(&self) -> (b: bool)
        ensures
            b == self.hup,
    {
        self.hup
    }

    /// Which of the three kinds of readiness this is.
    pub fn kind(&self) -> (k: Readiness)
        ensures
            k == spec_kind(*self),
    {
        if self.error || self.hup {
            Readiness::ErrorOrHangup
        } else if self.readable {
            Readiness::Readable
        } else {
            Readiness::Other
        }
    }
}

/// What the reactor tells a worker.
#[derive(Clone, Copy, Debug, PartialEq, Eq, Structural)]
pub enum Msg {
    /// A client was accepted and got this identity.
    NewConn(usize),
    /// The socket of this connection is ready in this way.
    ConnEvent(usize, Ready),
}

/// The connection that a message is about.
pub open spec fn spec_subject(msg: Msg) -> usize {
    match msg {
        Msg::NewConn(id) => id,
        Msg::ConnEvent(id, _) => id,
    }
}

impl Msg {
    /// The connection that the message is about.
    pub fn subject(&self) -> (id: usize)
        ensures
            id == spec_subject(*self),
    {
        match *self {
            Msg::NewConn(id) => id,
            Msg::ConnEvent(id, _) => id,
        }
    }
}

/// A message and the worker it goes to.
#[derive(Clone, Copy, Debug, PartialEq, Eq, Structural)]
pub struct Dispatch {
    pub worker: usize,
    pub msg: Msg,
}

/// What a readiness report asks of the reactor.
#[derive(Clone, Copy, Debug, PartialEq, Eq, Structural)]
pub enum Wakeup {
    /// The listening socket is ready: accept until no client is pending.
    Accept,
    /// A connection is ready: pass the report on.
    Forward(Dispatch),
}

/// What a worker asks of the transport after a message.
#[derive(Clone, Copy, Debug, PartialEq, Eq, Structural)]
pub enum Action {
    /// Nothing to do.
    Ignore,
    /// Read what the socket holds and hand it to the connection.
    Read,
    /// The connection is gone: read off what is left where `drain` is set,
    /// then shut the socket down in both directions.
    Shutdown { drain: bool },
}

/// What a worker does with the reactor's messages.
pub trait EventHandler: Sized {
    /// What the worker needs to hold between messages. A worker that says
    /// nothing needs nothing.
    open spec fn wf(&self) -> bool {
        true
    }

    /// What the worker says of itself: whether `msg` can take it from
    /// `self` to `then` with `action` as what it asks of the transport. A
    /// worker that says nothing admits everything.
    open spec fn reacts(&self, msg: Msg, then: Self, action: Action) -> bool {
        true
    }

    fn new_conn(&mut self, id: usize)
        requires
            old(self).wf(),
        ensures
            final(self).wf(),
            old(self).reacts(Msg::NewConn(id), *final(self), Action::Ignore),
    ;

    fn conn_event(&mut self, id: usize, event: Ready) -> (a: Action)
        requires
            old(self).wf(),
        ensures
            final(self).wf(),
            old(self).reacts(Msg::ConnEvent(id, event), *final(self), a),
    ;

    /// What the worker says of its duplicates: whether `copy` can be one.
    /// A worker that says nothing admits everything.
    open spec fn duplicated(&self, copy: Self) -> bool {
        true
    }

    fn duplicate(&self) -> (r: Self)
        requires
            self.wf(),
        ensures
            r.wf(),
            self.duplicated(r),
    ;
}

/// The worker that owns connection `id` among `workers` workers.
pub open spec fn spec_owner(id: usize, workers: usize) -> int {
    id as int % workers as int
}

/// The reactor's state: plain values, and the workers' handler as it is.
pub struct EventLoopView<E> {
    pub host: Seq<char>,
    pub num_workers: usize,
    /// The identity that the next accepted client gets.
    pub next_conn: usize,
    /// The handler that every worker gets a duplicate of.
    pub handler: E,
}

/// The message that an accepted client causes, where an identity is left.
pub open spec fn spec_accept<E>(s: EventLoopView<E>) -> Option<Dispatch> {
    if s.next_conn < usize::MAX {
        Some(
            Dispatch {
                worker: spec_owner(s.next_conn, s.num_workers) as usize,
                msg: Msg::NewConn(s.next_conn),
            },
        )
    } else {
        None
    }
}

/// What a readiness report on `token` asks for.
pub open spec fn spec_wake<E>(s: EventLoopView<E>, token: usize, event: Ready) -> Wakeup {
    if token == SERVER {
        Wakeup::Accept
    } else {
        Wakeup::Forward(
            Dispatch {
                worker: spec_owner(token, s.num_workers) as usize,
                msg: Msg::ConnEvent(token, event),
            },
        )
    }
}

/// The reactor's bookkeeping: the address to listen on, the number of
/// workers, the identity counter, and the handler that every worker gets a
/// duplicate of.
pub struct EventLoop<E: EventHandler> {
    host: String,
    num_workers: usize,
    next_conn: usize,
    event_handler: E,
}

impl<E: EventHandler> View for EventLoop<E> {
    type V = EventLoopView<E>;

    closed spec fn view(&self) -> EventLoopView<E> {
        EventLoopView {
            host: self.host@,
            num_workers: self.num_workers,
            next_conn: self.next_conn,
            handler: self.event_handler,
        }
    }
}

impl<E: EventHandler> EventLoop<E> {
    /// A reactor that has accepted nobody: the first client gets identity 1.
    pub fn new(host: &str, num_workers: usize, event_handler: E) -> (l: EventLoop<E>)
        ensures
            l@ == (EventLoopView {
                host: host@,
                num_workers,
                next_conn: 1,
                handler: event_handler,
            }),
    {
        EventLoop { host: host.to_owned(), num_workers, next_conn: 1, event_handler }
    }

    /// The handler for one more worker: a duplicate of the reactor's.
    pub fn worker(&self) -> (w: E)
        requires
            self@.handler.wf(),
        ensures
            w.wf(),
            self@.handler.duplicated(w),
    {
        self.event_handler.duplicate()
    }

    pub fn host(&self) -> (h: &str)
        ensures
            h@ == self@.host,
    {
        self.host.as_str()
    }

    pub fn num_workers(&self) -> (n: usize)
        ensures
            n == self@.num_workers,
    {
        self.num_workers
    }

    /// The worker that owns connection `id`.
    pub fn owner(&self, id: usize) -> (w: usize)
        requires
            self@.num_workers > 0,
        ensures
            w == spec_owner(id, self@.num_workers),
            w < self@.num_workers,
    {
        id % self.num_workers
    }

    /// Gives an accepted client the next identity and says which worker is
    /// to be told. Once the counter is used up no identity is given any
    /// more, so that none is ever used twice.
    pub fn accept(&mut self) -> (r: Option<Dispatch>)
        requires
            old(self)@.num_workers > 0,
        ensures
            r == spec_accept(old(self)@),
            r is Some ==> final(self)@ == spec_after_accepts(old(self)@, 1),
            r is None ==> final(self)@ == old(self)@,
    {
        if self.next_conn == usize::MAX {
            return None;
        }
        let id = self.next_conn;
        self.next_conn = id + 1;
        Some(Dispatch { worker: id % self.num_workers, msg: Msg::NewConn(id) })
    }

    /// Sorts a readiness report: the listening socket asks for accepting,
    /// any other token is a connection whose worker is to be told.
    pub fn wake(&self, token: usize, event: Ready) -> (w: Wakeup)
        requires
            self@.num_workers > 0,
        ensures
            w == spec_wake(self@, token, event),
    {
        if token == SERVER {
            Wakeup::Accept
        } else {
            Wakeup::Forward(
                Dispatch { worker: token % self.num_workers, msg: Msg::ConnEvent(token, event) },
            )
        }
    }

    /// One turn of a worker: hands a message of the reactor to the worker's
    /// handler and returns what the handler asks of the transport.
    pub fn process_events(msg: Msg, event_handler: &mut E) -> (a: Action)
        requires
            old(event_handler).wf(),
        ensures
            final(event_handler).wf(),
            old(event_handler).reacts(msg, *final(event_handler), a),
            msg is NewConn ==> a == Action::Ignore,
    {
        match msg {
            Msg::NewConn(id) => {
                event_handler.new_conn(id);
                Action::Ignore
            },
            Msg::ConnEvent(id, event) => event_handler.conn_event(id, event),
        }
    }
}

/// The reactor after it has accepted `count` clients.
pub open spec fn spec_after_accepts<E>(s: EventLoopView<E>, count: nat) -> EventLoopView<E> {
    EventLoopView { next_conn: (s.next_conn + count) as usize, ..s }
}

/// Partition: whatever the reactor has accepted in between, every message
/// about one connection goes to the same worker, the one numbered by the
/// identity modulo the number of workers, and that worker exists.
pub proof fn lemma_partition<E>(
    s: EventLoopView<E>,
    t: EventLoopView<E>,
    id: usize,
    first: Ready,
    second: Ready,
)
    requires
        s.num_workers > 0,
        t.num_workers == s.num_workers,
        id != SERVER,
    ensures
        0 <= spec_owner(id, s.num_workers) < s.num_workers,
        spec_wake(s, id, first) == Wakeup::Forward(
            Dispatch {
                worker: spec_owner(id, s.num_workers) as usize,
                msg: Msg::ConnEvent(id, first),
            },
        ),
        spec_wake(t, id, second) == Wakeup::Forward(
            Dispatch {
                worker: spec_owner(id, s.num_workers) as usize,
                msg: Msg::ConnEvent(id, second),
            },
        ),
        s.next_conn == id && id < usize::MAX ==> spec_accept(s) == Some(
            Dispatch { worker: spec_owner(id, s.num_workers) as usize, msg: Msg::NewConn(id) },
        ),
{
}

/// No connection is seen by two workers: messages that go to different
/// workers are about different connections.
pub proof fn lemma_workers_disjoint<E>(s: EventLoopView<E>, a: Dispatch, b: Dispatch)
    requires
        s.num_workers > 0,
        a.worker == spec_owner(spec_subject(a.msg), s.num_workers),
        b.worker == spec_owner(spec_subject(b.msg), s.num_workers),
        a.worker != b.worker,
    ensures
        spec_subject(a.msg) != spec_subject(b.msg),
{
}

/// Identities are handed out one after the other, never twice, and never
/// the listener's token.
pub proof fn lemma_identities<E>(s: EventLoopView<E>, count: nat)
    requires
        s.num_workers > 0,
        s.next_conn >= 1,
        s.next_conn + count <= usize::MAX,
    ensures
        forall|i: nat|
            i < count ==> #[trigger] spec_accept(spec_after_accepts(s, i)) == Some(
                Dispatch {
                    worker: spec_owner((s.next_conn + i) as usize, s.num_workers) as usize,
                    msg: Msg::NewConn((s.next_conn + i) as usize),
                },
            ),
        forall|i: nat, j: nat|
            i < j < count ==> #[trigger] spec_after_accepts(s, i).next_conn
                < #[trigger] spec_after_accepts(s, j).next_conn,
        forall|i: nat| i < count ==> #[trigger] spec_after_accepts(s, i).next_conn != SERVER,
{
}

} // verus!
