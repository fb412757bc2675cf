//! Operations: the units of work that the registry drives, and what they
//! report back.

use vstd::prelude::*;
use bytes::BytesMut;
use crate::buffer::buffered;
use crate::ident::{ConnectionId, OperationId, RequestId};
use crate::package::Pkg;
use crate::session::{Request, SessionImpl};

verus! {

/// Why an operation ended without a result. Each of these is final.
#[derive(Debug, PartialEq, Eq)]
pub enum OperationError {
    /// The server rejected the request as malformed; with its message,
    /// where it sent one that could be read.
    ServerError(Option<String>),
    /// The server asks for credentials.
    AuthenticationRequired,
    /// The server redirected to another cluster node, which this client
    /// cannot follow.
    NotImplemented,
    /// The operation's own logic failed.
    InvalidOperation(String),
    /// The client is shutting down.
    Aborted,
}

impl OperationError {
    /// A second value equal to this one.
    pub fn duplicate(&self) -> (copy: OperationError)
        ensures
            copy == *self,
    {
        match self {
            OperationError::ServerError(Some(text)) => OperationError::ServerError(
                Some(text.clone()),
            ),
            OperationError::ServerError(None) => OperationError::ServerError(None),
            OperationError::AuthenticationRequired => OperationError::AuthenticationRequired,
            OperationError::NotImplemented => OperationError::NotImplemented,
            OperationError::InvalidOperation(text) => OperationError::InvalidOperation(
                text.clone(),
            ),
            OperationError::Aborted => OperationError::Aborted,
        }
    }
}

/// What a step of an operation came to.
#[derive(Debug)]
pub enum Outcome {
    /// The operation goes on; these packages are to be sent for it.
    Continue(Vec<Pkg>),
    /// The operation has concluded.
    Done,
}

impl Outcome {
    /// The packages that the step produced.
    pub open spec fn pkgs(self) -> Seq<Pkg> {
        match self {
            Outcome::Continue(pkgs) => pkgs@,
            Outcome::Done => Seq::empty(),
        }
    }

    pub fn produced_pkgs(self) -> (pkgs: Vec<Pkg>)
        ensures
            pkgs@ == self.pkgs(),
    {
        match self {
            Outcome::Continue(pkgs) => pkgs,
            Outcome::Done => Vec::new(),
        }
    }

    pub fn is_done(&self) -> (done: bool)
        ensures
            done == (*self is Done),
    {
        match self {
            Outcome::Continue(_) => false,
            Outcome::Done => true,
        }
    }
}

/// A unit of client work that may span several wire requests. Every step
/// is handed an empty encode buffer and a well-formed session, through
/// which alone the operation creates and gives up requests. A step that
/// fails reports a message.
pub trait Operation {
    /// Issues the operation's first requests.
    fn send<'a>(&mut self, dest: &mut BytesMut, session: &mut SessionImpl<'a>) -> (result: Result<
        Outcome,
        String,
    >)
        requires
            buffered(*old(dest)).len() == 0,
            old(session)@.wf(),
            old(session)@.running.len() == 0,
    ;

    /// Processes the reply `pkg` to one of the operation's requests.
    fn receive<'a>(
        &mut self,
        dest: &mut BytesMut,
        session: &mut SessionImpl<'a>,
        pkg: Pkg,
    ) -> (result: Result<Outcome, String>)
        requires
            buffered(*old(dest)).len() == 0,
            old(session)@.wf(),
            old(session)@.tracks(pkg.correlation),
    ;

    /// Issues the request under `id` again.
    fn retry<'a>(
        &mut self,
        dest: &mut BytesMut,
        session: &mut SessionImpl<'a>,
        id: RequestId,
    ) -> (result: Result<Outcome, String>)
        requires
            buffered(*old(dest)).len() == 0,
            old(session)@.wf(),
            old(session)@.tracks(id),
    ;

    /// Lets the operation look after its requests on its own: it may issue
    /// some again or declare itself done.
    fn check_and_retry<'a>(
        &mut self,
        dest: &mut BytesMut,
        session: &mut SessionImpl<'a>,
    ) -> (result: Result<Outcome, String>)
        requires
            buffered(*old(dest)).len() == 0,
            old(session)@.wf(),
    ;

    /// Tells the operation that it has failed for good.
    fn failed(&mut self, error: OperationError);
}

/// What an operation is handed for a step: the connection, and the records
/// of its own outstanding requests, oldest first.
pub struct Handed {
    pub connection: ConnectionId,
    pub running: Seq<Request>,
}

/// One call that was made on an operation.
pub enum Call {
    /// It was asked to issue its first requests.
    Send(Handed),
    /// It was handed this reply.
    Receive(Pkg, Handed),
    /// It was asked to issue the request under this id again.
    Retry(RequestId, Handed),
    /// It was asked to look after its requests.
    Check(Handed),
    /// It was told that it failed, with this error.
    Failed(OperationError),
}

/// A call, with the id of the operation it was made on.
pub type Event = (OperationId, Call);

/// The calls that were made on operations, in the order in which they were
/// made. It exists for proofs only. Nothing but the methods of
/// `OperationWrapper` adds to it, and each adds the call it makes.
pub struct History {
    events: Ghost<Seq<Event>>,
}

impl View for History {
    type V = Seq<Event>;

    closed spec fn view(&self) -> Seq<Event> {
        self.events@
    }
}

impl History {
    /// The history in which no call was made yet.
    pub fn new() -> (history: History)
        ensures
            history@ == Seq::<Event>::empty(),
    {
        History { events: Ghost(Seq::empty()) }
    }
}

/// An operation together with the id it is registered under. Every call
/// on the operation goes through the wrapper, which writes it down in the
/// history it is given.
pub struct OperationWrapper<O> {
    pub id: OperationId,
    pub inner: O,
}

impl<O: Operation> OperationWrapper<O> {
    pub fn new(id: OperationId, inner: O) -> (op: OperationWrapper<O>)
        ensures
            op == (OperationWrapper { id, inner }),
    {
        OperationWrapper { id, inner }
    }

    pub fn send<'a>(
        &mut self,
        history: &mut History,
        dest: &mut BytesMut,
        session: &mut SessionImpl<'a>,
    ) -> (result: Result<Outcome, String>)
        requires
            buffered(*old(dest)).len() == 0,
            old(session)@.wf(),
            old(session)@.running.len() == 0,
        ensures
            final(self).id == old(self).id,
            final(history)@ == old(history)@.push(
                (old(self).id, Call::Send(old(session)@.handed())),
            ),
    {
        history.events = Ghost(history.events@.push((self.id, Call::Send(session@.handed()))));
        self.inner.send(dest, session)
    }

    pub fn receive<'a>(
        &mut self,
        history: &mut History,
        dest: &mut BytesMut,
        session: &mut SessionImpl<'a>,
        pkg: Pkg,
    ) -> (result: Result<Outcome, String>)
        requires
            buffered(*old(dest)).len() == 0,
            old(session)@.wf(),
            old(session)@.tracks(pkg.correlation),
        ensures
            final(self).id == old(self).id,
            final(history)@ == old(history)@.push(
                (old(self).id, Call::Receive(pkg, old(session)@.handed())),
            ),
    {
        history.events = Ghost(
            history.events@.push((self.id, Call::Receive(pkg, session@.handed()))),
        );
        self.inner.receive(dest, session, pkg)
    }

    pub fn retry<'a>(
        &mut self,
        history: &mut History,
        dest: &mut BytesMut,
        session: &mut SessionImpl<'a>,
        id: RequestId,
    ) -> (result: Result<Outcome, String>)
        requires
            buffered(*old(dest)).len() == 0,
            old(session)@.wf(),
            old(session)@.tracks(id),
        ensures
            final(self).id == old(self).id,
            final(history)@ == old(history)@.push(
                (old(self).id, Call::Retry(id, old(session)@.handed())),
            ),
    {
        history.events = Ghost(history.events@.push((self.id, Call::Retry(id, session@.handed()))));
        self.inner.retry(dest, session, id)
    }

    pub fn check_and_retry<'a>(
        &mut self,
        history: &mut History,
        dest: &mut BytesMut,
        session: &mut SessionImpl<'a>,
    ) -> (result: Result<Outcome, String>)
        requires
            buffered(*old(dest)).len() == 0,
            old(session)@.wf(),
        ensures
            final(self).id == old(self).id,
            final(history)@ == old(history)@.push(
                (old(self).id, Call::Check(old(session)@.handed())),
            ),
    {
        history.events = Ghost(history.events@.push((self.id, Call::Check(session@.handed()))));
        self.inner.check_and_retry(dest, session)
    }

    pub fn failed(&mut self, history: &mut History, error: OperationError)
        ensures
            final(self).id == old(self).id,
            final(history)@ == old(history)@.push((old(self).id, Call::Failed(error))),
    {
        history.events = Ghost(history.events@.push((self.id, Call::Failed(error))));
        self.inner.failed(error)
    }
}

} // verus!
