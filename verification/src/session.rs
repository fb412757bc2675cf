//! The capability through which an operation manages its own requests
//! during one step.

use vstd::prelude::*;
use std::collections::HashMap;
use crate::command::Cmd;
use crate::ident::{is_random_uuid, ConnectionId, OperationId, RequestId};
use crate::operations::Handed;
use crate::tracking::{Tracking, TrackingView};

verus! {

/// Associates an outstanding request with the operation that owns it.
#[derive(Debug)]
pub struct Request {
    pub session: OperationId,
    pub tracker: Tracking,
}

impl Request {
    /// A record for a new request of operation `session`, under a randomly
    /// drawn id.
    pub fn new(session: OperationId, cmd: Cmd, conn_id: ConnectionId) -> (req: Request)
        ensures
            req.session == session,
            is_random_uuid(req.tracker@.id),
            req.tracker@.cmd == cmd,
            req.tracker@.conn_id == conn_id,
    {
        Request { session, tracker: Tracking::new(cmd, conn_id) }
    }

    pub fn get_id(&self) -> (id: RequestId)
        ensures
            id == self.tracker@.id,
    {
        self.tracker.get_id()
    }
}

/// Why a session could not hand out a tracking record.
#[derive(Clone, Copy, Debug, PartialEq, Eq, Structural)]
pub enum SessionError {
    /// The session holds no request under the id that was asked for.
    TrackerNotFound,
}

impl SessionError {
    pub fn message(&self) -> (text: &'static str)
        ensures
            text@ == "Tracker must exists"@,
    {
        "Tracker must exists"
    }
}

/// A session as plain data.
pub struct SessionView {
    /// The operation the session belongs to.
    pub owner: OperationId,
    /// The connection that new requests are bound to.
    pub connection: ConnectionId,
    /// The operation's outstanding requests, oldest first.
    pub running: Seq<Request>,
    /// The outstanding requests of all other operations, by id.
    pub foreign: Map<RequestId, Request>,
}

impl SessionView {
    /// The id of the request at position `i`.
    pub open spec fn id_at(self, i: int) -> RequestId {
        self.running[i].tracker@.id
    }

    /// The session holds a request under `id`.
    pub open spec fn tracks(self, id: RequestId) -> bool {
        exists|i: int| 0 <= i < self.running.len() && self.id_at(i) == id
    }

    /// Some operation, this one or another, has a request under `id`.
    pub open spec fn in_use(self, id: RequestId) -> bool {
        self.tracks(id) || self.foreign.contains_key(id)
    }

    /// `i` is the first position that holds a request under `id`.
    pub open spec fn is_first(self, id: RequestId, i: int) -> bool {
        &&& 0 <= i < self.running.len()
        &&& self.id_at(i) == id
        &&& forall|j: int| 0 <= j < i ==> self.id_at(j) != id
    }

    /// The first position that holds a request under `id`, where there is one.
    pub open spec fn position(self, id: RequestId) -> int {
        choose|i: int| self.is_first(id, i)
    }

    /// The session after it took `tracker` in: appended to the running
    /// requests, unless its id is taken.
    pub open spec fn adopt(self, tracker: Tracking) -> SessionView {
        if self.in_use(tracker@.id) {
            self
        } else {
            SessionView {
                running: self.running.push(Request { session: self.owner, tracker }),
                ..self
            }
        }
    }

    /// The session after it gave up the request under `id`, if it held one.
    pub open spec fn release(self, id: RequestId) -> SessionView {
        if self.tracks(id) {
            SessionView { running: self.running.remove(self.position(id)), ..self }
        } else {
            self
        }
    }

    /// The session with the record at position `i` replaced by `tracker`.
    pub open spec fn amend(self, i: int, tracker: Tracking) -> SessionView {
        SessionView {
            running: self.running.update(
                i,
                Request { session: self.running[i].session, tracker },
            ),
            ..self
        }
    }

    /// What the operation is handed with this session.
    pub open spec fn handed(self) -> Handed {
        Handed { connection: self.connection, running: self.running }
    }

    /// The session with no requests left.
    pub open spec fn cleared(self) -> SessionView {
        SessionView { running: Seq::empty(), ..self }
    }

    /// No id occurs twice among the running requests, each of them belongs
    /// to the owner, and none of them clashes with a request of another
    /// operation.
    pub open spec fn wf(self) -> bool {
        &&& forall|i: int, j: int|
            0 <= i < j < self.running.len() ==> self.id_at(i) != self.id_at(j)
        &&& forall|i: int| 0 <= i < self.running.len() ==> self.running[i].session == self.owner
        &&& forall|i: int|
            0 <= i < self.running.len() ==> !self.foreign.contains_key(#[trigger] self.id_at(i))
    }

    /// At most one position is the first to hold `id`.
    pub proof fn lemma_first_is_unique(self, id: RequestId, i: int)
        requires
            self.is_first(id, i),
        ensures
            self.tracks(id),
            self.position(id) == i,
    {
        let p = self.position(id);
        assert(self.is_first(id, p));
        if p < i {
            assert(self.id_at(p) != id);
        } else if i < p {
            assert(self.id_at(i) != id);
        }
    }

    /// Where the session holds `id`, `position` finds it.
    pub proof fn lemma_position(self, id: RequestId)
        requires
            self.tracks(id),
        ensures
            self.is_first(id, self.position(id)),
    {
        let k = choose|k: int| 0 <= k < self.running.len() && self.id_at(k) == id;
        self.lemma_first_upto(id, k);
    }

    proof fn lemma_first_upto(self, id: RequestId, k: int)
        requires
            0 <= k < self.running.len(),
            self.id_at(k) == id,
        ensures
            exists|i: int| self.is_first(id, i),
        decreases k,
    {
        if exists|j: int| 0 <= j < k && self.id_at(j) == id {
            let j = choose|j: int| 0 <= j < k && self.id_at(j) == id;
            self.lemma_first_upto(id, j);
        } else {
            assert(self.is_first(id, k));
        }
    }

    /// Taking a record in keeps a session well formed.
    pub proof fn lemma_adopt_wf(self, tracker: Tracking)
        requires
            self.wf(),
        ensures
            self.adopt(tracker).wf(),
    {
        if !self.in_use(tracker@.id) {
            let after = self.adopt(tracker);
            assert forall|i: int, j: int| 0 <= i < j < after.running.len() implies after.id_at(i)
                != after.id_at(j) by {
                if j == self.running.len() {
                    assert(self.id_at(i) != tracker@.id);
                } else {
                    assert(self.id_at(i) != self.id_at(j));
                }
            }
            assert forall|i: int| 0 <= i < after.running.len() implies after.running[i].session
                == after.owner by {}
            assert forall|i: int| 0 <= i < after.running.len() implies !after.foreign.contains_key(
                #[trigger] after.id_at(i),
            ) by {
                if i < self.running.len() {
                    assert(self.id_at(i) == after.id_at(i));
                }
            }
        }
    }

    /// Giving a request up keeps a session well formed.
    pub proof fn lemma_release_wf(self, id: RequestId)
        requires
            self.wf(),
        ensures
            self.release(id).wf(),
    {
        if self.tracks(id) {
            self.lemma_position(id);
            let p = self.position(id);
            let after = self.release(id);
            assert forall|i: int, j: int| 0 <= i < j < after.running.len() implies after.id_at(i)
                != after.id_at(j) by {
                let i0 = if i < p { i } else { i + 1 };
                let j0 = if j < p { j } else { j + 1 };
                assert(self.id_at(i0) != self.id_at(j0));
            }
            assert forall|i: int| 0 <= i < after.running.len() implies after.running[i].session
                == after.owner by {
                let i0 = if i < p { i } else { i + 1 };
                assert(after.running[i] == self.running[i0]);
            }
            assert forall|i: int| 0 <= i < after.running.len() implies !after.foreign.contains_key(
                #[trigger] after.id_at(i),
            ) by {
                let i0 = if i < p { i } else { i + 1 };
                assert(!self.foreign.contains_key(self.id_at(i0)));
            }
        }
    }

    /// A request that was just taken in is the one that a release of its id
    /// gives up, and the release leaves the session as it was before.
    pub proof fn lemma_adopt_then_release(self, tracker: Tracking)
        requires
            !self.in_use(tracker@.id),
        ensures
            self.adopt(tracker).tracks(tracker@.id),
            self.adopt(tracker).running[self.adopt(tracker).position(tracker@.id)].tracker
                == tracker,
            self.adopt(tracker).release(tracker@.id) == self,
    {
        let id = tracker@.id;
        let after = self.adopt(tracker);
        let last = self.running.len() as int;
        assert forall|j: int| 0 <= j < last implies after.id_at(j) != id by {
            assert(after.id_at(j) == self.id_at(j));
        }
        after.lemma_first_is_unique(id, last);
        assert(after.running.remove(last) =~= self.running);
    }

    /// A request that was just created for `cmd` is the one that a pop of its
    /// id hands back: its record names `cmd` and the session's connection,
    /// and the pop leaves the session as it was before the request.
    pub proof fn lemma_new_request_then_pop(self, id: RequestId, cmd: Cmd)
        requires
            !self.in_use(id),
        ensures
            ({
                let record = Tracking::of(TrackingView { id, cmd, conn_id: self.connection });
                let created = self.adopt(record);
                &&& created.tracks(id)
                &&& created.running[created.position(id)].tracker@ == (TrackingView {
                    id,
                    cmd,
                    conn_id: self.connection,
                })
                &&& created.release(id) == self
            }),
    {
        let view = TrackingView { id, cmd, conn_id: self.connection };
        Tracking::lemma_view_of(view);
        self.lemma_adopt_then_release(Tracking::of(view));
    }

    /// Clearing a session twice is clearing it once.
    pub proof fn lemma_cleared_twice(self)
        ensures
            self.cleared().cleared() == self.cleared(),
            self.cleared().running.len() == 0,
    {
    }
}

/// The capability handed to an operation while it executes one step. It
/// holds the operation's own outstanding requests and sees, without being
/// able to change them, the requests of every other operation.
pub struct SessionImpl<'a> {
    id: OperationId,
    assocs: &'a HashMap<RequestId, Request>,
    conn_id: ConnectionId,
    runnings: Vec<Request>,
}

impl<'a> View for SessionImpl<'a> {
    type V = SessionView;

    closed spec fn view(&self) -> SessionView {
        SessionView {
            owner: self.id,
            connection: self.conn_id,
            running: self.runnings@,
            foreign: self.assocs@,
        }
    }
}

impl<'a> SessionImpl<'a> {
    /// A session of operation `id` on connection `conn_id` that starts out
    /// with the requests `runnings`, beside the requests `assocs` of the
    /// other operations.
    pub fn new(
        id: OperationId,
        assocs: &'a HashMap<RequestId, Request>,
        conn_id: ConnectionId,
        runnings: Vec<Request>,
    ) -> (session: SessionImpl<'a>)
        ensures
            session@ == (SessionView {
                owner: id,
                connection: conn_id,
                running: runnings@,
                foreign: assocs@,
            }),
    {
        SessionImpl { id, assocs, conn_id, runnings }
    }

    /// Ends the session and hands over the requests it holds.
    pub fn into_runnings(self) -> (runnings: Vec<Request>)
        ensures
            runnings@ == self@.running,
    {
        self.runnings
    }

    fn position(&self, id: RequestId) -> (found: Option<usize>)
        ensures
            match found {
                Some(i) => self@.is_first(id, i as int),
                None => !self@.tracks(id),
            },
    {
        let mut i: usize = 0;
        while i < self.runnings.len()
            invariant
                i <= self.runnings.len(),
                forall|j: int| 0 <= j < i ==> self@.id_at(j) != id,
            decreases self.runnings.len() - i,
        {
            if self.runnings[i].get_id() == id {
                return Some(i);
            }
            i += 1;
        }
        None
    }

    /// Creates a request for `cmd` on the session's connection under a
    /// randomly drawn id and returns the id. Where the drawn id is already
    /// taken by some request, nothing is created and `None` is returned;
    /// that is the only way to fail, so a request is always created while
    /// no random UUID is in use.
    pub fn new_request(&mut self, cmd: Cmd) -> (created: Option<RequestId>)
        ensures
            match created {
                Some(id) => {
                    &&& is_random_uuid(id)
                    &&& !old(self)@.in_use(id)
                    &&& final(self)@ == old(self)@.adopt(
                        Tracking::of(TrackingView { id, cmd, conn_id: old(self)@.connection }),
                    )
                    &&& final(self)@.tracks(id)
                },
                None => {
                    &&& final(self)@ == old(self)@
                    &&& exists|id: RequestId|
                        is_random_uuid(id) && #[trigger] old(self)@.in_use(id)
                },
            },
    {
        let req = Request::new(self.id, cmd, self.conn_id);
        let id = req.get_id();
        proof {
            req.tracker.lemma_of_view();
            if !self@.in_use(id) {
                self@.lemma_adopt_then_release(req.tracker);
            }
        }
        if self.reuse(req.tracker) {
            Some(id)
        } else {
            None
        }
    }

    /// Removes the request under `id` and returns its record. Fails
    /// when the session holds no request under `id`, and then changes
    /// nothing.
    pub fn pop(&mut self, id: &RequestId) -> (popped: Result<Tracking, SessionError>)
        ensures
            final(self)@ == old(self)@.release(*id),
            match popped {
                Ok(tracker) => {
                    &&& old(self)@.tracks(*id)
                    &&& tracker == old(self)@.running[old(self)@.position(*id)].tracker
                    &&& tracker@.id == *id
                },
                Err(e) => !old(self)@.tracks(*id) && e == SessionError::TrackerNotFound,
            },
    {
        match self.position(*id) {
            Some(pos) => {
                proof {
                    self@.lemma_first_is_unique(*id, pos as int);
                }
                let req = self.runnings.remove(pos);
                Ok(req.tracker)
            },
            None => Err(SessionError::TrackerNotFound),
        }
    }

    /// Takes a record that was popped earlier back in: it is appended to
    /// the running requests under the id it always had. Where that id is
    /// taken by some request, the record is dropped and `false` returned.
    pub fn reuse(&mut self, tracker: Tracking) -> (taken: bool)
        ensures
            taken == !old(self)@.in_use(tracker@.id),
            final(self)@ == old(self)@.adopt(tracker),
            final(self)@.in_use(tracker@.id),
    {
        let id = tracker.get_id();
        proof {
            if !self@.in_use(id) {
                self@.lemma_adopt_then_release(tracker);
            }
        }
        if self.assocs.contains_key(&id) {
            return false;
        }
        match self.position(id) {
            Some(_) => false,
            None => {
                self.runnings.push(Request { session: self.id, tracker });
                true
            },
        }
    }

    /// Lends the record of the request under `id` for inspection and
    /// change in place. Fails when the session holds no request under `id`.
    pub fn using(&mut self, id: &RequestId) -> (lent: Result<&mut Tracking, SessionError>)
        ensures
            match lent {
                Ok(tracker) => {
                    &&& old(self)@.tracks(*id)
                    &&& tracker@.id == *id
                    &&& *tracker == old(self)@.running[old(self)@.position(*id)].tracker
                    &&& final(self)@ == old(self)@.amend(old(self)@.position(*id), *final(tracker))
                },
                Err(e) => {
                    &&& !old(self)@.tracks(*id)
                    &&& e == SessionError::TrackerNotFound
                    &&& final(self)@ == old(self)@
                },
            },
    {
        match self.position(*id) {
            Some(pos) => {
                proof {
                    self@.lemma_first_is_unique(*id, pos as int);
                }
                Ok(&mut self.runnings[pos].tracker)
            },
            None => Err(SessionError::TrackerNotFound),
        }
    }

    /// The records of all requests that the session holds, oldest first.
    pub fn requests(&self) -> (records: Vec<&Tracking>)
        ensures
            records@.len() == self@.running.len(),
            forall|i: int| 0 <= i < records@.len() ==> *records@[i] == self@.running[i].tracker,
    {
        let mut records: Vec<&Tracking> = Vec::new();
        let mut i: usize = 0;
        while i < self.runnings.len()
            invariant
                i <= self.runnings.len(),
                records@.len() == i,
                forall|j: int| 0 <= j < i ==> *records@[j] == self@.running[j].tracker,
            decreases self.runnings.len() - i,
        {
            records.push(&self.runnings[i].tracker);
            i += 1;
        }
        records
    }

    /// Gives up every request that the session holds.
    pub fn terminate(&mut self)
        ensures
            final(self)@ == old(self)@.cleared(),
    {
        self.runnings.clear();
    }

    pub fn connection_id(&self) -> (conn_id: ConnectionId)
        ensures
            conn_id == self@.connection,
    {
        self.conn_id
    }

    pub fn has_running_requests(&self) -> (running: bool)
        ensures
            running == (self@.running.len() > 0),
    {
        !self.runnings.is_empty()
    }
}

} // verus!
