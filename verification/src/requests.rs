//! The requests table: the active operations, their running lists and the
//! reverse index from request id to owner, kept in step.

use vstd::prelude::*;
use vstd::std_specs::iter::IteratorSpec;
use std::collections::HashMap;
use bytes::BytesMut;
use crate::buffer::buffered;
use crate::dispatch::{
    abort_events, check_events, dispatch_events, react, reaction_to, send_event, settle_check,
    settle_receive, settle_retry, sweep_events, Checked, Handling, Reaction, Report,
};
use crate::ident::{ConnectionId, OperationId, RequestId};
use crate::model::{accepted, lemma_merged, merged, scrubbed, taken, RequestsView};
use crate::operations::{Call, Event, History, Operation, OperationError, OperationWrapper, Outcome};
use crate::package::Pkg;
use crate::session::{Request, SessionImpl};

verus! {

/// Removes the records under the ids of `runnings` from the reverse index
/// `assocs` and returns those it found, in the order of `runnings`.
pub fn terminate(assocs: &mut HashMap<RequestId, Request>, runnings: Vec<RequestId>) -> (removed:
    Vec<Request>)
    ensures
        final(assocs)@ == scrubbed(old(assocs)@, runnings@),
        removed@ == taken(old(assocs)@, runnings@),
{
    let mut removed: Vec<Request> = Vec::new();
    let mut i: usize = 0;
    while i < runnings.len()
        invariant
            i <= runnings.len(),
            assocs@ == scrubbed(old(assocs)@, runnings@.take(i as int)),
            removed@ == taken(old(assocs)@, runnings@.take(i as int)),
        decreases runnings.len() - i,
    {
        let id: RequestId = runnings[i];
        proof {
            let before = runnings@.take(i as int);
            let upto = runnings@.take(i + 1);
            assert(upto.drop_last() =~= before);
            assert(upto.last() == id);
            assert(assocs@.contains_key(id) <==> old(assocs)@.contains_key(id) && !before.contains(
                id,
            ));
        }
        match assocs.remove(&id) {
            Some(req) => {
                removed.push(req);
            },
            None => {},
        }
        i += 1;
    }
    assert(runnings@.take(runnings@.len() as int) =~= runnings@);
    removed
}

/// Owns the active operations, the list of outstanding request ids of each,
/// and the reverse index from request id to owner and record. Also owns the
/// encode scratch buffer that every step of an operation writes into, and,
/// for proofs, the history of the calls it made on operations.
pub struct Requests<O: Operation> {
    sessions: HashMap<OperationId, OperationWrapper<O>>,
    session_request_ids: HashMap<OperationId, Vec<RequestId>>,
    assocs: HashMap<RequestId, Request>,
    buffer: BytesMut,
    history: History,
}

impl<O: Operation> View for Requests<O> {
    type V = RequestsView<O>;

    closed spec fn view(&self) -> RequestsView<O> {
        RequestsView {
            sessions: self.sessions@,
            running: self.session_request_ids@.map_values(|ids: Vec<RequestId>| ids@),
            index: self.assocs@,
        }
    }
}

impl<O: Operation> Requests<O> {
    /// The calls that the table made on operations, oldest first.
    pub closed spec fn log(&self) -> Seq<Event> {
        self.history@
    }

    /// The bytes that the encode scratch buffer holds.
    pub closed spec fn scratch(&self) -> Seq<u8> {
        buffered(self.buffer)
    }

    /// A table without operations, with an empty scratch buffer, that made
    /// no call yet.
    pub fn new() -> (requests: Requests<O>)
        ensures
            requests@ == RequestsView::<O>::empty(),
            requests@.wf(),
            requests.scratch() == Seq::<u8>::empty(),
            requests.log() == Seq::<Event>::empty(),
    {
        let requests = Requests {
            sessions: HashMap::new(),
            session_request_ids: HashMap::new(),
            assocs: HashMap::new(),
            buffer: BytesMut::new(),
            history: History::new(),
        };
        assert(requests@.running =~= Map::<OperationId, Seq<RequestId>>::empty());
        requests
    }

    /// Whether operation `id` is active.
    pub fn is_active(&self, id: OperationId) -> (active: bool)
        ensures
            active == self@.is_active(id),
    {
        self.sessions.contains_key(&id)
    }

    /// The ids of the outstanding requests of operation `id`, oldest first;
    /// `None` where the operation is not active.
    pub fn running(&self, id: OperationId) -> (ids: Option<&Vec<RequestId>>)
        ensures
            match ids {
                Some(ids) => self@.running.contains_key(id) && ids@ == self@.running[id],
                None => !self@.running.contains_key(id),
            },
    {
        self.session_request_ids.get(&id)
    }

    /// The record filed under request `id` with the operation that owns it;
    /// `None` where no such request is outstanding.
    pub fn request(&self, id: RequestId) -> (found: Option<&Request>)
        ensures
            match found {
                Some(req) => self@.index.contains_key(id) && *req == self@.index[id],
                None => !self@.index.contains_key(id),
            },
    {
        self.assocs.get(&id)
    }

    /// Takes the active operation `id` out of the table, with the records of
    /// its outstanding requests, oldest first.
    pub fn checkout(&mut self, id: OperationId) -> (out: (OperationWrapper<O>, Vec<Request>))
        requires
            old(self)@.wf(),
            old(self)@.is_active(id),
        ensures
            final(self)@ == old(self)@.detach(id),
            final(self)@.wf(),
            final(self).log() == old(self).log(),
            out.0 == old(self)@.sessions[id],
            out.1@ == old(self)@.records(id),
    {
        proof {
            self@.lemma_detach(id, 0);
        }
        let op = self.sessions.remove(&id).unwrap();
        let ids = self.session_request_ids.remove(&id).unwrap();
        let runnings = terminate(&mut self.assocs, ids);
        (op, runnings)
    }

    /// Puts operation `op` into the table with the requests `runnings`. A
    /// request whose id is taken, by another operation or by one before it
    /// in `runnings`, is dropped. An operation of which no request could be
    /// filed is dropped too, unless `keep_idle` is set.
    pub fn restore(&mut self, op: OperationWrapper<O>, runnings: Vec<Request>, keep_idle: bool)
        requires
            old(self)@.wf(),
            !old(self)@.is_active(op.id),
        ensures
            final(self)@ == old(self)@.attach(op, runnings@, keep_idle),
            final(self)@.wf(),
            final(self).log() == old(self).log(),
    {
        proof {
            self@.lemma_attach(op, runnings@, keep_idle);
        }
        let ghost index = self.assocs@;
        let owner: OperationId = op.id;
        let mut ids: Vec<RequestId> = Vec::new();
        for req in it: runnings
            invariant
                it.seq() == runnings@,
                ids@ == accepted(index, runnings@.take(it.index())),
                self.assocs@ == merged(index, owner, runnings@.take(it.index())),
                self.sessions == old(self).sessions,
                self.session_request_ids == old(self).session_request_ids,
                self.history == old(self).history,
        {
            let id: RequestId = req.get_id();
            proof {
                let before = runnings@.take(it.index());
                let upto = runnings@.take(it.index() + 1);
                assert(upto.drop_last() =~= before);
                lemma_merged(index, owner, before);
            }
            if !self.assocs.contains_key(&id) {
                self.assocs.insert(id, Request { session: owner, tracker: req.tracker });
                ids.push(id);
            }
        }
        assert(runnings@.take(runnings@.len() as int) =~= runnings@);
        if keep_idle || !ids.is_empty() {
            self.sessions.insert(owner, op);
            self.session_request_ids.insert(owner, ids);
        } else {
            proof {
                lemma_merged(index, owner, runnings@);
                assert(self.assocs@ =~= index);
            }
        }
        assert(self@ == old(self)@.attach(op, runnings@, keep_idle));
    }

    /// Dispatches the inbound package `pkg`, which arrived on connection
    /// `conn_id`, to the operation that owns the request it answers.
    ///
    /// A package that answers no outstanding request is dropped: nothing
    /// changes and no call is made. Otherwise the reply code decides: the
    /// owner is failed with the error the code stands for, or asked to issue
    /// the request again, or handed the package, and an owner whose
    /// reception fails is told so. An owner that failed loses all its
    /// requests. An owner that is left without requests is removed from the
    /// table. Nothing that belongs to another operation changes, and no
    /// call is made on another operation.
    pub fn handle_pkg(&mut self, conn_id: ConnectionId, pkg: Pkg) -> (handling: Handling)
        requires
            old(self)@.wf(),
        ensures
            final(self)@.wf(),
            forall|op: OperationId| final(self)@.is_active(op) ==> old(self)@.is_active(op),
            !old(self)@.index.contains_key(pkg.correlation) ==> {
                &&& handling == Handling::Ignored
                &&& final(self)@ == old(self)@
                &&& final(self).log() == old(self).log()
            },
            old(self)@.index.contains_key(pkg.correlation) ==> {
                let owner = old(self)@.index[pkg.correlation].session;
                &&& final(self)@.without(owner) == old(self)@.without(owner)
                &&& final(self).log() == old(self).log() + dispatch_events(
                    old(self)@,
                    conn_id,
                    pkg,
                    handling,
                )
                &&& final(self)@.is_active(owner) ==> {
                    &&& handling is Handled
                    &&& final(self)@.running[owner].len() > 0
                }
                &&& match reaction_to(pkg) {
                    Reaction::Fail(error) => handling == Handling::Failed(Some(error)),
                    Reaction::Abandon => handling == Handling::Failed(None),
                    Reaction::Retry => handling is Handled || handling == Handling::Failed(None),
                    Reaction::Receive => handling is Handled || (handling matches Handling::Failed(
                        Some(OperationError::InvalidOperation(_)),
                    )),
                }
            },
    {
        let pkg_id: RequestId = pkg.correlation;
        let session_id: OperationId = match self.assocs.get(&pkg_id) {
            Some(req) => req.session,
            None => {
                return Handling::Ignored;
            },
        };
        proof {
            assert(self@.running.contains_key(self@.index[pkg_id].session));
            self@.lemma_detach(session_id, conn_id);
        }
        let (mut op, runnings) = self.checkout(session_id);
        self.buffer.clear();
        let mut session = SessionImpl::new(session_id, &self.assocs, conn_id, runnings);
        assert(session@ == old(self)@.session_of(session_id, conn_id));
        assert(session@.handed() == old(self)@.handed(session_id, conn_id));
        let ghost log = self.history@;
        let handling = match react(&pkg) {
            Reaction::Fail(error) => {
                op.failed(&mut self.history, error.duplicate());
                assert(self.history@ =~= log + seq![(session_id, Call::Failed(error))]);
                Handling::Failed(Some(error))
            },
            Reaction::Abandon => {
                assert(self.history@ =~= log + Seq::<Event>::empty());
                Handling::Failed(None)
            },
            Reaction::Retry => {
                let result = op.retry(&mut self.history, &mut self.buffer, &mut session, pkg_id);
                assert(self.history@ =~= log + seq![
                    (session_id, Call::Retry(pkg_id, old(self)@.handed(session_id, conn_id))),
                ]);
                settle_retry(result)
            },
            Reaction::Receive => {
                let result = op.receive(&mut self.history, &mut self.buffer, &mut session, pkg);
                let handling = settle_receive(result);
                match &handling {
                    Handling::Failed(Some(error)) => {
                        op.failed(&mut self.history, error.duplicate());
                        assert(self.history@ =~= log + seq![
                            (session_id, Call::Receive(pkg, old(self)@.handed(session_id, conn_id))),
                            (session_id, Call::Failed(*error)),
                        ]);
                    },
                    _ => {
                        assert(self.history@ =~= log + seq![
                            (session_id, Call::Receive(pkg, old(self)@.handed(session_id, conn_id))),
                        ]);
                    },
                }
                handling
            },
        };
        match &handling {
            Handling::Failed(_) => {
                session.terminate();
            },
            _ => {},
        }
        let runnings = session.into_runnings();
        proof {
            self@.lemma_attach(op, runnings@, false);
        }
        self.restore(op, runnings, false);
        proof {
            assert forall|other: OperationId| self@.is_active(other) implies old(self)@.is_active(
                other,
            ) by {
                if other != session_id {
                    assert(self@.without(session_id).sessions.contains_key(other));
                }
            }
        }
        handling
    }

    /// Concludes the registration of operation `op`, whose first step left
    /// the requests `runnings` behind and ended in `result`. After a step
    /// that succeeded the operation is filed with those requests, as
    /// `restore` files them, and the packages it produced are returned.
    /// After one that failed the operation and its requests are dropped,
    /// the table stays as it is, and the operation's message is returned.
    /// No call is made.
    pub fn settle_send(
        &mut self,
        op: OperationWrapper<O>,
        runnings: Vec<Request>,
        result: Result<Outcome, String>,
    ) -> (sent: Result<Vec<Pkg>, String>)
        requires
            old(self)@.wf(),
            !old(self)@.is_active(op.id),
        ensures
            final(self)@.wf(),
            final(self).log() == old(self).log(),
            match result {
                Ok(outcome) => {
                    &&& final(self)@ == old(self)@.attach(op, runnings@, true)
                    &&& sent matches Ok(pkgs) && pkgs@ == outcome.pkgs()
                },
                Err(cause) => {
                    &&& final(self)@ == old(self)@
                    &&& sent == Err::<Vec<Pkg>, String>(cause)
                },
            },
    {
        match result {
            Ok(outcome) => {
                self.restore(op, runnings, true);
                Ok(outcome.produced_pkgs())
            },
            Err(cause) => Err(cause),
        }
    }

    /// Registers operation `op` on connection `conn_id`: asks it once to
    /// issue its first requests, handing it an empty session, and, where
    /// that succeeds, files it with the requests it left among the active
    /// operations and returns the packages to be sent. Where it fails, the
    /// operation is dropped with every request it created, the table is as
    /// it was, and the operation's message is returned.
    pub fn register(&mut self, conn_id: ConnectionId, op: OperationWrapper<O>) -> (sent: Result<
        Vec<Pkg>,
        String,
    >)
        requires
            old(self)@.wf(),
            !old(self)@.is_active(op.id),
        ensures
            final(self)@.wf(),
            final(self)@.without(op.id) == old(self)@,
            final(self).log() == old(self).log().push(send_event(conn_id, op.id)),
            match sent {
                Ok(_) => final(self)@.is_active(op.id),
                Err(_) => final(self)@ == old(self)@,
            },
    {
        let mut op = op;
        proof {
            self@.lemma_inactive_owns_nothing(op.id);
        }
        self.buffer.clear();
        let mut session = SessionImpl::new(op.id, &self.assocs, conn_id, Vec::new());
        assert(session@.handed().running =~= Seq::<Request>::empty());
        let result = op.send(&mut self.history, &mut self.buffer, &mut session);
        let runnings = session.into_runnings();
        proof {
            self@.lemma_attach(op, runnings@, true);
        }
        self.settle_send(op, runnings, result)
    }

    /// The ids of the active operations, each once, in no particular order.
    pub fn active_ids(&self) -> (ids: Vec<OperationId>)
        ensures
            ids@.no_duplicates(),
            forall|op: OperationId| ids@.contains(op) <==> self@.is_active(op),
    {
        let mut ids: Vec<OperationId> = Vec::new();
        let ghost keys = vstd::std_specs::hash::spec_keys_iter(&self.sessions).remaining();
        proof {
            broadcast use vstd::std_specs::hash::axiom_spec_keys_iter;
            assert(keys.no_duplicates());
            assert(keys.unref().to_set() == self.sessions@.dom());
        }
        for key in it: self.sessions.keys()
            invariant
                it.seq() == keys,
                ids@.len() == it.index(),
                forall|j: int| 0 <= j < it.index() ==> ids@[j] == *keys[j],
        {
            ids.push(*key);
        }
        proof {
            assert(ids@ =~= keys.unref());
            assert forall|i: int, j: int| 0 <= i < j < ids@.len() implies ids@[i] != ids@[j] by {
                assert(keys[i] != keys[j]);
            }
            assert forall|op: OperationId| ids@.contains(op) <==> self@.is_active(op) by {
                assert(keys.unref().to_set().contains(op) <==> self.sessions@.dom().contains(op));
            }
        }
        ids
    }

    /// Lets the active operation `id` look after its requests on connection
    /// `conn_id`: the operation is checked once. One that declares itself
    /// done is removed with all its requests. One whose check fails is told
    /// so and removed with all its requests. Any other stays active with
    /// the requests it was left with. Nothing that belongs to another
    /// operation changes, and no call is made on another operation.
    pub fn check_operation(&mut self, conn_id: ConnectionId, id: OperationId) -> (checked: Checked)
        requires
            old(self)@.wf(),
            old(self)@.is_active(id),
        ensures
            final(self)@.wf(),
            final(self)@.without(id) == old(self)@.without(id),
            final(self)@.is_active(id) <==> checked is Continue,
            final(self).log() == old(self).log() + check_events(old(self)@, conn_id, id, checked),
    {
        proof {
            self@.lemma_detach(id, conn_id);
            self@.detach(id).lemma_inactive_owns_nothing(id);
        }
        let (mut op, runnings) = self.checkout(id);
        self.buffer.clear();
        let mut session = SessionImpl::new(id, &self.assocs, conn_id, runnings);
        assert(session@ == old(self)@.session_of(id, conn_id));
        assert(session@.handed() == old(self)@.handed(id, conn_id));
        let ghost log = self.history@;
        let result = op.check_and_retry(&mut self.history, &mut self.buffer, &mut session);
        let checked = settle_check(result);
        match &checked {
            Checked::Continue(_) => {
                let runnings = session.into_runnings();
                proof {
                    self@.lemma_attach(op, runnings@, true);
                }
                self.restore(op, runnings, true);
            },
            Checked::Done => {},
            Checked::Failed(error) => {
                op.failed(&mut self.history, error.duplicate());
            },
        }
        assert(self.history@ =~= log + check_events(old(self)@, conn_id, id, checked));
        checked
    }

    /// Sweeps the active operations: each is checked once, as
    /// `check_operation` does it, in no particular order. Returns how each
    /// check ended, in the order in which the checks were made. An operation
    /// is active afterwards exactly if it was active before and its check
    /// went on.
    pub fn check_and_retry(&mut self, conn_id: ConnectionId) -> (reports: Vec<Report>)
        requires
            old(self)@.wf(),
        ensures
            final(self)@.wf(),
            forall|i: int, j: int|
                0 <= i < j < reports@.len() ==> reports@[i].0 != reports@[j].0,
            forall|i: int| 0 <= i < reports@.len() ==> old(self)@.is_active((#[trigger] reports@[i]).0),
            forall|op: OperationId|
                (#[trigger] old(self)@.is_active(op)) ==> exists|i: int|
                    0 <= i < reports@.len() && (#[trigger] reports@[i]).0 == op,
            forall|i: int|
                0 <= i < reports@.len() ==> (final(self)@.is_active((#[trigger] reports@[i]).0)
                    <==> reports@[i].1 is Continue),
            forall|op: OperationId| final(self)@.is_active(op) ==> old(self)@.is_active(op),
            final(self).log() == old(self).log() + sweep_events(old(self)@, conn_id, reports@),
    {
        let ids = self.active_ids();
        let mut reports: Vec<Report> = Vec::new();
        let mut i: usize = 0;
        assert forall|j: int| 0 <= j < ids.len() implies self@.is_active(ids@[j]) by {
            assert(ids@.contains(ids@[j]));
        }
        assert(self.history@ =~= old(self).log() + sweep_events(old(self)@, conn_id, reports@));
        while i < ids.len()
            invariant
                i <= ids.len(),
                ids@.no_duplicates(),
                self@.wf(),
                reports@.len() == i,
                forall|j: int| 0 <= j < i ==> (#[trigger] reports@[j]).0 == ids@[j],
                forall|j: int|
                    0 <= j < i ==> (self@.is_active(ids@[j]) <==> (#[trigger] reports@[j]).1 is Continue),
                forall|j: int|
                    i <= j < ids.len() ==> self@.is_active(#[trigger] ids@[j]) && self@.records(
                        ids@[j],
                    ) == old(self)@.records(ids@[j]),
                forall|op: OperationId| self@.is_active(op) ==> ids@.contains(op),
                forall|op: OperationId| ids@.contains(op) <==> old(self)@.is_active(op),
                self.history@ == old(self).log() + sweep_events(old(self)@, conn_id, reports@),
            decreases ids.len() - i,
        {
            let id: OperationId = ids[i];
            let ghost before = self@;
            let ghost earlier = reports@;
            let checked = self.check_operation(conn_id, id);
            proof {
                assert(before.is_active(ids@[i as int]));
                assert(check_events(before, conn_id, id, checked) == check_events(
                    old(self)@,
                    conn_id,
                    id,
                    checked,
                ));
                assert forall|op: OperationId| op != id && before.is_active(op) implies self@.is_active(
                    op,
                ) && self@.records(op) == before.records(op) by {
                    before.lemma_records_kept(self@, id, op);
                }
                assert forall|op: OperationId| op != id && self@.is_active(op) implies before.is_active(
                    op,
                ) by {
                    assert(self@.without(id).sessions.contains_key(op));
                    assert(before.without(id).sessions.contains_key(op));
                }
                assert forall|j: int| i + 1 <= j < ids.len() implies self@.is_active(
                    #[trigger] ids@[j],
                ) && self@.records(ids@[j]) == old(self)@.records(ids@[j]) by {
                    assert(ids@[j] != ids@[i as int]);
                    assert(before.is_active(ids@[j]));
                }
                assert forall|op: OperationId| self@.is_active(op) implies ids@.contains(op) by {
                    if op != id {
                        assert(before.is_active(op));
                    } else {
                        assert(ids@[i as int] == id);
                    }
                }
            }
            reports.push((id, checked));
            proof {
                assert(reports@.drop_last() =~= earlier);
                assert(reports@.last() == (id, checked));
                assert(self.history@ =~= old(self).log() + sweep_events(
                    old(self)@,
                    conn_id,
                    reports@,
                ));
                assert forall|j: int| 0 <= j < i + 1 implies (self@.is_active(ids@[j]) <==> (
                #[trigger] reports@[j]).1 is Continue) by {
                    if j < i {
                        assert(reports@[j] == earlier[j]);
                        assert(ids@[j] != ids@[i as int]);
                        if before.is_active(ids@[j]) {
                            before.lemma_records_kept(self@, id, ids@[j]);
                        } else if self@.is_active(ids@[j]) {
                            assert(self@.without(id).sessions.contains_key(ids@[j]));
                            assert(before.without(id).sessions.contains_key(ids@[j]));
                        }
                    }
                }
            }
            i += 1;
        }
        proof {
            assert forall|op: OperationId| self@.is_active(op) implies old(self)@.is_active(op) by {
                assert(ids@.contains(op));
            }
            assert forall|j: int| 0 <= j < reports@.len() implies old(self)@.is_active(
                (#[trigger] reports@[j]).0,
            ) by {
                assert(ids@.contains(ids@[j]));
            }
            assert forall|op: OperationId| (#[trigger] old(self)@.is_active(op)) implies exists|
                j: int,
            |
                0 <= j < reports@.len() && (#[trigger] reports@[j]).0 == op by {
                assert(ids@.contains(op));
                let j = choose|j: int| 0 <= j < ids@.len() && ids@[j] == op;
                assert(reports@[j].0 == op);
            }
        }
        reports
    }

    /// Tells operation `op`, which the table does not hold, that it failed
    /// with `error`. The table stays as it is.
    pub fn signal(&mut self, op: &mut OperationWrapper<O>, error: OperationError)
        ensures
            final(self)@ == old(self)@,
            final(self).log() == old(self).log().push((old(op).id, Call::Failed(error))),
            final(op).id == old(op).id,
    {
        op.failed(&mut self.history, error);
    }

    /// Tells every active operation, once, that the client is shutting
    /// down, and returns their ids in the order in which they were told. The
    /// bookkeeping stays as it is: the same operations are active, with the
    /// same running lists and the same records.
    pub fn abort(&mut self) -> (told: Vec<OperationId>)
        requires
            old(self)@.wf(),
        ensures
            final(self)@.wf(),
            final(self)@.sessions.dom() == old(self)@.sessions.dom(),
            final(self)@.running == old(self)@.running,
            final(self)@.index == old(self)@.index,
            told@.no_duplicates(),
            forall|op: OperationId| told@.contains(op) <==> old(self)@.is_active(op),
            final(self).log() == old(self).log() + abort_events(told@),
    {
        let ids = self.active_ids();
        let mut i: usize = 0;
        assert forall|j: int| 0 <= j < ids.len() implies old(self)@.is_active(ids@[j]) by {
            assert(ids@.contains(ids@[j]));
        }
        assert forall|op: OperationId| self.sessions@.contains_key(op) implies (
        #[trigger] self.sessions@[op]).id == op by {
            assert(self@.sessions[op].id == op);
        }
        assert(self.history@ =~= old(self).log() + abort_events(ids@.take(0)));
        while i < ids.len()
            invariant
                i <= ids.len(),
                forall|j: int| 0 <= j < ids.len() ==> old(self)@.is_active(ids@[j]),
                self.sessions@.dom() == old(self).sessions@.dom(),
                forall|op: OperationId|
                    self.sessions@.contains_key(op) ==> (#[trigger] self.sessions@[op]).id == op,
                self.session_request_ids == old(self).session_request_ids,
                self.assocs == old(self).assocs,
                self.history@ == old(self).log() + abort_events(ids@.take(i as int)),
            decreases ids.len() - i,
        {
            let id: OperationId = ids[i];
            let mut op = self.sessions.remove(&id).unwrap();
            op.failed(&mut self.history, OperationError::Aborted);
            self.sessions.insert(id, op);
            assert(self.sessions@.dom() =~= old(self).sessions@.dom());
            assert(self.history@ =~= old(self).log() + abort_events(ids@.take(i + 1)));
            i += 1;
        }
        proof {
            assert(ids@.take(ids@.len() as int) =~= ids@);
            assert(self@.running == old(self)@.running);
            assert(self@.index == old(self)@.index);
            assert forall|op: OperationId|
                self@.sessions.contains_key(op) <==> self@.running.contains_key(op) by {
                assert(old(self)@.sessions.dom().contains(op) <==> self@.sessions.dom().contains(
                    op,
                ));
            }
            assert forall|op: OperationId| self@.sessions.contains_key(op) implies (
            #[trigger] self@.sessions[op]).id == op by {
                assert(self.sessions@[op].id == op);
            }
        }
        ids
    }
}

} // verus!
