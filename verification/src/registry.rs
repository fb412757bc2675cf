//! The registry: operations that wait for a connection, and the requests
//! table that holds those that have one.

use vstd::prelude::*;
use crate::dispatch::{
    abort_events, dispatch_events, reaction_to, send_event, send_events, sweep_events, Handling,
    Reaction, Sending, Swept,
};
use crate::ident::{ConnectionId, OperationId};
use crate::model::RequestsView;
use crate::operations::{Event, Operation, OperationError, OperationWrapper};
use crate::package::Pkg;
use crate::requests::Requests;

verus! {

/// The registry as plain data.
#[verifier::ext_equal]
pub struct RegistryView<O> {
    /// The requests table.
    pub requests: RequestsView<O>,
    /// The operations that wait for a connection, in the order in which
    /// they were registered.
    pub awaiting: Seq<OperationWrapper<O>>,
}

impl<O> RegistryView<O> {
    /// Operation `op` waits for a connection.
    pub open spec fn awaits(self, op: OperationId) -> bool {
        exists|i: int| 0 <= i < self.awaiting.len() && self.awaiting[i].id == op
    }

    /// The registry holds operation `op`, waiting or active.
    pub open spec fn knows(self, op: OperationId) -> bool {
        self.awaits(op) || self.requests.is_active(op)
    }

    /// The requests table is well formed, no two waiting operations share
    /// an id, and no waiting operation is active.
    pub open spec fn wf(self) -> bool {
        &&& self.requests.wf()
        &&& forall|i: int, j: int|
            0 <= i < j < self.awaiting.len() ==> self.awaiting[i].id != self.awaiting[j].id
        &&& forall|i: int|
            0 <= i < self.awaiting.len() ==> !self.requests.is_active(
                (#[trigger] self.awaiting[i]).id,
            )
    }

    /// The ids of the waiting operations, in the order of the queue.
    pub open spec fn awaiting_ids(self) -> Seq<OperationId> {
        Seq::new(self.awaiting.len(), |i: int| self.awaiting[i].id)
    }

    /// An operation is never both waiting and active.
    pub proof fn lemma_waiting_or_active(self, op: OperationId)
        requires
            self.wf(),
        ensures
            !(self.awaits(op) && self.requests.is_active(op)),
    {
    }
}

/// Holds the operations that were registered before a connection existed,
/// and the requests table for those that were handed to one.
pub struct Registry<O: Operation> {
    requests: Requests<O>,
    awaiting: Vec<OperationWrapper<O>>,
}

impl<O: Operation> View for Registry<O> {
    type V = RegistryView<O>;

    closed spec fn view(&self) -> RegistryView<O> {
        RegistryView { requests: self.requests@, awaiting: self.awaiting@ }
    }
}

impl<O: Operation> Registry<O> {
    /// The calls that the registry made on operations, oldest first.
    pub closed spec fn log(&self) -> Seq<Event> {
        self.requests.log()
    }

    pub fn new() -> (registry: Registry<O>)
        ensures
            registry@.wf(),
            registry@.requests == RequestsView::<O>::empty(),
            registry@.awaiting.len() == 0,
            registry.log() == Seq::<Event>::empty(),
    {
        Registry { requests: Requests::new(), awaiting: Vec::new() }
    }

    /// The requests table.
    pub fn requests(&self) -> (requests: &Requests<O>)
        ensures
            requests@ == self@.requests,
            requests.log() == self.log(),
    {
        &self.requests
    }

    /// The ids of the waiting operations, in the order in which they were
    /// registered.
    pub fn awaiting_ids(&self) -> (ids: Vec<OperationId>)
        ensures
            ids@ == self@.awaiting_ids(),
    {
        let mut ids: Vec<OperationId> = Vec::new();
        let mut i: usize = 0;
        while i < self.awaiting.len()
            invariant
                i <= self.awaiting.len(),
                ids@.len() == i,
                forall|j: int| 0 <= j < i ==> ids@[j] == self.awaiting@[j].id,
            decreases self.awaiting.len() - i,
        {
            ids.push(self.awaiting[i].id);
            i += 1;
        }
        assert(ids@ =~= self@.awaiting_ids());
        ids
    }

    /// Whether the registry holds operation `id`, waiting or active.
    pub fn knows(&self, id: OperationId) -> (known: bool)
        ensures
            known == self@.knows(id),
    {
        if self.requests.is_active(id) {
            return true;
        }
        let mut i: usize = 0;
        while i < self.awaiting.len()
            invariant
                i <= self.awaiting.len(),
                forall|j: int| 0 <= j < i ==> self.awaiting@[j].id != id,
            decreases self.awaiting.len() - i,
        {
            if self.awaiting[i].id == id {
                assert(self@.awaiting[i as int].id == id);
                return true;
            }
            i += 1;
        }
        assert forall|j: int| 0 <= j < self@.awaiting.len() implies self@.awaiting[j].id != id by {
            assert(self.awaiting@[j].id != id);
        }
        false
    }

    /// Registers operation `op`, which the registry does not hold yet.
    /// Without a connection the operation joins the end of the waiting
    /// queue; no call is made and nothing is to be sent. With one it is
    /// handed to the requests table, which asks it once to issue its first
    /// requests: where that succeeds the operation is active and its
    /// packages are returned; where it fails the operation is dropped, the
    /// registry holds what it held, and the operation's message is returned.
    pub fn register(&mut self, op: OperationWrapper<O>, conn: Option<ConnectionId>) -> (sent:
        Result<Vec<Pkg>, String>)
        requires
            old(self)@.wf(),
            !old(self)@.knows(op.id),
        ensures
            final(self)@.wf(),
            match conn {
                None => {
                    &&& final(self)@.requests == old(self)@.requests
                    &&& final(self)@.awaiting == old(self)@.awaiting.push(op)
                    &&& final(self).log() == old(self).log()
                    &&& sent matches Ok(pkgs) && pkgs@.len() == 0
                },
                Some(conn_id) => {
                    &&& final(self)@.awaiting == old(self)@.awaiting
                    &&& final(self)@.requests.without(op.id) == old(self)@.requests
                    &&& final(self).log() == old(self).log().push(send_event(conn_id, op.id))
                    &&& match sent {
                        Ok(_) => final(self)@.requests.is_active(op.id),
                        Err(_) => final(self)@.requests == old(self)@.requests,
                    }
                },
            },
    {
        match conn {
            None => {
                let ghost before = self@;
                self.awaiting.push(op);
                proof {
                    let after = self@;
                    assert(after.awaiting == before.awaiting.push(op));
                    assert forall|i: int, j: int| 0 <= i < j < after.awaiting.len() implies after.awaiting[i].id
                        != after.awaiting[j].id by {
                        assert(after.awaiting[i] == before.awaiting[i]);
                        if j == before.awaiting.len() {
                            assert(before.awaiting[i].id != op.id);
                        } else {
                            assert(after.awaiting[j] == before.awaiting[j]);
                        }
                    }
                    assert forall|i: int| 0 <= i < after.awaiting.len() implies !after.requests.is_active(
                        (#[trigger] after.awaiting[i]).id,
                    ) by {
                        if i < before.awaiting.len() {
                            assert(after.awaiting[i] == before.awaiting[i]);
                        }
                    }
                }
                Ok(Vec::new())
            },
            Some(conn_id) => {
                let ghost id = op.id;
                let sent = self.requests.register(conn_id, op);
                proof {
                    let before = old(self)@;
                    let after = self@;
                    assert(after.awaiting == before.awaiting);
                    assert forall|i: int| 0 <= i < after.awaiting.len() implies !after.requests.is_active(
                        (#[trigger] after.awaiting[i]).id,
                    ) by {
                        let other = before.awaiting[i].id;
                        assert(other != id);
                        assert(!before.requests.is_active(other));
                        assert(after.requests.without(id).sessions.contains_key(other)
                            == before.requests.sessions.contains_key(other));
                    }
                }
                sent
            },
        }
    }

    /// Dispatches the inbound package `pkg`, which arrived on connection
    /// `conn_id`, as the requests table does. The waiting queue stays as it
    /// is.
    pub fn handle(&mut self, pkg: Pkg, conn_id: ConnectionId) -> (handling: Handling)
        requires
            old(self)@.wf(),
        ensures
            final(self)@.wf(),
            final(self)@.awaiting == old(self)@.awaiting,
            !old(self)@.requests.index.contains_key(pkg.correlation) ==> {
                &&& handling == Handling::Ignored
                &&& final(self)@ == old(self)@
                &&& final(self).log() == old(self).log()
            },
            old(self)@.requests.index.contains_key(pkg.correlation) ==> {
                let owner = old(self)@.requests.index[pkg.correlation].session;
                &&& final(self)@.requests.without(owner) == old(self)@.requests.without(owner)
                &&& final(self).log() == old(self).log() + dispatch_events(
                    old(self)@.requests,
                    conn_id,
                    pkg,
                    handling,
                )
                &&& final(self)@.requests.is_active(owner) ==> {
                    &&& handling is Handled
                    &&& final(self)@.requests.running[owner].len() > 0
                }
                &&& match reaction_to(pkg) {
                    Reaction::Fail(error) => handling == Handling::Failed(Some(error)),
                    Reaction::Abandon => handling == Handling::Failed(None),
                    Reaction::Retry => handling is Handled || handling == Handling::Failed(None),
                    Reaction::Receive => handling is Handled || (handling matches Handling::Failed(
                        Some(OperationError::InvalidOperation(_)),
                    )),
                }
            },
    {
        let handling = self.requests.handle_pkg(conn_id, pkg);
        proof {
            let before = old(self)@;
            let after = self@;
            assert(after.awaiting == before.awaiting);
            assert forall|i: int| 0 <= i < after.awaiting.len() implies !after.requests.is_active(
                (#[trigger] after.awaiting[i]).id,
            ) by {
                assert(!before.requests.is_active(before.awaiting[i].id));
            }
        }
        handling
    }

    /// Sweeps the active operations as the requests table does, then
    /// registers every waiting operation on connection `conn_id`, each
    /// once, in the order in which they joined the queue. Returns how each
    /// check and each registration ended. The waiting queue is empty
    /// afterwards. An operation is active afterwards exactly if it was
    /// active before and its check went on, or waited before and its
    /// registration succeeded.
    pub fn check_and_retry(&mut self, conn_id: ConnectionId) -> (swept: Swept)
        requires
            old(self)@.wf(),
        ensures
            final(self)@.wf(),
            final(self)@.awaiting.len() == 0,
            forall|i: int, j: int|
                0 <= i < j < swept.checked@.len() ==> swept.checked@[i].0 != swept.checked@[j].0,
            forall|i: int|
                0 <= i < swept.checked@.len() ==> old(self)@.requests.is_active(
                    (#[trigger] swept.checked@[i]).0,
                ),
            forall|op: OperationId|
                (#[trigger] old(self)@.requests.is_active(op)) ==> exists|i: int|
                    0 <= i < swept.checked@.len() && (#[trigger] swept.checked@[i]).0 == op,
            forall|i: int|
                0 <= i < swept.checked@.len() ==> (final(self)@.requests.is_active(
                    (#[trigger] swept.checked@[i]).0,
                ) <==> swept.checked@[i].1 is Continue),
            swept.sent@.len() == old(self)@.awaiting.len(),
            forall|i: int|
                0 <= i < swept.sent@.len() ==> {
                    &&& (#[trigger] swept.sent@[i]).0 == old(self)@.awaiting[i].id
                    &&& final(self)@.requests.is_active(swept.sent@[i].0) <==> swept.sent@[i].1 is Ok
                },
            forall|op: OperationId| final(self)@.requests.is_active(op) ==> old(self)@.knows(op),
            final(self).log() == old(self).log() + sweep_events(
                old(self)@.requests,
                conn_id,
                swept.checked@,
            ) + send_events(conn_id, old(self)@.awaiting_ids()),
    {
        let checked = self.requests.check_and_retry(conn_id);
        let mut sent: Vec<Sending> = Vec::new();
        let mut awaiting: Vec<OperationWrapper<O>> = Vec::new();
        std::mem::swap(&mut self.awaiting, &mut awaiting);
        let ghost ids = old(self)@.awaiting_ids();
        let ghost swept_log = self.requests.log();
        proof {
            let before = old(self)@;
            assert(awaiting@ == before.awaiting);
            assert forall|j: int| 0 <= j < awaiting@.len() implies !self.requests@.is_active(
                awaiting@[j].id,
            ) by {
                assert(!before.requests.is_active(before.awaiting[j].id));
            }
            assert forall|j: int| 0 <= j < checked@.len() implies !before.awaits(
                (#[trigger] checked@[j]).0,
            ) by {
                before.lemma_waiting_or_active(checked@[j].0);
            }
            assert(swept_log =~= swept_log + send_events(conn_id, ids.take(0)));
        }
        for op in it: awaiting
            invariant
                it.seq() == awaiting@,
                awaiting@ == old(self)@.awaiting,
                ids == old(self)@.awaiting_ids(),
                self.awaiting@.len() == 0,
                self.requests@.wf(),
                forall|i: int, j: int|
                    0 <= i < j < awaiting@.len() ==> awaiting@[i].id != awaiting@[j].id,
                forall|j: int|
                    it.index() <= j < awaiting@.len() ==> !self.requests@.is_active(awaiting@[j].id),
                sent@.len() == it.index(),
                forall|j: int|
                    0 <= j < it.index() ==> {
                        &&& (#[trigger] sent@[j]).0 == awaiting@[j].id
                        &&& self.requests@.is_active(sent@[j].0) <==> sent@[j].1 is Ok
                    },
                forall|j: int|
                    0 <= j < checked@.len() ==> {
                        &&& !old(self)@.awaits((#[trigger] checked@[j]).0)
                        &&& self.requests@.is_active(checked@[j].0) <==> checked@[j].1 is Continue
                    },
                forall|op: OperationId| self.requests@.is_active(op) ==> old(self)@.knows(op),
                self.requests.log() == swept_log + send_events(conn_id, ids.take(it.index())),
        {
            let id: OperationId = op.id;
            let ghost before = self.requests@;
            let ghost at = it.index();
            assert(op == awaiting@[at]);
            assert(old(self)@.awaiting[at].id == id);
            let result = self.requests.register(conn_id, op);
            proof {
                assert forall|other: OperationId| other != id implies (self.requests@.is_active(
                    other,
                ) <==> before.is_active(other)) by {
                    assert(self.requests@.without(id).sessions.contains_key(other)
                        <==> before.sessions.contains_key(other));
                }
                assert(ids.take(at + 1) =~= ids.take(at).push(id));
                assert(self.requests.log() =~= swept_log + send_events(conn_id, ids.take(at + 1)));
                assert forall|op: OperationId| self.requests@.is_active(op) implies old(
                    self,
                )@.knows(op) by {
                    if op != id {
                        assert(before.is_active(op));
                    }
                }
                assert forall|j: int| 0 <= j < checked@.len() implies (self.requests@.is_active(
                    (#[trigger] checked@[j]).0,
                ) <==> checked@[j].1 is Continue) by {
                    assert(!old(self)@.awaits(checked@[j].0));
                    assert(checked@[j].0 != id);
                }
            }
            let ghost earlier = sent@;
            sent.push((id, result));
            proof {
                assert forall|j: int| 0 <= j < at + 1 implies {
                    &&& (#[trigger] sent@[j]).0 == awaiting@[j].id
                    &&& self.requests@.is_active(sent@[j].0) <==> sent@[j].1 is Ok
                } by {
                    if j < at {
                        assert(sent@[j] == earlier[j]);
                        assert(awaiting@[j].id != awaiting@[at].id);
                    }
                }
            }
        }
        proof {
            assert(ids.take(ids.len() as int) =~= ids);
        }
        Swept { checked, sent }
    }

    /// Tells every operation, active or waiting, that the client is
    /// shutting down: the active ones first, then the waiting ones in the
    /// order of the queue, each once. Returns the ids of the active ones in
    /// the order in which they were told. The bookkeeping stays as it is:
    /// the same operations are active, with the same running lists and the
    /// same records, and the same operations wait in the same order.
    pub fn abort(&mut self) -> (told: Vec<OperationId>)
        requires
            old(self)@.wf(),
        ensures
            final(self)@.wf(),
            final(self)@.requests.sessions.dom() == old(self)@.requests.sessions.dom(),
            final(self)@.requests.running == old(self)@.requests.running,
            final(self)@.requests.index == old(self)@.requests.index,
            final(self)@.awaiting_ids() == old(self)@.awaiting_ids(),
            told@.no_duplicates(),
            forall|op: OperationId| told@.contains(op) <==> old(self)@.requests.is_active(op),
            final(self).log() == old(self).log() + abort_events(told@) + abort_events(
                old(self)@.awaiting_ids(),
            ),
    {
        let told = self.requests.abort();
        let ghost table = self.requests@;
        let ghost told_log = self.requests.log();
        let ghost ids = old(self)@.awaiting_ids();
        let mut i: usize = 0;
        assert(told_log =~= told_log + abort_events(ids.take(0)));
        while i < self.awaiting.len()
            invariant
                i <= self.awaiting.len(),
                self.requests@ == table,
                ids == old(self)@.awaiting_ids(),
                self.awaiting@.len() == old(self).awaiting@.len(),
                forall|j: int|
                    0 <= j < self.awaiting@.len() ==> self.awaiting@[j].id == old(
                        self,
                    ).awaiting@[j].id,
                self.requests.log() == told_log + abort_events(ids.take(i as int)),
            decreases self.awaiting.len() - i,
        {
            let ghost id = self.awaiting@[i as int].id;
            self.requests.signal(&mut self.awaiting[i], OperationError::Aborted);
            proof {
                assert(ids.take(i + 1) =~= ids.take(i as int).push(id));
                assert(self.requests.log() =~= told_log + abort_events(ids.take(i + 1)));
            }
            i += 1;
        }
        proof {
            let before = old(self)@;
            let after = self@;
            assert(ids.take(ids.len() as int) =~= ids);
            assert(after.awaiting_ids() =~= before.awaiting_ids());
            assert forall|i: int, j: int| 0 <= i < j < after.awaiting.len() implies after.awaiting[i].id
                != after.awaiting[j].id by {
                assert(before.awaiting[i].id != before.awaiting[j].id);
            }
            assert forall|i: int| 0 <= i < after.awaiting.len() implies !after.requests.is_active(
                (#[trigger] after.awaiting[i]).id,
            ) by {
                assert(!before.requests.is_active(before.awaiting[i].id));
                assert(after.requests.sessions.dom().contains(after.awaiting[i].id)
                    == before.requests.sessions.dom().contains(before.awaiting[i].id));
            }
        }
        told
    }
}

} // verus!
