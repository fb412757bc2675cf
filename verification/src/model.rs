//! The bookkeeping of the requests table as plain data, and what holds of
//! it.

use vstd::prelude::*;
use crate::ident::{ConnectionId, OperationId, RequestId};
use crate::operations::{Handed, OperationWrapper};
use crate::session::{Request, SessionView};

verus! {

/// The reverse index `index` without the records under `ids`.
pub open spec fn scrubbed(index: Map<RequestId, Request>, ids: Seq<RequestId>) -> Map<
    RequestId,
    Request,
> {
    index.remove_keys(ids.to_set())
}

/// The records that leave `index` when the ids of `ids` are removed from it
/// one after the other: for each id that `index` holds, its record, at the
/// id's first occurrence in `ids`.
pub open spec fn taken(index: Map<RequestId, Request>, ids: Seq<RequestId>) -> Seq<Request>
    decreases ids.len(),
{
    if ids.len() == 0 {
        Seq::empty()
    } else {
        let earlier = taken(index, ids.drop_last());
        let id = ids.last();
        if index.contains_key(id) && !ids.drop_last().contains(id) {
            earlier.push(index[id])
        } else {
            earlier
        }
    }
}

/// The ids under which the records of `records` enter `index` when they are
/// added one after the other, each unless its id is taken by then.
pub open spec fn accepted(index: Map<RequestId, Request>, records: Seq<Request>) -> Seq<RequestId>
    decreases records.len(),
{
    if records.len() == 0 {
        Seq::empty()
    } else {
        let earlier = accepted(index, records.drop_last());
        let id = records.last().tracker@.id;
        if index.contains_key(id) || earlier.contains(id) {
            earlier
        } else {
            earlier.push(id)
        }
    }
}

/// The reverse index after the records of `records` were added to `index`
/// for operation `owner`, one after the other, each unless its id was taken
/// by then.
pub open spec fn merged(
    index: Map<RequestId, Request>,
    owner: OperationId,
    records: Seq<Request>,
) -> Map<RequestId, Request>
    decreases records.len(),
{
    if records.len() == 0 {
        index
    } else {
        let earlier = merged(index, owner, records.drop_last());
        let tracker = records.last().tracker;
        if earlier.contains_key(tracker@.id) {
            earlier
        } else {
            earlier.insert(tracker@.id, Request { session: owner, tracker })
        }
    }
}

/// Where `ids` names each of its requests once and `index` holds them all,
/// the records that leave are those of `ids`, in its order.
pub proof fn lemma_taken_of_present(index: Map<RequestId, Request>, ids: Seq<RequestId>)
    requires
        ids.no_duplicates(),
        forall|i: int| 0 <= i < ids.len() ==> index.contains_key(ids[i]),
    ensures
        taken(index, ids).len() == ids.len(),
        forall|i: int| 0 <= i < ids.len() ==> taken(index, ids)[i] == index[ids[i]],
    decreases ids.len(),
{
    if ids.len() > 0 {
        let front = ids.drop_last();
        lemma_taken_of_present(index, front);
        assert(!front.contains(ids.last())) by {}
    }
}

/// Where `index` holds none of `ids`, nothing leaves it.
pub proof fn lemma_taken_of_absent(index: Map<RequestId, Request>, ids: Seq<RequestId>)
    requires
        forall|i: int| 0 <= i < ids.len() ==> !index.contains_key(ids[i]),
    ensures
        taken(index, ids) == Seq::<Request>::empty(),
        scrubbed(index, ids) == index,
    decreases ids.len(),
{
    if ids.len() > 0 {
        lemma_taken_of_absent(index, ids.drop_last());
    }
    assert forall|id: RequestId| index.contains_key(id) implies !ids.to_set().contains(id) by {}
}

/// Cleaning up is idempotent: to remove the records under `ids` a second
/// time removes nothing and leaves the reverse index as the first time
/// left it.
pub proof fn lemma_scrub_twice(index: Map<RequestId, Request>, ids: Seq<RequestId>)
    ensures
        taken(scrubbed(index, ids), ids) == Seq::<Request>::empty(),
        scrubbed(scrubbed(index, ids), ids) == scrubbed(index, ids),
{
    let once = scrubbed(index, ids);
    lemma_taken_of_absent(once, ids);
}

/// How adding records changes the reverse index: what it held stays, and
/// what is new in it are the accepted ids, once each, for `owner`.
pub proof fn lemma_merged(index: Map<RequestId, Request>, owner: OperationId, records: Seq<Request>)
    ensures
        accepted(index, records).no_duplicates(),
        forall|id: RequestId|
            index.contains_key(id) ==> merged(index, owner, records).contains_key(id) && merged(
                index,
                owner,
                records,
            )[id] == index[id],
        forall|id: RequestId| #[trigger]
            merged(index, owner, records).contains_key(id) <==> index.contains_key(id) || accepted(
                index,
                records,
            ).contains(id),
        forall|id: RequestId|
            accepted(index, records).contains(id) ==> {
                &&& !index.contains_key(id)
                &&& (#[trigger] merged(index, owner, records)[id]).session == owner
                &&& merged(index, owner, records)[id].tracker@.id == id
            },
    decreases records.len(),
{
    if records.len() > 0 {
        let front = records.drop_last();
        lemma_merged(index, owner, front);
        let earlier = accepted(index, front);
        let now = accepted(index, records);
        let id0 = records.last().tracker@.id;
        if !(index.contains_key(id0) || earlier.contains(id0)) {
            assert forall|i: int, j: int| 0 <= i < j < now.len() implies now[i] != now[j] by {}
            assert forall|id: RequestId| now.contains(id) <==> earlier.contains(id) || id
                == id0 by {
                if earlier.contains(id) {
                    let k = choose|k: int| 0 <= k < earlier.len() && earlier[k] == id;
                    assert(now[k] == id);
                }
                if id == id0 {
                    assert(now[earlier.len() as int] == id);
                }
            }
        }
    }
}

/// Where no record of `records` clashes with `index` or with another of
/// them, every one is accepted.
pub proof fn lemma_accepted_all(index: Map<RequestId, Request>, records: Seq<Request>)
    requires
        forall|i: int| 0 <= i < records.len() ==> !index.contains_key(records[i].tracker@.id),
        forall|i: int, j: int|
            0 <= i < j < records.len() ==> records[i].tracker@.id != records[j].tracker@.id,
    ensures
        accepted(index, records).len() == records.len(),
        forall|i: int| 0 <= i < records.len() ==> accepted(index, records)[i] == records[i].tracker@.id,
    decreases records.len(),
{
    if records.len() > 0 {
        let front = records.drop_last();
        lemma_accepted_all(index, front);
    }
}

/// Where no record of `records` clashes with `index` or with another of
/// them, every one is filed under its id for `owner`.
pub proof fn lemma_merged_all(
    index: Map<RequestId, Request>,
    owner: OperationId,
    records: Seq<Request>,
)
    requires
        forall|i: int| 0 <= i < records.len() ==> !index.contains_key(records[i].tracker@.id),
        forall|i: int, j: int|
            0 <= i < j < records.len() ==> records[i].tracker@.id != records[j].tracker@.id,
    ensures
        forall|i: int|
            0 <= i < records.len() ==> {
                &&& merged(index, owner, records).contains_key((#[trigger] records[i]).tracker@.id)
                &&& merged(index, owner, records)[records[i].tracker@.id] == (Request {
                    session: owner,
                    tracker: records[i].tracker,
                })
            },
    decreases records.len(),
{
    if records.len() > 0 {
        let front = records.drop_last();
        let last = records.len() - 1;
        lemma_merged_all(index, owner, front);
        lemma_accepted_all(index, front);
        lemma_merged(index, owner, front);
        assert forall|i: int| 0 <= i < records.len() implies {
            &&& merged(index, owner, records).contains_key((#[trigger] records[i]).tracker@.id)
            &&& merged(index, owner, records)[records[i].tracker@.id] == (Request {
                session: owner,
                tracker: records[i].tracker,
            })
        } by {
            if i < last {
                assert(front[i] == records[i]);
            }
        }
    }
}

/// The requests table as plain data.
#[verifier::ext_equal]
pub struct RequestsView<O> {
    /// The active operations, by id.
    pub sessions: Map<OperationId, OperationWrapper<O>>,
    /// For each active operation the ids of its outstanding requests,
    /// oldest first.
    pub running: Map<OperationId, Seq<RequestId>>,
    /// For each outstanding request its record and the operation that owns
    /// it.
    pub index: Map<RequestId, Request>,
}

impl<O> RequestsView<O> {
    /// The table that knows no operation.
    pub open spec fn empty() -> RequestsView<O> {
        RequestsView { sessions: Map::empty(), running: Map::empty(), index: Map::empty() }
    }

    /// Operation `op` is active.
    pub open spec fn is_active(self, op: OperationId) -> bool {
        self.sessions.contains_key(op)
    }

    /// The active operations and the running lists go together, each
    /// operation is filed under its own id, and the running lists and the
    /// reverse index agree: an id stands in the running list of an
    /// operation, once, exactly if the reverse index holds a record under
    /// that id for that operation.
    pub open spec fn wf(self) -> bool {
        &&& forall|op: OperationId|
            self.sessions.contains_key(op) <==> self.running.contains_key(op)
        &&& forall|op: OperationId|
            self.sessions.contains_key(op) ==> (#[trigger] self.sessions[op]).id == op
        &&& forall|op: OperationId|
            self.running.contains_key(op) ==> (#[trigger] self.running[op]).no_duplicates()
        &&& forall|op: OperationId, i: int|
            self.running.contains_key(op) && 0 <= i < self.running[op].len() ==> {
                &&& self.index.contains_key(#[trigger] self.running[op][i])
                &&& self.index[self.running[op][i]].session == op
            }
        &&& forall|id: RequestId|
            self.index.contains_key(id) ==> {
                &&& self.running.contains_key((#[trigger] self.index[id]).session)
                &&& self.running[self.index[id].session].contains(id)
                &&& self.index[id].tracker@.id == id
            }
    }

    /// The records of the outstanding requests of operation `op`, oldest
    /// first.
    pub open spec fn records(self, op: OperationId) -> Seq<Request> {
        taken(self.index, self.running[op])
    }

    /// The table after operation `op` was taken out of it with its running
    /// list and its records.
    pub open spec fn detach(self, op: OperationId) -> RequestsView<O> {
        if self.running.contains_key(op) {
            RequestsView {
                sessions: self.sessions.remove(op),
                running: self.running.remove(op),
                index: scrubbed(self.index, self.running[op]),
            }
        } else {
            self
        }
    }

    /// The table after operation `op` was put into it with the requests of
    /// `records` that could be filed. An operation of which no request
    /// could be filed is put in only where `keep_idle` says so.
    pub open spec fn attach(
        self,
        op: OperationWrapper<O>,
        records: Seq<Request>,
        keep_idle: bool,
    ) -> RequestsView<O> {
        let ids = accepted(self.index, records);
        if ids.len() == 0 && !keep_idle {
            self
        } else {
            RequestsView {
                sessions: self.sessions.insert(op.id, op),
                running: self.running.insert(op.id, ids),
                index: merged(self.index, op.id, records),
            }
        }
    }

    /// The table without anything that belongs to operation `op`.
    pub open spec fn without(self, op: OperationId) -> RequestsView<O> {
        RequestsView {
            sessions: self.sessions.remove(op),
            running: self.running.remove(op),
            index: Map::new(
                |id: RequestId| self.index.contains_key(id) && self.index[id].session != op,
                |id: RequestId| self.index[id],
            ),
        }
    }

    /// The running lists and the reverse index agree: an id stands in the
    /// running list of an active operation exactly if the reverse index
    /// holds a record under that id that names the operation.
    pub proof fn lemma_lock_step(self, op: OperationId, id: RequestId)
        requires
            self.wf(),
            self.is_active(op),
        ensures
            self.running.contains_key(op),
            self.running[op].contains(id) <==> self.index.contains_key(id) && self.index[id].session
                == op,
    {
    }

    /// An operation that is not active owns no record.
    pub proof fn lemma_inactive_owns_nothing(self, op: OperationId)
        requires
            self.wf(),
            !self.is_active(op),
        ensures
            forall|id: RequestId| self.index.contains_key(id) ==> self.index[id].session != op,
            self.without(op) == self,
    {
    }

    /// To take an active operation out leaves a well-formed table that holds
    /// nothing of the operation and everything else, and the session that
    /// the operation's step starts from is well formed and holds each of the
    /// operation's requests.
    pub proof fn lemma_detach(self, op: OperationId, conn_id: ConnectionId)
        requires
            self.wf(),
            self.is_active(op),
        ensures
            self.detach(op).wf(),
            !self.detach(op).is_active(op),
            self.detach(op) == self.without(op),
            self.records(op).len() == self.running[op].len(),
            forall|i: int|
                0 <= i < self.running[op].len() ==> self.records(op)[i] == self.index[self.running[op][i]],
            self.session_of(op, conn_id).wf(),
            forall|id: RequestId|
                self.index.contains_key(id) && self.index[id].session == op ==> self.session_of(
                    op,
                    conn_id,
                ).tracks(id),
    {
        let ids = self.running[op];
        lemma_taken_of_present(self.index, ids);
        assert forall|id: RequestId| ids.to_set().contains(id) <==> self.index.contains_key(id)
            && self.index[id].session == op by {
            self.lemma_lock_step(op, id);
        }
        let session = self.session_of(op, conn_id);
        assert forall|i: int| 0 <= i < session.running.len() implies session.running[i]
            == self.index[ids[i]] && session.id_at(i) == ids[i] && session.running[i].session
            == op by {}
        assert forall|id: RequestId|
            self.index.contains_key(id) && self.index[id].session == op implies session.tracks(
            id,
        ) by {
            self.lemma_lock_step(op, id);
        }
    }

    /// To take an active operation out and to put it back with the records
    /// that came out leaves the table as it was.
    pub proof fn lemma_detach_then_attach(self, op: OperationId)
        requires
            self.wf(),
            self.is_active(op),
        ensures
            self.detach(op).attach(self.sessions[op], self.records(op), true) == self,
    {
        let out = self.detach(op);
        let records = self.records(op);
        let ids = self.running[op];
        self.lemma_detach(op, 0);
        lemma_accepted_all(out.index, records);
        lemma_merged_all(out.index, op, records);
        lemma_merged(out.index, op, records);
        let back = out.attach(self.sessions[op], records, true);
        assert(accepted(out.index, records) =~= ids);
        assert forall|id: RequestId| self.index.contains_key(id) implies back.index.contains_key(
            id,
        ) && back.index[id] == self.index[id] by {
            self.lemma_lock_step(op, id);
            if self.index[id].session != op {
                assert(back.index[id] == out.index[id]);
            }
        }
        assert forall|id: RequestId| back.index.contains_key(id) implies self.index.contains_key(
            id,
        ) by {
            if !out.index.contains_key(id) {
                self.lemma_lock_step(op, id);
            }
        }
    }

    /// To put an operation that is not active in leaves a well-formed table
    /// that differs from the one before only in what belongs to the
    /// operation. The operation is active afterwards exactly if one of its
    /// requests could be filed or `keep_idle` says so.
    pub proof fn lemma_attach(self, op: OperationWrapper<O>, records: Seq<Request>, keep_idle: bool)
        requires
            self.wf(),
            !self.is_active(op.id),
        ensures
            self.attach(op, records, keep_idle).wf(),
            self.attach(op, records, keep_idle).without(op.id) == self,
            self.attach(op, records, keep_idle).is_active(op.id) <==> keep_idle || accepted(
                self.index,
                records,
            ).len() > 0,
            self.attach(op, records, keep_idle).is_active(op.id) ==> {
                &&& self.attach(op, records, keep_idle).sessions[op.id] == op
                &&& self.attach(op, records, keep_idle).running[op.id] == accepted(
                    self.index,
                    records,
                )
            },
    {
        let after = self.attach(op, records, keep_idle);
        let ids = accepted(self.index, records);
        self.lemma_inactive_owns_nothing(op.id);
        lemma_merged(self.index, op.id, records);
        if !(ids.len() == 0 && !keep_idle) {
            assert forall|o: OperationId, i: int|
                after.running.contains_key(o) && 0 <= i < after.running[o].len() implies {
                &&& after.index.contains_key(#[trigger] after.running[o][i])
                &&& after.index[after.running[o][i]].session == o
            } by {}
            assert forall|id: RequestId| after.index.contains_key(id) implies {
                &&& after.running.contains_key((#[trigger] after.index[id]).session)
                &&& after.running[after.index[id].session].contains(id)
                &&& after.index[id].tracker@.id == id
            } by {}
            assert forall|id: RequestId|
                after.index.contains_key(id) && after.index[id].session
                    != op.id implies self.index.contains_key(id) by {}
        }
    }

    /// What a well-formed session leaves behind is filed as it is: the
    /// operation's running list names the session's requests in their order,
    /// and the reverse index holds each of their records.
    pub proof fn lemma_attach_session(self, op: OperationWrapper<O>, session: SessionView)
        requires
            self.wf(),
            !self.is_active(op.id),
            session.wf(),
            session.owner == op.id,
            session.foreign == self.index,
        ensures
            ({
                let after = self.attach(op, session.running, true);
                &&& after.running[op.id].len() == session.running.len()
                &&& forall|i: int|
                    0 <= i < session.running.len() ==> {
                        &&& after.running[op.id][i] == session.id_at(i)
                        &&& after.index.contains_key(session.id_at(i))
                        &&& after.index[session.id_at(i)] == #[trigger] session.running[i]
                    }
            }),
    {
        let records = session.running;
        assert forall|i: int| 0 <= i < records.len() implies !self.index.contains_key(
            records[i].tracker@.id,
        ) by {
            assert(!session.foreign.contains_key(session.id_at(i)));
        }
        assert forall|i: int, j: int| 0 <= i < j < records.len() implies records[i].tracker@.id
            != records[j].tracker@.id by {
            assert(session.id_at(i) != session.id_at(j));
        }
        lemma_accepted_all(self.index, records);
        lemma_merged_all(self.index, op.id, records);
        let after = self.attach(op, records, true);
        assert forall|i: int| 0 <= i < records.len() implies {
            &&& after.running[op.id][i] == session.id_at(i)
            &&& after.index.contains_key(session.id_at(i))
            &&& after.index[session.id_at(i)] == #[trigger] session.running[i]
        } by {
            assert(records[i].session == op.id);
            assert(after.index[records[i].tracker@.id] == (Request {
                session: op.id,
                tracker: records[i].tracker,
            }));
        }
    }

    /// What operation `op` is handed for a step on connection `conn_id`.
    pub open spec fn handed(self, op: OperationId, conn_id: ConnectionId) -> Handed {
        Handed { connection: conn_id, running: self.records(op) }
    }

    /// A step of another operation does not touch the records of this one.
    pub proof fn lemma_records_kept(self, after: RequestsView<O>, other: OperationId, op: OperationId)
        requires
            self.wf(),
            after.wf(),
            after.without(other) == self.without(other),
            op != other,
            self.is_active(op),
        ensures
            after.is_active(op),
            after.sessions[op] == self.sessions[op],
            after.running[op] == self.running[op],
            after.records(op) == self.records(op),
    {
        let kept = self.without(other);
        assert(kept == after.without(other));
        assert(kept.sessions.contains_key(op));
        assert(after.sessions.contains_key(op));
        assert(kept.sessions[op] == self.sessions[op]);
        assert(kept.sessions[op] == after.sessions[op]);
        assert(kept.running.contains_key(op));
        assert(kept.running[op] == self.running[op]);
        assert(kept.running[op] == after.running[op]);
        let ids = self.running[op];
        assert forall|i: int| 0 <= i < ids.len() implies self.index.contains_key(ids[i])
            && after.index.contains_key(ids[i]) && after.index[ids[i]] == self.index[ids[i]] by {
            assert(self.index.contains_key(self.running[op][i]));
            assert(self.index[self.running[op][i]].session == op);
            assert(kept.index.contains_key(ids[i]));
            assert(kept.index[ids[i]] == self.index[ids[i]]);
            assert(after.without(other).index.contains_key(ids[i]));
            assert(after.index.contains_key(ids[i]));
            assert(after.without(other).index[ids[i]] == after.index[ids[i]]);
        }
        lemma_taken_of_present(self.index, ids);
        lemma_taken_of_present(after.index, ids);
        assert(after.records(op) =~= self.records(op));
    }

    /// The session that a step of operation `op` on connection `conn_id`
    /// starts from.
    pub open spec fn session_of(self, op: OperationId, conn_id: ConnectionId) -> SessionView {
        SessionView {
            owner: op,
            connection: conn_id,
            running: self.records(op),
            foreign: self.detach(op).index,
        }
    }
}

} // verus!
