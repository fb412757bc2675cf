//! The record kept for each outstanding request.

use vstd::prelude::*;
use crate::command::Cmd;
use crate::ident::{is_random_uuid, random_id, ConnectionId, RequestId};

verus! {

/// What a tracking record says, as plain data.
pub struct TrackingView {
    /// The id of the request, which its reply will carry.
    pub id: RequestId,
    /// The command that was sent.
    pub cmd: Cmd,
    /// The connection the request was sent on.
    pub conn_id: ConnectionId,
}

/// Metadata of one request. The id is fixed when the record is made.
#[derive(Debug)]
pub struct Tracking {
    id: RequestId,
    cmd: Cmd,
    conn_id: ConnectionId,
}

impl View for Tracking {
    type V = TrackingView;

    closed spec fn view(&self) -> TrackingView {
        TrackingView { id: self.id, cmd: self.cmd, conn_id: self.conn_id }
    }
}

impl Tracking {
    /// The record that says `view`.
    pub closed spec fn of(view: TrackingView) -> Tracking {
        Tracking { id: view.id, cmd: view.cmd, conn_id: view.conn_id }
    }

    /// A record is nothing more than what it says.
    pub proof fn lemma_of_view(self)
        ensures
            Tracking::of(self@) == self,
    {
    }

    /// `of` builds a record that says what it was given.
    pub proof fn lemma_view_of(view: TrackingView)
        ensures
            Tracking::of(view)@ == view,
    {
    }

    /// A record for a request that is about to be sent on connection
    /// `conn_id`, under a randomly drawn id.
    pub fn new(cmd: Cmd, conn_id: ConnectionId) -> (tracker: Tracking)
        ensures
            is_random_uuid(tracker@.id),
            tracker@.cmd == cmd,
            tracker@.conn_id == conn_id,
    {
        Tracking::with_id(random_id(), cmd, conn_id)
    }

    /// A record for a request under the given id.
    pub fn with_id(id: RequestId, cmd: Cmd, conn_id: ConnectionId) -> (tracker: Tracking)
        ensures
            tracker@ == (TrackingView { id, cmd, conn_id }),
    {
        Tracking { id, cmd, conn_id }
    }

    pub fn get_id(&self) -> (id: RequestId)
        ensures
            id == self@.id,
    {
        self.id
    }

    pub fn get_cmd(&self) -> (cmd: Cmd)
        ensures
            cmd == self@.cmd,
    {
        self.cmd
    }

    pub fn get_conn_id(&self) -> (conn_id: ConnectionId)
        ensures
            conn_id == self@.conn_id,
    {
        self.conn_id
    }

    /// Records that the request now stands for another command; the id and
    /// the connection stay.
    pub fn set_cmd(&mut self, cmd: Cmd)
        ensures
            final(self)@ == (TrackingView { cmd, ..old(self)@ }),
    {
        self.cmd = cmd;
    }
}

} // verus!
