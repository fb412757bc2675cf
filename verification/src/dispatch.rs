//! How the table reacts to an inbound package, and what a step of an
//! operation comes to.

use vstd::prelude::*;
use vstd::string::StringExecFns;
use crate::command::Cmd;
use crate::ident::{ConnectionId, OperationId};
use crate::model::RequestsView;
use crate::operations::{Call, Event, Handed, OperationError, Outcome};
use crate::package::{NotHandledReason, Pkg};

verus! {

/// The message of the error that stands for a failure of an operation's own
/// logic: the fixed words, then the cause as it is.
pub fn exception_message(cause: &String) -> (message: String)
    ensures
        message@ == "Exception raised: "@ + cause@,
{
    String::from_str("Exception raised: ").concat(cause.as_str())
}

/// What the table does with a package that answers an outstanding request.
#[derive(Debug, PartialEq, Eq)]
pub enum Reaction {
    /// Signal this error to the operation and give the operation up.
    Fail(OperationError),
    /// Give the operation up without a signal.
    Abandon,
    /// Have the operation issue the request again.
    Retry,
    /// Hand the package to the operation.
    Receive,
}

/// The reaction that the reply code of `pkg` calls for.
pub open spec fn reaction_to(pkg: Pkg) -> Reaction {
    match pkg.cmd {
        Cmd::BadRequest => Reaction::Fail(OperationError::ServerError(pkg.text())),
        Cmd::NotAuthenticated => Reaction::Fail(OperationError::AuthenticationRequired),
        Cmd::NotHandled => match pkg.reason() {
            Some(NotHandledReason::NotMaster) => Reaction::Fail(OperationError::NotImplemented),
            Some(_) => Reaction::Retry,
            None => Reaction::Abandon,
        },
        Cmd::Other(_) => Reaction::Receive,
    }
}

/// Decides by the reply code of `pkg` what is to be done for the operation
/// that owns the request.
pub fn react(pkg: &Pkg) -> (reaction: Reaction)
    ensures
        reaction == reaction_to(*pkg),
{
    match pkg.cmd {
        Cmd::BadRequest => Reaction::Fail(OperationError::ServerError(pkg.to_text())),
        Cmd::NotAuthenticated => Reaction::Fail(OperationError::AuthenticationRequired),
        Cmd::NotHandled => match pkg.to_reason() {
            Some(NotHandledReason::NotMaster) => Reaction::Fail(OperationError::NotImplemented),
            Some(_) => Reaction::Retry,
            None => Reaction::Abandon,
        },
        Cmd::Other(_) => Reaction::Receive,
    }
}

/// How the dispatch of an inbound package ended.
#[derive(Debug, PartialEq, Eq)]
pub enum Handling {
    /// No outstanding request has the package's correlation id; the package
    /// was dropped.
    Ignored,
    /// The owning operation was given up, after this error was signalled to
    /// it where there is one.
    Failed(Option<OperationError>),
    /// The owning operation took its step; these packages are to be sent
    /// for it.
    Handled(Vec<Pkg>),
}

impl Handling {
    /// The packages that are to be sent.
    pub open spec fn pkgs(self) -> Seq<Pkg> {
        match self {
            Handling::Handled(pkgs) => pkgs@,
            _ => Seq::empty(),
        }
    }

    /// Hands over the packages that are to be sent.
    pub fn produced_pkgs(self) -> (pkgs: Vec<Pkg>)
        ensures
            pkgs@ == self.pkgs(),
    {
        match self {
            Handling::Handled(pkgs) => pkgs,
            _ => Vec::new(),
        }
    }
}

/// The error that a failure with message `cause` of an operation's own
/// logic is signalled as.
pub open spec fn is_exception(error: OperationError, cause: String) -> bool {
    error matches OperationError::InvalidOperation(message) && message@ == "Exception raised: "@
        + cause@
}

/// What a retry that ended in `result` comes to: a retry that could not be
/// issued fails the operation, without a signal.
pub fn settle_retry(result: Result<Outcome, String>) -> (handling: Handling)
    ensures
        match result {
            Ok(outcome) => handling is Handled && handling.pkgs() == outcome.pkgs(),
            Err(_) => handling == Handling::Failed(None),
        },
{
    match result {
        Ok(outcome) => Handling::Handled(outcome.produced_pkgs()),
        Err(_) => Handling::Failed(None),
    }
}

/// What a reception that ended in `result` comes to: a reception that
/// failed fails the operation, with a signal that carries the cause.
pub fn settle_receive(result: Result<Outcome, String>) -> (handling: Handling)
    ensures
        match result {
            Ok(outcome) => handling is Handled && handling.pkgs() == outcome.pkgs(),
            Err(cause) => handling matches Handling::Failed(Some(error)) && is_exception(
                error,
                cause,
            ),
        },
{
    match result {
        Ok(outcome) => Handling::Handled(outcome.produced_pkgs()),
        Err(cause) => Handling::Failed(
            Some(OperationError::InvalidOperation(exception_message(&cause))),
        ),
    }
}

/// How the periodic check of one operation ended.
#[derive(Debug, PartialEq, Eq)]
pub enum Checked {
    /// The operation declared itself done and was removed.
    Done,
    /// The operation goes on; these packages are to be sent for it.
    Continue(Vec<Pkg>),
    /// The check failed; the operation was removed after this error was
    /// signalled to it.
    Failed(OperationError),
}

/// What a periodic check that ended in `result` comes to.
pub fn settle_check(result: Result<Outcome, String>) -> (checked: Checked)
    ensures
        match result {
            Ok(Outcome::Done) => checked == Checked::Done,
            Ok(Outcome::Continue(pkgs)) => checked == Checked::Continue(pkgs),
            Err(cause) => checked matches Checked::Failed(error) && is_exception(error, cause),
        },
{
    match result {
        Ok(Outcome::Done) => Checked::Done,
        Ok(Outcome::Continue(pkgs)) => Checked::Continue(pkgs),
        Err(cause) => Checked::Failed(OperationError::InvalidOperation(exception_message(&cause))),
    }
}


impl Checked {
    /// The packages that are to be sent.
    pub open spec fn pkgs(self) -> Seq<Pkg> {
        match self {
            Checked::Continue(pkgs) => pkgs@,
            _ => Seq::empty(),
        }
    }
}

/// How the check of one operation in a sweep ended, with the operation's id.
pub type Report = (OperationId, Checked);

/// How the registration of one waiting operation ended, with the
/// operation's id: the packages it produced, or its message.
pub type Sending = (OperationId, Result<Vec<Pkg>, String>);

/// The packages of the checks that went on, in the order of `reports`.
pub open spec fn packages_checked(reports: Seq<Report>) -> Seq<Pkg>
    decreases reports.len(),
{
    if reports.len() == 0 {
        Seq::empty()
    } else {
        packages_checked(reports.drop_last()) + reports.last().1.pkgs()
    }
}

/// The packages of the registrations that succeeded, in the order of
/// `sendings`.
pub open spec fn packages_sent(sendings: Seq<Sending>) -> Seq<Pkg>
    decreases sendings.len(),
{
    if sendings.len() == 0 {
        Seq::empty()
    } else {
        packages_sent(sendings.drop_last()) + (match sendings.last().1 {
            Ok(pkgs) => pkgs@,
            Err(_) => Seq::empty(),
        })
    }
}

/// Gathers the packages of the checks that went on, in the order of
/// `reports`.
pub fn collect_checked(reports: Vec<Report>) -> (pkgs: Vec<Pkg>)
    ensures
        pkgs@ == packages_checked(reports@),
{
    let mut pkgs: Vec<Pkg> = Vec::new();
    for report in it: reports
        invariant
            it.seq() == reports@,
            pkgs@ == packages_checked(reports@.take(it.index())),
    {
        proof {
            let upto = reports@.take(it.index() + 1);
            assert(upto.drop_last() =~= reports@.take(it.index()));
            assert(upto.last() == report);
        }
        match report.1 {
            Checked::Continue(mut more) => {
                pkgs.append(&mut more);
            },
            _ => {},
        }
    }
    assert(reports@.take(reports@.len() as int) =~= reports@);
    pkgs
}

/// Gathers the packages of the registrations that succeeded, in the order
/// of `sendings`.
pub fn collect_sent(sendings: Vec<Sending>) -> (pkgs: Vec<Pkg>)
    ensures
        pkgs@ == packages_sent(sendings@),
{
    let mut pkgs: Vec<Pkg> = Vec::new();
    for sending in it: sendings
        invariant
            it.seq() == sendings@,
            pkgs@ == packages_sent(sendings@.take(it.index())),
    {
        proof {
            let upto = sendings@.take(it.index() + 1);
            assert(upto.drop_last() =~= sendings@.take(it.index()));
            assert(upto.last() == sending);
        }
        match sending.1 {
            Ok(mut more) => {
                pkgs.append(&mut more);
            },
            Err(_) => {},
        }
    }
    assert(sendings@.take(sendings@.len() as int) =~= sendings@);
    pkgs
}

/// What a sweep of the registry did: first every active operation was
/// checked, then every waiting operation was registered.
#[derive(Debug, PartialEq, Eq)]
pub struct Swept {
    /// The checks, in the order in which they were made.
    pub checked: Vec<Report>,
    /// The registrations, in the order of the waiting queue.
    pub sent: Vec<Sending>,
}

impl Swept {
    /// The packages that are to be sent: those of the checks, then those of
    /// the registrations.
    pub open spec fn pkgs(self) -> Seq<Pkg> {
        packages_checked(self.checked@) + packages_sent(self.sent@)
    }

    /// Hands over the packages that are to be sent.
    pub fn produced_pkgs(self) -> (pkgs: Vec<Pkg>)
        ensures
            pkgs@ == self.pkgs(),
    {
        let mut pkgs = collect_checked(self.checked);
        let mut sent = collect_sent(self.sent);
        pkgs.append(&mut sent);
        pkgs
    }
}

/// The calls that the dispatch of `pkg` on connection `conn_id` makes on
/// the owner of the request it answers, where `table` holds that request
/// and the dispatch ends in `handling`.
pub open spec fn dispatch_events<O>(
    table: RequestsView<O>,
    conn_id: ConnectionId,
    pkg: Pkg,
    handling: Handling,
) -> Seq<Event> {
    let owner = table.index[pkg.correlation].session;
    let handed = table.handed(owner, conn_id);
    match reaction_to(pkg) {
        Reaction::Fail(error) => seq![(owner, Call::Failed(error))],
        Reaction::Abandon => Seq::empty(),
        Reaction::Retry => seq![(owner, Call::Retry(pkg.correlation, handed))],
        Reaction::Receive => match handling {
            Handling::Failed(Some(error)) => seq![
                (owner, Call::Receive(pkg, handed)),
                (owner, Call::Failed(error)),
            ],
            _ => seq![(owner, Call::Receive(pkg, handed))],
        },
    }
}

/// The calls that a check of operation `id` of `table` on connection
/// `conn_id` makes, where the check ends in `checked`.
pub open spec fn check_events<O>(
    table: RequestsView<O>,
    conn_id: ConnectionId,
    id: OperationId,
    checked: Checked,
) -> Seq<Event> {
    let check = seq![(id, Call::Check(table.handed(id, conn_id)))];
    match checked {
        Checked::Failed(error) => check.push((id, Call::Failed(error))),
        _ => check,
    }
}

/// The calls that a sweep of `table` on connection `conn_id` makes, where
/// its checks end as `reports` says, in that order.
pub open spec fn sweep_events<O>(
    table: RequestsView<O>,
    conn_id: ConnectionId,
    reports: Seq<Report>,
) -> Seq<Event>
    decreases reports.len(),
{
    if reports.len() == 0 {
        Seq::empty()
    } else {
        sweep_events(table, conn_id, reports.drop_last()) + check_events(
            table,
            conn_id,
            reports.last().0,
            reports.last().1,
        )
    }
}

/// The call that asks operation `id` to issue its first requests on
/// connection `conn_id`.
pub open spec fn send_event(conn_id: ConnectionId, id: OperationId) -> Event {
    (id, Call::Send(Handed { connection: conn_id, running: Seq::empty() }))
}

/// The calls that ask the operations `ids` to issue their first requests on
/// connection `conn_id`, one after the other.
pub open spec fn send_events(conn_id: ConnectionId, ids: Seq<OperationId>) -> Seq<Event> {
    Seq::new(ids.len(), |i: int| send_event(conn_id, ids[i]))
}

/// The calls that tell the operations `ids` that the client is shutting
/// down, one after the other.
pub open spec fn abort_events(ids: Seq<OperationId>) -> Seq<Event> {
    Seq::new(ids.len(), |i: int| (ids[i], Call::Failed(OperationError::Aborted)))
}

} // verus!
