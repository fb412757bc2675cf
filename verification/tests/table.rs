use std::cell::RefCell;
use std::rc::Rc;

use bytes::BytesMut;
use op_registry::command::Cmd;
use op_registry::dispatch::{
    collect_checked, collect_sent, react, settle_check, settle_receive, settle_retry, Checked, Handling, Reaction, Swept,
};
use op_registry::operations::{Operation, OperationError, OperationWrapper, Outcome};
use op_registry::package::{NotHandledReason, Payload, Pkg};
use op_registry::registry::Registry;
use op_registry::requests::Requests;
use op_registry::session::{Request, SessionImpl};
use op_registry::tracking::Tracking;

const CONN: u128 = 0xC0;

type Journal = Rc<RefCell<Vec<String>>>;

#[derive(Clone, Copy)]
enum Script {
    /// Pop the request at hand and go on with nothing outstanding from it.
    Pop,
    /// Leave everything outstanding and produce this many packages.
    Keep(usize),
    /// Pop the request at hand, take it back in and send it again.
    Reissue,
    /// Report a failure.
    Fail,
    /// Declare the operation done.
    Done,
}

struct Probe {
    name: &'static str,
    journal: Journal,
    issued: Rc<RefCell<Vec<u128>>>,
    first: usize,
    send_fails: bool,
    litter: bool,
    on_receive: Script,
    on_retry: Script,
    on_check: Script,
}

impl Probe {
    fn new(name: &'static str, journal: &Journal) -> Probe {
        Probe {
            name,
            journal: journal.clone(),
            issued: Rc::new(RefCell::new(Vec::new())),
            first: 1,
            send_fails: false,
            litter: false,
            on_receive: Script::Pop,
            on_retry: Script::Reissue,
            on_check: Script::Keep(0),
        }
    }

    fn note(&self, what: String) {
        self.journal.borrow_mut().push(format!("{}:{}", self.name, what));
    }

    fn run(&mut self, script: Script, session: &mut SessionImpl<'_>, id: Option<u128>) -> Result<Outcome, String> {
        match script {
            Script::Pop => {
                if let Some(id) = id {
                    session.pop(&id).map_err(|e| e.message().to_string())?;
                }
                Ok(Outcome::Continue(Vec::new()))
            }
            Script::Keep(n) => {
                let ids: Vec<u128> = session.requests().iter().map(|t| t.get_id()).collect();
                let mut pkgs = Vec::new();
                for i in 0..n {
                    pkgs.push(Pkg::new(Cmd::Other(1), ids[i % ids.len()], Payload::Raw(vec![i as u8])));
                }
                Ok(Outcome::Continue(pkgs))
            }
            Script::Reissue => {
                let id = id.expect("a request to issue again");
                let tracker = session.pop(&id).map_err(|e| e.message().to_string())?;
                let cmd = tracker.get_cmd();
                assert!(session.reuse(tracker));
                Ok(Outcome::Continue(vec![Pkg::new(cmd, id, Payload::Raw(vec![1, 2, 3]))]))
            }
            Script::Fail => Err(String::from("boom")),
            Script::Done => Ok(Outcome::Done),
        }
    }
}

impl Operation for Probe {
    fn send<'a>(&mut self, dest: &mut BytesMut, session: &mut SessionImpl<'a>) -> Result<Outcome, String> {
        self.note(format!("send buffer={}", dest.len()));
        if self.litter {
            dest.extend_from_slice(b"left over");
        }
        let mut pkgs = Vec::new();
        for _ in 0..self.first {
            let id = session.new_request(Cmd::Other(0x82)).expect("a fresh id");
            self.issued.borrow_mut().push(id);
            pkgs.push(Pkg::new(Cmd::Other(0x82), id, Payload::Raw(vec![9])));
        }
        if self.send_fails {
            return Err(String::from("cannot send"));
        }
        Ok(Outcome::Continue(pkgs))
    }

    fn receive<'a>(&mut self, dest: &mut BytesMut, session: &mut SessionImpl<'a>, pkg: Pkg) -> Result<Outcome, String> {
        self.note(format!("receive {} buffer={}", pkg.correlation, dest.len()));
        let script = self.on_receive;
        self.run(script, session, Some(pkg.correlation))
    }

    fn retry<'a>(&mut self, dest: &mut BytesMut, session: &mut SessionImpl<'a>, id: u128) -> Result<Outcome, String> {
        self.note(format!("retry {} buffer={}", id, dest.len()));
        let script = self.on_retry;
        self.run(script, session, Some(id))
    }

    fn check_and_retry<'a>(&mut self, dest: &mut BytesMut, session: &mut SessionImpl<'a>) -> Result<Outcome, String> {
        self.note(format!("check buffer={}", dest.len()));
        let script = self.on_check;
        self.run(script, session, None)
    }

    fn failed(&mut self, error: OperationError) {
        self.note(format!("failed {:?}", error));
    }
}

fn journal() -> Journal {
    Rc::new(RefCell::new(Vec::new()))
}

fn entries(journal: &Journal) -> Vec<String> {
    journal.borrow().clone()
}

/// Every id of a running list has its record under the owner, and every
/// record stands in the running list of its owner.
fn assert_in_step(requests: &Requests<Probe>, all_requests: &[u128]) {
    for op in requests.active_ids() {
        let ids = requests.running(op).expect("a running list for an active operation");
        for id in ids {
            let req = requests.request(*id).expect("a record for a running id");
            assert_eq!(req.session, op);
            assert_eq!(req.get_id(), *id);
        }
    }
    for id in all_requests {
        if let Some(req) = requests.request(*id) {
            let ids = requests.running(req.session).expect("an active owner");
            assert_eq!(ids.iter().filter(|x| *x == id).count(), 1);
        }
    }
}

fn reply(cmd: Cmd, id: u128) -> Pkg {
    Pkg::new(cmd, id, Payload::Raw(Vec::new()))
}

#[test]
fn waiting_operation_is_sent_once_a_connection_is_there() {
    let log = journal();
    let mut registry: Registry<Probe> = Registry::new();
    let sent = registry.register(OperationWrapper::new(1, Probe::new("a", &log)), None).unwrap();
    assert!(sent.is_empty());
    assert_eq!(registry.awaiting_ids(), vec![1]);
    assert!(!registry.requests().is_active(1));
    assert!(registry.knows(1));
    assert!(entries(&log).is_empty());

    let swept = registry.check_and_retry(CONN);
    assert!(swept.checked.is_empty());
    assert_eq!(swept.sent.len(), 1);
    assert_eq!(swept.sent[0].0, 1);
    assert!(swept.sent[0].1.is_ok());
    let pkgs = swept.produced_pkgs();
    assert_eq!(registry.awaiting_ids(), Vec::<u128>::new());
    assert!(registry.requests().is_active(1));
    assert_eq!(entries(&log), vec!["a:send buffer=0"]);
    assert_eq!(pkgs.len(), 1);
    let running = registry.requests().running(1).unwrap().clone();
    assert_eq!(running, vec![pkgs[0].correlation]);
    assert_in_step(registry.requests(), &running);
}

#[test]
fn operation_without_requests_left_is_removed() {
    let log = journal();
    let mut registry: Registry<Probe> = Registry::new();
    let pkgs = registry.register(OperationWrapper::new(1, Probe::new("a", &log)), Some(CONN)).unwrap();
    let id = pkgs[0].correlation;
    let handling = registry.handle(reply(Cmd::Other(0x83), id), CONN);
    assert_eq!(handling, Handling::Handled(Vec::new()));
    assert!(!registry.requests().is_active(1));
    assert!(registry.requests().running(1).is_none());
    assert!(registry.requests().request(id).is_none());
    assert_eq!(entries(&log), vec!["a:send buffer=0".to_string(), format!("a:receive {} buffer=0", id)]);
}

#[test]
fn not_authenticated_fails_the_operation() {
    let log = journal();
    let mut registry: Registry<Probe> = Registry::new();
    let mut probe = Probe::new("a", &log);
    probe.first = 3;
    let pkgs = registry.register(OperationWrapper::new(1, probe), Some(CONN)).unwrap();
    let ids: Vec<u128> = pkgs.iter().map(|p| p.correlation).collect();
    let handling = registry.handle(reply(Cmd::NotAuthenticated, ids[1]), CONN);
    assert_eq!(handling, Handling::Failed(Some(OperationError::AuthenticationRequired)));
    assert!(!registry.requests().is_active(1));
    assert!(registry.requests().running(1).is_none());
    for id in &ids {
        assert!(registry.requests().request(*id).is_none());
    }
    assert_eq!(entries(&log), vec!["a:send buffer=0", "a:failed AuthenticationRequired"]);
}

#[test]
fn server_busy_has_the_request_retried() {
    let log = journal();
    let mut registry: Registry<Probe> = Registry::new();
    let pkgs = registry.register(OperationWrapper::new(1, Probe::new("a", &log)), Some(CONN)).unwrap();
    let id = pkgs[0].correlation;
    let busy = Pkg::new(Cmd::NotHandled, id, Payload::NotHandled(NotHandledReason::TooBusy));
    let handling = registry.handle(busy, CONN);
    assert_eq!(
        handling,
        Handling::Handled(vec![Pkg::new(Cmd::Other(0x82), id, Payload::Raw(vec![1, 2, 3]))])
    );
    assert!(registry.requests().is_active(1));
    assert_eq!(registry.requests().running(1).unwrap(), &vec![id]);
    assert_eq!(registry.requests().request(id).unwrap().session, 1);
    assert_eq!(entries(&log), vec!["a:send buffer=0".to_string(), format!("a:retry {} buffer=0", id)]);

    let not_ready = Pkg::new(Cmd::NotHandled, id, Payload::NotHandled(NotHandledReason::NotReady));
    assert!(matches!(registry.handle(not_ready, CONN), Handling::Handled(_)));
    assert!(registry.requests().is_active(1));
}

#[test]
fn topology_redirect_is_not_implemented() {
    let log = journal();
    let mut registry: Registry<Probe> = Registry::new();
    let pkgs = registry.register(OperationWrapper::new(1, Probe::new("a", &log)), Some(CONN)).unwrap();
    let id = pkgs[0].correlation;
    let redirect = Pkg::new(Cmd::NotHandled, id, Payload::NotHandled(NotHandledReason::NotMaster));
    let handling = registry.handle(redirect, CONN);
    assert_eq!(handling, Handling::Failed(Some(OperationError::NotImplemented)));
    assert!(!registry.requests().is_active(1));
    assert!(registry.requests().request(id).is_none());
    assert_eq!(entries(&log), vec!["a:send buffer=0", "a:failed NotImplemented"]);
}

#[test]
fn unknown_correlation_id_is_dropped() {
    let log = journal();
    let mut registry: Registry<Probe> = Registry::new();
    let pkgs = registry.register(OperationWrapper::new(1, Probe::new("a", &log)), Some(CONN)).unwrap();
    registry.register(OperationWrapper::new(2, Probe::new("b", &log)), None).unwrap();
    let id = pkgs[0].correlation;
    let before = entries(&log);
    let handling = registry.handle(reply(Cmd::NotAuthenticated, id.wrapping_add(1)), CONN);
    assert_eq!(handling, Handling::Ignored);
    assert_eq!(entries(&log), before);
    assert!(registry.requests().is_active(1));
    assert_eq!(registry.requests().running(1).unwrap(), &vec![id]);
    assert_eq!(registry.requests().request(id).unwrap().session, 1);
    assert_eq!(registry.awaiting_ids(), vec![2]);
}

#[test]
fn bad_request_fails_with_the_server_text() {
    let log = journal();
    let mut requests: Requests<Probe> = Requests::new();
    let pkgs = requests.register(CONN, OperationWrapper::new(1, Probe::new("a", &log))).unwrap();
    let id = pkgs[0].correlation;
    let pkg = Pkg::new(Cmd::BadRequest, id, Payload::Text(String::from("no such stream")));
    let handling = requests.handle_pkg(CONN, pkg);
    assert_eq!(
        handling,
        Handling::Failed(Some(OperationError::ServerError(Some(String::from("no such stream")))))
    );
    assert!(!requests.is_active(1));
    assert_eq!(
        entries(&log),
        vec!["a:send buffer=0", "a:failed ServerError(Some(\"no such stream\"))"]
    );
}

#[test]
fn bad_request_without_text_fails_without_a_message() {
    let log = journal();
    let mut requests: Requests<Probe> = Requests::new();
    let pkgs = requests.register(CONN, OperationWrapper::new(1, Probe::new("a", &log))).unwrap();
    let handling = requests.handle_pkg(CONN, reply(Cmd::BadRequest, pkgs[0].correlation));
    assert_eq!(handling, Handling::Failed(Some(OperationError::ServerError(None))));
    assert_eq!(entries(&log), vec!["a:send buffer=0", "a:failed ServerError(None)"]);
}

#[test]
fn undecodable_reason_fails_the_operation_without_a_signal() {
    let log = journal();
    let mut requests: Requests<Probe> = Requests::new();
    let pkgs = requests.register(CONN, OperationWrapper::new(1, Probe::new("a", &log))).unwrap();
    let id = pkgs[0].correlation;
    let handling = requests.handle_pkg(CONN, Pkg::new(Cmd::NotHandled, id, Payload::Raw(vec![0xff])));
    assert_eq!(handling, Handling::Failed(None));
    assert!(!requests.is_active(1));
    assert!(requests.request(id).is_none());
    assert_eq!(entries(&log), vec!["a:send buffer=0"]);
}

#[test]
fn retry_that_cannot_be_issued_fails_the_operation_without_a_signal() {
    let log = journal();
    let mut requests: Requests<Probe> = Requests::new();
    let mut probe = Probe::new("a", &log);
    probe.on_retry = Script::Fail;
    let pkgs = requests.register(CONN, OperationWrapper::new(1, probe)).unwrap();
    let id = pkgs[0].correlation;
    let busy = Pkg::new(Cmd::NotHandled, id, Payload::NotHandled(NotHandledReason::TooBusy));
    assert_eq!(requests.handle_pkg(CONN, busy), Handling::Failed(None));
    assert!(!requests.is_active(1));
    assert!(requests.request(id).is_none());
    assert_eq!(entries(&log), vec!["a:send buffer=0".to_string(), format!("a:retry {} buffer=0", id)]);
}

#[test]
fn failing_receive_is_signalled_as_invalid_operation() {
    let log = journal();
    let mut requests: Requests<Probe> = Requests::new();
    let mut probe = Probe::new("a", &log);
    probe.first = 2;
    probe.on_receive = Script::Fail;
    let pkgs = requests.register(CONN, OperationWrapper::new(1, probe)).unwrap();
    let ids: Vec<u128> = pkgs.iter().map(|p| p.correlation).collect();
    let handling = requests.handle_pkg(CONN, reply(Cmd::Other(0x83), ids[0]));
    assert_eq!(
        handling,
        Handling::Failed(Some(OperationError::InvalidOperation(String::from("Exception raised: boom"))))
    );
    assert!(!requests.is_active(1));
    assert!(requests.request(ids[0]).is_none());
    assert!(requests.request(ids[1]).is_none());
    assert_eq!(
        entries(&log),
        vec![
            "a:send buffer=0".to_string(),
            format!("a:receive {} buffer=0", ids[0]),
            "a:failed InvalidOperation(\"Exception raised: boom\")".to_string(),
        ]
    );
}

#[test]
fn receive_that_leaves_requests_outstanding_keeps_the_operation() {
    let log = journal();
    let mut requests: Requests<Probe> = Requests::new();
    let mut probe = Probe::new("a", &log);
    probe.first = 2;
    let pkgs = requests.register(CONN, OperationWrapper::new(1, probe)).unwrap();
    let ids: Vec<u128> = pkgs.iter().map(|p| p.correlation).collect();
    assert_eq!(requests.handle_pkg(CONN, reply(Cmd::Other(0x83), ids[0])), Handling::Handled(Vec::new()));
    assert!(requests.is_active(1));
    assert_eq!(requests.running(1).unwrap(), &vec![ids[1]]);
    assert!(requests.request(ids[0]).is_none());
    assert_in_step(&requests, &ids);
    assert_eq!(requests.handle_pkg(CONN, reply(Cmd::Other(0x83), ids[0])), Handling::Ignored);
    assert_eq!(requests.handle_pkg(CONN, reply(Cmd::Other(0x83), ids[1])), Handling::Handled(Vec::new()));
    assert!(!requests.is_active(1));
}

#[test]
fn dispatch_leaves_other_operations_alone() {
    let log = journal();
    let mut requests: Requests<Probe> = Requests::new();
    let a = requests.register(CONN, OperationWrapper::new(1, Probe::new("a", &log))).unwrap();
    let mut probe = Probe::new("b", &log);
    probe.first = 2;
    let b = requests.register(CONN, OperationWrapper::new(2, probe)).unwrap();
    let all: Vec<u128> = a.iter().chain(b.iter()).map(|p| p.correlation).collect();
    assert_in_step(&requests, &all);
    let handling = requests.handle_pkg(CONN, reply(Cmd::NotAuthenticated, all[0]));
    assert_eq!(handling, Handling::Failed(Some(OperationError::AuthenticationRequired)));
    assert!(!requests.is_active(1));
    assert!(requests.is_active(2));
    assert_eq!(requests.running(2).unwrap(), &vec![all[1], all[2]]);
    assert_eq!(requests.request(all[1]).unwrap().session, 2);
    assert_eq!(requests.request(all[2]).unwrap().tracker.get_conn_id(), CONN);
    assert_in_step(&requests, &all);
    let mut active = requests.active_ids();
    active.sort();
    assert_eq!(active, vec![2]);
}

#[test]
fn failed_send_leaves_no_trace() {
    let log = journal();
    let mut requests: Requests<Probe> = Requests::new();
    let mut probe = Probe::new("a", &log);
    probe.first = 2;
    probe.send_fails = true;
    let issued = probe.issued.clone();
    let sent = requests.register(CONN, OperationWrapper::new(1, probe));
    assert_eq!(sent.unwrap_err(), "cannot send");
    assert!(!requests.is_active(1));
    assert!(requests.running(1).is_none());
    assert_eq!(issued.borrow().len(), 2);
    for id in issued.borrow().iter() {
        assert!(requests.request(*id).is_none());
    }
    assert_eq!(requests.active_ids(), Vec::<u128>::new());
}

#[test]
fn operation_that_sends_nothing_stays_active_until_checked_done() {
    let log = journal();
    let mut requests: Requests<Probe> = Requests::new();
    let mut probe = Probe::new("a", &log);
    probe.first = 0;
    probe.on_check = Script::Done;
    assert!(requests.register(CONN, OperationWrapper::new(1, probe)).unwrap().is_empty());
    assert!(requests.is_active(1));
    assert_eq!(requests.running(1).unwrap(), &Vec::<u128>::new());
    assert_eq!(requests.check_and_retry(CONN), vec![(1, Checked::Done)]);
    assert!(!requests.is_active(1));
    assert!(requests.check_and_retry(CONN).is_empty());
}

#[test]
fn sweep_removes_done_and_failed_operations_and_forwards_packages() {
    let log = journal();
    let mut requests: Requests<Probe> = Requests::new();
    let mut done = Probe::new("done", &log);
    done.on_check = Script::Done;
    let mut goes_on = Probe::new("on", &log);
    goes_on.on_check = Script::Keep(2);
    let mut fails = Probe::new("bad", &log);
    fails.on_check = Script::Fail;
    let d = requests.register(CONN, OperationWrapper::new(1, done)).unwrap()[0].correlation;
    let g = requests.register(CONN, OperationWrapper::new(2, goes_on)).unwrap()[0].correlation;
    let f = requests.register(CONN, OperationWrapper::new(3, fails)).unwrap()[0].correlation;
    let mut reports = requests.check_and_retry(CONN);
    let produced = vec![Pkg::new(Cmd::Other(1), g, Payload::Raw(vec![0])), Pkg::new(Cmd::Other(1), g, Payload::Raw(vec![1]))];
    reports.sort_by_key(|report| report.0);
    assert_eq!(
        reports,
        vec![
            (1, Checked::Done),
            (2, Checked::Continue(produced.clone())),
            (3, Checked::Failed(OperationError::InvalidOperation(String::from("Exception raised: boom")))),
        ]
    );
    assert_eq!(collect_checked(reports), produced);
    assert!(!requests.is_active(1));
    assert!(requests.is_active(2));
    assert!(!requests.is_active(3));
    assert!(requests.request(d).is_none());
    assert!(requests.request(f).is_none());
    assert_eq!(requests.running(2).unwrap(), &vec![g]);
    assert_in_step(&requests, &[d, g, f]);
    let mut noted = entries(&log);
    noted.sort();
    assert_eq!(
        noted,
        vec![
            "bad:check buffer=0",
            "bad:failed InvalidOperation(\"Exception raised: boom\")",
            "bad:send buffer=0",
            "done:check buffer=0",
            "done:send buffer=0",
            "on:check buffer=0",
            "on:send buffer=0",
        ]
    );
}

#[test]
fn check_operation_reports_how_the_check_ended() {
    let log = journal();
    let mut requests: Requests<Probe> = Requests::new();
    let mut probe = Probe::new("a", &log);
    probe.on_check = Script::Keep(1);
    let id = requests.register(CONN, OperationWrapper::new(1, probe)).unwrap()[0].correlation;
    let checked = requests.check_operation(CONN, 1);
    assert_eq!(checked, Checked::Continue(vec![Pkg::new(Cmd::Other(1), id, Payload::Raw(vec![0]))]));
    assert!(requests.is_active(1));

    let mut failing = Probe::new("b", &log);
    failing.on_check = Script::Fail;
    requests.register(CONN, OperationWrapper::new(2, failing)).unwrap();
    assert_eq!(
        requests.check_operation(CONN, 2),
        Checked::Failed(OperationError::InvalidOperation(String::from("Exception raised: boom")))
    );
    assert!(!requests.is_active(2));
}

#[test]
fn every_step_starts_from_an_empty_buffer() {
    let log = journal();
    let mut requests: Requests<Probe> = Requests::new();
    let mut messy = Probe::new("a", &log);
    messy.litter = true;
    let id = requests.register(CONN, OperationWrapper::new(1, messy)).unwrap()[0].correlation;
    requests.register(CONN, OperationWrapper::new(2, Probe::new("b", &log))).unwrap();
    requests.handle_pkg(CONN, reply(Cmd::Other(0x83), id));
    assert_eq!(
        entries(&log),
        vec!["a:send buffer=0".to_string(), "b:send buffer=0".to_string(), format!("a:receive {} buffer=0", id)]
    );
}

#[test]
fn waiting_operations_are_registered_in_the_order_they_came() {
    let log = journal();
    let mut registry: Registry<Probe> = Registry::new();
    registry.register(OperationWrapper::new(3, Probe::new("first", &log)), None).unwrap();
    registry.register(OperationWrapper::new(1, Probe::new("second", &log)), None).unwrap();
    registry.register(OperationWrapper::new(2, Probe::new("third", &log)), None).unwrap();
    assert_eq!(registry.awaiting_ids(), vec![3, 1, 2]);
    let swept = registry.check_and_retry(CONN);
    assert_eq!(swept.sent.iter().map(|s| s.0).collect::<Vec<u128>>(), vec![3, 1, 2]);
    let pkgs = swept.produced_pkgs();
    assert_eq!(entries(&log), vec!["first:send buffer=0", "second:send buffer=0", "third:send buffer=0"]);
    assert_eq!(pkgs.len(), 3);
    assert_eq!(registry.requests().running(3).unwrap(), &vec![pkgs[0].correlation]);
    assert_eq!(registry.requests().running(1).unwrap(), &vec![pkgs[1].correlation]);
    assert_eq!(registry.requests().running(2).unwrap(), &vec![pkgs[2].correlation]);
    assert!(registry.awaiting_ids().is_empty());
}

#[test]
fn an_operation_is_never_both_waiting_and_active() {
    let log = journal();
    let mut registry: Registry<Probe> = Registry::new();
    registry.register(OperationWrapper::new(1, Probe::new("a", &log)), None).unwrap();
    let b = registry.register(OperationWrapper::new(2, Probe::new("b", &log)), Some(CONN)).unwrap();
    let mut failing = Probe::new("c", &log);
    failing.send_fails = true;
    registry.register(OperationWrapper::new(3, failing), None).unwrap();
    let check = |registry: &Registry<Probe>| {
        for id in registry.awaiting_ids() {
            assert!(!registry.requests().is_active(id));
        }
    };
    check(&registry);
    registry.handle(reply(Cmd::Other(0x83), b[0].correlation), CONN);
    check(&registry);
    registry.check_and_retry(CONN);
    check(&registry);
    assert!(registry.requests().is_active(1));
    assert!(!registry.knows(2));
    assert!(!registry.knows(3));
    registry.abort();
    check(&registry);
}

#[test]
fn abort_signals_every_operation_and_keeps_the_bookkeeping() {
    let log = journal();
    let mut registry: Registry<Probe> = Registry::new();
    let a = registry.register(OperationWrapper::new(1, Probe::new("a", &log)), Some(CONN)).unwrap();
    registry.register(OperationWrapper::new(2, Probe::new("b", &log)), None).unwrap();
    assert_eq!(registry.abort(), vec![1]);
    assert_eq!(entries(&log), vec!["a:send buffer=0", "a:failed Aborted", "b:failed Aborted"]);
    assert!(registry.requests().is_active(1));
    assert_eq!(registry.requests().running(1).unwrap(), &vec![a[0].correlation]);
    assert_eq!(registry.requests().request(a[0].correlation).unwrap().session, 1);
    assert_eq!(registry.awaiting_ids(), vec![2]);
}

#[test]
fn restore_drops_records_whose_id_is_taken() {
    let log = journal();
    let mut requests: Requests<Probe> = Requests::new();
    requests.restore(
        OperationWrapper::new(1, Probe::new("a", &log)),
        vec![Request { session: 1, tracker: Tracking::with_id(10, Cmd::Other(1), CONN) }],
        false,
    );
    requests.restore(
        OperationWrapper::new(2, Probe::new("b", &log)),
        vec![
            Request { session: 2, tracker: Tracking::with_id(20, Cmd::Other(2), CONN) },
            Request { session: 2, tracker: Tracking::with_id(10, Cmd::Other(3), CONN) },
            Request { session: 9, tracker: Tracking::with_id(20, Cmd::Other(4), CONN) },
            Request { session: 9, tracker: Tracking::with_id(21, Cmd::Other(5), CONN) },
        ],
        false,
    );
    assert_eq!(requests.running(1).unwrap(), &vec![10]);
    assert_eq!(requests.running(2).unwrap(), &vec![20, 21]);
    assert_eq!(requests.request(10).unwrap().session, 1);
    assert_eq!(requests.request(10).unwrap().tracker.get_cmd(), Cmd::Other(1));
    assert_eq!(requests.request(20).unwrap().tracker.get_cmd(), Cmd::Other(2));
    assert_eq!(requests.request(21).unwrap().session, 2);
    assert_in_step(&requests, &[10, 20, 21]);

    requests.restore(OperationWrapper::new(3, Probe::new("c", &log)), Vec::new(), false);
    assert!(!requests.is_active(3));
    requests.restore(OperationWrapper::new(4, Probe::new("d", &log)), Vec::new(), true);
    assert!(requests.is_active(4));
}

#[test]
fn checkout_then_restore_leaves_the_table_as_it_was() {
    let log = journal();
    let mut requests: Requests<Probe> = Requests::new();
    let mut probe = Probe::new("a", &log);
    probe.first = 3;
    let pkgs = requests.register(CONN, OperationWrapper::new(1, probe)).unwrap();
    let ids: Vec<u128> = pkgs.iter().map(|p| p.correlation).collect();
    let (op, records) = requests.checkout(1);
    assert_eq!(op.id, 1);
    assert!(!requests.is_active(1));
    assert!(requests.request(ids[0]).is_none());
    assert_eq!(records.iter().map(|r| r.get_id()).collect::<Vec<u128>>(), ids);
    requests.restore(op, records, false);
    assert_eq!(requests.running(1).unwrap(), &ids);
    assert_in_step(&requests, &ids);
}

#[test]
fn reaction_follows_the_reply_code() {
    assert_eq!(react(&reply(Cmd::Other(0), 1)), Reaction::Receive);
    assert_eq!(react(&reply(Cmd::NotAuthenticated, 1)), Reaction::Fail(OperationError::AuthenticationRequired));
    assert_eq!(react(&reply(Cmd::BadRequest, 1)), Reaction::Fail(OperationError::ServerError(None)));
    assert_eq!(react(&reply(Cmd::NotHandled, 1)), Reaction::Abandon);
    assert_eq!(
        react(&Pkg::new(Cmd::NotHandled, 1, Payload::NotHandled(NotHandledReason::NotMaster))),
        Reaction::Fail(OperationError::NotImplemented)
    );
    assert_eq!(
        react(&Pkg::new(Cmd::NotHandled, 1, Payload::NotHandled(NotHandledReason::NotReady))),
        Reaction::Retry
    );
    assert_eq!(
        react(&Pkg::new(Cmd::Other(3), 1, Payload::NotHandled(NotHandledReason::NotMaster))),
        Reaction::Receive
    );
}

#[test]
fn outcomes_of_steps_are_settled_by_kind() {
    let pkg = reply(Cmd::Other(1), 5);
    assert_eq!(settle_retry(Ok(Outcome::Continue(vec![pkg.clone()]))), Handling::Handled(vec![pkg.clone()]));
    assert_eq!(settle_retry(Ok(Outcome::Done)), Handling::Handled(Vec::new()));
    assert_eq!(settle_retry(Err(String::from("x"))), Handling::Failed(None));
    assert_eq!(settle_receive(Ok(Outcome::Done)), Handling::Handled(Vec::new()));
    assert_eq!(
        settle_receive(Err(String::from("x"))),
        Handling::Failed(Some(OperationError::InvalidOperation(String::from("Exception raised: x"))))
    );
    assert_eq!(settle_check(Ok(Outcome::Done)), Checked::Done);
    assert_eq!(settle_check(Ok(Outcome::Continue(vec![pkg.clone()]))), Checked::Continue(vec![pkg.clone()]));
    assert_eq!(
        settle_check(Err(String::new())),
        Checked::Failed(OperationError::InvalidOperation(String::from("Exception raised: ")))
    );
    assert_eq!(Handling::Handled(vec![pkg.clone()]).produced_pkgs(), vec![pkg.clone()]);
    assert!(Handling::Ignored.produced_pkgs().is_empty());
    assert!(Outcome::Done.is_done());
    assert!(!Outcome::Continue(Vec::new()).is_done());
    assert_eq!(Outcome::Continue(vec![pkg.clone()]).produced_pkgs(), vec![pkg]);
    assert_eq!(OperationError::Aborted.duplicate(), OperationError::Aborted);
    assert_eq!(
        OperationError::ServerError(Some(String::from("t"))).duplicate(),
        OperationError::ServerError(Some(String::from("t")))
    );
}

#[test]
fn package_decodes_only_what_it_carries() {
    let text = Pkg::new(Cmd::BadRequest, 1, Payload::Text(String::from("hello")));
    assert_eq!(text.to_text(), Some(String::from("hello")));
    assert_eq!(text.to_reason(), None);
    let reason = Pkg::new(Cmd::NotHandled, 1, Payload::NotHandled(NotHandledReason::TooBusy));
    assert_eq!(reason.to_reason(), Some(NotHandledReason::TooBusy));
    assert_eq!(reason.to_text(), None);
    assert_eq!(reply(Cmd::Other(1), 1).to_text(), None);
}

#[test]
fn settle_send_files_the_operation_or_drops_it() {
    let log = journal();
    let mut requests: Requests<Probe> = Requests::new();
    let pkg = reply(Cmd::Other(0x82), 10);
    let sent = requests.settle_send(
        OperationWrapper::new(1, Probe::new("a", &log)),
        vec![Request { session: 1, tracker: Tracking::with_id(10, Cmd::Other(0x82), CONN) }],
        Ok(Outcome::Continue(vec![pkg.clone()])),
    );
    assert_eq!(sent, Ok(vec![pkg]));
    assert!(requests.is_active(1));
    assert_eq!(requests.running(1).unwrap(), &vec![10]);
    assert_eq!(requests.request(10).unwrap().session, 1);

    let sent = requests.settle_send(
        OperationWrapper::new(2, Probe::new("b", &log)),
        vec![Request { session: 2, tracker: Tracking::with_id(20, Cmd::Other(0x82), CONN) }],
        Err(String::from("cannot send")),
    );
    assert_eq!(sent, Err(String::from("cannot send")));
    assert!(!requests.is_active(2));
    assert!(requests.request(20).is_none());
    assert!(requests.is_active(1));

    let sent = requests.settle_send(OperationWrapper::new(3, Probe::new("c", &log)), Vec::new(), Ok(Outcome::Done));
    assert_eq!(sent, Ok(Vec::new()));
    assert!(requests.is_active(3));
    assert_eq!(requests.running(3).unwrap(), &Vec::<u128>::new());
}

#[test]
fn first_request_of_an_empty_table_is_always_created() {
    let others: std::collections::HashMap<u128, Request> = std::collections::HashMap::new();
    for _ in 0..64 {
        let mut session = SessionImpl::new(1, &others, CONN, Vec::new());
        let id = session.new_request(Cmd::Other(1));
        assert!(id.is_some());
        assert_eq!(session.requests().len(), 1);
        assert_eq!(session.requests()[0].get_id(), id.unwrap());
    }
}

#[test]
fn sweep_checks_before_it_registers_and_reports_both() {
    let log = journal();
    let mut registry: Registry<Probe> = Registry::new();
    let mut active = Probe::new("active", &log);
    active.on_check = Script::Keep(1);
    let a = registry.register(OperationWrapper::new(1, active), Some(CONN)).unwrap()[0].correlation;
    let mut failing = Probe::new("failing", &log);
    failing.send_fails = true;
    registry.register(OperationWrapper::new(2, failing), None).unwrap();
    registry.register(OperationWrapper::new(3, Probe::new("waiting", &log)), None).unwrap();
    let swept = registry.check_and_retry(CONN);
    assert_eq!(
        entries(&log),
        vec!["active:send buffer=0", "active:check buffer=0", "failing:send buffer=0", "waiting:send buffer=0"]
    );
    let checked = Pkg::new(Cmd::Other(1), a, Payload::Raw(vec![0]));
    assert_eq!(swept.checked, vec![(1, Checked::Continue(vec![checked.clone()]))]);
    assert_eq!(swept.sent.len(), 2);
    assert_eq!(swept.sent[0], (2, Err(String::from("cannot send"))));
    assert_eq!(swept.sent[1].0, 3);
    let sent = swept.sent[1].1.clone().unwrap();
    assert_eq!(swept.produced_pkgs(), vec![checked, sent[0].clone()]);
    assert!(registry.requests().is_active(1));
    assert!(!registry.knows(2));
    assert!(registry.requests().is_active(3));
    assert_eq!(registry.requests().running(3).unwrap(), &vec![sent[0].correlation]);
    assert!(registry.awaiting_ids().is_empty());
}

#[test]
fn collected_packages_keep_the_order_of_the_reports() {
    let p = |n: u8| Pkg::new(Cmd::Other(n), 1, Payload::Raw(Vec::new()));
    let reports = vec![
        (1, Checked::Continue(vec![p(1), p(2)])),
        (2, Checked::Done),
        (3, Checked::Failed(OperationError::Aborted)),
        (4, Checked::Continue(vec![p(3)])),
    ];
    assert_eq!(collect_checked(reports), vec![p(1), p(2), p(3)]);
    let sendings = vec![(1, Ok(vec![p(4)])), (2, Err(String::from("no"))), (3, Ok(vec![p(5), p(6)]))];
    assert_eq!(collect_sent(sendings), vec![p(4), p(5), p(6)]);
    let swept = Swept {
        checked: vec![(1, Checked::Continue(vec![p(1)]))],
        sent: vec![(2, Ok(vec![p(2)]))],
    };
    assert_eq!(swept.produced_pkgs(), vec![p(1), p(2)]);
    assert!(collect_checked(Vec::new()).is_empty());
}

#[test]
fn abort_of_the_table_names_every_active_operation_once() {
    let log = journal();
    let mut requests: Requests<Probe> = Requests::new();
    requests.register(CONN, OperationWrapper::new(1, Probe::new("a", &log))).unwrap();
    requests.register(CONN, OperationWrapper::new(2, Probe::new("b", &log))).unwrap();
    let mut told = requests.abort();
    told.sort();
    assert_eq!(told, vec![1, 2]);
    let mut noted = entries(&log);
    noted.sort();
    assert_eq!(noted, vec!["a:failed Aborted", "a:send buffer=0", "b:failed Aborted", "b:send buffer=0"]);
    let mut outsider = OperationWrapper::new(9, Probe::new("c", &log));
    requests.signal(&mut outsider, OperationError::NotImplemented);
    assert_eq!(entries(&log).last().unwrap(), "c:failed NotImplemented");
    assert!(!requests.is_active(9));
}
