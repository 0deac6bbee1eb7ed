use opp::account::Account;
use opp::broker::{
    cancel_response, classify_check, command_response, BrokerActor, BrokerTimings, CheckResult,
    Order, Polled, Step, Turn,
};
use opp::clock::Reading;
use opp::environment::ClientContext;
use opp::process::{ProcessOutcome, RequestControl};
use opp::protocol::{Diagnostic, ErrorCode, Request, Response};
use opp::runtime::EffectiveUser;
use opp::status::Status;

const SECOND: u64 = 1_000_000_000;
const STARTED: i128 = 1_783_886_400_000_000_000;
const EXITED: Option<ProcessOutcome> = Some(ProcessOutcome::Exited(0));

/// A broker whose monotonic clock began when it did.
struct Bench {
    actor: BrokerActor,
    now: u64,
    control: RequestControl,
}

impl Bench {
    fn new() -> Self {
        Bench::timed(BrokerTimings::load())
    }

    fn timed(timings: BrokerTimings) -> Self {
        let user = EffectiveUser {
            uid: 501,
            name: String::from("alice"),
            home: b"/Users/alice".to_vec(),
        };
        Bench {
            actor: BrokerActor::new(String::from("/bin/op"), user, timings, STARTED),
            now: 0,
            control: RequestControl::default(),
        }
    }

    fn reading(&self) -> Reading {
        Reading {
            wall: STARTED + i128::from(self.now),
            monotonic: self.now,
        }
    }

    fn handle(&mut self, request: Request) -> Step {
        let reading = self.reading();
        self.actor.handle(request, &self.control, reading)
    }

    fn resume(&mut self, outcome: Option<ProcessOutcome>) -> Step {
        let reading = self.reading();
        self.actor.resume(outcome, &self.control, reading)
    }

    fn start(&mut self, account: &Account) -> Response {
        let order = probe(self.handle(start(account, true)));
        assert_eq!(order.arguments, words(&["vault", "list", "--format=json"]));
        reply(self.resume(EXITED))
    }

    fn status(&mut self, account: &Account) -> String {
        match reply(self.handle(Request::Status {
            account: account.clone(),
        })) {
            Response::Status(json) => {
                assert!(Status::valid_json(&json));
                String::from_utf8(json).unwrap()
            }
            other => panic!("{other:?}"),
        }
    }

    fn is_active(&mut self, account: &Account) -> bool {
        self.status(account).contains("\"authorization\":\"active\"")
    }

    /// The order of a command that passes its check.
    fn checked(&mut self, account: &Account, arguments: &[&str]) -> Order {
        probe(self.handle(exec(account, arguments)));
        probe(self.resume(EXITED));
        match self.resume(EXITED) {
            Step::Run(order) => order,
            other => panic!("{other:?}"),
        }
    }
}

fn words(arguments: &[&str]) -> Vec<Vec<u8>> {
    arguments
        .iter()
        .map(|argument| argument.as_bytes().to_vec())
        .collect()
}

fn named(selector: &str) -> Account {
    Account(Some(String::from(selector)))
}

fn context() -> ClientContext {
    ClientContext {
        cwd: b"/work".to_vec(),
        environment: vec![
            (b"KEEP".to_vec(), b"1".to_vec()),
            (b"OP_SESSION".to_vec(), b"2".to_vec()),
        ],
    }
}

fn start(account: &Account, warning_shown: bool) -> Request {
    Request::Start {
        warning_shown,
        account: account.clone(),
        op_path: String::from("/bin/op"),
        context: context(),
    }
}

fn exec(account: &Account, arguments: &[&str]) -> Request {
    Request::Exec {
        account: account.clone(),
        timeout_nanos: 2 * SECOND,
        arguments: words(arguments),
        context: context(),
    }
}

fn probe(step: Step) -> Order {
    match step {
        Step::Probe(order) => order,
        other => panic!("{other:?}"),
    }
}

fn reply(step: Step) -> Response {
    match step {
        Step::Reply(response) => response,
        other => panic!("{other:?}"),
    }
}

fn environment(account: Option<&str>) -> Vec<(Vec<u8>, Vec<u8>)> {
    let mut environment = vec![
        (b"KEEP".to_vec(), b"1".to_vec()),
        (b"OP_BIOMETRIC_UNLOCK_ENABLED".to_vec(), b"true".to_vec()),
    ];
    if let Some(account) = account {
        environment.push((b"OP_ACCOUNT".to_vec(), account.as_bytes().to_vec()));
    }
    environment
}

const REQUIRED: Response = Response::Error(ErrorCode::AuthorizationRequired);

#[test]
fn timings_are_those_of_the_contract() {
    let timings = BrokerTimings::load();
    assert_eq!(timings.explicit_timeout, 120 * SECOND);
    assert_eq!(timings.check_timeout, 5 * SECOND);
    assert_eq!(timings.maintenance_interval, 300 * SECOND);
    assert_eq!(timings.hard_limit, 43_200 * SECOND);
}

#[test]
fn a_new_broker_has_authorized_nothing() {
    let mut bench = Bench::new();
    assert_eq!(reply(bench.handle(exec(&Account(None), &["x"]))), REQUIRED);
    assert_eq!(
        bench.status(&Account(None)),
        "{\"schema_version\":1,\"running\":true,\"authorization\":\"reauthorization_required\",\
         \"op_path\":\"/bin/op\",\"broker_version\":\"0.1.0\",\
         \"started_at\":\"2026-07-12T20:00:00Z\"}"
    );
}

#[test]
fn an_authorization_is_reported_as_it_began() {
    let mut bench = Bench::new();
    let account = named("work.1password.com");
    bench.now = 60 * SECOND;
    assert_eq!(
        reply(bench.handle(start(&account, false))),
        Response::NeedWarning
    );
    let order = probe(bench.handle(start(&account, true)));
    assert_eq!(order.cwd, b"/work".to_vec());
    assert_eq!(order.environment, environment(Some("work.1password.com")));
    assert_eq!(order.deadline, 180 * SECOND);
    bench.now = 61 * SECOND;
    assert_eq!(reply(bench.resume(EXITED)), Response::Accepted);
    assert_eq!(
        bench.status(&account),
        "{\"schema_version\":1,\"running\":true,\"authorization\":\"active\",\
         \"account_selector\":\"work.1password.com\",\"op_path\":\"/bin/op\",\
         \"broker_version\":\"0.1.0\",\"started_at\":\"2026-07-12T20:00:00Z\",\
         \"authorized_at\":\"2026-07-12T20:01:00Z\",\
         \"hard_expires_at\":\"2026-07-13T08:01:00Z\",\
         \"next_probe_at\":\"2026-07-12T20:06:01Z\"}"
    );
    assert_eq!(
        reply(bench.handle(start(&account, false))),
        Response::Accepted
    );
    assert_eq!(
        reply(bench.handle(start(&account, true))),
        Response::Accepted
    );
}

#[test]
fn another_op_is_refused() {
    let mut bench = Bench::new();
    assert_eq!(
        reply(bench.handle(Request::Start {
            warning_shown: true,
            account: Account(None),
            op_path: String::from("/bin/other"),
            context: context(),
        })),
        Response::Error(ErrorCode::OpPathMismatch)
    );
}

#[test]
fn failed_authorizations_can_be_retried() {
    let mut bench = Bench::new();
    let account = Account(None);
    for outcome in [
        Some(ProcessOutcome::Exited(1)),
        Some(ProcessOutcome::Signaled(9)),
        Some(ProcessOutcome::TimedOut),
        None,
    ] {
        probe(bench.handle(start(&account, true)));
        assert_eq!(
            reply(bench.resume(outcome)),
            Response::Error(ErrorCode::AuthorizationFailed)
        );
        assert!(!bench.is_active(&account));
    }
    probe(bench.handle(start(&account, true)));
    assert_eq!(
        reply(bench.resume(Some(ProcessOutcome::Cancelled(0)))),
        Response::Error(ErrorCode::Cancelled)
    );
    probe(bench.handle(start(&account, true)));
    assert!(matches!(
        bench.resume(Some(ProcessOutcome::Shutdown)),
        Step::Silent
    ));
    assert_eq!(bench.start(&account), Response::Accepted);
    assert!(bench.is_active(&account));
}

#[test]
fn a_command_follows_its_two_checks() {
    let mut bench = Bench::new();
    let account = named("work");
    bench.start(&account);
    bench.now = 10 * SECOND;
    let whoami = probe(bench.handle(exec(&account, &["item", "get"])));
    assert_eq!(whoami.arguments, words(&["whoami"]));
    assert_eq!(whoami.deadline, 15 * SECOND);
    assert_eq!(whoami.environment, environment(Some("work")));
    bench.now = 12 * SECOND;
    let vault = probe(bench.resume(EXITED));
    assert_eq!(vault.arguments, words(&["vault", "list", "--format=json"]));
    assert_eq!(vault.deadline, 15 * SECOND);
    bench.now = 14 * SECOND;
    match bench.resume(EXITED) {
        Step::Run(order) => {
            assert_eq!(order.arguments, words(&["item", "get"]));
            assert_eq!(order.cwd, b"/work".to_vec());
            assert_eq!(order.environment, environment(Some("work")));
            assert_eq!(order.deadline, 16 * SECOND);
        }
        other => panic!("{other:?}"),
    }
    assert_eq!(
        reply(bench.resume(Some(ProcessOutcome::Exited(42)))),
        Response::Exec {
            exit_code: 42,
            diagnostic: Diagnostic::Nothing
        }
    );
    assert!(bench
        .status(&account)
        .contains("\"next_probe_at\":\"2026-07-12T20:05:14Z\""));
}

#[test]
fn command_ends_are_answered() {
    let exec = |exit_code, diagnostic| {
        Some(Response::Exec {
            exit_code,
            diagnostic,
        })
    };
    for (outcome, response) in [
        (
            Some(ProcessOutcome::Exited(0)),
            exec(0, Diagnostic::Nothing),
        ),
        (
            Some(ProcessOutcome::Signaled(15)),
            exec(143, Diagnostic::Nothing),
        ),
        (
            Some(ProcessOutcome::TimedOut),
            exec(124, Diagnostic::Timeout),
        ),
        (
            Some(ProcessOutcome::Cancelled(2)),
            exec(130, Diagnostic::Nothing),
        ),
        (
            Some(ProcessOutcome::Cancelled(0)),
            Some(Response::Error(ErrorCode::Cancelled)),
        ),
        (Some(ProcessOutcome::Shutdown), None),
        (None, Some(Response::Error(ErrorCode::ProcessStart))),
    ] {
        assert_eq!(command_response(outcome), response);
    }
}

#[test]
fn checks_are_classified() {
    assert_eq!(classify_check(EXITED), CheckResult::Success);
    assert_eq!(
        classify_check(Some(ProcessOutcome::Cancelled(2))),
        CheckResult::Cancelled
    );
    assert_eq!(
        classify_check(Some(ProcessOutcome::Shutdown)),
        CheckResult::Shutdown
    );
    for outcome in [
        None,
        Some(ProcessOutcome::Exited(1)),
        Some(ProcessOutcome::TimedOut),
        Some(ProcessOutcome::Signaled(1)),
    ] {
        assert_eq!(classify_check(outcome), CheckResult::Failed);
    }
}

#[test]
fn a_failed_check_ends_every_grant() {
    for failing in [0, 1] {
        let mut bench = Bench::new();
        let accounts = [Account(None), named("Work.Example"), named("Other")];
        for account in &accounts {
            bench.start(account);
        }
        probe(bench.handle(exec(&accounts[0], &["x"])));
        if failing == 1 {
            probe(bench.resume(EXITED));
        }
        assert_eq!(
            reply(bench.resume(Some(ProcessOutcome::Exited(9)))),
            REQUIRED
        );
        for account in &accounts {
            assert!(!bench.is_active(account));
            assert_eq!(reply(bench.handle(exec(account, &["x"]))), REQUIRED);
        }
        assert_eq!(bench.start(&accounts[1]), Response::Accepted);
        assert!(!bench.is_active(&accounts[0]));
        assert!(bench.is_active(&accounts[1]));
    }
}

#[test]
fn selectors_are_authorized_separately() {
    let mut bench = Bench::new();
    bench.start(&named("work"));
    assert!(!bench.is_active(&named("Work")));
    assert!(!bench.is_active(&Account(None)));
    bench.start(&Account(None));
    assert!(bench.is_active(&named("work")));
    assert!(bench.is_active(&Account(None)));
}

#[test]
fn the_hard_limit_ends_a_grant() {
    let mut bench = Bench::new();
    let account = Account(None);
    bench.now = 5 * SECOND;
    probe(bench.handle(start(&account, true)));
    bench.now = 100 * SECOND;
    reply(bench.resume(EXITED));
    bench.now = 43_205 * SECOND - 1;
    assert!(bench.is_active(&account));
    bench.checked(&account, &["x"]);
    bench.now = 43_205 * SECOND;
    reply(bench.resume(EXITED));
    assert!(!bench.is_active(&account));
    assert_eq!(reply(bench.handle(exec(&account, &["x"]))), REQUIRED);
}

#[test]
fn a_grant_that_ends_during_its_check_runs_nothing() {
    let mut bench = Bench::new();
    let account = Account(None);
    bench.start(&account);
    bench.now = 43_199 * SECOND;
    probe(bench.handle(exec(&account, &["x"])));
    probe(bench.resume(EXITED));
    bench.now = 43_200 * SECOND;
    assert_eq!(reply(bench.resume(EXITED)), REQUIRED);
    assert!(!bench.is_active(&account));
}

#[test]
fn cancelled_requests_start_nothing() {
    let mut bench = Bench::new();
    let account = Account(None);
    bench.start(&account);
    bench.control.cancel(2);
    assert_eq!(
        reply(bench.handle(exec(&account, &["x"]))),
        Response::Exec {
            exit_code: 130,
            diagnostic: Diagnostic::Nothing
        }
    );
    assert_eq!(
        reply(bench.handle(start(&named("new"), true))),
        Response::Error(ErrorCode::Cancelled)
    );
    bench.control = RequestControl::default();
    bench.control.disconnect();
    assert_eq!(
        reply(bench.handle(exec(&account, &["x"]))),
        Response::Error(ErrorCode::Cancelled)
    );
    bench.control = RequestControl::default();
    assert!(bench.is_active(&account));
}

#[test]
fn a_cancelled_check_keeps_the_grants() {
    let mut bench = Bench::new();
    let account = Account(None);
    bench.start(&account);
    probe(bench.handle(exec(&account, &["x"])));
    bench.control.disconnect();
    assert_eq!(
        reply(bench.resume(Some(ProcessOutcome::Cancelled(0)))),
        Response::Error(ErrorCode::Cancelled)
    );
    bench.control = RequestControl::default();
    assert!(bench.is_active(&account));
    probe(bench.handle(exec(&account, &["x"])));
    assert!(matches!(
        bench.resume(Some(ProcessOutcome::Shutdown)),
        Step::Silent
    ));
    assert!(bench.is_active(&account));
}

#[test]
fn signals_make_exit_codes() {
    let mut control = RequestControl::default();
    assert_eq!(
        cancel_response(&control),
        Response::Error(ErrorCode::Cancelled)
    );
    control.cancel(15);
    assert_eq!(
        cancel_response(&control),
        Response::Exec {
            exit_code: 143,
            diagnostic: Diagnostic::Nothing
        }
    );
}

#[test]
fn maintenance_is_due_after_the_interval() {
    let mut bench = Bench::new();
    let account = named("work");
    assert!(matches!(
        bench.actor.turn(false, Polled::Empty, 0),
        Turn::Wait(100_000_000)
    ));
    bench.start(&account);
    assert!(matches!(
        bench.actor.turn(false, Polled::Empty, 300 * SECOND - 5),
        Turn::Wait(5)
    ));
    assert!(matches!(
        bench.actor.turn(false, Polled::Request, 300 * SECOND),
        Turn::Handle
    ));
    let due = match bench.actor.turn(false, Polled::Empty, 300 * SECOND) {
        Turn::Maintain(due) => due,
        other => panic!("{other:?}"),
    };
    assert!(due.same(&account));
    bench.now = 300 * SECOND;
    let reading = bench.reading();
    let order = probe(bench.actor.maintain(
        due,
        b"/usr/bin:/bin".to_vec(),
        Some(b"/var/tmp".to_vec()),
        reading,
    ));
    assert_eq!(order.arguments, words(&["whoami"]));
    assert_eq!(order.cwd, b"/Users/alice".to_vec());
    let text = |value: &str| value.as_bytes().to_vec();
    assert_eq!(
        order.environment,
        vec![
            (text("HOME"), text("/Users/alice")),
            (text("USER"), text("alice")),
            (text("LOGNAME"), text("alice")),
            (text("PATH"), text("/usr/bin:/bin")),
            (text("TMPDIR"), text("/var/tmp")),
            (text("OP_BIOMETRIC_UNLOCK_ENABLED"), text("true")),
            (text("OP_ACCOUNT"), text("work")),
        ]
    );
    assert_eq!(order.deadline, 305 * SECOND);
    probe(bench.resume(EXITED));
    bench.now = 301 * SECOND;
    assert!(matches!(bench.resume(EXITED), Step::Silent));
    assert!(matches!(
        bench.actor.turn(false, Polled::Empty, 600 * SECOND),
        Turn::Wait(100_000_000)
    ));
    assert!(matches!(
        bench.actor.turn(false, Polled::Empty, 601 * SECOND),
        Turn::Maintain(_)
    ));
}

#[test]
fn failed_maintenance_ends_every_grant() {
    for outcome in [
        Some(ProcessOutcome::TimedOut),
        Some(ProcessOutcome::Cancelled(0)),
    ] {
        let mut bench = Bench::new();
        bench.start(&Account(None));
        bench.start(&named("work"));
        let reading = bench.reading();
        probe(
            bench
                .actor
                .maintain(Account(None), Vec::new(), None, reading),
        );
        assert!(matches!(bench.resume(outcome), Step::Silent));
        assert!(!bench.is_active(&Account(None)));
        assert!(!bench.is_active(&named("work")));
    }
    let mut bench = Bench::new();
    let reading = bench.reading();
    assert!(matches!(
        bench
            .actor
            .maintain(Account(None), Vec::new(), None, reading),
        Step::Silent
    ));
    bench.start(&Account(None));
    let reading = bench.reading();
    probe(
        bench
            .actor
            .maintain(Account(None), Vec::new(), None, reading),
    );
    assert!(matches!(
        bench.resume(Some(ProcessOutcome::Shutdown)),
        Step::Stop
    ));
}

#[test]
fn stopping_forgets_every_account() {
    let mut bench = Bench::new();
    bench.start(&Account(None));
    for polled in [Polled::Stop, Polled::Disconnected] {
        assert!(matches!(
            bench.actor.turn(false, polled, 0),
            Turn::Finish
        ));
    }
    assert!(matches!(
        bench.actor.turn(true, Polled::Request, 0),
        Turn::Finish
    ));
    assert!(bench.is_active(&Account(None)));
    bench.actor.close();
    assert!(!bench.is_active(&Account(None)));
}

#[test]
fn short_limits_come_first() {
    let mut timings = BrokerTimings::load();
    timings.hard_limit = 50;
    let mut bench = Bench::timed(timings);
    bench.start(&Account(None));
    assert!(matches!(
        bench.actor.turn(false, Polled::Empty, 20),
        Turn::Wait(30)
    ));
    bench.actor.expire_records(50);
    bench.now = 0;
    assert!(!bench.is_active(&Account(None)));
}
