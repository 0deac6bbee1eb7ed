//! What the broker does with requests: explicit authorization, checks before
//! commands, maintenance, and the records that all of these keep.
//!
//! The broker serves one request at a time. Where it needs `op` to run, it
//! hands out an order and goes on when it is told what the process came to.
use crate::account::{optional_bytes, Account};
use crate::bytes::{byte_lists, copy_bytes, same_text};
use crate::clock::{min_int, Reading};
use crate::environment::{
    entries, maintenance_entries, sanitized_entries, ClientContext, ContextView,
};
use crate::json::{is_read_as, json_members, json_object};
use crate::process::{ProcessOutcome, RequestControl};
use crate::protocol::{
    Diagnostic, ErrorCode, Request, RequestView, Response, ResponseView,
};
use crate::records::{
    expired, invalidated, is_active, time_left, ActiveAuthorization, AuthorizationRecord,
    RecordMap, Records, IDLE_WAIT,
};
use crate::runtime::EffectiveUser;
use crate::status::{
    format_time, is_status, rfc3339, running_status, status_members, Status, StatusView,
};
use vstd::prelude::*;
use vstd::utf8::encode_utf8;

verus! {

/// How long the broker waits for things, in nanoseconds.
#[derive(Clone, Copy, Debug, PartialEq, Eq, Structural)]
pub struct BrokerTimings {
    pub explicit_timeout: u64,
    pub check_timeout: u64,
    pub maintenance_interval: u64,
    pub hard_limit: u64,
}

impl BrokerTimings {
    /// Two minutes for an explicit authorization, five seconds for a check,
    /// five minutes between checks, and twelve hours for a grant.
    pub fn load() -> (timings: Self)
        ensures
            timings == (BrokerTimings {
                explicit_timeout: 120_000_000_000,
                check_timeout: 5_000_000_000,
                maintenance_interval: 300_000_000_000,
                hard_limit: 43_200_000_000_000,
            }),
    {
        BrokerTimings {
            explicit_timeout: 120_000_000_000,
            check_timeout: 5_000_000_000,
            maintenance_interval: 300_000_000_000,
            hard_limit: 43_200_000_000_000,
        }
    }
}

/// The deadline that lies `nanos` after `base`, as far as the clock goes.
pub open spec fn later(base: u64, nanos: u64) -> u64 {
    min_int(base + nanos, u64::MAX as int) as u64
}

/// What a check came to.
#[derive(Clone, Copy, Debug, PartialEq, Eq, Structural)]
pub enum CheckResult {
    Success,
    Failed,
    Cancelled,
    Shutdown,
}

/// What one command of a check came to: only an exit with zero is a success.
/// There is no outcome where the command could not be run.
pub open spec fn check_result(outcome: Option<ProcessOutcome>) -> CheckResult {
    match outcome {
        Some(ProcessOutcome::Exited(code)) if code == 0 => CheckResult::Success,
        Some(ProcessOutcome::Cancelled(_)) => CheckResult::Cancelled,
        Some(ProcessOutcome::Shutdown) => CheckResult::Shutdown,
        _ => CheckResult::Failed,
    }
}

/// What one command of a check came to.
pub fn classify_check(outcome: Option<ProcessOutcome>) -> (result: CheckResult)
    ensures
        result == check_result(outcome),
{
    match outcome {
        Some(ProcessOutcome::Exited(0)) => CheckResult::Success,
        Some(ProcessOutcome::Cancelled(_)) => CheckResult::Cancelled,
        Some(ProcessOutcome::Shutdown) => CheckResult::Shutdown,
        _ => CheckResult::Failed,
    }
}

/// The largest signal number whose exit code can be expressed.
pub const MAX_SIGNAL: i32 = 0x7fff_ffff - 128;

/// The answer to a request that ended with a signal: the exit code of a
/// process that the signal ended. A client that only went away gets an error.
pub open spec fn cancel_reply(signal: i32) -> ResponseView {
    if signal > 0 {
        ResponseView::Exec { exit_code: (128 + signal) as i32, diagnostic: Diagnostic::Nothing }
    } else {
        ResponseView::Error(ErrorCode::Cancelled)
    }
}

/// The answer to a request that was cancelled.
pub fn cancel_response(control: &RequestControl) -> (response: Response)
    requires
        control.signal <= MAX_SIGNAL,
    ensures
        response@ == cancel_reply(control.signal),
{
    let signal = control.signal();
    if signal > 0 {
        Response::Exec { exit_code: 128 + signal, diagnostic: Diagnostic::Nothing }
    } else {
        Response::Error(ErrorCode::Cancelled)
    }
}

/// The answer to a request whose command ran; none when the broker stops.
pub open spec fn command_reply(outcome: Option<ProcessOutcome>) -> Option<ResponseView> {
    match outcome {
        Some(ProcessOutcome::Exited(code)) => Some(
            ResponseView::Exec { exit_code: code, diagnostic: Diagnostic::Nothing },
        ),
        Some(ProcessOutcome::Signaled(signal)) => Some(
            ResponseView::Exec {
                exit_code: (128 + signal) as i32,
                diagnostic: Diagnostic::Nothing,
            },
        ),
        Some(ProcessOutcome::TimedOut) => Some(
            ResponseView::Exec { exit_code: 124, diagnostic: Diagnostic::Timeout },
        ),
        Some(ProcessOutcome::Cancelled(signal)) => Some(cancel_reply(signal)),
        Some(ProcessOutcome::Shutdown) => None,
        None => Some(ResponseView::Error(ErrorCode::ProcessStart)),
    }
}

/// The signal in an outcome has an exit code.
pub open spec fn signal_fits(outcome: Option<ProcessOutcome>) -> bool {
    match outcome {
        Some(ProcessOutcome::Signaled(signal)) => signal <= MAX_SIGNAL,
        Some(ProcessOutcome::Cancelled(signal)) => signal <= MAX_SIGNAL,
        _ => true,
    }
}

/// The answer to a request whose command ran; none when the broker stops.
pub fn command_response(outcome: Option<ProcessOutcome>) -> (response: Option<Response>)
    requires
        signal_fits(outcome),
    ensures
        match command_reply(outcome) {
            Some(reply) => response matches Some(response) && response@ == reply,
            None => response is None,
        },
{
    match outcome {
        Some(ProcessOutcome::Exited(code)) => Some(
            Response::Exec { exit_code: code, diagnostic: Diagnostic::Nothing },
        ),
        Some(ProcessOutcome::Signaled(signal)) => Some(
            Response::Exec { exit_code: 128 + signal, diagnostic: Diagnostic::Nothing },
        ),
        Some(ProcessOutcome::TimedOut) => Some(
            Response::Exec { exit_code: 124, diagnostic: Diagnostic::Timeout },
        ),
        Some(ProcessOutcome::Cancelled(signal)) => {
            if signal > 0 {
                Some(Response::Exec { exit_code: 128 + signal, diagnostic: Diagnostic::Nothing })
            } else {
                Some(Response::Error(ErrorCode::Cancelled))
            }
        },
        Some(ProcessOutcome::Shutdown) => None,
        None => Some(Response::Error(ErrorCode::ProcessStart)),
    }
}

/// A run of `op`: its arguments, its working directory, its environment, and
/// when its time is up.
#[derive(Debug)]
pub struct Order {
    pub arguments: Vec<Vec<u8>>,
    pub cwd: Vec<u8>,
    pub environment: Vec<(Vec<u8>, Vec<u8>)>,
    pub deadline: u64,
}

/// What an order holds.
pub struct OrderView {
    pub arguments: Seq<Seq<u8>>,
    pub cwd: Seq<u8>,
    pub environment: Seq<(Seq<u8>, Seq<u8>)>,
    pub deadline: u64,
}

impl View for Order {
    type V = OrderView;

    open spec fn view(&self) -> OrderView {
        OrderView {
            arguments: byte_lists(self.arguments@),
            cwd: self.cwd@,
            environment: entries(self.environment@),
            deadline: self.deadline,
        }
    }
}

/// What the broker does next: answer, say nothing, run `op` with its output
/// discarded, run `op` on the client's streams, or stop.
#[derive(Debug)]
pub enum Step {
    Reply(Response),
    Silent,
    Probe(Order),
    Run(Order),
    Stop,
}

/// What a step holds.
pub enum StepView {
    Reply(ResponseView),
    Silent,
    Probe(OrderView),
    Run(OrderView),
    Stop,
}

impl View for Step {
    type V = StepView;

    open spec fn view(&self) -> StepView {
        match *self {
            Step::Reply(response) => StepView::Reply(response@),
            Step::Silent => StepView::Silent,
            Step::Probe(order) => StepView::Probe(order@),
            Step::Run(order) => StepView::Run(order@),
            Step::Stop => StepView::Stop,
        }
    }
}

/// What a check is made for.
#[derive(Debug)]
pub enum Task {
    Command { timeout_nanos: u64, arguments: Vec<Vec<u8>> },
    Maintenance,
}

/// What a task holds.
pub enum TaskView {
    Command { timeout_nanos: u64, arguments: Seq<Seq<u8>> },
    Maintenance,
}

impl View for Task {
    type V = TaskView;

    open spec fn view(&self) -> TaskView {
        match *self {
            Task::Command { timeout_nanos, arguments } => TaskView::Command {
                timeout_nanos,
                arguments: byte_lists(arguments@),
            },
            Task::Maintenance => TaskView::Maintenance,
        }
    }
}

/// A check that is going on.
#[derive(Debug)]
pub struct Check {
    pub account: Account,
    pub context: ClientContext,
    pub deadline: u64,
    pub task: Task,
}

/// What a check holds.
pub struct CheckView {
    pub account: Option<Seq<char>>,
    pub context: ContextView,
    pub deadline: u64,
    pub task: TaskView,
}

impl View for Check {
    type V = CheckView;

    open spec fn view(&self) -> CheckView {
        CheckView {
            account: self.account@,
            context: self.context@,
            deadline: self.deadline,
            task: self.task@,
        }
    }
}

/// What the broker is busy with: nothing, an explicit authorization, the first
/// or the second command of a check, or a client's command.
#[derive(Debug)]
pub enum Stage {
    Idle,
    Authorizing { account: Account, began: Reading },
    Identity(Check),
    Vault(Check),
    Running,
}

/// What a stage holds.
pub enum StageView {
    Idle,
    Authorizing { account: Option<Seq<char>>, began: Reading },
    Identity(CheckView),
    Vault(CheckView),
    Running,
}

impl View for Stage {
    type V = StageView;

    open spec fn view(&self) -> StageView {
        match *self {
            Stage::Idle => StageView::Idle,
            Stage::Authorizing { account, began } => StageView::Authorizing {
                account: account@,
                began,
            },
            Stage::Identity(check) => StageView::Identity(check@),
            Stage::Vault(check) => StageView::Vault(check@),
            Stage::Running => StageView::Running,
        }
    }
}

/// The state of the broker.
pub struct BrokerView {
    pub op_path: Seq<char>,
    pub home: Seq<u8>,
    pub name: Seq<char>,
    pub timings: BrokerTimings,
    pub started_at: i128,
    pub records: RecordMap,
    pub stage: StageView,
}

/// The arguments of an explicit authorization and of a check's second command.
pub open spec fn vault_list() -> Seq<Seq<u8>> {
    seq![encode_utf8("vault"@), encode_utf8("list"@), encode_utf8("--format=json"@)]
}

/// The arguments of a check's first command.
pub open spec fn whoami() -> Seq<Seq<u8>> {
    seq![encode_utf8("whoami"@)]
}

/// A run of `op` for an account, with the environment that children get.
pub open spec fn order_for(
    arguments: Seq<Seq<u8>>,
    context: ContextView,
    account: Option<Seq<char>>,
    deadline: u64,
) -> OrderView {
    OrderView {
        arguments,
        cwd: context.cwd,
        environment: sanitized_entries(context.environment, account),
        deadline,
    }
}

/// A start request: an account that is not active is authorized explicitly,
/// once its user was warned.
pub open spec fn start_handled(
    broker: BrokerView,
    warning_shown: bool,
    account: Option<Seq<char>>,
    op_path: Seq<char>,
    context: ContextView,
    reading: Reading,
) -> (BrokerView, StepView) {
    let records = expired(broker.records, reading.monotonic);
    let current = BrokerView { records, ..broker };
    if op_path != broker.op_path {
        (current, StepView::Reply(ResponseView::Error(ErrorCode::OpPathMismatch)))
    } else if is_active(records, account) {
        (current, StepView::Reply(ResponseView::Accepted))
    } else if !warning_shown {
        (current, StepView::Reply(ResponseView::NeedWarning))
    } else {
        (
            BrokerView {
                records: records.insert(account, AuthorizationRecord::Required),
                stage: StageView::Authorizing { account, began: reading },
                ..broker
            },
            StepView::Probe(
                order_for(
                    vault_list(),
                    context,
                    account,
                    later(reading.monotonic, broker.timings.explicit_timeout),
                ),
            ),
        )
    }
}

/// The grant that an explicit authorization gives: it counts from when the
/// authorization began, and the next check from when it succeeded.
pub open spec fn granted(
    timings: BrokerTimings,
    began: Reading,
    reading: Reading,
) -> ActiveAuthorization {
    ActiveAuthorization {
        authorized_at: began.wall,
        hard_expires_at: (began.wall + timings.hard_limit) as i128,
        hard_deadline: later(began.monotonic, timings.hard_limit),
        next_probe_at: (reading.wall + timings.maintenance_interval) as i128,
        next_probe_deadline: later(reading.monotonic, timings.maintenance_interval),
    }
}

/// The end of an explicit authorization.
pub open spec fn authorization_ended(
    broker: BrokerView,
    account: Option<Seq<char>>,
    began: Reading,
    outcome: Option<ProcessOutcome>,
    control: RequestControl,
    reading: Reading,
) -> (BrokerView, StepView) {
    let idle = BrokerView { stage: StageView::Idle, ..broker };
    match check_result(outcome) {
        CheckResult::Success => (
            BrokerView {
                records: broker.records.insert(
                    account,
                    AuthorizationRecord::Active(granted(broker.timings, began, reading)),
                ),
                ..idle
            },
            StepView::Reply(ResponseView::Accepted),
        ),
        CheckResult::Cancelled => (idle, StepView::Reply(cancel_reply(control.signal))),
        CheckResult::Shutdown => (idle, StepView::Silent),
        CheckResult::Failed => (
            idle,
            StepView::Reply(ResponseView::Error(ErrorCode::AuthorizationFailed)),
        ),
    }
}

/// What the broker reports of an account.
pub open spec fn reported(broker: BrokerView, account: Option<Seq<char>>) -> StatusView {
    let status = StatusView {
        started_at: rfc3339(broker.started_at as int),
        ..running_status(account, broker.op_path)
    };
    if is_active(broker.records, account) {
        let active = broker.records[account]->Active_0;
        StatusView {
            authorization: Some("active"@),
            authorized_at: rfc3339(active.authorized_at as int),
            hard_expires_at: rfc3339(active.hard_expires_at as int),
            next_probe_at: rfc3339(active.next_probe_at as int),
            ..status
        }
    } else {
        status
    }
}

/// Where the answer is a status, it was asked for, it is one that a client
/// passes on, and it is read as what the broker reports of the account, with
/// no other members.
pub open spec fn answers_with_a_status(
    broker: BrokerView,
    request: RequestView,
    step: StepView,
) -> bool {
    step matches StepView::Reply(ResponseView::Status(json)) ==> {
        &&& request is Status
        &&& json_members(json) is Some
        &&& is_status(json_members(json)->0)
        &&& is_read_as(json, status_members(reported(broker, request->Status_account)))
    }
}

/// A status request.
pub open spec fn status_handled(
    broker: BrokerView,
    account: Option<Seq<char>>,
    reading: Reading,
) -> (BrokerView, StepView) {
    let current = BrokerView { records: expired(broker.records, reading.monotonic), ..broker };
    (
        current,
        StepView::Reply(
            ResponseView::Status(json_object(status_members(reported(current, account)))),
        ),
    )
}

/// The first command of a check, and its deadline, which the second command
/// shares.
pub open spec fn check_begun(
    broker: BrokerView,
    account: Option<Seq<char>>,
    context: ContextView,
    task: TaskView,
    reading: Reading,
) -> (BrokerView, StepView) {
    let deadline = later(reading.monotonic, broker.timings.check_timeout);
    (
        BrokerView {
            stage: StageView::Identity(CheckView { account, context, deadline, task }),
            ..broker
        },
        StepView::Probe(order_for(whoami(), context, account, deadline)),
    )
}

/// An exec request: an account that is active is checked first.
pub open spec fn exec_handled(
    broker: BrokerView,
    account: Option<Seq<char>>,
    timeout_nanos: u64,
    arguments: Seq<Seq<u8>>,
    context: ContextView,
    reading: Reading,
) -> (BrokerView, StepView) {
    let current = BrokerView { records: expired(broker.records, reading.monotonic), ..broker };
    if is_active(current.records, account) {
        check_begun(
            current,
            account,
            context,
            TaskView::Command { timeout_nanos, arguments },
            reading,
        )
    } else {
        (current, StepView::Reply(ResponseView::Error(ErrorCode::AuthorizationRequired)))
    }
}

/// The end of a check that did not succeed.
pub open spec fn check_failed(
    broker: BrokerView,
    task: TaskView,
    result: CheckResult,
    control: RequestControl,
) -> (BrokerView, StepView) {
    let idle = BrokerView { stage: StageView::Idle, ..broker };
    let revoked = BrokerView { records: invalidated(broker.records), ..idle };
    match (task, result) {
        (TaskView::Command { .. }, CheckResult::Cancelled) => (
            idle,
            StepView::Reply(cancel_reply(control.signal)),
        ),
        (TaskView::Command { .. }, CheckResult::Shutdown) => (idle, StepView::Silent),
        (TaskView::Command { .. }, _) => (
            revoked,
            StepView::Reply(ResponseView::Error(ErrorCode::AuthorizationRequired)),
        ),
        (TaskView::Maintenance, CheckResult::Shutdown) => (idle, StepView::Stop),
        (TaskView::Maintenance, _) => (revoked, StepView::Silent),
    }
}

/// The end of a check's first command. The second one runs only if the first
/// succeeded, and has what is left of the same time.
pub open spec fn identity_ended(
    broker: BrokerView,
    check: CheckView,
    outcome: Option<ProcessOutcome>,
    control: RequestControl,
) -> (BrokerView, StepView) {
    match check_result(outcome) {
        CheckResult::Success => (
            BrokerView { stage: StageView::Vault(check), ..broker },
            StepView::Probe(
                order_for(vault_list(), check.context, check.account, check.deadline),
            ),
        ),
        result => check_failed(broker, check.task, result, control),
    }
}

/// The records after a successful check: the account is checked again a whole
/// interval later. Nothing else about its grant changes.
pub open spec fn refreshed(
    records: RecordMap,
    account: Option<Seq<char>>,
    timings: BrokerTimings,
    reading: Reading,
) -> RecordMap {
    if is_active(records, account) {
        records.insert(
            account,
            AuthorizationRecord::Active(
                ActiveAuthorization {
                    next_probe_at: (reading.wall + timings.maintenance_interval) as i128,
                    next_probe_deadline: later(reading.monotonic, timings.maintenance_interval),
                    ..records[account]->Active_0
                },
            ),
        )
    } else {
        records
    }
}

/// The end of a check's second command. A client's command runs only if the
/// check succeeded and the grant has not ended meanwhile.
pub open spec fn vault_ended(
    broker: BrokerView,
    check: CheckView,
    outcome: Option<ProcessOutcome>,
    control: RequestControl,
    reading: Reading,
) -> (BrokerView, StepView) {
    match check_result(outcome) {
        CheckResult::Success => {
            let checked = BrokerView {
                records: refreshed(broker.records, check.account, broker.timings, reading),
                stage: StageView::Idle,
                ..broker
            };
            match check.task {
                TaskView::Maintenance => (checked, StepView::Silent),
                TaskView::Command { timeout_nanos, arguments } => {
                    let current = BrokerView {
                        records: expired(checked.records, reading.monotonic),
                        ..checked
                    };
                    if is_active(current.records, check.account) {
                        (
                            BrokerView { stage: StageView::Running, ..current },
                            StepView::Run(
                                order_for(
                                    arguments,
                                    check.context,
                                    check.account,
                                    later(reading.monotonic, timeout_nanos),
                                ),
                            ),
                        )
                    } else {
                        (
                            current,
                            StepView::Reply(
                                ResponseView::Error(ErrorCode::AuthorizationRequired),
                            ),
                        )
                    }
                },
            }
        },
        result => check_failed(broker, check.task, result, control),
    }
}

/// The end of a client's command.
pub open spec fn command_ended(
    broker: BrokerView,
    outcome: Option<ProcessOutcome>,
    reading: Reading,
) -> (BrokerView, StepView) {
    (
        BrokerView {
            records: expired(broker.records, reading.monotonic),
            stage: StageView::Idle,
            ..broker
        },
        match command_reply(outcome) {
            Some(reply) => StepView::Reply(reply),
            None => StepView::Silent,
        },
    )
}

/// What the broker does with a request that it takes from its queue. One that
/// was cancelled while it waited starts nothing.
pub open spec fn handled(
    broker: BrokerView,
    request: RequestView,
    control: RequestControl,
    reading: Reading,
) -> (BrokerView, StepView) {
    if control.cancelled {
        (
            broker,
            StepView::Reply(
                if request is Exec {
                    cancel_reply(control.signal)
                } else {
                    ResponseView::Error(ErrorCode::Cancelled)
                },
            ),
        )
    } else {
        match request {
            RequestView::Start { warning_shown, account, op_path, context } => start_handled(
                broker,
                warning_shown,
                account,
                op_path,
                context,
                reading,
            ),
            RequestView::Status { account } => status_handled(broker, account, reading),
            RequestView::Exec { account, timeout_nanos, arguments, context } => exec_handled(
                broker,
                account,
                timeout_nanos,
                arguments,
                context,
                reading,
            ),
        }
    }
}

/// What the broker does when it learns what the run of `op` came to that it
/// had ordered.
pub open spec fn resumed(
    broker: BrokerView,
    outcome: Option<ProcessOutcome>,
    control: RequestControl,
    reading: Reading,
) -> (BrokerView, StepView) {
    match broker.stage {
        StageView::Idle => (broker, StepView::Silent),
        StageView::Authorizing { account, began } => authorization_ended(
            broker,
            account,
            began,
            outcome,
            control,
            reading,
        ),
        StageView::Identity(check) => identity_ended(broker, check, outcome, control),
        StageView::Vault(check) => vault_ended(broker, check, outcome, control, reading),
        StageView::Running => command_ended(broker, outcome, reading),
    }
}

/// What the broker does to keep an account's grant: a check with no client,
/// unless the grant has ended.
pub open spec fn maintained(
    broker: BrokerView,
    account: Option<Seq<char>>,
    path: Seq<u8>,
    tmpdir: Option<Seq<u8>>,
    reading: Reading,
) -> (BrokerView, StepView) {
    let current = BrokerView { records: expired(broker.records, reading.monotonic), ..broker };
    if is_active(current.records, account) {
        check_begun(
            current,
            account,
            ContextView {
                cwd: broker.home,
                environment: maintenance_entries(
                    broker.home,
                    broker.name,
                    path,
                    tmpdir,
                    account,
                ),
            },
            TaskView::Maintenance,
            reading,
        )
    } else {
        (current, StepView::Silent)
    }
}

/// What stands at the head of the broker's queue.
#[derive(Clone, Copy, Debug, PartialEq, Eq, Structural)]
pub enum Polled {
    Request,
    Stop,
    Disconnected,
    Empty,
}

/// What the broker does next: take the request, finish, keep an account's
/// grant, or wait for a message for some nanoseconds.
#[derive(Debug)]
pub enum Turn {
    Handle,
    Finish,
    Maintain(Account),
    Wait(u64),
}

/// What the broker may do next: where several accounts are to be checked, any
/// one of them comes first. A wait ends when the first grant asks for
/// attention, and after the idle wait at the latest.
pub open spec fn turn_allowed(
    records: RecordMap,
    shutdown: bool,
    polled: Polled,
    now: u64,
    turn: Turn,
) -> bool {
    if shutdown || polled == Polled::Stop || polled == Polled::Disconnected {
        turn is Finish
    } else if polled == Polled::Request {
        turn is Handle
    } else if exists|key: Option<Seq<char>>| #[trigger]
        records.dom().contains(key) && records[key].is_due(now) {
        turn matches Turn::Maintain(account) && records.dom().contains(account@)
            && records[account@].is_due(now)
    } else {
        turn matches Turn::Wait(wait) && wait <= IDLE_WAIT && (forall|key: Option<Seq<char>>|
            #[trigger]
            records.dom().contains(key) && records[key].attention() is Some ==> wait <= time_left(
                now,
                records[key].attention()->0,
            )) && (wait == IDLE_WAIT || exists|key: Option<Seq<char>>| #[trigger]
            records.dom().contains(key) && records[key].attention() is Some && wait == time_left(
                now,
                records[key].attention()->0,
            ))
    }
}

/// The broker after it decided what to do next: grants whose time is over have
/// ended, unless it is to stop.
pub open spec fn turned(broker: BrokerView, shutdown: bool, now: u64) -> BrokerView {
    if shutdown {
        broker
    } else {
        BrokerView { records: expired(broker.records, now), ..broker }
    }
}

/// The broker when it has stopped: it knows of no account.
pub open spec fn closed(broker: BrokerView) -> BrokerView {
    BrokerView { records: RecordMap::empty(), stage: StageView::Idle, ..broker }
}

/// The broker when it begins, without records and with nothing to do.
pub open spec fn begun(
    op_path: Seq<char>,
    home: Seq<u8>,
    name: Seq<char>,
    timings: BrokerTimings,
    started_at: i128,
) -> BrokerView {
    BrokerView {
        op_path,
        home,
        name,
        timings,
        started_at,
        records: RecordMap::empty(),
        stage: StageView::Idle,
    }
}

/// The broker's executor: its records, and what it is busy with.
#[derive(Debug)]
pub struct BrokerActor {
    op_path: String,
    user: EffectiveUser,
    timings: BrokerTimings,
    started_at: i128,
    records: Records,
    stage: Stage,
}

impl View for BrokerActor {
    type V = BrokerView;

    closed spec fn view(&self) -> BrokerView {
        BrokerView {
            op_path: self.op_path@,
            home: self.user.home@,
            name: self.user.name@,
            timings: self.timings,
            started_at: self.started_at,
            records: self.records@,
            stage: self.stage@,
        }
    }
}

impl BrokerActor {
    /// The records are in order, and an authorization that goes on began
    /// within the reach of the clock.
    pub closed spec fn wf(&self) -> bool {
        &&& self.records.wf()
        &&& self.stage matches Stage::Authorizing { began, .. } ==> began.wf()
    }

    /// A broker without records.
    pub fn new(
        op_path: String,
        user: EffectiveUser,
        timings: BrokerTimings,
        started_at: i128,
    ) -> (broker: Self)
        ensures
            broker.wf(),
            broker@ == (BrokerView {
                op_path: op_path@,
                home: user.home@,
                name: user.name@,
                timings,
                started_at,
                records: RecordMap::empty(),
                stage: StageView::Idle,
            }),
            broker@ == begun(op_path@, user.home@, user.name@, timings, started_at),
    {
        BrokerActor {
            op_path,
            user,
            timings,
            started_at,
            records: Records::new(),
            stage: Stage::Idle,
        }
    }

    /// Takes a request from the queue.
    pub fn handle(
        &mut self,
        request: Request,
        control: &RequestControl,
        reading: Reading,
    ) -> (step: Step)
        requires
            old(self).wf(),
            old(self)@.stage is Idle,
            control.signal <= MAX_SIGNAL,
            reading.wf(),
        ensures
            final(self).wf(),
            (final(self)@, step@) == handled(old(self)@, request@, *control, reading),
            answers_with_a_status(final(self)@, request@, step@),
    {
        if control.is_cancelled() {
            return match request {
                Request::Exec { .. } => Step::Reply(cancel_response(control)),
                _ => Step::Reply(Response::Error(ErrorCode::Cancelled)),
            };
        }
        match request {
            Request::Start { warning_shown, account, op_path, context } => self.start(
                warning_shown,
                account,
                op_path,
                context,
                reading,
            ),
            Request::Status { account } => self.status(&account, reading),
            Request::Exec { account, timeout_nanos, arguments, context } => self.execute(
                account,
                timeout_nanos,
                arguments,
                context,
                reading,
            ),
        }
    }

    /// Takes a start request.
    fn start(
        &mut self,
        warning_shown: bool,
        account: Account,
        op_path: String,
        context: ClientContext,
        reading: Reading,
    ) -> (step: Step)
        requires
            old(self).wf(),
            old(self)@.stage is Idle,
            reading.wf(),
        ensures
            final(self).wf(),
            (final(self)@, step@) == start_handled(
                old(self)@,
                warning_shown,
                account@,
                op_path@,
                context@,
                reading,
            ),
    {
        self.records.expire(reading.monotonic);
        if !same_text(op_path.as_str(), self.op_path.as_str()) {
            return Step::Reply(Response::Error(ErrorCode::OpPathMismatch));
        }
        if self.records.is_active(&account) {
            return Step::Reply(Response::Accepted);
        }
        if !warning_shown {
            return Step::Reply(Response::NeedWarning);
        }
        self.records.insert(account.clone(), AuthorizationRecord::Required);
        let deadline = crate::clock::add(
            reading.monotonic,
            self.timings.explicit_timeout as u128,
        );
        let order = order(vault_list_arguments(), &context, &account, deadline);
        self.stage = Stage::Authorizing { account, began: reading };
        Step::Probe(order)
    }

    /// Takes a status request.
    fn status(&mut self, account: &Account, reading: Reading) -> (step: Step)
        requires
            old(self).wf(),
            old(self)@.stage is Idle,
        ensures
            final(self).wf(),
            (final(self)@, step@) == status_handled(old(self)@, account@, reading),
            answers_with_a_status(
                final(self)@,
                RequestView::Status { account: account@ },
                step@,
            ),
    {
        self.records.expire(reading.monotonic);
        let selector = match account.explicit() {
            Some(selector) => Some(selector.to_owned()),
            None => None,
        };
        let mut status = Status::running(selector, self.op_path.clone());
        status.started_at = format_time(self.started_at);
        if let Some(AuthorizationRecord::Active(active)) = self.records.get(account) {
            status.authorization = Some("active");
            status.authorized_at = format_time(active.authorized_at);
            status.hard_expires_at = format_time(active.hard_expires_at);
            status.next_probe_at = format_time(active.next_probe_at);
        }
        assert(status@ == reported(self@, account@));
        match status.json() {
            Some(json) => Step::Reply(Response::Status(json)),
            None => Step::Reply(Response::Error(ErrorCode::Operational)),
        }
    }

    /// Takes an exec request.
    fn execute(
        &mut self,
        account: Account,
        timeout_nanos: u64,
        arguments: Vec<Vec<u8>>,
        context: ClientContext,
        reading: Reading,
    ) -> (step: Step)
        requires
            old(self).wf(),
            old(self)@.stage is Idle,
        ensures
            final(self).wf(),
            (final(self)@, step@) == exec_handled(
                old(self)@,
                account@,
                timeout_nanos,
                byte_lists(arguments@),
                context@,
                reading,
            ),
    {
        self.records.expire(reading.monotonic);
        if !self.records.is_active(&account) {
            return Step::Reply(Response::Error(ErrorCode::AuthorizationRequired));
        }
        self.automatic_check(
            account,
            context,
            Task::Command { timeout_nanos, arguments },
            reading,
        )
    }

    /// Begins a check.
    fn automatic_check(
        &mut self,
        account: Account,
        context: ClientContext,
        task: Task,
        reading: Reading,
    ) -> (step: Step)
        requires
            old(self).wf(),
        ensures
            final(self).wf(),
            (final(self)@, step@) == check_begun(
                old(self)@,
                account@,
                context@,
                task@,
                reading,
            ),
    {
        let deadline = crate::clock::add(reading.monotonic, self.timings.check_timeout as u128);
        let order = order(whoami_arguments(), &context, &account, deadline);
        self.stage = Stage::Identity(Check { account, context, deadline, task });
        Step::Probe(order)
    }

    /// Begins to keep an account's grant. The path and the temporary directory
    /// are the system's.
    pub fn maintain(
        &mut self,
        account: Account,
        path: Vec<u8>,
        tmpdir: Option<Vec<u8>>,
        reading: Reading,
    ) -> (step: Step)
        requires
            old(self).wf(),
            old(self)@.stage is Idle,
        ensures
            final(self).wf(),
            (final(self)@, step@) == maintained(
                old(self)@,
                account@,
                path@,
                optional_bytes(tmpdir),
                reading,
            ),
    {
        self.records.expire(reading.monotonic);
        if !self.records.is_active(&account) {
            return Step::Silent;
        }
        let context = ClientContext::maintenance(&self.user, path, tmpdir, &account);
        self.automatic_check(account, context, Task::Maintenance, reading)
    }

    /// Decides what the broker does next, by what stands at the head of its
    /// queue. Grants whose time is over end first. An account that is to be
    /// checked waits for queued requests.
    pub fn turn(&mut self, shutdown: bool, polled: Polled, now: u64) -> (turn: Turn)
        requires
            old(self).wf(),
            old(self)@.stage is Idle,
        ensures
            final(self).wf(),
            final(self)@ == (BrokerView {
                records: if shutdown {
                    old(self)@.records
                } else {
                    expired(old(self)@.records, now)
                },
                ..old(self)@
            }),
            final(self)@ == turned(old(self)@, shutdown, now),
            turn_allowed(final(self)@.records, shutdown, polled, now, turn),
    {
        if shutdown {
            return Turn::Finish;
        }
        self.expire_records(now);
        match polled {
            Polled::Request => Turn::Handle,
            Polled::Stop => Turn::Finish,
            Polled::Disconnected => Turn::Finish,
            Polled::Empty => match self.records.due_maintenance(now) {
                Some(account) => Turn::Maintain(account),
                None => {
                    let wait = self.records.next_wait(now);
                    Turn::Wait(
                        if wait < IDLE_WAIT {
                            wait
                        } else {
                            IDLE_WAIT
                        },
                    )
                },
            },
        }
    }

    /// Ends the grants whose hard deadline has come.
    pub fn expire_records(&mut self, now: u64)
        requires
            old(self).wf(),
        ensures
            final(self).wf(),
            final(self)@ == (BrokerView {
                records: expired(old(self)@.records, now),
                ..old(self)@
            }),
    {
        self.records.expire(now);
    }

    /// Forgets every account, when the broker stops.
    pub fn close(&mut self)
        ensures
            final(self).wf(),
            final(self)@ == (BrokerView {
                records: RecordMap::empty(),
                stage: StageView::Idle,
                ..old(self)@
            }),
            final(self)@ == closed(old(self)@),
    {
        self.records.clear();
        self.stage = Stage::Idle;
    }

    /// Goes on after the run of `op` that was ordered. There is no outcome
    /// where it could not be run.
    pub fn resume(
        &mut self,
        outcome: Option<ProcessOutcome>,
        control: &RequestControl,
        reading: Reading,
    ) -> (step: Step)
        requires
            old(self).wf(),
            !(old(self)@.stage is Idle),
            signal_fits(outcome),
            control.signal <= MAX_SIGNAL,
            reading.wf(),
        ensures
            final(self).wf(),
            (final(self)@, step@) == resumed(old(self)@, outcome, *control, reading),
    {
        let mut stage = Stage::Idle;
        core::mem::swap(&mut self.stage, &mut stage);
        match stage {
            Stage::Idle => Step::Silent,
            Stage::Authorizing { account, began } => self.finish_authorization(
                account,
                began,
                outcome,
                control,
                reading,
            ),
            Stage::Identity(check) => self.finish_identity(check, outcome, control),
            Stage::Vault(check) => self.finish_vault(check, outcome, control, reading),
            Stage::Running => {
                self.records.expire(reading.monotonic);
                match command_response(outcome) {
                    Some(response) => Step::Reply(response),
                    None => Step::Silent,
                }
            },
        }
    }

    /// Ends an explicit authorization.
    fn finish_authorization(
        &mut self,
        account: Account,
        began: Reading,
        outcome: Option<ProcessOutcome>,
        control: &RequestControl,
        reading: Reading,
    ) -> (step: Step)
        requires
            old(self).wf(),
            old(self)@.stage is Idle,
            control.signal <= MAX_SIGNAL,
            began.wf(),
            reading.wf(),
        ensures
            final(self).wf(),
            (final(self)@, step@) == authorization_ended(
                old(self)@,
                account@,
                began,
                outcome,
                *control,
                reading,
            ),
    {
        match classify_check(outcome) {
            CheckResult::Success => {
                let active = ActiveAuthorization {
                    authorized_at: began.wall,
                    hard_expires_at: began.wall + self.timings.hard_limit as i128,
                    hard_deadline: crate::clock::add(
                        began.monotonic,
                        self.timings.hard_limit as u128,
                    ),
                    next_probe_at: reading.wall + self.timings.maintenance_interval as i128,
                    next_probe_deadline: crate::clock::add(
                        reading.monotonic,
                        self.timings.maintenance_interval as u128,
                    ),
                };
                self.records.insert(account, AuthorizationRecord::Active(active));
                Step::Reply(Response::Accepted)
            },
            CheckResult::Cancelled => Step::Reply(cancel_response(control)),
            CheckResult::Shutdown => Step::Silent,
            CheckResult::Failed => Step::Reply(Response::Error(ErrorCode::AuthorizationFailed)),
        }
    }

    /// Ends a check that did not succeed.
    fn fail_check(
        &mut self,
        task: &Task,
        result: CheckResult,
        control: &RequestControl,
    ) -> (step: Step)
        requires
            old(self).wf(),
            old(self)@.stage is Idle,
            control.signal <= MAX_SIGNAL,
            result != CheckResult::Success,
        ensures
            final(self).wf(),
            (final(self)@, step@) == check_failed(old(self)@, task@, result, *control),
    {
        match task {
            Task::Command { .. } => match result {
                CheckResult::Cancelled => Step::Reply(cancel_response(control)),
                CheckResult::Shutdown => Step::Silent,
                _ => {
                    self.records.invalidate_all();
                    Step::Reply(Response::Error(ErrorCode::AuthorizationRequired))
                },
            },
            Task::Maintenance => match result {
                CheckResult::Shutdown => Step::Stop,
                _ => {
                    self.records.invalidate_all();
                    Step::Silent
                },
            },
        }
    }

    /// Ends the first command of a check.
    fn finish_identity(
        &mut self,
        check: Check,
        outcome: Option<ProcessOutcome>,
        control: &RequestControl,
    ) -> (step: Step)
        requires
            old(self).wf(),
            old(self)@.stage is Idle,
            control.signal <= MAX_SIGNAL,
        ensures
            final(self).wf(),
            (final(self)@, step@) == identity_ended(old(self)@, check@, outcome, *control),
    {
        let result = classify_check(outcome);
        if let CheckResult::Success = result {
            let order = order(
                vault_list_arguments(),
                &check.context,
                &check.account,
                check.deadline,
            );
            self.stage = Stage::Vault(check);
            Step::Probe(order)
        } else {
            self.fail_check(&check.task, result, control)
        }
    }

    /// Ends the second command of a check.
    fn finish_vault(
        &mut self,
        check: Check,
        outcome: Option<ProcessOutcome>,
        control: &RequestControl,
        reading: Reading,
    ) -> (step: Step)
        requires
            old(self).wf(),
            old(self)@.stage is Idle,
            control.signal <= MAX_SIGNAL,
            reading.wf(),
        ensures
            final(self).wf(),
            (final(self)@, step@) == vault_ended(
                old(self)@,
                check@,
                outcome,
                *control,
                reading,
            ),
    {
        let result = classify_check(outcome);
        if let CheckResult::Success = result {
            if let Some(AuthorizationRecord::Active(active)) = self.records.get(&check.account) {
                let refreshed = ActiveAuthorization {
                    next_probe_at: reading.wall + self.timings.maintenance_interval as i128,
                    next_probe_deadline: crate::clock::add(
                        reading.monotonic,
                        self.timings.maintenance_interval as u128,
                    ),
                    ..active
                };
                self.records.insert(
                    check.account.clone(),
                    AuthorizationRecord::Active(refreshed),
                );
            }
            match check.task {
                Task::Maintenance => Step::Silent,
                Task::Command { timeout_nanos, arguments } => {
                    self.records.expire(reading.monotonic);
                    if !self.records.is_active(&check.account) {
                        return Step::Reply(Response::Error(ErrorCode::AuthorizationRequired));
                    }
                    let deadline = crate::clock::add(reading.monotonic, timeout_nanos as u128);
                    self.stage = Stage::Running;
                    Step::Run(order(arguments, &check.context, &check.account, deadline))
                },
            }
        } else {
            self.fail_check(&check.task, result, control)
        }
    }
}

/// The arguments of an explicit authorization and of a check's second command.
fn vault_list_arguments() -> (arguments: Vec<Vec<u8>>)
    ensures
        byte_lists(arguments@) == vault_list(),
{
    let mut arguments: Vec<Vec<u8>> = Vec::new();
    arguments.push(copy_bytes("vault".as_bytes()));
    arguments.push(copy_bytes("list".as_bytes()));
    arguments.push(copy_bytes("--format=json".as_bytes()));
    assert(byte_lists(arguments@) =~= vault_list());
    arguments
}

/// The arguments of a check's first command.
fn whoami_arguments() -> (arguments: Vec<Vec<u8>>)
    ensures
        byte_lists(arguments@) == whoami(),
{
    let mut arguments: Vec<Vec<u8>> = Vec::new();
    arguments.push(copy_bytes("whoami".as_bytes()));
    assert(byte_lists(arguments@) =~= whoami());
    arguments
}

/// A run of `op` for an account.
fn order(
    arguments: Vec<Vec<u8>>,
    context: &ClientContext,
    account: &Account,
    deadline: u64,
) -> (order: Order)
    ensures
        order@ == order_for(byte_lists(arguments@), context@, account@, deadline),
{
    Order {
        arguments,
        cwd: copy_bytes(&context.cwd),
        environment: context.sanitized(account),
        deadline,
    }
}

/// What the executor is to do is seen whole: the answer that it is to give, or
/// the command that it is to run, with its arguments, its working directory,
/// its environment and its deadline.
pub proof fn steps_are_seen_whole(step: Step)
    ensures
        step matches Step::Reply(response) ==> step@ == StepView::Reply(response@),
        step is Silent ==> step@ is Silent,
        step matches Step::Probe(order) ==> step@ == StepView::Probe(order@),
        step matches Step::Run(order) ==> step@ == StepView::Run(order@),
        step is Stop ==> step@ is Stop,
{
}

/// A command that is to run is seen whole.
pub proof fn orders_are_seen_whole(order: Order)
    ensures
        order@.arguments.len() == order.arguments@.len(),
        forall|i: int|
            0 <= i < order.arguments@.len() ==> #[trigger] order@.arguments[i]
                == order.arguments@[i]@,
        order@.cwd == order.cwd@,
        order@.environment.len() == order.environment@.len(),
        forall|i: int|
            0 <= i < order.environment@.len() ==> {
                &&& (#[trigger] order@.environment[i]).0 == order.environment@[i].0@
                &&& order@.environment[i].1 == order.environment@[i].1@
            },
        order@.deadline == order.deadline,
{
}

/// What the executor is busy with is seen whole.
pub proof fn stages_are_seen_whole(stage: Stage)
    ensures
        stage is Idle ==> stage@ is Idle,
        stage matches Stage::Authorizing { account, began } ==> stage@ == (StageView::Authorizing {
            account: account@,
            began,
        }),
        stage matches Stage::Identity(check) ==> stage@ == StageView::Identity(check@),
        stage matches Stage::Vault(check) ==> stage@ == StageView::Vault(check@),
        stage is Running ==> stage@ is Running,
{
}

/// A check is seen whole, with what follows it.
pub proof fn checks_are_seen_whole(check: Check)
    ensures
        check@.account == check.account@,
        check@.context == check.context@,
        check@.deadline == check.deadline,
        check.task is Maintenance ==> check@.task is Maintenance,
        check.task matches Task::Command { timeout_nanos, arguments } ==> {
            &&& check@.task is Command
            &&& check@.task->timeout_nanos == timeout_nanos
            &&& check@.task->arguments.len() == arguments@.len()
            &&& forall|i: int|
                0 <= i < arguments@.len() ==> #[trigger] check@.task->arguments[i]
                    == arguments@[i]@
        },
{
}

} // verus!
