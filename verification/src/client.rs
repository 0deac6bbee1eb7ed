//! What the commands of `opp` do, by what they learn on the way, and what they
//! leave with.
use crate::broker::{command_reply, MAX_SIGNAL};
use crate::bytes::{byte_lists, copy_bytes, same_bytes, utf8_text};
use crate::framing::{stop_response, stop_response_bytes};
use crate::json::{is_read_as, json_members, json_object};
use crate::process::ProcessOutcome;
use crate::protocol::{Diagnostic, ErrorCode, Response, ResponseView};
use crate::runtime::{is_absent_socket_error, join_path, path_below, Failure};
use crate::startup::StartupResult;
use crate::status::{is_status, status_members, stopped_status, Status};
use vstd::prelude::*;
use vstd::utf8::{decode_utf8, encode_utf8, valid_utf8};

verus! {

/// The warning in front of every explicit authorization.
pub const WARNING: &'static str = "opp: warning: the broker gives every process that can reach its socket the full authorized 1Password CLI authority for every account added to it, including same-user command execution through 'op run'.\n";

/// What a command without authorization leaves with.
pub const AUTHORIZATION_REQUIRED: &'static str = "opp: the selected 1Password account requires authorization. Stop and inform the user. Wait for the user to run 'opp start' with the same account selection and confirm completion. Do not retry or run 'opp start' yourself.\n";

/// What a client of another version leaves with.
pub const INCOMPATIBLE: &'static str = "opp: incompatible broker protocol; run 'opp stop' and restart the broker.\n";

/// The exit code of a command without authorization.
pub const AUTHORIZATION_EXIT: i32 = 77;

/// The exit code of a command that could not be run.
pub const FAILURE_EXIT: i32 = 125;

/// How a run of `opp` ends: its exit code, and what it writes to standard
/// error.
#[derive(Clone, Copy, Debug)]
pub struct Exit {
    pub code: i32,
    pub message: &'static str,
}

impl Exit {
    /// The exit code and the text.
    pub open spec fn is(self, code: i32, message: Seq<char>) -> bool {
        self.code == code && self.message@ == message
    }
}

/// The end of a lifecycle command that failed.
pub fn lifecycle_error(message: &'static str) -> (exit: Exit)
    ensures
        exit.is(1, message@),
{
    Exit { code: 1, message }
}

/// The end of an `exec` that failed.
pub fn exec_error(code: i32, message: &'static str) -> (exit: Exit)
    ensures
        exit.is(code, message@),
{
    Exit { code, message }
}

/// The end of an `exec` without authorization.
pub fn authorization_required() -> (exit: Exit)
    ensures
        exit.is(AUTHORIZATION_EXIT, AUTHORIZATION_REQUIRED@),
{
    Exit { code: AUTHORIZATION_EXIT, message: AUTHORIZATION_REQUIRED }
}

/// What an answer to a start request means.
pub open spec fn lifecycle_exit(exit: Exit, response: ResponseView) -> bool {
    match response {
        ResponseView::Accepted => exit.is(0, ""@),
        ResponseView::Error(ErrorCode::AuthorizationFailed) => exit.is(
            1,
            "opp: 1Password authorization failed or was cancelled.\n"@,
        ),
        ResponseView::Error(ErrorCode::OpPathMismatch) => exit.is(
            1,
            "opp: the running broker uses a different 'op' executable; stop it first.\n"@,
        ),
        ResponseView::Error(_) => exit.is(1, "opp: broker operation failed.\n"@),
        _ => exit.is(1, "opp: invalid broker response.\n"@),
    }
}

/// The end of a start request that was answered.
pub fn lifecycle_response(response: &Response) -> (exit: Exit)
    ensures
        lifecycle_exit(exit, response@),
{
    match response {
        Response::Accepted => Exit { code: 0, message: "" },
        Response::Error(ErrorCode::AuthorizationFailed) => lifecycle_error(
            "opp: 1Password authorization failed or was cancelled.\n",
        ),
        Response::Error(ErrorCode::OpPathMismatch) => lifecycle_error(
            "opp: the running broker uses a different 'op' executable; stop it first.\n",
        ),
        Response::Error(_) => lifecycle_error("opp: broker operation failed.\n"),
        _ => lifecycle_error("opp: invalid broker response.\n"),
    }
}

/// What an attempt to reach the broker came to.
#[derive(Clone, Copy, Debug, PartialEq, Eq, Structural)]
pub enum Connected {
    Ready,
    Absent,
    Incompatible,
    Failed,
}

/// What an attempt to reach the broker came to, by why the connection or the
/// negotiation on it failed, if one did.
pub fn connect(connection: Option<Failure>, negotiation: Option<Failure>) -> (connected: Connected)
    ensures
        connected == (match connection {
            None => match negotiation {
                None => Connected::Ready,
                Some(Failure::Unsupported) => Connected::Incompatible,
                Some(_) => Connected::Failed,
            },
            Some(Failure::NotFound) => Connected::Absent,
            Some(Failure::ConnectionRefused) => Connected::Absent,
            Some(Failure::Unsupported) => Connected::Incompatible,
            Some(_) => Connected::Failed,
        }),
        connected == reached_as(connection, negotiation),
{
    match connection {
        None => match negotiation {
            None => Connected::Ready,
            Some(Failure::Unsupported) => Connected::Incompatible,
            Some(_) => Connected::Failed,
        },
        Some(failure) => {
            if is_absent_socket_error(failure) {
                Connected::Absent
            } else if failure == Failure::Unsupported {
                Connected::Incompatible
            } else {
                Connected::Failed
            }
        },
    }
}

/// What waiting for a broker does after an attempt to reach it.
#[derive(Clone, Copy, Debug, PartialEq, Eq, Structural)]
pub enum Awaited {
    Ready,
    Retry,
    TimedOut,
    Incompatible,
    Failed,
}

/// How long a broker is waited for, in nanoseconds: five seconds.
pub const STARTUP_WAIT: u64 = 5_000_000_000;

/// What waiting for a broker does after an attempt to reach it, by when the
/// wait began and what the time is now, in nanoseconds of the same clock. An
/// attempt that finds no broker is repeated for five seconds.
pub fn connect_until(connected: Connected, began: u64, now: u64) -> (awaited: Awaited)
    ensures
        awaited == (match connected {
            Connected::Ready => Awaited::Ready,
            Connected::Absent => if now < began + STARTUP_WAIT {
                Awaited::Retry
            } else {
                Awaited::TimedOut
            },
            Connected::Incompatible => Awaited::Incompatible,
            Connected::Failed => Awaited::Failed,
        }),
        awaited == awaited_as(connected, began, now),
{
    match connected {
        Connected::Ready => Awaited::Ready,
        Connected::Absent => {
            if now < began || now - began < STARTUP_WAIT {
                Awaited::Retry
            } else {
                Awaited::TimedOut
            }
        },
        Connected::Incompatible => Awaited::Incompatible,
        Connected::Failed => Awaited::Failed,
    }
}

/// What follows a new broker's report, or its silence.
#[derive(Clone, Copy, Debug, PartialEq, Eq, Structural)]
pub enum Spawned {
    Done,
    AwaitExisting,
    Failed,
}

/// What follows a new broker's report, or its silence. Where another broker
/// was first, that one is waited for.
pub fn spawn_broker(report: Option<StartupResult>) -> (spawned: Spawned)
    ensures
        spawned == (match report {
            Some(StartupResult::Ready) => Spawned::Done,
            Some(StartupResult::Existing) => Spawned::AwaitExisting,
            Some(StartupResult::Failed) => Spawned::Failed,
            None => Spawned::Failed,
        }),
        spawned == spawned_as(report),
{
    match report {
        Some(StartupResult::Ready) => Spawned::Done,
        Some(StartupResult::Existing) => Spawned::AwaitExisting,
        Some(StartupResult::Failed) => Spawned::Failed,
        None => Spawned::Failed,
    }
}

/// The steps of `opp start`.
#[derive(Clone, Copy, Debug, PartialEq, Eq, Structural)]
pub enum StartStage {
    ResolveOp,
    CaptureContext,
    LoadPaths,
    Connect,
    /// Send the request to a running broker, before any warning.
    SendUnwarned,
    /// Receive its answer.
    ReceiveUnwarned,
    /// Warn the user of a running broker.
    WarnExisting,
    /// Warn the user of a broker that is yet to be started.
    WarnNew,
    SpawnBroker,
    AwaitBroker,
    /// Send the request after the warning, and receive the answer. The broker
    /// may be a new one.
    Ask { new: bool },
}

/// What a step of `opp start` came to.
#[derive(Debug)]
pub enum StartEvent {
    Succeeded,
    Failed(Failure),
    Reached(Connected),
    Answered(Response),
}

/// What follows a step of `opp start`.
#[derive(Debug)]
pub enum StartDecision {
    Next(StartStage),
    Leave(Exit),
}

/// What follows a failed step of `opp start`.
pub open spec fn start_failure(stage: StartStage, failure: Failure) -> (int, Seq<char>) {
    match stage {
        StartStage::ResolveOp => (1, "opp: could not resolve a canonical executable 'op'.\n"@),
        StartStage::CaptureContext => (
            1,
            "opp: could not read the invoking process context.\n"@,
        ),
        StartStage::LoadPaths => (1, "opp: could not determine the broker runtime path.\n"@),
        StartStage::WarnExisting => (1, ""@),
        StartStage::WarnNew => (1, ""@),
        StartStage::SpawnBroker => if failure == Failure::Unsupported {
            (1, INCOMPATIBLE@)
        } else {
            (1, "opp: the broker failed to start.\n"@)
        },
        StartStage::AwaitBroker => (1, "opp: the broker failed to become ready.\n"@),
        StartStage::Connect | StartStage::SendUnwarned => if failure == Failure::Unsupported {
            (1, INCOMPATIBLE@)
        } else {
            (1, "opp: broker communication failed.\n"@)
        },
        StartStage::Ask { new } => if new && failure == Failure::Unsupported {
            (1, INCOMPATIBLE@)
        } else {
            (1, "opp: broker communication failed.\n"@)
        },
        StartStage::ReceiveUnwarned => (1, "opp: broker communication failed.\n"@),
    }
}

/// The step after one that succeeded.
pub open spec fn start_success(stage: StartStage) -> Option<StartStage> {
    match stage {
        StartStage::ResolveOp => Some(StartStage::CaptureContext),
        StartStage::CaptureContext => Some(StartStage::LoadPaths),
        StartStage::LoadPaths => Some(StartStage::Connect),
        StartStage::SendUnwarned => Some(StartStage::ReceiveUnwarned),
        StartStage::WarnExisting => Some(StartStage::Ask { new: false }),
        StartStage::WarnNew => Some(StartStage::SpawnBroker),
        StartStage::SpawnBroker => Some(StartStage::AwaitBroker),
        StartStage::AwaitBroker => Some(StartStage::Ask { new: true }),
        _ => None,
    }
}

/// An event that a step can come to.
pub open spec fn start_event_fits(stage: StartStage, event: StartEvent) -> bool {
    match event {
        StartEvent::Succeeded => start_success(stage) is Some,
        StartEvent::Failed(_) => true,
        StartEvent::Reached(_) => stage == StartStage::Connect,
        StartEvent::Answered(_) => stage == StartStage::ReceiveUnwarned || stage is Ask,
    }
}

/// A decision is what follows a step of `opp start`.
pub open spec fn start_decided(
    stage: StartStage,
    event: StartEvent,
    decision: StartDecision,
) -> bool {
    match event {
        StartEvent::Succeeded => decision == StartDecision::Next(start_success(stage)->0),
        StartEvent::Failed(failure) => {
            let (code, message) = start_failure(stage, failure);
            decision matches StartDecision::Leave(exit) && exit.is(code as i32, message)
        },
        StartEvent::Reached(Connected::Ready) => decision == StartDecision::Next(
            StartStage::SendUnwarned,
        ),
        StartEvent::Reached(Connected::Absent) => decision == StartDecision::Next(
            StartStage::WarnNew,
        ),
        StartEvent::Reached(Connected::Incompatible) => decision matches StartDecision::Leave(exit)
            && exit.is(1, INCOMPATIBLE@),
        StartEvent::Reached(Connected::Failed) => decision matches StartDecision::Leave(exit)
            && exit.is(1, "opp: broker communication failed.\n"@),
        StartEvent::Answered(response) => if stage == StartStage::ReceiveUnwarned && response@
            is NeedWarning {
            decision == StartDecision::Next(StartStage::WarnExisting)
        } else {
            decision matches StartDecision::Leave(exit) && lifecycle_exit(exit, response@)
        },
    }
}

/// What follows a step of `opp start`.
pub fn start(stage: StartStage, event: &StartEvent) -> (decision: StartDecision)
    requires
        start_event_fits(stage, *event),
    ensures
        start_decided(stage, *event, decision),
{
    match event {
        StartEvent::Succeeded => match stage {
            StartStage::ResolveOp => StartDecision::Next(StartStage::CaptureContext),
            StartStage::CaptureContext => StartDecision::Next(StartStage::LoadPaths),
            StartStage::LoadPaths => StartDecision::Next(StartStage::Connect),
            StartStage::SendUnwarned => StartDecision::Next(StartStage::ReceiveUnwarned),
            StartStage::WarnExisting => StartDecision::Next(StartStage::Ask { new: false }),
            StartStage::WarnNew => StartDecision::Next(StartStage::SpawnBroker),
            StartStage::SpawnBroker => StartDecision::Next(StartStage::AwaitBroker),
            _ => StartDecision::Next(StartStage::Ask { new: true }),
        },
        StartEvent::Failed(failure) => {
            let unsupported = *failure == Failure::Unsupported;
            StartDecision::Leave(
                match stage {
                    StartStage::ResolveOp => lifecycle_error(
                        "opp: could not resolve a canonical executable 'op'.\n",
                    ),
                    StartStage::CaptureContext => lifecycle_error(
                        "opp: could not read the invoking process context.\n",
                    ),
                    StartStage::LoadPaths => lifecycle_error(
                        "opp: could not determine the broker runtime path.\n",
                    ),
                    StartStage::WarnExisting => lifecycle_error(""),
                    StartStage::WarnNew => lifecycle_error(""),
                    StartStage::SpawnBroker => {
                        if unsupported {
                            lifecycle_error(INCOMPATIBLE)
                        } else {
                            lifecycle_error("opp: the broker failed to start.\n")
                        }
                    },
                    StartStage::AwaitBroker => lifecycle_error(
                        "opp: the broker failed to become ready.\n",
                    ),
                    StartStage::Connect | StartStage::SendUnwarned => {
                        if unsupported {
                            lifecycle_error(INCOMPATIBLE)
                        } else {
                            lifecycle_error("opp: broker communication failed.\n")
                        }
                    },
                    StartStage::Ask { new } => {
                        if new && unsupported {
                            lifecycle_error(INCOMPATIBLE)
                        } else {
                            lifecycle_error("opp: broker communication failed.\n")
                        }
                    },
                    _ => lifecycle_error("opp: broker communication failed.\n"),
                },
            )
        },
        StartEvent::Reached(connected) => match *connected {
            Connected::Ready => StartDecision::Next(StartStage::SendUnwarned),
            Connected::Absent => StartDecision::Next(StartStage::WarnNew),
            Connected::Incompatible => StartDecision::Leave(lifecycle_error(INCOMPATIBLE)),
            Connected::Failed => StartDecision::Leave(
                lifecycle_error("opp: broker communication failed.\n"),
            ),
        },
        StartEvent::Answered(response) => {
            let need_warning = matches!(response, Response::NeedWarning);
            if stage == StartStage::ReceiveUnwarned && need_warning {
                StartDecision::Next(StartStage::WarnExisting)
            } else {
                StartDecision::Leave(lifecycle_response(response))
            }
        },
    }
}

/// One step of `opp start`, what it came to, and what was decided.
pub struct StartStep {
    pub stage: StartStage,
    pub event: StartEvent,
    pub decision: StartDecision,
}

/// A course of `opp start`: each step follows from the one before it.
pub open spec fn start_course(steps: Seq<StartStep>) -> bool {
    &&& forall|i: int|
        #![trigger steps[i]]
        0 <= i < steps.len() ==> start_event_fits(steps[i].stage, steps[i].event) && start_decided(
            steps[i].stage,
            steps[i].event,
            steps[i].decision,
        )
    &&& steps.len() > 0 ==> steps[0].stage == StartStage::ResolveOp
    &&& forall|i: int, j: int|
        #![trigger steps[i], steps[j]]
        0 <= i && j == i + 1 && j < steps.len() ==> steps[i].decision == StartDecision::Next(
            steps[j].stage,
        )
}

/// A broker is started, and an explicit authorization is asked for, only after
/// the warning was written.
pub proof fn authorization_follows_the_warning(steps: Seq<StartStep>, i: int) -> (warned: int)
    requires
        start_course(steps),
        0 <= i < steps.len(),
        steps[i].stage is Ask || steps[i].stage == StartStage::SpawnBroker || steps[i].stage
            == StartStage::AwaitBroker,
    ensures
        0 <= warned < i,
        steps[warned].stage == StartStage::WarnNew || steps[warned].stage
            == StartStage::WarnExisting,
        steps[warned].event is Succeeded,
    decreases i,
{
    assert(i > 0);
    let before = steps[i - 1];
    assert(before.decision == StartDecision::Next(steps[i].stage));
    assert(start_decided(before.stage, before.event, before.decision));
    assert(start_event_fits(before.stage, before.event));
    if before.stage == StartStage::WarnNew || before.stage == StartStage::WarnExisting {
        i - 1
    } else {
        authorization_follows_the_warning(steps, i - 1)
    }
}

/// What `opp start` does, step by step. It resolves `op`, reads its context and
/// finds the broker's place before it tries to reach the broker. A broker that
/// runs is asked at once, and again after the warning where it wants one. For
/// one that does not run the warning comes first, then the broker is started
/// and waited for, and then it is asked.
pub proof fn start_takes_its_course(stage: StartStage, event: StartEvent, decision: StartDecision)
    requires
        start_event_fits(stage, event),
        start_decided(stage, event, decision),
    ensures
        event is Succeeded ==> {
            &&& decision matches StartDecision::Next(next)
            &&& stage is ResolveOp ==> next is CaptureContext
            &&& stage is CaptureContext ==> next is LoadPaths
            &&& stage is LoadPaths ==> next is Connect
            &&& stage is SendUnwarned ==> next is ReceiveUnwarned
            &&& stage is WarnExisting ==> next == (StartStage::Ask { new: false })
            &&& stage is WarnNew ==> next is SpawnBroker
            &&& stage is SpawnBroker ==> next is AwaitBroker
            &&& stage is AwaitBroker ==> next == (StartStage::Ask { new: true })
        },
        event == StartEvent::Reached(Connected::Ready) ==> decision == StartDecision::Next(
            StartStage::SendUnwarned,
        ),
        event == StartEvent::Reached(Connected::Absent) ==> decision == StartDecision::Next(
            StartStage::WarnNew,
        ),
        event matches StartEvent::Answered(response) ==> (stage is ReceiveUnwarned && response
            is NeedWarning <==> decision == StartDecision::Next(StartStage::WarnExisting)),
{
}

/// `opp start` succeeds exactly where the broker accepts, and then writes
/// nothing. Everything else that it leaves with is exit code 1. A broker of
/// another version is told apart wherever it shows, and an authorization that
/// failed and another `op` are told apart from other refusals.
pub proof fn start_leaves_with_what_it_was_told(
    stage: StartStage,
    event: StartEvent,
    exit: Exit,
)
    requires
        start_event_fits(stage, event),
        start_decided(stage, event, StartDecision::Leave(exit)),
    ensures
        exit.code == 0 || exit.code == 1,
        exit.code == 0 <==> event matches StartEvent::Answered(Response::Accepted),
        exit.code == 0 ==> exit.message@ == ""@,
        event == StartEvent::Reached(Connected::Incompatible) ==> exit.message@ == INCOMPATIBLE@,
        event == StartEvent::Reached(Connected::Failed) ==> exit.message@
            == "opp: broker communication failed.\n"@,
        event matches StartEvent::Failed(failure) ==> match stage {
            StartStage::ResolveOp => exit.message@
                == "opp: could not resolve a canonical executable 'op'.\n"@,
            StartStage::CaptureContext => exit.message@
                == "opp: could not read the invoking process context.\n"@,
            StartStage::LoadPaths => exit.message@
                == "opp: could not determine the broker runtime path.\n"@,
            StartStage::WarnExisting | StartStage::WarnNew => exit.message@ == ""@,
            StartStage::AwaitBroker => exit.message@
                == "opp: the broker failed to become ready.\n"@,
            StartStage::SpawnBroker => exit.message@ == if failure is Unsupported {
                INCOMPATIBLE@
            } else {
                "opp: the broker failed to start.\n"@
            },
            StartStage::ReceiveUnwarned | StartStage::Ask { new: false } => exit.message@
                == "opp: broker communication failed.\n"@,
            _ => exit.message@ == if failure is Unsupported {
                INCOMPATIBLE@
            } else {
                "opp: broker communication failed.\n"@
            },
        },
        event matches StartEvent::Answered(Response::Error(code)) ==> exit.message@ == match code {
            ErrorCode::AuthorizationFailed => {
                "opp: 1Password authorization failed or was cancelled.\n"@
            },
            ErrorCode::OpPathMismatch => {
                "opp: the running broker uses a different 'op' executable; stop it first.\n"@
            },
            _ => "opp: broker operation failed.\n"@,
        },
        event matches StartEvent::Answered(response) ==> (response is NeedWarning || response
            is Status || response is Exec ==> exit.message@ == "opp: invalid broker response.\n"@),
{
}

/// The steps of `opp exec` up to the run of its command.
#[derive(Clone, Copy, Debug, PartialEq, Eq, Structural)]
pub enum ExecStage {
    LoadPaths,
    Connect,
    CaptureContext,
    OpenPipes,
    Send,
    Watch,
    Forward,
}

/// What follows a step of `opp exec`.
#[derive(Debug)]
pub enum ExecDecision {
    Next(ExecStage),
    Leave(Exit),
}

/// What an `exec` that could not go on leaves with.
pub open spec fn exec_failure(stage: ExecStage) -> Seq<char> {
    match stage {
        ExecStage::LoadPaths => "opp: could not determine the broker runtime path.\n"@,
        ExecStage::CaptureContext => "opp: could not read the invoking process context.\n"@,
        ExecStage::OpenPipes => "opp: could not create command pipes.\n"@,
        _ => "opp: broker communication failed.\n"@,
    }
}

/// The step after one that succeeded.
pub open spec fn exec_success(stage: ExecStage) -> ExecStage {
    match stage {
        ExecStage::LoadPaths => ExecStage::Connect,
        ExecStage::Connect => ExecStage::CaptureContext,
        ExecStage::CaptureContext => ExecStage::OpenPipes,
        ExecStage::OpenPipes => ExecStage::Send,
        ExecStage::Send => ExecStage::Watch,
        _ => ExecStage::Forward,
    }
}

/// A decision is what follows a step of `opp exec`.
pub open spec fn exec_decided(
    stage: ExecStage,
    reached: Connected,
    decision: ExecDecision,
) -> bool {
    match reached {
        Connected::Ready => decision == ExecDecision::Next(exec_success(stage)),
        Connected::Absent if stage == ExecStage::Connect => {
            decision matches ExecDecision::Leave(exit) && exit.is(
                AUTHORIZATION_EXIT,
                AUTHORIZATION_REQUIRED@,
            )
        },
        Connected::Incompatible if stage == ExecStage::Connect => {
            decision matches ExecDecision::Leave(exit) && exit.is(FAILURE_EXIT, INCOMPATIBLE@)
        },
        _ => decision matches ExecDecision::Leave(exit) && exit.is(
            FAILURE_EXIT,
            exec_failure(stage),
        ),
    }
}

/// What follows a step of `opp exec` that came to something. A broker that
/// does not run has authorized nothing.
pub fn execute(stage: ExecStage, reached: Connected) -> (decision: ExecDecision)
    requires
        stage != ExecStage::Forward,
    ensures
        exec_decided(stage, reached, decision),
{
    match reached {
        Connected::Ready => ExecDecision::Next(
            match stage {
                ExecStage::LoadPaths => ExecStage::Connect,
                ExecStage::Connect => ExecStage::CaptureContext,
                ExecStage::CaptureContext => ExecStage::OpenPipes,
                ExecStage::OpenPipes => ExecStage::Send,
                ExecStage::Send => ExecStage::Watch,
                _ => ExecStage::Forward,
            },
        ),
        _ => {
            if stage == ExecStage::Connect && reached == Connected::Absent {
                return ExecDecision::Leave(authorization_required());
            }
            if stage == ExecStage::Connect && reached == Connected::Incompatible {
                return ExecDecision::Leave(exec_error(FAILURE_EXIT, INCOMPATIBLE));
            }
            ExecDecision::Leave(
                exec_error(
                    FAILURE_EXIT,
                    match stage {
                        ExecStage::LoadPaths => {
                            "opp: could not determine the broker runtime path.\n"
                        },
                        ExecStage::CaptureContext => {
                            "opp: could not read the invoking process context.\n"
                        },
                        ExecStage::OpenPipes => "opp: could not create command pipes.\n",
                        _ => "opp: broker communication failed.\n",
                    },
                ),
            )
        },
    }
}

/// How an `exec` ends whose command was answered, or was not. The streams must
/// have been forwarded to their ends. `signal` is the one that the client
/// received, or zero.
pub open spec fn execution_exit(
    exit: Exit,
    forwarded: bool,
    response: Option<ResponseView>,
    signal: i32,
) -> bool {
    if !forwarded {
        exit.is(FAILURE_EXIT, "opp: standard-stream forwarding failed.\n"@)
    } else {
        match response {
            Some(ResponseView::Exec { exit_code, diagnostic }) => exit.is(
                exit_code,
                match diagnostic {
                    Diagnostic::Nothing => ""@,
                    Diagnostic::Timeout => "opp: command timed out.\n"@,
                    Diagnostic::Internal => "opp: command execution failed.\n"@,
                },
            ),
            Some(ResponseView::Error(ErrorCode::AuthorizationRequired)) => exit.is(
                AUTHORIZATION_EXIT,
                AUTHORIZATION_REQUIRED@,
            ),
            Some(ResponseView::Error(ErrorCode::Cancelled)) => if signal > 0 {
                exit.is((128 + signal) as i32, ""@)
            } else {
                exit.is(FAILURE_EXIT, "opp: command was cancelled.\n"@)
            },
            Some(ResponseView::Error(_)) => exit.is(
                FAILURE_EXIT,
                "opp: command execution failed.\n"@,
            ),
            _ => exit.is(FAILURE_EXIT, "opp: broker communication failed.\n"@),
        }
    }
}

/// How an `exec` ends whose command was answered, or was not.
pub fn conclude_execution(forwarded: bool, response: Option<&Response>, signal: i32) -> (exit: Exit)
    requires
        signal <= MAX_SIGNAL,
    ensures
        execution_exit(
            exit,
            forwarded,
            match response {
                Some(response) => Some(response@),
                None => None,
            },
            signal,
        ),
{
    if !forwarded {
        return exec_error(FAILURE_EXIT, "opp: standard-stream forwarding failed.\n");
    }
    match response {
        Some(Response::Exec { exit_code, diagnostic }) => exec_error(
            *exit_code,
            match diagnostic {
                Diagnostic::Nothing => "",
                Diagnostic::Timeout => "opp: command timed out.\n",
                Diagnostic::Internal => "opp: command execution failed.\n",
            },
        ),
        Some(Response::Error(ErrorCode::AuthorizationRequired)) => authorization_required(),
        Some(Response::Error(ErrorCode::Cancelled)) => {
            if signal > 0 {
                exec_error(128 + signal, "")
            } else {
                exec_error(FAILURE_EXIT, "opp: command was cancelled.\n")
            }
        },
        Some(Response::Error(_)) => exec_error(FAILURE_EXIT, "opp: command execution failed.\n"),
        _ => exec_error(FAILURE_EXIT, "opp: broker communication failed.\n"),
    }
}

/// A command's end becomes the client's: its own exit code, 128 and the signal
/// that ended it or that its caller sent, or 124 when its time was up, which
/// only then comes with a text.
pub proof fn command_end_is_passed_on(exit: Exit, outcome: ProcessOutcome, signal: i32)
    requires
        outcome matches ProcessOutcome::Signaled(number) ==> number <= MAX_SIGNAL,
        outcome matches ProcessOutcome::Cancelled(number) ==> 0 < number <= MAX_SIGNAL,
        command_reply(Some(outcome)) is Some,
        execution_exit(exit, true, command_reply(Some(outcome)), signal),
    ensures
        match outcome {
            ProcessOutcome::Exited(code) => exit.is(code, ""@),
            ProcessOutcome::Signaled(number) => exit.is((128 + number) as i32, ""@),
            ProcessOutcome::Cancelled(number) => exit.is((128 + number) as i32, ""@),
            ProcessOutcome::TimedOut => exit.is(124, "opp: command timed out.\n"@),
            ProcessOutcome::Shutdown => false,
        },
{
}

/// `opp exec` comes to run its command only by way of all its steps, in their
/// order. A broker that does not run has authorized nothing: exit code 77 and
/// the text that says so. Everything else that stops it is exit code 125.
pub proof fn exec_takes_its_course(stage: ExecStage, reached: Connected, decision: ExecDecision)
    requires
        exec_decided(stage, reached, decision),
    ensures
        decision is Next <==> reached is Ready,
        decision matches ExecDecision::Next(next) ==> {
            &&& stage is LoadPaths ==> next is Connect
            &&& stage is Connect ==> next is CaptureContext
            &&& stage is CaptureContext ==> next is OpenPipes
            &&& stage is OpenPipes ==> next is Send
            &&& stage is Send ==> next is Watch
            &&& stage is Watch ==> next is Forward
        },
        decision matches ExecDecision::Leave(exit) ==> {
            &&& exit.code == 77 || exit.code == 125
            &&& exit.code == 77 <==> stage is Connect && reached is Absent
            &&& exit.code == 77 ==> exit.message@ == AUTHORIZATION_REQUIRED@
            &&& exit.code == 125 ==> exit.message@ == match stage {
                ExecStage::LoadPaths => "opp: could not determine the broker runtime path.\n"@,
                ExecStage::CaptureContext => {
                    "opp: could not read the invoking process context.\n"@
                },
                ExecStage::OpenPipes => "opp: could not create command pipes.\n"@,
                ExecStage::Connect if reached is Incompatible => INCOMPATIBLE@,
                _ => "opp: broker communication failed.\n"@,
            }
        },
{
}

/// `opp exec` leaves with the exit code that the broker gives, and with its
/// text for it. A refusal for want of authorization is exit code 77. A command
/// that was cancelled is 128 and the signal that the client received, if it
/// received one. Streams that were not forwarded to their ends, every other
/// refusal, and an answer that is none are exit code 125.
pub proof fn exec_leaves_with_what_it_was_told(
    exit: Exit,
    forwarded: bool,
    response: Option<ResponseView>,
    signal: i32,
)
    requires
        signal <= MAX_SIGNAL,
        execution_exit(exit, forwarded, response, signal),
    ensures
        !forwarded ==> exit.code == 125 && exit.message@
            == "opp: standard-stream forwarding failed.\n"@,
        forwarded ==> match response {
            Some(ResponseView::Exec { exit_code, diagnostic }) => exit.code == exit_code
                && exit.message@ == match diagnostic {
                Diagnostic::Nothing => ""@,
                Diagnostic::Timeout => "opp: command timed out.\n"@,
                Diagnostic::Internal => "opp: command execution failed.\n"@,
            },
            Some(ResponseView::Error(ErrorCode::AuthorizationRequired)) => exit.code == 77
                && exit.message@ == AUTHORIZATION_REQUIRED@,
            Some(ResponseView::Error(ErrorCode::Cancelled)) => if signal > 0 {
                exit.code == 128 + signal && exit.message@ == ""@
            } else {
                exit.code == 125 && exit.message@ == "opp: command was cancelled.\n"@
            },
            Some(ResponseView::Error(_)) => exit.code == 125 && exit.message@
                == "opp: command execution failed.\n"@,
            _ => exit.code == 125 && exit.message@ == "opp: broker communication failed.\n"@,
        },
{
}

/// What `opp status` writes: a status in JSON and a newline.
pub open spec fn status_line(json: Seq<u8>) -> Seq<u8> {
    json.push(0x0a)
}

/// What `opp status` writes when no broker runs.
pub fn write_status() -> (line: Result<Vec<u8>, Exit>)
    ensures
        line is Ok,
        line->Ok_0@ == status_line(json_object(status_members(stopped_status()))),
        is_read_as(line->Ok_0@.drop_last(), status_members(stopped_status())),
{
    match Status::stopped().json() {
        Some(json) => {
            let mut line = json;
            line.push(0x0a);
            assert(line@.drop_last() =~= json@);
            Ok(line)
        },
        None => Err(lifecycle_error("opp: could not encode status.\n")),
    }
}

/// What `opp status` writes of the broker's answer, or what it leaves with
/// where the answer is no status.
pub fn status(response: Option<Response>) -> (line: Result<Vec<u8>, Exit>)
    ensures
        ({
            &&& response matches Some(response)
            &&& response@ matches ResponseView::Status(json)
            &&& json_members(json) matches Some(members)
            &&& is_status(members)
        }) ==> line is Ok && line->Ok_0@ == status_line(response->0@->Status_0),
        !({
            &&& response matches Some(response)
            &&& response@ matches ResponseView::Status(json)
            &&& json_members(json) matches Some(members)
            &&& is_status(members)
        }) ==> line is Err && line->Err_0.is(1, "opp: status request failed.\n"@),
{
    match response {
        Some(Response::Status(json)) => {
            if !Status::valid_json(json.as_slice()) {
                return Err(lifecycle_error("opp: status request failed.\n"));
            }
            let mut line = json;
            line.push(0x0a);
            Ok(line)
        },
        _ => Err(lifecycle_error("opp: status request failed.\n")),
    }
}

/// What a command that wrote its output leaves with.
pub fn output_exit(written: bool) -> (exit: Exit)
    ensures
        exit.is(
            if written {
                0i32
            } else {
                1i32
            },
            ""@,
        ),
{
    Exit {
        code: if written {
            0
        } else {
            1
        },
        message: "",
    }
}

/// What `opp status` and `opp stop` leave with where they cannot find out
/// where the broker is.
pub fn unknown_runtime() -> (exit: Exit)
    ensures
        exit.is(1, "opp: could not determine the broker runtime path.\n"@),
{
    lifecycle_error("opp: could not determine the broker runtime path.\n")
}

/// What `opp status` does after it tried to reach the broker: ask it, report
/// that none runs, or leave.
#[derive(Debug)]
pub enum StatusDecision {
    Ask,
    ReportStopped,
    Leave(Exit),
}

/// What `opp status` does after it tried to reach the broker.
pub fn status_reached(connected: Connected) -> (decision: StatusDecision)
    ensures
        match connected {
            Connected::Ready => decision is Ask,
            Connected::Absent => decision is ReportStopped,
            Connected::Incompatible => decision matches StatusDecision::Leave(exit) && exit.is(
                1,
                INCOMPATIBLE@,
            ),
            Connected::Failed => decision matches StatusDecision::Leave(exit) && exit.is(
                1,
                "opp: broker communication failed.\n"@,
            ),
        },
        status_code(connected) == (match decision {
            StatusDecision::Leave(exit) => Some(exit.code as int),
            _ => None,
        }),
{
    match connected {
        Connected::Ready => StatusDecision::Ask,
        Connected::Absent => StatusDecision::ReportStopped,
        Connected::Incompatible => StatusDecision::Leave(lifecycle_error(INCOMPATIBLE)),
        Connected::Failed => StatusDecision::Leave(
            lifecycle_error("opp: broker communication failed.\n"),
        ),
    }
}

/// What `opp stop` leaves with when it could not connect. A broker that does
/// not run is stopped.
pub fn stop_unreached(failure: Failure) -> (exit: Exit)
    ensures
        if failure == Failure::NotFound || failure == Failure::ConnectionRefused {
            exit.is(0, ""@)
        } else {
            exit.is(1, "opp: broker communication failed.\n"@)
        },
        exit.code == unreached_stop_code(failure),
{
    if is_absent_socket_error(failure) {
        Exit { code: 0, message: "" }
    } else {
        lifecycle_error("opp: broker communication failed.\n")
    }
}

/// What `opp stop` leaves with, by the answer to its request, if there was one.
pub fn stop(answer: Option<&[u8]>) -> (exit: Exit)
    ensures
        if answer is Some && answer->0@ == stop_response_bytes() {
            exit.is(0, ""@)
        } else {
            exit.is(1, "opp: broker stop failed.\n"@)
        },
        exit.code == stop_code(given(answer)),
{
    match answer {
        Some(bytes) => {
            if same_bytes(bytes, &stop_response()) {
                Exit { code: 0, message: "" }
            } else {
                lifecycle_error("opp: broker stop failed.\n")
            }
        },
        None => lifecycle_error("opp: broker stop failed.\n"),
    }
}

/// The directories in a search path: what stands between its colons.
pub open spec fn directories(path: Seq<u8>) -> Seq<Seq<u8>>
    decreases path.len(),
{
    if path.len() == 0 {
        seq![path]
    } else {
        let before = directories(path.drop_last());
        if path.last() == 0x3a {
            before.push(Seq::empty())
        } else {
            before.drop_last().push(before.last().push(path.last()))
        }
    }
}

/// Byte strings with a colon between each two.
pub open spec fn with_colons(parts: Seq<Seq<u8>>) -> Seq<u8>
    decreases parts.len(),
{
    if parts.len() == 0 {
        Seq::empty()
    } else if parts.len() == 1 {
        parts[0]
    } else {
        with_colons(parts.drop_last()).push(0x3a) + parts.last()
    }
}

/// The directories of a search path hold no colon, and make up the path with
/// colons between them.
pub proof fn directories_make_up_the_path(path: Seq<u8>)
    ensures
        directories(path).len() > 0,
        forall|i: int|
            0 <= i < directories(path).len() ==> !(#[trigger] directories(path)[i]).contains(0x3a),
        with_colons(directories(path)) == path,
    decreases path.len(),
{
    let parts = directories(path);
    if path.len() > 0 {
        let rest = path.drop_last();
        directories_make_up_the_path(rest);
        let before = directories(rest);
        if path.last() == 0x3a {
            assert(parts.drop_last() =~= before);
            assert(with_colons(parts) =~= path);
        } else {
            let last = before.last().push(path.last());
            assert(parts.drop_last() =~= before.drop_last());
            assert(parts.last() == last);
            assert forall|i: int| 0 <= i < parts.len() implies !(#[trigger] parts[i]).contains(
                0x3a,
            ) by {
                if i < before.len() - 1 {
                    assert(parts[i] == before[i]);
                } else {
                    assert(!before[before.len() - 1].contains(0x3a));
                    assert forall|j: int| 0 <= j < last.len() implies last[j] != 0x3a by {
                        if j < before.last().len() {
                            assert(before.last()[j] == last[j]);
                        }
                    }
                }
            }
            assert(path =~= rest.push(path.last()));
            assert(with_colons(before) == rest);
            if before.len() > 1 {
                assert(with_colons(parts) =~= with_colons(before).push(path.last()));
            }
        }
    } else {
        assert(parts.len() == 1);
    }
}

/// The paths at which a search path is searched for a program.
pub open spec fn candidates(path: Seq<u8>, name: Seq<u8>) -> Seq<Seq<u8>> {
    directories(path).map_values(|directory: Seq<u8>| path_below(directory, name))
}

/// The paths at which a search path is searched for a program, in their order.
pub fn path_candidates(path: &[u8], name: &[u8]) -> (paths: Vec<Vec<u8>>)
    ensures
        byte_lists(paths@) == candidates(path@, name@),
{
    let mut paths: Vec<Vec<u8>> = Vec::new();
    let mut directory: Vec<u8> = Vec::new();
    let mut index: usize = 0;
    proof {
        assert(path@.take(0) =~= Seq::empty());
        assert(directory@ =~= directories(path@.take(0)).last());
        assert(byte_lists(paths@) =~= candidates(path@.take(0), name@).drop_last());
    }
    while index < path.len()
        invariant
            index <= path.len(),
            directories(path@.take(index as int)).len() > 0,
            directory@ == directories(path@.take(index as int)).last(),
            byte_lists(paths@) == candidates(path@.take(index as int), name@).drop_last(),
        decreases path.len() - index,
    {
        let ghost so_far = path@.take(index as int);
        let ghost next = path@.take(index + 1);
        let ghost before = paths@;
        proof {
            assert(next.drop_last() =~= so_far);
            assert(next.last() == path@[index as int]);
        }
        if path[index] == 0x3a {
            let candidate = join_path(directory.as_slice(), name);
            paths.push(candidate);
            directory = Vec::new();
            proof {
                assert(byte_lists(paths@) =~= byte_lists(before).push(candidate@));
                assert(candidates(next, name@).drop_last() =~= candidates(so_far, name@));
                assert(candidates(so_far, name@) =~= candidates(so_far, name@).drop_last().push(
                    candidate@,
                ));
                assert(directory@ =~= Seq::empty());
            }
        } else {
            directory.push(path[index]);
            proof {
                assert(candidates(next, name@).drop_last() =~= candidates(
                    so_far,
                    name@,
                ).drop_last());
            }
        }
        index = index + 1;
    }
    let ghost before = paths@;
    let candidate = join_path(directory.as_slice(), name);
    paths.push(candidate);
    proof {
        assert(path@.take(path@.len() as int) =~= path@);
        assert(byte_lists(paths@) =~= byte_lists(before).push(candidate@));
        assert(candidates(path@, name@) =~= candidates(path@, name@).drop_last().push(candidate@));
    }
    paths
}

/// Whether a file is a program: a regular file, by its first part, that
/// someone may execute, by its mode.
pub open spec fn is_program(file: (bool, u32)) -> bool {
    file.0 && file.1 & 0o111 != 0
}

/// Whether a file is a program: a regular file that someone may execute.
pub fn is_executable(is_file: bool, mode: u32) -> (executable: bool)
    ensures
        executable == is_program((is_file, mode)),
        executable == (is_file && mode & 0o111 != 0),
{
    is_file && mode & 0o111 != 0
}

/// A file is a program, and none before it is.
pub open spec fn first_at(files: Seq<(bool, u32)>, index: int) -> bool {
    &&& 0 <= index < files.len()
    &&& is_program(files[index])
    &&& forall|i: int| 0 <= i < index ==> !is_program(#[trigger] files[i])
}

/// None of the files is a program.
pub open spec fn no_program(files: Seq<(bool, u32)>) -> bool {
    forall|i: int| 0 <= i < files.len() ==> !is_program(#[trigger] files[i])
}

/// Which of the files is the first program, if one is a program.
pub open spec fn first_program(files: Seq<(bool, u32)>) -> Option<int> {
    if exists|index: int| first_at(files, index) {
        Some(choose|index: int| first_at(files, index))
    } else {
        None
    }
}

/// There is a first program exactly where there is a program, and only one.
pub proof fn lemma_first_program(files: Seq<(bool, u32)>)
    ensures
        first_program(files) is None <==> no_program(files),
        forall|index: int| #[trigger]
            first_at(files, index) <==> first_program(files) == Some(index),
{
    assert forall|index: int, other: int| #[trigger]
        first_at(files, index) && #[trigger] first_at(files, other) implies index == other by {
        if index < other {
            assert(!is_program(files[index]));
        } else if other < index {
            assert(!is_program(files[other]));
        }
    }
    if !no_program(files) {
        let index = choose|index: int|
            0 <= index < files.len() && is_program(#[trigger] files[index]);
        lemma_some_first(files, index);
    }
}

proof fn lemma_some_first(files: Seq<(bool, u32)>, index: int)
    requires
        0 <= index < files.len(),
        is_program(files[index]),
    ensures
        exists|first: int| first_at(files, first),
    decreases index,
{
    if !first_at(files, index) {
        let before = choose|i: int| 0 <= i < index && is_program(#[trigger] files[i]);
        lemma_some_first(files, before);
    }
}

/// Which of the files is the first program. A file that cannot be looked at
/// stands there as no regular file.
pub fn first_executable(files: &Vec<(bool, u32)>) -> (index: Option<usize>)
    ensures
        match index {
            Some(index) => first_at(files@, index as int),
            None => no_program(files@),
        },
        first_program(files@) == (match index {
            Some(index) => Some(index as int),
            None => None,
        }),
{
    proof {
        lemma_first_program(files@);
    }
    let mut index: usize = 0;
    while index < files.len()
        invariant
            index <= files.len(),
            first_program(files@) is None <==> no_program(files@),
            forall|index: int| #[trigger]
                first_at(files@, index) <==> first_program(files@) == Some(index),
            forall|i: int| 0 <= i < index ==> !is_program(#[trigger] files@[i]),
        decreases files.len() - index,
    {
        if is_executable(files[index].0, files[index].1) {
            return Some(index);
        }
        index = index + 1;
    }
    None
}

/// What a search of the search path does next: look at a file, take one, or
/// give up.
#[derive(Debug, PartialEq, Eq)]
pub enum Search {
    Examine(Vec<u8>),
    Found(Vec<u8>),
    Missing(&'static str),
}

/// What a step of a search holds.
pub enum SearchView {
    Examine(Seq<u8>),
    Found(Seq<u8>),
    Missing(Seq<char>),
}

impl View for Search {
    type V = SearchView;

    open spec fn view(&self) -> SearchView {
        match *self {
            Search::Examine(path) => SearchView::Examine(path@),
            Search::Found(path) => SearchView::Found(path@),
            Search::Missing(message) => SearchView::Missing(message@),
        }
    }
}

/// What a search for a program does when the first of its candidates have been
/// looked at: it takes the first one that is a program, looks at the next one
/// if none is, and gives up when there is none left, or no search path.
pub open spec fn searched(
    path: Option<Seq<u8>>,
    name: Seq<u8>,
    examined: Seq<(bool, u32)>,
) -> SearchView {
    match path {
        None => SearchView::Missing("PATH is not set"@),
        Some(path) => match first_program(examined) {
            Some(index) => SearchView::Found(candidates(path, name)[index]),
            None => if examined.len() < candidates(path, name).len() {
                SearchView::Examine(candidates(path, name)[examined.len() as int])
            } else {
                SearchView::Missing("op not found"@)
            },
        },
    }
}

/// The value of an optional byte string.
pub open spec fn given(value: Option<&[u8]>) -> Option<Seq<u8>> {
    match value {
        Some(bytes) => Some(bytes@),
        None => None,
    }
}

/// Searches the search path for a program, by what was found at the first of
/// its candidates.
pub fn find_in_path(path: Option<&[u8]>, name: &[u8], examined: &Vec<(bool, u32)>) -> (step: Search)
    requires
        path matches Some(path) ==> examined@.len() <= candidates(path@, name@).len(),
    ensures
        step@ == searched(given(path), name@, examined@),
{
    let path = match path {
        Some(path) => path,
        None => return Search::Missing("PATH is not set"),
    };
    let paths = path_candidates(path, name);
    assert(byte_lists(paths@).len() == paths@.len());
    match first_executable(examined) {
        Some(index) => {
            assert(byte_lists(paths@)[index as int] == paths@[index as int]@);
            Search::Found(copy_bytes(paths[index].as_slice()))
        },
        None => {
            if examined.len() < paths.len() {
                assert(byte_lists(paths@)[examined@.len() as int] == paths@[examined@.len() as int]@);
                Search::Examine(copy_bytes(paths[examined.len()].as_slice()))
            } else {
                Search::Missing("op not found")
            }
        },
    }
}

/// A search that looks at one candidate after another, where `files` says what
/// all of them are, comes to take the first program among them, and gives up
/// only if there is none.
pub proof fn search_takes_the_first_program(
    path: Seq<u8>,
    name: Seq<u8>,
    files: Seq<(bool, u32)>,
    count: int,
)
    requires
        files.len() == candidates(path, name).len(),
        0 <= count <= files.len(),
    ensures
        searched(Some(path), name, files.take(count)) == (match first_program(files) {
            Some(index) if index < count => SearchView::Found(candidates(path, name)[index]),
            _ => if count < files.len() {
                SearchView::Examine(candidates(path, name)[count])
            } else {
                SearchView::Missing("op not found"@)
            },
        }),
        first_program(files) is None <==> no_program(files),
        first_program(files) matches Some(index) ==> first_at(files, index),
{
    let examined = files.take(count);
    lemma_first_program(files);
    lemma_first_program(examined);
    if let Some(index) = first_program(examined) {
        assert(first_at(examined, index));
        assert forall|i: int| 0 <= i < index implies !is_program(#[trigger] files[i]) by {
            assert(!is_program(examined[i]));
        }
        assert(first_at(files, index));
    } else if let Some(index) = first_program(files) {
        assert(first_at(files, index));
        if index < count {
            assert(!is_program(examined[index]));
        }
    }
}

/// An absolute path.
pub open spec fn absolute(path: Seq<u8>) -> bool {
    path.len() > 0 && path[0] == 0x2f
}

/// Checks the path of `op` that the user gave.
pub fn explicit_op(path: &[u8]) -> (result: Result<(), &'static str>)
    ensures
        result is Ok <==> absolute(path@),
        result matches Err(message) ==> message@ == "explicit op path is not absolute"@,
{
    if path.len() > 0 && path[0] == 0x2f {
        Ok(())
    } else {
        Err("explicit op path is not absolute")
    }
}

/// What a path leads to: the path without symbolic links, and the file there.
#[derive(Debug)]
pub struct Target {
    pub canonical: Vec<u8>,
    pub is_file: bool,
    pub mode: u32,
}

/// What finding `op` does next: look at a file, follow a path to what it leads
/// to, or end, with the path of `op` or without.
#[derive(Debug, PartialEq, Eq)]
pub enum OpStep {
    Examine(Vec<u8>),
    Follow(Vec<u8>),
    Resolved(String),
    Refused(&'static str),
}

/// What a step of finding `op` holds.
pub enum OpStepView {
    Examine(Seq<u8>),
    Follow(Seq<u8>),
    Resolved(Seq<char>),
    Refused(Seq<char>),
}

impl View for OpStep {
    type V = OpStepView;

    open spec fn view(&self) -> OpStepView {
        match *self {
            OpStep::Examine(path) => OpStepView::Examine(path@),
            OpStep::Follow(path) => OpStepView::Follow(path@),
            OpStep::Resolved(text) => OpStepView::Resolved(text@),
            OpStep::Refused(message) => OpStepView::Refused(message@),
        }
    }
}

/// What becomes of a path at which `op` is to be: it is followed, and what it
/// leads to must be a program with a path in UTF-8.
pub open spec fn followed(path: Seq<u8>, target: Option<Target>) -> OpStepView {
    match target {
        None => OpStepView::Follow(path),
        Some(target) => if !is_program((target.is_file, target.mode)) {
            OpStepView::Refused("op is not a regular executable"@)
        } else if !valid_utf8(target.canonical@) {
            OpStepView::Refused("op path is not UTF-8"@)
        } else {
            OpStepView::Resolved(decode_utf8(target.canonical@))
        },
    }
}

/// What finding `op` does next. A path that the user gave must be absolute;
/// without one, the first program of that name on the search path is taken.
pub open spec fn op_step(
    explicit: Option<Seq<u8>>,
    path: Option<Seq<u8>>,
    examined: Seq<(bool, u32)>,
    target: Option<Target>,
) -> OpStepView {
    match explicit {
        Some(explicit) => if absolute(explicit) {
            followed(explicit, target)
        } else {
            OpStepView::Refused("explicit op path is not absolute"@)
        },
        None => match searched(path, encode_utf8("op"@), examined) {
            SearchView::Examine(candidate) => OpStepView::Examine(candidate),
            SearchView::Missing(message) => OpStepView::Refused(message),
            SearchView::Found(found) => followed(found, target),
        },
    }
}

/// Finds the path of `op` that the broker is started with, by the path that
/// the user gave, the search path, what was found at the first of its
/// candidates, and what the path leads to once it was followed.
pub fn resolve_op(
    explicit: Option<&[u8]>,
    path: Option<&[u8]>,
    examined: &Vec<(bool, u32)>,
    target: Option<Target>,
) -> (step: OpStep)
    requires
        explicit is None && path is Some ==> examined@.len() <= candidates(
            path->0@,
            encode_utf8("op"@),
        ).len(),
    ensures
        step@ == op_step(given(explicit), given(path), examined@, target),
{
    let located = match explicit {
        Some(explicit) => match explicit_op(explicit) {
            Ok(()) => copy_bytes(explicit),
            Err(message) => return OpStep::Refused(message),
        },
        None => match find_in_path(path, "op".as_bytes(), examined) {
            Search::Examine(candidate) => return OpStep::Examine(candidate),
            Search::Missing(message) => return OpStep::Refused(message),
            Search::Found(found) => found,
        },
    };
    match target {
        None => OpStep::Follow(located),
        Some(target) => {
            if !is_executable(target.is_file, target.mode) {
                return OpStep::Refused("op is not a regular executable");
            }
            match utf8_text(target.canonical) {
                Some(text) => OpStep::Resolved(text),
                None => OpStep::Refused("op path is not UTF-8"),
            }
        },
    }
}

/// A program that is found and whose canonical path is UTF-8 is taken, from the
/// path that the user gave if that is absolute, and otherwise from the search
/// path. Everything else ends without `op`, or goes on looking for it.
pub proof fn found_program_is_taken(
    explicit: Option<Seq<u8>>,
    path: Option<Seq<u8>>,
    examined: Seq<(bool, u32)>,
    target: Target,
)
    requires
        match explicit {
            Some(given) => given.len() > 0 && given[0] == 0x2f,
            None => path is Some && exists|index: int| first_at(examined, index),
        },
    ensures
        ({
            let step = op_step(explicit, path, examined, Some(target));
            if target.is_file && target.mode & 0o111 != 0 && valid_utf8(target.canonical@) {
                step == OpStepView::Resolved(decode_utf8(target.canonical@))
            } else {
                step is Refused
            }
        }),
{
    lemma_first_program(examined);
}

/// Without a path that is absolute, or without a search path, nothing is
/// looked at.
pub proof fn nothing_is_looked_at_without_a_path(
    explicit: Option<Seq<u8>>,
    path: Option<Seq<u8>>,
    examined: Seq<(bool, u32)>,
    target: Option<Target>,
)
    ensures
        explicit matches Some(given) ==> (given.len() == 0 || given[0] != 0x2f ==> op_step(
            explicit,
            path,
            examined,
            target,
        ) is Refused),
        explicit is None && path is None ==> op_step(explicit, path, examined, target) is Refused,
{
}

/// A search looks below every directory of the search path, in their order.
pub proof fn candidates_follow_the_directories(path: Seq<u8>, name: Seq<u8>, index: int)
    requires
        0 <= index < directories(path).len(),
        name.len() > 0,
        name[0] != 0x2f,
    ensures
        candidates(path, name).len() == directories(path).len(),
        ({
            let directory = directories(path)[index];
            candidates(path, name)[index] == if directory.len() == 0 || directory.last() == 0x2f {
                directory + name
            } else {
                directory + seq![0x2fu8] + name
            }
        }),
{
    let directory = directories(path)[index];
    assert(directory.push(0x2f) =~= directory + seq![0x2fu8]);
}

/// The path of `op` that is found is the canonical path, in UTF-8, of a
/// program. It was reached from the absolute path that the user gave, or else
/// from the first candidate on the search path that is a program.
pub proof fn resolved_op_is_a_program(
    explicit: Option<Seq<u8>>,
    path: Option<Seq<u8>>,
    examined: Seq<(bool, u32)>,
    target: Option<Target>,
)
    requires
        op_step(explicit, path, examined, target) is Resolved,
    ensures
        target is Some,
        is_program((target->0.is_file, target->0.mode)),
        encode_utf8(op_step(explicit, path, examined, target)->Resolved_0)
            == target->0.canonical@,
        match explicit {
            Some(explicit) => {
                &&& absolute(explicit)
                &&& op_step(Some(explicit), path, examined, None) == OpStepView::Follow(explicit)
            },
            None => {
                &&& path is Some
                &&& first_program(examined) matches Some(index) && first_at(examined, index)
                    && op_step(None, path, examined, None) == OpStepView::Follow(
                    candidates(path->0, encode_utf8("op"@))[index],
                )
            },
        },
{
    vstd::utf8::decode_utf8_encode_utf8(target->0.canonical@);
    lemma_first_program(examined);
}

/// What an attempt to reach the broker came to.
pub open spec fn reached_as(connection: Option<Failure>, negotiation: Option<Failure>) -> Connected {
    if connection == Some(Failure::NotFound) || connection == Some(Failure::ConnectionRefused) {
        Connected::Absent
    } else if connection == Some(Failure::Unsupported) || connection is None && negotiation == Some(
        Failure::Unsupported,
    ) {
        Connected::Incompatible
    } else if connection is None && negotiation is None {
        Connected::Ready
    } else {
        Connected::Failed
    }
}

/// A broker is taken to be absent only where there is no socket, or nobody
/// listens on it, and is used only where both the connection and the
/// negotiation on it succeeded. One of another version is told apart.
pub proof fn brokers_are_told_apart(connection: Option<Failure>, negotiation: Option<Failure>)
    ensures
        ({
            let connected = reached_as(connection, negotiation);
            &&& connected is Absent <==> connection == Some(Failure::NotFound) || connection
                == Some(Failure::ConnectionRefused)
            &&& connected is Ready <==> connection is None && negotiation is None
            &&& connected is Incompatible <==> connection == Some(Failure::Unsupported)
                || connection is None && negotiation == Some(Failure::Unsupported)
        }),
{
}

/// What waiting for a broker does after an attempt to reach it.
pub open spec fn awaited_as(connected: Connected, began: u64, now: u64) -> Awaited {
    match connected {
        Connected::Ready => Awaited::Ready,
        Connected::Incompatible => Awaited::Incompatible,
        Connected::Failed => Awaited::Failed,
        Connected::Absent => if now - began < STARTUP_WAIT {
            Awaited::Retry
        } else {
            Awaited::TimedOut
        },
    }
}

/// A broker that is not there yet is waited for for five seconds, and no
/// longer. Whatever else an attempt finds ends the wait at once.
pub proof fn brokers_are_waited_for(connected: Connected, began: u64, now: u64)
    ensures
        awaited_as(connected, began, now) is Retry <==> connected is Absent && now < began
            + 5_000_000_000,
        awaited_as(connected, began, now) is TimedOut <==> connected is Absent && now >= began
            + 5_000_000_000,
        awaited_as(connected, began, now) is Ready <==> connected is Ready,
        awaited_as(connected, began, now) is Incompatible <==> connected is Incompatible,
{
}

/// What follows a new broker's report, or its silence.
pub open spec fn spawned_as(report: Option<StartupResult>) -> Spawned {
    match report {
        Some(StartupResult::Ready) => Spawned::Done,
        Some(StartupResult::Existing) => Spawned::AwaitExisting,
        _ => Spawned::Failed,
    }
}

/// A new broker is up only where it says so, and another one is waited for only
/// where the new one says that it was first.
pub proof fn reports_are_believed(report: Option<StartupResult>)
    ensures
        spawned_as(report) is Done <==> report == Some(StartupResult::Ready),
        spawned_as(report) is AwaitExisting <==> report == Some(StartupResult::Existing),
{
}

/// The exit code of `opp status` where it does not go on.
pub open spec fn status_code(connected: Connected) -> Option<int> {
    if connected is Incompatible || connected is Failed {
        Some(1)
    } else {
        None
    }
}

/// The exit code of `opp stop` where there was no connection.
pub open spec fn unreached_stop_code(failure: Failure) -> int {
    match failure {
        Failure::NotFound => 0,
        Failure::ConnectionRefused => 0,
        _ => 1,
    }
}

/// The exit code of `opp stop`, by what it was answered.
pub open spec fn stop_code(answer: Option<Seq<u8>>) -> int {
    if answer == Some(stop_response_bytes()) {
        0
    } else {
        1
    }
}

/// `opp stop` succeeds exactly where there was no broker to stop, or the broker
/// answered that it has stopped. `opp status` fails exactly where there is a
/// broker that it cannot ask.
pub proof fn stop_and_status_tell_success(
    failure: Failure,
    answer: Option<Seq<u8>>,
    connected: Connected,
)
    ensures
        unreached_stop_code(failure) == 0 <==> failure is NotFound || failure is ConnectionRefused,
        stop_code(answer) == 0 <==> answer is Some && answer->0 == seq![
            0x4fu8,
            0x50u8,
            0x50u8,
            0x53u8,
            0x54u8,
            0x4fu8,
            0x50u8,
            1u8,
        ],
        unreached_stop_code(failure) == 0 || unreached_stop_code(failure) == 1,
        stop_code(answer) == 0 || stop_code(answer) == 1,
        status_code(connected) is None <==> connected is Ready || connected is Absent,
        status_code(connected) is Some ==> status_code(connected) == Some(1int),
{
}

/// The texts that users and agents rely on, and the exit codes that go with
/// them.
pub proof fn texts_are_fixed()
    ensures
        WARNING@ == "opp: warning: the broker gives every process that can reach its socket the full authorized 1Password CLI authority for every account added to it, including same-user command execution through 'op run'.\n"@,
        AUTHORIZATION_REQUIRED@ == "opp: the selected 1Password account requires authorization. Stop and inform the user. Wait for the user to run 'opp start' with the same account selection and confirm completion. Do not retry or run 'opp start' yourself.\n"@,
        INCOMPATIBLE@ == "opp: incompatible broker protocol; run 'opp stop' and restart the broker.\n"@,
        AUTHORIZATION_EXIT == 77,
        FAILURE_EXIT == 125,
{
}

/// A path that may be missing, the steps of a search, and those of finding `op`
/// are seen whole.
pub proof fn searches_are_seen_whole(path: Option<&[u8]>, search: Search, step: OpStep)
    ensures
        given(path) is Some <==> path is Some,
        path matches Some(bytes) ==> given(path) == Some(bytes@),
        search matches Search::Examine(path) ==> search@ == SearchView::Examine(path@),
        search matches Search::Found(path) ==> search@ == SearchView::Found(path@),
        search matches Search::Missing(message) ==> search@ == SearchView::Missing(message@),
        step matches OpStep::Examine(path) ==> step@ == OpStepView::Examine(path@),
        step matches OpStep::Follow(path) ==> step@ == OpStepView::Follow(path@),
        step matches OpStep::Resolved(text) ==> step@ == OpStepView::Resolved(text@),
        step matches OpStep::Refused(message) ==> step@ == OpStepView::Refused(message@),
{
}

} // verus!
