//! How the broker process comes up, accepts connections and goes down.
use crate::bytes::{
    be_bytes, be_value, copy_bytes, lemma_be_canonical, lemma_be_length, lemma_be_round_trip,
    lemma_capacities, push_be, read_be, same_bytes, utf8_text,
};
use crate::codec::MAX_PAYLOAD;
use vstd::prelude::*;
use vstd::utf8::{decode_utf8, encode_utf8, valid_utf8};

verus! {

/// The broker is ready.
pub const STARTUP_READY: u8 = 1;

/// Another broker runs.
pub const STARTUP_EXISTS: u8 = 2;

/// The broker could not start.
pub const STARTUP_ERROR: u8 = 3;

/// The most connections that are served at a time.
pub const MAX_CONNECTIONS: usize = 64;

/// What a new broker reports to the client that started it.
#[derive(Clone, Copy, Debug, PartialEq, Eq, Structural)]
pub enum StartupResult {
    Ready,
    Existing,
    Failed,
}

/// The bytes in front of a broker's configuration.
pub open spec fn startup_magic() -> Seq<u8> {
    seq![0x4fu8, 0x50u8, 0x50u8, 0x43u8, 0x46u8, 0x47u8, 0x31u8, 0u8]
}

/// A broker's configuration: the path of `op`, behind its length.
pub open spec fn configuration_bytes(op_path: Seq<char>) -> Seq<u8> {
    startup_magic() + be_bytes(encode_utf8(op_path).len(), 4) + encode_utf8(op_path)
}

/// The bytes in front of a broker's configuration.
fn magic() -> (bytes: [u8; 8])
    ensures
        bytes@ == startup_magic(),
{
    let bytes: [u8; 8] = [0x4f, 0x50, 0x50, 0x43, 0x46, 0x47, 0x31, 0];
    assert(bytes@ =~= startup_magic());
    bytes
}

/// The configuration that a client sends to the broker that it starts.
pub fn write_startup_configuration(op_path: &str) -> (configuration: Result<
    Vec<u8>,
    &'static str,
>)
    ensures
        if encode_utf8(op_path@).len() > u32::MAX {
            configuration matches Err(message) && message@ == "op path is too long"@
        } else {
            configuration matches Ok(bytes) && bytes@ == configuration_bytes(op_path@)
        },
{
    let path = op_path.as_bytes();
    if path.len() > 0xffff_ffff {
        return Err("op path is too long");
    }
    let mut bytes = copy_bytes(&magic());
    push_be(&mut bytes, path.len() as u64, 4);
    bytes.extend_from_slice(path);
    assert(bytes@ =~= configuration_bytes(op_path@));
    Ok(bytes)
}

/// Checks the first eight bytes of a configuration.
pub fn check_startup_magic(bytes: &[u8]) -> (result: Result<(), &'static str>)
    ensures
        result is Ok <==> bytes@ == startup_magic(),
        result is Ok <==> is_mark(bytes@),
        result matches Err(message) ==> message@ == "invalid broker startup configuration"@,
{
    if same_bytes(bytes, &magic()) {
        Ok(())
    } else {
        Err("invalid broker startup configuration")
    }
}

/// The length of the path that the next four bytes of a configuration give.
pub fn read_startup_length(bytes: &[u8]) -> (length: Result<usize, &'static str>)
    requires
        bytes@.len() == 4,
    ensures
        if 0 < be_value(bytes@) <= MAX_PAYLOAD {
            length matches Ok(length) && length == be_value(bytes@)
        } else {
            length matches Err(message) && message@ == "invalid broker op path length"@
        },
        length_of_path(bytes@) == (match length {
            Ok(length) => Some(length as int),
            Err(_) => None,
        }),
{
    let length = read_be(bytes);
    if length == 0 || length > MAX_PAYLOAD as u64 {
        return Err("invalid broker op path length");
    }
    Ok(length as usize)
}

/// The path at the end of a configuration.
pub fn read_startup_path(path: Vec<u8>) -> (op_path: Result<String, &'static str>)
    ensures
        if valid_utf8(path@) {
            op_path matches Ok(text) && text@ == decode_utf8(path@)
        } else {
            op_path matches Err(message) && message@ == "invalid broker op path"@
        },
        path_in(path@) == (match op_path {
            Ok(text) => Some(text@),
            Err(_) => None,
        }),
{
    match utf8_text(path) {
        Some(text) => Ok(text),
        None => Err("invalid broker op path"),
    }
}

/// The broker reads the path that the client wrote: its three parts are what
/// the broker looks for, and the last one gives back the path.
pub proof fn configuration_is_read_back(op_path: Seq<char>)
    requires
        0 < encode_utf8(op_path).len() <= MAX_PAYLOAD,
    ensures
        ({
            let bytes = configuration_bytes(op_path);
            let length = encode_utf8(op_path).len();
            &&& bytes.len() == 12 + length
            &&& bytes.subrange(0, 8) == startup_magic()
            &&& be_value(bytes.subrange(8, 12)) == length
            &&& valid_utf8(bytes.skip(12))
            &&& decode_utf8(bytes.skip(12)) == op_path
        }),
{
    lemma_capacities();
    let path = encode_utf8(op_path);
    lemma_be_length(path.len(), 4);
    lemma_be_round_trip(path.len(), 4);
    let bytes = configuration_bytes(op_path);
    assert(bytes.subrange(0, 8) =~= startup_magic());
    assert(bytes.subrange(8, 12) =~= be_bytes(path.len(), 4));
    assert(bytes.skip(12) =~= path);
    vstd::utf8::encode_utf8_valid_utf8(op_path);
    vstd::utf8::encode_utf8_decode_utf8(op_path);
}

/// What a new broker reports, by the byte that it sends.
pub fn read_startup_result(value: u8) -> (result: Result<StartupResult, &'static str>)
    ensures
        match result {
            Ok(StartupResult::Ready) => value == STARTUP_READY,
            Ok(StartupResult::Existing) => value == STARTUP_EXISTS,
            Ok(StartupResult::Failed) => value == STARTUP_ERROR,
            Err(message) => (value == 0 || value > 3) && message@
                == "invalid broker startup response"@,
        },
        reported_as(value) == (match result {
            Ok(reported) => Some(reported),
            Err(_) => None,
        }),
{
    if value == STARTUP_READY {
        Ok(StartupResult::Ready)
    } else if value == STARTUP_EXISTS {
        Ok(StartupResult::Existing)
    } else if value == STARTUP_ERROR {
        Ok(StartupResult::Failed)
    } else {
        Err("invalid broker startup response")
    }
}

/// The steps in which a broker comes up, in their order.
#[derive(Clone, Copy, Debug, PartialEq, Eq, Structural)]
pub enum StartupStage {
    PrepareProcess,
    ReadConfiguration,
    LoadUser,
    LoadPaths,
    PrepareDirectory,
    AcquireLock,
    AcquireTerminal,
    RemoveStaleSocket,
    BindSocket,
    ProtectSocket,
    UnblockSocket,
    StartExecutor,
    ReportReady,
}

/// What a step of coming up came to. The lock may be held by another broker.
#[derive(Clone, Copy, Debug, PartialEq, Eq, Structural)]
pub enum StageOutcome {
    Succeeded,
    Held,
    Failed,
}

/// What follows a step of coming up: the next step, serving connections, or
/// leaving, with a report to the client or without. Leaving because another
/// broker runs is a success if the report can be made.
#[derive(Clone, Copy, Debug, PartialEq, Eq, Structural)]
pub enum StartupDecision {
    Next(StartupStage),
    Serve,
    LeaveSilently,
    LeaveWithError,
    LeaveToExisting,
}

/// The step after a step of coming up.
pub open spec fn following(stage: StartupStage) -> StartupDecision {
    match stage {
        StartupStage::PrepareProcess => StartupDecision::Next(StartupStage::ReadConfiguration),
        StartupStage::ReadConfiguration => StartupDecision::Next(StartupStage::LoadUser),
        StartupStage::LoadUser => StartupDecision::Next(StartupStage::LoadPaths),
        StartupStage::LoadPaths => StartupDecision::Next(StartupStage::PrepareDirectory),
        StartupStage::PrepareDirectory => StartupDecision::Next(StartupStage::AcquireLock),
        StartupStage::AcquireLock => StartupDecision::Next(StartupStage::AcquireTerminal),
        StartupStage::AcquireTerminal => StartupDecision::Next(StartupStage::RemoveStaleSocket),
        StartupStage::RemoveStaleSocket => StartupDecision::Next(StartupStage::BindSocket),
        StartupStage::BindSocket => StartupDecision::Next(StartupStage::ProtectSocket),
        StartupStage::ProtectSocket => StartupDecision::Next(StartupStage::UnblockSocket),
        StartupStage::UnblockSocket => StartupDecision::Next(StartupStage::StartExecutor),
        StartupStage::StartExecutor => StartupDecision::Next(StartupStage::ReportReady),
        StartupStage::ReportReady => StartupDecision::Serve,
    }
}

/// The steps whose failure the client is told of.
pub open spec fn reports_failure(stage: StartupStage) -> bool {
    ||| stage == StartupStage::AcquireLock
    ||| stage == StartupStage::AcquireTerminal
    ||| stage == StartupStage::RemoveStaleSocket
    ||| stage == StartupStage::BindSocket
}

/// What follows a step of coming up.
pub open spec fn startup_decision(stage: StartupStage, outcome: StageOutcome) -> StartupDecision {
    match outcome {
        StageOutcome::Succeeded => following(stage),
        StageOutcome::Held if stage == StartupStage::AcquireLock => {
            StartupDecision::LeaveToExisting
        },
        _ => if reports_failure(stage) {
            StartupDecision::LeaveWithError
        } else {
            StartupDecision::LeaveSilently
        },
    }
}

/// What follows a step of coming up.
pub fn startup_step(stage: StartupStage, outcome: StageOutcome) -> (decision: StartupDecision)
    ensures
        decision == startup_decision(stage, outcome),
{
    match outcome {
        StageOutcome::Succeeded => match stage {
            StartupStage::PrepareProcess => StartupDecision::Next(StartupStage::ReadConfiguration),
            StartupStage::ReadConfiguration => StartupDecision::Next(StartupStage::LoadUser),
            StartupStage::LoadUser => StartupDecision::Next(StartupStage::LoadPaths),
            StartupStage::LoadPaths => StartupDecision::Next(StartupStage::PrepareDirectory),
            StartupStage::PrepareDirectory => StartupDecision::Next(StartupStage::AcquireLock),
            StartupStage::AcquireLock => StartupDecision::Next(StartupStage::AcquireTerminal),
            StartupStage::AcquireTerminal => {
                StartupDecision::Next(StartupStage::RemoveStaleSocket)
            },
            StartupStage::RemoveStaleSocket => StartupDecision::Next(StartupStage::BindSocket),
            StartupStage::BindSocket => StartupDecision::Next(StartupStage::ProtectSocket),
            StartupStage::ProtectSocket => StartupDecision::Next(StartupStage::UnblockSocket),
            StartupStage::UnblockSocket => StartupDecision::Next(StartupStage::StartExecutor),
            StartupStage::StartExecutor => StartupDecision::Next(StartupStage::ReportReady),
            StartupStage::ReportReady => StartupDecision::Serve,
        },
        _ => {
            if outcome == StageOutcome::Held && stage == StartupStage::AcquireLock {
                return StartupDecision::LeaveToExisting;
            }
            match stage {
                StartupStage::AcquireLock => StartupDecision::LeaveWithError,
                StartupStage::AcquireTerminal => StartupDecision::LeaveWithError,
                StartupStage::RemoveStaleSocket => StartupDecision::LeaveWithError,
                StartupStage::BindSocket => StartupDecision::LeaveWithError,
                _ => StartupDecision::LeaveSilently,
            }
        },
    }
}

/// What a lock that could not be taken shows: another broker holds it if
/// taking it would have had to wait.
pub fn lock_outcome(would_block: bool) -> (outcome: StageOutcome)
    ensures
        outcome == if would_block {
            StageOutcome::Held
        } else {
            StageOutcome::Failed
        },
{
    if would_block {
        StageOutcome::Held
    } else {
        StageOutcome::Failed
    }
}

/// The exit code of the broker process.
pub fn run_internal(succeeded: bool) -> (code: i32)
    ensures
        code == if succeeded {
            0i32
        } else {
            1i32
        },
{
    if succeeded {
        0
    } else {
        1
    }
}

/// What an attempt to accept a connection came to.
#[derive(Clone, Copy, Debug, PartialEq, Eq, Structural)]
pub enum Accepted {
    Connection,
    WouldBlock,
    Failed,
}

/// What the broker does with it: serve the connection, close it at once, try
/// again a little later, or stop.
#[derive(Clone, Copy, Debug, PartialEq, Eq, Structural)]
pub enum AcceptAction {
    Serve,
    Refuse,
    Pause,
    Abort,
}

/// What the broker does after an attempt to accept a connection, while it
/// serves `active` others.
pub fn accept_step(accepted: Accepted, active: usize) -> (action: AcceptAction)
    ensures
        action == (match accepted {
            Accepted::Connection => if active >= MAX_CONNECTIONS {
                AcceptAction::Refuse
            } else {
                AcceptAction::Serve
            },
            Accepted::WouldBlock => AcceptAction::Pause,
            Accepted::Failed => AcceptAction::Abort,
        }),
        action == accepted_as(accepted, active),
{
    match accepted {
        Accepted::Connection => {
            if active >= MAX_CONNECTIONS {
                AcceptAction::Refuse
            } else {
                AcceptAction::Serve
            }
        },
        Accepted::WouldBlock => AcceptAction::Pause,
        Accepted::Failed => AcceptAction::Abort,
    }
}

/// A flag that threads wait for. Once raised it stays so.
#[derive(Clone, Copy, Debug, PartialEq, Eq, Structural)]
pub struct Flag {
    pub raised: bool,
}

impl Default for Flag {
    fn default() -> (flag: Self)
        ensures
            !flag.raised,
    {
        Flag { raised: false }
    }
}

/// Raises a flag.
pub fn set_flag(flag: &mut Flag)
    ensures
        final(flag).raised,
{
    flag.raised = true;
}

/// Whether a thread that waits for a flag goes on waiting.
pub fn wait_flag(flag: &Flag) -> (waits: bool)
    ensures
        waits == !flag.raised,
{
    !flag.raised
}

/// What the three parties to a stop do: the listener, the executor, and the
/// connection that asked for it.
#[derive(Clone, Copy, Debug, PartialEq, Eq, Structural)]
pub enum StopAction {
    CloseListener,
    RemoveSocket,
    RaiseSocketRemoved,
    AwaitComplete,
    AwaitAcknowledged,
    JoinExecutor,
    RaiseShutdown,
    RefuseQueue,
    ClearRecords,
    CloseTerminal,
    RaiseComplete,
    RaiseStopRequested,
    TellExecutor,
    AwaitSocketRemoved,
    Answer,
    RaiseAcknowledged,
}

/// What the listener does once it no longer accepts connections, until the
/// executor is done.
pub open spec fn listener_closing() -> Seq<StopAction> {
    seq![
        StopAction::CloseListener,
        StopAction::RemoveSocket,
        StopAction::RaiseSocketRemoved,
        StopAction::AwaitComplete,
    ]
}

/// What the listener does before it leaves. A stop that a client asked for is
/// answered first.
pub open spec fn listener_leaving(requested: bool) -> Seq<StopAction> {
    if requested {
        seq![StopAction::AwaitAcknowledged, StopAction::JoinExecutor]
    } else {
        seq![StopAction::JoinExecutor]
    }
}

/// What the listener does once it no longer accepts connections.
pub open spec fn listener_stop(requested: bool) -> Seq<StopAction> {
    listener_closing() + listener_leaving(requested)
}

/// What the executor does once it takes no more requests.
pub open spec fn executor_stop() -> Seq<StopAction> {
    seq![
        StopAction::RaiseShutdown,
        StopAction::RefuseQueue,
        StopAction::ClearRecords,
        StopAction::CloseTerminal,
        StopAction::RaiseComplete,
    ]
}

/// What a connection does that asks the broker to stop.
pub open spec fn connection_stop() -> Seq<StopAction> {
    seq![
        StopAction::RaiseStopRequested,
        StopAction::RaiseShutdown,
        StopAction::TellExecutor,
        StopAction::AwaitComplete,
        StopAction::AwaitSocketRemoved,
        StopAction::Answer,
        StopAction::RaiseAcknowledged,
    ]
}

/// What the listener does once it no longer accepts connections, until the
/// executor is done.
pub fn listener_closing_actions() -> (actions: Vec<StopAction>)
    ensures
        actions@ == listener_closing(),
{
    let mut actions: Vec<StopAction> = Vec::new();
    actions.push(StopAction::CloseListener);
    actions.push(StopAction::RemoveSocket);
    actions.push(StopAction::RaiseSocketRemoved);
    actions.push(StopAction::AwaitComplete);
    assert(actions@ =~= listener_closing());
    actions
}

/// What the listener does before it leaves.
pub fn listener_leaving_actions(requested: bool) -> (actions: Vec<StopAction>)
    ensures
        actions@ == listener_leaving(requested),
{
    let mut actions: Vec<StopAction> = Vec::new();
    if requested {
        actions.push(StopAction::AwaitAcknowledged);
    }
    actions.push(StopAction::JoinExecutor);
    assert(actions@ =~= listener_leaving(requested));
    actions
}

/// What the executor does once it takes no more requests.
pub fn executor_stop_actions() -> (actions: Vec<StopAction>)
    ensures
        actions@ == executor_stop(),
{
    let mut actions: Vec<StopAction> = Vec::new();
    actions.push(StopAction::RaiseShutdown);
    actions.push(StopAction::RefuseQueue);
    actions.push(StopAction::ClearRecords);
    actions.push(StopAction::CloseTerminal);
    actions.push(StopAction::RaiseComplete);
    assert(actions@ =~= executor_stop());
    actions
}

/// What a connection does that asks the broker to stop.
pub fn connection_stop_actions() -> (actions: Vec<StopAction>)
    ensures
        actions@ == connection_stop(),
{
    let mut actions: Vec<StopAction> = Vec::new();
    actions.push(StopAction::RaiseStopRequested);
    actions.push(StopAction::RaiseShutdown);
    actions.push(StopAction::TellExecutor);
    actions.push(StopAction::AwaitComplete);
    actions.push(StopAction::AwaitSocketRemoved);
    actions.push(StopAction::Answer);
    actions.push(StopAction::RaiseAcknowledged);
    assert(actions@ =~= connection_stop());
    actions
}

/// How far the three parties to a stop have come.
pub struct Progress {
    pub listener: nat,
    pub executor: nat,
    pub connection: nat,
}

/// Whether a flag was raised that a party waits for.
pub open spec fn raised(progress: Progress, flag: StopAction) -> bool {
    ||| exists|i: int|
        0 <= i < progress.listener && #[trigger] listener_stop(true)[i] == flag
    ||| exists|i: int| 0 <= i < progress.executor && #[trigger] executor_stop()[i] == flag
    ||| exists|i: int| 0 <= i < progress.connection && #[trigger] connection_stop()[i] == flag
}

/// Whether an action can be done: a wait only once what it waits for happened.
pub open spec fn can_do(progress: Progress, action: StopAction) -> bool {
    match action {
        StopAction::AwaitComplete => raised(progress, StopAction::RaiseComplete),
        StopAction::AwaitSocketRemoved => raised(progress, StopAction::RaiseSocketRemoved),
        StopAction::AwaitAcknowledged => raised(progress, StopAction::RaiseAcknowledged),
        StopAction::JoinExecutor => progress.executor == executor_stop().len(),
        _ => true,
    }
}

/// How far the parties can have come: every wait that is behind them was for
/// something that had happened.
pub open spec fn reachable(progress: Progress) -> bool {
    &&& progress.listener <= listener_stop(true).len()
    &&& progress.executor <= executor_stop().len()
    &&& progress.connection <= connection_stop().len()
    &&& progress.listener > 3 ==> progress.executor == 5
    &&& progress.listener > 4 ==> progress.connection == 7
    &&& progress.connection > 3 ==> progress.executor == 5
    &&& progress.connection > 4 ==> progress.listener > 2
}

/// One more action of one of the parties.
pub open spec fn advanced(progress: Progress, party: nat) -> Option<Progress> {
    if party == 0 {
        if progress.listener < listener_stop(true).len() && can_do(
            progress,
            listener_stop(true)[progress.listener as int],
        ) {
            Some(Progress { listener: progress.listener + 1, ..progress })
        } else {
            None
        }
    } else if party == 1 {
        if progress.executor < executor_stop().len() && can_do(
            progress,
            executor_stop()[progress.executor as int],
        ) {
            Some(Progress { executor: progress.executor + 1, ..progress })
        } else {
            None
        }
    } else {
        if progress.connection < connection_stop().len() && can_do(
            progress,
            connection_stop()[progress.connection as int],
        ) {
            Some(Progress { connection: progress.connection + 1, ..progress })
        } else {
            None
        }
    }
}

/// A stop begins within reach, when none of the parties has done anything.
pub proof fn stopping_begins_in_order()
    ensures
        reachable(Progress { listener: 0, executor: 0, connection: 0 }),
{
}

/// However the parties to a stop are interleaved, they stay within reach of
/// one another.
pub proof fn stopping_stays_in_order(progress: Progress, party: nat)
    requires
        reachable(progress),
        advanced(progress, party) is Some,
    ensures
        reachable(advanced(progress, party)->0),
{
    let l = listener_stop(true);
    let e = executor_stop();
    let c = connection_stop();
    assert(l[0] == StopAction::CloseListener && l[1] == StopAction::RemoveSocket && l[2]
        == StopAction::RaiseSocketRemoved && l[3] == StopAction::AwaitComplete && l[4]
        == StopAction::AwaitAcknowledged && l[5] == StopAction::JoinExecutor);
    assert(e[0] == StopAction::RaiseShutdown && e[1] == StopAction::RefuseQueue && e[2]
        == StopAction::ClearRecords && e[3] == StopAction::CloseTerminal && e[4]
        == StopAction::RaiseComplete);
    assert(c[0] == StopAction::RaiseStopRequested && c[1] == StopAction::RaiseShutdown && c[2]
        == StopAction::TellExecutor && c[3] == StopAction::AwaitComplete && c[4]
        == StopAction::AwaitSocketRemoved && c[5] == StopAction::Answer && c[6]
        == StopAction::RaiseAcknowledged);
}

/// A stop is answered only when the executor has cleared its records and
/// closed its terminal, and the socket is gone.
pub proof fn stop_is_answered_last(progress: Progress)
    requires
        reachable(progress),
        progress.connection > 5,
    ensures
        connection_stop()[5] == StopAction::Answer,
        progress.executor == executor_stop().len(),
        executor_stop()[2] == StopAction::ClearRecords,
        progress.listener > 1,
        listener_stop(true)[1] == StopAction::RemoveSocket,
{
}

/// A stop always comes to its end: as long as one of the parties is not done,
/// one of them can go on.
pub proof fn stopping_never_blocks(progress: Progress) -> (party: nat)
    requires
        reachable(progress),
        progress.listener < listener_stop(true).len() || progress.executor < executor_stop().len()
            || progress.connection < connection_stop().len(),
    ensures
        party < 3,
        advanced(progress, party) is Some,
{
    let l = listener_stop(true);
    let e = executor_stop();
    let c = connection_stop();
    assert(l[2] == StopAction::RaiseSocketRemoved && l[3] == StopAction::AwaitComplete && l[4]
        == StopAction::AwaitAcknowledged && l[5] == StopAction::JoinExecutor);
    assert(e[4] == StopAction::RaiseComplete);
    assert(c[3] == StopAction::AwaitComplete && c[4] == StopAction::AwaitSocketRemoved && c[6]
        == StopAction::RaiseAcknowledged);
    if progress.executor < 5 {
        let next = e[progress.executor as int];
        assert(next == StopAction::RaiseShutdown || next == StopAction::RefuseQueue || next
            == StopAction::ClearRecords || next == StopAction::CloseTerminal || next
            == StopAction::RaiseComplete);
        1
    } else if progress.listener < 4 {
        let next = l[progress.listener as int];
        assert(next == StopAction::CloseListener || next == StopAction::RemoveSocket || next
            == StopAction::RaiseSocketRemoved || next == StopAction::AwaitComplete);
        0
    } else if progress.connection < 7 {
        let next = c[progress.connection as int];
        assert(next == StopAction::RaiseStopRequested || next == StopAction::RaiseShutdown || next
            == StopAction::TellExecutor || next == StopAction::AwaitComplete || next
            == StopAction::AwaitSocketRemoved || next == StopAction::Answer || next
            == StopAction::RaiseAcknowledged);
        2
    } else {
        let next = l[progress.listener as int];
        assert(next == StopAction::AwaitAcknowledged || next == StopAction::JoinExecutor);
        0
    }
}

/// A broker comes up in a fixed order: it reads its configuration before
/// anything of the user's is touched, takes the lock before the terminal, the
/// old socket is removed and the new one bound only under the lock, and it says
/// that it is ready only when the socket is protected and the executor runs.
/// Then it serves.
pub proof fn broker_comes_up_in_order()
    ensures
        ({
            let next = |stage: StartupStage| startup_decision(stage, StageOutcome::Succeeded);
            &&& next(StartupStage::PrepareProcess) == StartupDecision::Next(
                StartupStage::ReadConfiguration,
            )
            &&& next(StartupStage::ReadConfiguration) == StartupDecision::Next(
                StartupStage::LoadUser,
            )
            &&& next(StartupStage::LoadUser) == StartupDecision::Next(StartupStage::LoadPaths)
            &&& next(StartupStage::LoadPaths) == StartupDecision::Next(
                StartupStage::PrepareDirectory,
            )
            &&& next(StartupStage::PrepareDirectory) == StartupDecision::Next(
                StartupStage::AcquireLock,
            )
            &&& next(StartupStage::AcquireLock) == StartupDecision::Next(
                StartupStage::AcquireTerminal,
            )
            &&& next(StartupStage::AcquireTerminal) == StartupDecision::Next(
                StartupStage::RemoveStaleSocket,
            )
            &&& next(StartupStage::RemoveStaleSocket) == StartupDecision::Next(
                StartupStage::BindSocket,
            )
            &&& next(StartupStage::BindSocket) == StartupDecision::Next(
                StartupStage::ProtectSocket,
            )
            &&& next(StartupStage::ProtectSocket) == StartupDecision::Next(
                StartupStage::UnblockSocket,
            )
            &&& next(StartupStage::UnblockSocket) == StartupDecision::Next(
                StartupStage::StartExecutor,
            )
            &&& next(StartupStage::StartExecutor) == StartupDecision::Next(
                StartupStage::ReportReady,
            )
            &&& next(StartupStage::ReportReady) == StartupDecision::Serve
        }),
{
}

/// A broker that finds the lock held leaves to the one that holds it. One that
/// fails leaves too, and tells its client so from the lock until the socket is
/// bound. Nothing but success leads on.
pub proof fn broker_leaves_when_a_step_fails(stage: StartupStage, outcome: StageOutcome)
    requires
        outcome != StageOutcome::Succeeded,
    ensures
        startup_decision(stage, outcome) == StartupDecision::LeaveToExisting <==> stage
            is AcquireLock && outcome == StageOutcome::Held,
        startup_decision(stage, outcome) == StartupDecision::LeaveWithError <==> (stage
            is AcquireLock && outcome == StageOutcome::Failed) || stage is AcquireTerminal || stage
            is RemoveStaleSocket || stage is BindSocket,
        startup_decision(stage, outcome) is LeaveToExisting || startup_decision(stage, outcome)
            is LeaveWithError || startup_decision(stage, outcome) is LeaveSilently,
{
}

/// What the parties to a stop do, in their order. The socket is removed before
/// anyone is told so; queued requests are refused, records cleared and the
/// terminal closed before the executor says that it is done; and a client that
/// asked for the stop is answered when both are so.
pub proof fn parties_stop_in_order(requested: bool)
    ensures
        listener_stop(requested) == seq![
            StopAction::CloseListener,
            StopAction::RemoveSocket,
            StopAction::RaiseSocketRemoved,
            StopAction::AwaitComplete,
        ] + (if requested {
            seq![StopAction::AwaitAcknowledged, StopAction::JoinExecutor]
        } else {
            seq![StopAction::JoinExecutor]
        }),
        executor_stop() == seq![
            StopAction::RaiseShutdown,
            StopAction::RefuseQueue,
            StopAction::ClearRecords,
            StopAction::CloseTerminal,
            StopAction::RaiseComplete,
        ],
        connection_stop() == seq![
            StopAction::RaiseStopRequested,
            StopAction::RaiseShutdown,
            StopAction::TellExecutor,
            StopAction::AwaitComplete,
            StopAction::AwaitSocketRemoved,
            StopAction::Answer,
            StopAction::RaiseAcknowledged,
        ],
{
}

/// The configuration of a broker begins with `OPPCFG1` and a zero.
pub proof fn configuration_has_its_mark()
    ensures
        startup_magic() == encode_utf8("OPPCFG1"@).push(0),
        STARTUP_READY == 1,
        STARTUP_EXISTS == 2,
        STARTUP_ERROR == 3,
{
    broadcast use vstd::utf8::is_ascii_chars_encode_utf8;

    reveal_strlit("OPPCFG1");
    assert(vstd::utf8::is_ascii_chars("OPPCFG1"@));
    assert(startup_magic() =~= encode_utf8("OPPCFG1"@).push(0));
}

/// What the broker does after an attempt to accept a connection.
pub open spec fn accepted_as(accepted: Accepted, active: usize) -> AcceptAction {
    match accepted {
        Accepted::Connection => if active < MAX_CONNECTIONS {
            AcceptAction::Serve
        } else {
            AcceptAction::Refuse
        },
        Accepted::WouldBlock => AcceptAction::Pause,
        Accepted::Failed => AcceptAction::Abort,
    }
}

/// A connection is served while fewer than 64 others are, and closed at once
/// otherwise. The broker gives up only where accepting fails.
pub proof fn connections_are_limited(accepted: Accepted, active: usize)
    ensures
        accepted_as(accepted, active) is Serve <==> accepted is Connection && active < 64,
        accepted_as(accepted, active) is Refuse <==> accepted is Connection && active >= 64,
        accepted_as(accepted, active) is Pause <==> accepted is WouldBlock,
        accepted_as(accepted, active) is Abort <==> accepted is Failed,
{
}

/// The bytes in front of a configuration are the right ones.
pub open spec fn is_mark(bytes: Seq<u8>) -> bool {
    bytes == startup_magic()
}

/// The length of the path that four bytes give, if it is one.
pub open spec fn length_of_path(bytes: Seq<u8>) -> Option<int> {
    if be_value(bytes) == 0 || be_value(bytes) > MAX_PAYLOAD {
        None
    } else {
        Some(be_value(bytes) as int)
    }
}

/// The path that bytes stand for, if they do.
pub open spec fn path_in(bytes: Seq<u8>) -> Option<Seq<char>> {
    if valid_utf8(bytes) {
        Some(decode_utf8(bytes))
    } else {
        None
    }
}

/// What a byte from a new broker means, if it means something.
pub open spec fn reported_as(value: u8) -> Option<StartupResult> {
    if value == STARTUP_READY {
        Some(StartupResult::Ready)
    } else if value == STARTUP_EXISTS {
        Some(StartupResult::Existing)
    } else if value == STARTUP_ERROR {
        Some(StartupResult::Failed)
    } else {
        None
    }
}

/// A broker accepts the configuration that its client wrote, of every path that
/// is not empty and fits, and gets the path out of it.
pub proof fn written_configuration_is_accepted(op_path: Seq<char>)
    requires
        0 < encode_utf8(op_path).len() <= 2_097_152,
    ensures
        ({
            let bytes = configuration_bytes(op_path);
            &&& is_mark(bytes.subrange(0, 8))
            &&& length_of_path(bytes.subrange(8, 12)) == Some(bytes.len() - 12)
            &&& path_in(bytes.skip(12)) == Some(op_path)
        }),
{
    configuration_is_read_back(op_path);
}

/// A broker accepts no other configuration: each one that it accepts is what a
/// client writes for the path that the broker gets out of it.
pub proof fn accepted_configuration_was_written(bytes: Seq<u8>)
    requires
        bytes.len() >= 12,
        is_mark(bytes.subrange(0, 8)),
        length_of_path(bytes.subrange(8, 12)) == Some(bytes.len() - 12),
        path_in(bytes.skip(12)) is Some,
    ensures
        configuration_bytes(path_in(bytes.skip(12))->0) == bytes,
        13 <= bytes.len() <= 2_097_152 + 12,
{
    vstd::utf8::decode_utf8_encode_utf8(bytes.skip(12));
    lemma_be_canonical(bytes.subrange(8, 12));
    assert(bytes.subrange(0, 8) + bytes.subrange(8, 12) + bytes.skip(12) =~= bytes);
}

/// A new broker reports that it is ready, that another one runs, or that it
/// failed, and a client takes no other report.
pub proof fn reports_are_told_apart(value: u8)
    ensures
        reported_as(value) == Some(StartupResult::Ready) <==> value == 1,
        reported_as(value) == Some(StartupResult::Existing) <==> value == 2,
        reported_as(value) == Some(StartupResult::Failed) <==> value == 3,
        reported_as(value) is None <==> value == 0 || value > 3,
{
}

} // verus!
