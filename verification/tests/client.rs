use opp::client::{
    authorization_required, conclude_execution, connect, connect_until, exec_error, execute,
    explicit_op, find_in_path, first_executable, is_executable, lifecycle_error,
    lifecycle_response, output_exit, path_candidates, resolve_op, spawn_broker, start, status,
    status_reached, stop, stop_unreached, unknown_runtime, write_status, Awaited, Connected,
    ExecDecision, ExecStage, Exit, OpStep, Search, Spawned, StartDecision, StartEvent, StartStage,
    StatusDecision, Target, AUTHORIZATION_REQUIRED, INCOMPATIBLE, STARTUP_WAIT, WARNING,
};
use opp::protocol::{Diagnostic, ErrorCode, Response};
use opp::runtime::Failure;
use opp::startup::StartupResult;

const COMMUNICATION: &str = "opp: broker communication failed.\n";

fn ends(exit: Exit, code: i32, message: &str) {
    assert_eq!((exit.code, exit.message), (code, message));
}

#[test]
fn texts_are_those_of_the_contract() {
    assert_eq!(
        WARNING,
        "opp: warning: the broker gives every process that can reach its socket the full authorized 1Password CLI authority for every account added to it, including same-user command execution through 'op run'.\n"
    );
    ends(
        authorization_required(),
        77,
        "opp: the selected 1Password account requires authorization. Stop and inform the user. Wait for the user to run 'opp start' with the same account selection and confirm completion. Do not retry or run 'opp start' yourself.\n",
    );
    assert_eq!(
        INCOMPATIBLE,
        "opp: incompatible broker protocol; run 'opp stop' and restart the broker.\n"
    );
    ends(lifecycle_error("x"), 1, "x");
    ends(exec_error(9, "y"), 9, "y");
    ends(output_exit(true), 0, "");
    ends(output_exit(false), 1, "");
    ends(
        unknown_runtime(),
        1,
        "opp: could not determine the broker runtime path.\n",
    );
}

#[test]
fn start_answers_become_exits() {
    ends(lifecycle_response(&Response::Accepted), 0, "");
    ends(
        lifecycle_response(&Response::Error(ErrorCode::AuthorizationFailed)),
        1,
        "opp: 1Password authorization failed or was cancelled.\n",
    );
    ends(
        lifecycle_response(&Response::Error(ErrorCode::OpPathMismatch)),
        1,
        "opp: the running broker uses a different 'op' executable; stop it first.\n",
    );
    ends(
        lifecycle_response(&Response::Error(ErrorCode::QueueFull)),
        1,
        "opp: broker operation failed.\n",
    );
    ends(
        lifecycle_response(&Response::Status(Vec::new())),
        1,
        "opp: invalid broker response.\n",
    );
}

#[test]
fn a_broker_is_waited_for_for_five_seconds() {
    let limit = 7 + STARTUP_WAIT;
    assert_eq!(STARTUP_WAIT, 5_000_000_000);
    for now in [0, 7, limit - 1] {
        assert_eq!(connect_until(Connected::Absent, 7, now), Awaited::Retry);
    }
    for now in [limit, limit + 1, u64::MAX] {
        assert_eq!(connect_until(Connected::Absent, 7, now), Awaited::TimedOut);
    }
    assert_eq!(
        connect_until(Connected::Absent, u64::MAX, u64::MAX),
        Awaited::Retry
    );
    for now in [7, limit] {
        assert_eq!(connect_until(Connected::Ready, 7, now), Awaited::Ready);
        assert_eq!(
            connect_until(Connected::Incompatible, 7, now),
            Awaited::Incompatible
        );
        assert_eq!(connect_until(Connected::Failed, 7, now), Awaited::Failed);
    }
}

#[test]
fn connections_are_told_apart() {
    assert_eq!(connect(None, None), Connected::Ready);
    assert_eq!(
        connect(None, Some(Failure::Unsupported)),
        Connected::Incompatible
    );
    assert_eq!(connect(None, Some(Failure::NotFound)), Connected::Failed);
    assert_eq!(connect(Some(Failure::NotFound), None), Connected::Absent);
    assert_eq!(
        connect(Some(Failure::ConnectionRefused), None),
        Connected::Absent
    );
    assert_eq!(connect(Some(Failure::Other), None), Connected::Failed);
    assert_eq!(spawn_broker(Some(StartupResult::Ready)), Spawned::Done);
    assert_eq!(
        spawn_broker(Some(StartupResult::Existing)),
        Spawned::AwaitExisting
    );
    assert_eq!(spawn_broker(Some(StartupResult::Failed)), Spawned::Failed);
    assert_eq!(spawn_broker(None), Spawned::Failed);
}

fn next(stage: StartStage, event: StartEvent) -> StartStage {
    match start(stage, &event) {
        StartDecision::Next(next) => next,
        other => panic!("{other:?}"),
    }
}

fn left(stage: StartStage, event: StartEvent, message: &str) {
    match start(stage, &event) {
        StartDecision::Leave(exit) => ends(exit, 1, message),
        other => panic!("{other:?}"),
    }
}

#[test]
fn start_takes_its_course() {
    let mut stage = StartStage::ResolveOp;
    for expected in [
        StartStage::CaptureContext,
        StartStage::LoadPaths,
        StartStage::Connect,
    ] {
        stage = next(stage, StartEvent::Succeeded);
        assert_eq!(stage, expected);
    }
    stage = next(stage, StartEvent::Reached(Connected::Absent));
    assert_eq!(stage, StartStage::WarnNew);
    for expected in [
        StartStage::SpawnBroker,
        StartStage::AwaitBroker,
        StartStage::Ask { new: true },
    ] {
        stage = next(stage, StartEvent::Succeeded);
        assert_eq!(stage, expected);
    }
    match start(stage, &StartEvent::Answered(Response::Accepted)) {
        StartDecision::Leave(exit) => ends(exit, 0, ""),
        other => panic!("{other:?}"),
    }

    let mut stage = next(
        StartStage::Connect,
        StartEvent::Reached(Connected::Ready),
    );
    assert_eq!(stage, StartStage::SendUnwarned);
    stage = next(stage, StartEvent::Succeeded);
    assert_eq!(stage, StartStage::ReceiveUnwarned);
    stage = next(stage, StartEvent::Answered(Response::NeedWarning));
    assert_eq!(stage, StartStage::WarnExisting);
    stage = next(stage, StartEvent::Succeeded);
    assert_eq!(stage, StartStage::Ask { new: false });
    left(
        stage,
        StartEvent::Answered(Response::NeedWarning),
        "opp: invalid broker response.\n",
    );
}

#[test]
fn start_fails_with_its_messages() {
    let other = || StartEvent::Failed(Failure::Other);
    let unsupported = || StartEvent::Failed(Failure::Unsupported);
    left(
        StartStage::ResolveOp,
        other(),
        "opp: could not resolve a canonical executable 'op'.\n",
    );
    left(
        StartStage::CaptureContext,
        other(),
        "opp: could not read the invoking process context.\n",
    );
    left(
        StartStage::LoadPaths,
        other(),
        "opp: could not determine the broker runtime path.\n",
    );
    left(
        StartStage::Connect,
        StartEvent::Reached(Connected::Incompatible),
        INCOMPATIBLE,
    );
    left(
        StartStage::Connect,
        StartEvent::Reached(Connected::Failed),
        COMMUNICATION,
    );
    left(StartStage::Connect, other(), COMMUNICATION);
    left(StartStage::Connect, unsupported(), INCOMPATIBLE);
    left(StartStage::SendUnwarned, other(), COMMUNICATION);
    left(StartStage::SendUnwarned, unsupported(), INCOMPATIBLE);
    left(StartStage::ReceiveUnwarned, unsupported(), COMMUNICATION);
    left(StartStage::WarnExisting, other(), "");
    left(StartStage::WarnNew, other(), "");
    left(
        StartStage::SpawnBroker,
        other(),
        "opp: the broker failed to start.\n",
    );
    left(StartStage::SpawnBroker, unsupported(), INCOMPATIBLE);
    left(
        StartStage::AwaitBroker,
        unsupported(),
        "opp: the broker failed to become ready.\n",
    );
    left(StartStage::Ask { new: true }, unsupported(), INCOMPATIBLE);
    left(StartStage::Ask { new: false }, unsupported(), COMMUNICATION);
}

#[test]
fn exec_takes_its_course() {
    let mut stage = ExecStage::LoadPaths;
    for expected in [
        ExecStage::Connect,
        ExecStage::CaptureContext,
        ExecStage::OpenPipes,
        ExecStage::Send,
        ExecStage::Watch,
        ExecStage::Forward,
    ] {
        match execute(stage, Connected::Ready) {
            ExecDecision::Next(next) => assert_eq!(next, expected),
            other => panic!("{other:?}"),
        }
        stage = expected;
    }
    for (stage, reached, code, message) in [
        (
            ExecStage::LoadPaths,
            Connected::Failed,
            125,
            "opp: could not determine the broker runtime path.\n",
        ),
        (
            ExecStage::Connect,
            Connected::Absent,
            77,
            AUTHORIZATION_REQUIRED,
        ),
        (
            ExecStage::Connect,
            Connected::Incompatible,
            125,
            INCOMPATIBLE,
        ),
        (ExecStage::Connect, Connected::Failed, 125, COMMUNICATION),
        (
            ExecStage::CaptureContext,
            Connected::Failed,
            125,
            "opp: could not read the invoking process context.\n",
        ),
        (
            ExecStage::OpenPipes,
            Connected::Failed,
            125,
            "opp: could not create command pipes.\n",
        ),
        (ExecStage::Send, Connected::Failed, 125, COMMUNICATION),
        (ExecStage::Watch, Connected::Failed, 125, COMMUNICATION),
    ] {
        match execute(stage, reached) {
            ExecDecision::Leave(exit) => ends(exit, code, message),
            other => panic!("{other:?}"),
        }
    }
}

#[test]
fn command_answers_become_exits() {
    let exec = |exit_code, diagnostic| Response::Exec {
        exit_code,
        diagnostic,
    };
    for (response, signal, code, message) in [
        (Some(exec(42, Diagnostic::Nothing)), 0, 42, ""),
        (
            Some(exec(124, Diagnostic::Timeout)),
            0,
            124,
            "opp: command timed out.\n",
        ),
        (
            Some(exec(3, Diagnostic::Internal)),
            0,
            3,
            "opp: command execution failed.\n",
        ),
        (
            Some(Response::Error(ErrorCode::AuthorizationRequired)),
            2,
            77,
            AUTHORIZATION_REQUIRED,
        ),
        (Some(Response::Error(ErrorCode::Cancelled)), 2, 130, ""),
        (
            Some(Response::Error(ErrorCode::Cancelled)),
            0,
            125,
            "opp: command was cancelled.\n",
        ),
        (
            Some(Response::Error(ErrorCode::ProcessStart)),
            0,
            125,
            "opp: command execution failed.\n",
        ),
        (Some(Response::Accepted), 0, 125, COMMUNICATION),
        (None, 2, 125, COMMUNICATION),
    ] {
        ends(
            conclude_execution(true, response.as_ref(), signal),
            code,
            message,
        );
        ends(
            conclude_execution(false, response.as_ref(), signal),
            125,
            "opp: standard-stream forwarding failed.\n",
        );
    }
}

#[test]
fn status_passes_valid_answers_on() {
    assert_eq!(
        write_status().ok(),
        Some(b"{\"schema_version\":1,\"running\":false}\n".to_vec())
    );
    let json = b"{\"schema_version\":1,\"running\":true}".to_vec();
    assert_eq!(
        status(Some(Response::Status(json))).ok(),
        Some(b"{\"schema_version\":1,\"running\":true}\n".to_vec())
    );
    for response in [
        Some(Response::Status(b"not-json".to_vec())),
        Some(Response::Accepted),
        None,
    ] {
        ends(
            status(response).err().unwrap(),
            1,
            "opp: status request failed.\n",
        );
    }
    assert!(matches!(
        status_reached(Connected::Ready),
        StatusDecision::Ask
    ));
    assert!(matches!(
        status_reached(Connected::Absent),
        StatusDecision::ReportStopped
    ));
    for (connected, message) in [
        (Connected::Incompatible, INCOMPATIBLE),
        (Connected::Failed, COMMUNICATION),
    ] {
        match status_reached(connected) {
            StatusDecision::Leave(exit) => ends(exit, 1, message),
            other => panic!("{other:?}"),
        }
    }
}

#[test]
fn stopping_an_absent_broker_succeeds() {
    ends(stop_unreached(Failure::NotFound), 0, "");
    ends(stop_unreached(Failure::ConnectionRefused), 0, "");
    ends(stop_unreached(Failure::Other), 1, COMMUNICATION);
    ends(stop(Some(b"OPPSTOP\x01")), 0, "");
    ends(stop(Some(b"OPPSTOP\0")), 1, "opp: broker stop failed.\n");
    ends(stop(None), 1, "opp: broker stop failed.\n");
}

#[test]
fn op_is_searched_for_in_order() {
    assert_eq!(
        path_candidates(b"/bin::/opt/:x", b"op"),
        vec![
            b"/bin/op".to_vec(),
            b"op".to_vec(),
            b"/opt/op".to_vec(),
            b"x/op".to_vec(),
        ]
    );
    assert_eq!(path_candidates(b"", b"op"), vec![b"op".to_vec()]);
    assert_eq!(
        path_candidates(b"/bin:x", b"/opt/op"),
        vec![b"/opt/op".to_vec(), b"/opt/op".to_vec()]
    );
    assert_eq!(path_candidates(b"/bin", b""), vec![b"/bin/".to_vec()]);
    assert_eq!(
        path_candidates(b":", b"op"),
        vec![b"op".to_vec(), b"op".to_vec()]
    );
}

#[test]
fn the_first_program_is_taken() {
    assert_eq!(first_executable(&vec![]), None);
    assert_eq!(
        first_executable(&vec![(false, 0o755), (true, 0o644)]),
        None
    );
    assert_eq!(
        first_executable(&vec![(false, 0o755), (true, 0o100), (true, 0o755)]),
        Some(1)
    );
}

#[test]
fn a_search_ends_with_the_first_program() {
    let path: &[u8] = b"/a:/b:/c";
    let files = [(false, 0), (true, 0o644), (true, 0o755)];
    for (count, candidate) in [&b"/a/op"[..], b"/b/op", b"/c/op"].into_iter().enumerate() {
        assert_eq!(
            find_in_path(Some(path), b"op", &files[..count].to_vec()),
            Search::Examine(candidate.to_vec())
        );
    }
    assert_eq!(
        find_in_path(Some(path), b"op", &files.to_vec()),
        Search::Found(b"/c/op".to_vec())
    );
    assert_eq!(
        find_in_path(Some(path), b"op", &vec![(true, 0o755), (true, 0o755)]),
        Search::Found(b"/a/op".to_vec())
    );
    assert_eq!(
        find_in_path(Some(path), b"op", &vec![(false, 0); 3]),
        Search::Missing("op not found")
    );
    assert_eq!(
        find_in_path(None, b"op", &vec![]),
        Search::Missing("PATH is not set")
    );
}

#[test]
fn op_must_be_a_program() {
    for (mode, expected) in [(0o755, true), (0o644, false), (0o001, true), (0o10, true)] {
        assert_eq!(is_executable(true, mode), expected);
        assert!(!is_executable(false, mode));
    }
    assert!(explicit_op(b"/bin/op").is_ok());
    assert_eq!(
        explicit_op(b"bin/op"),
        Err("explicit op path is not absolute")
    );
    assert!(explicit_op(b"").is_err());
    let target = |canonical: &[u8], is_file, mode| {
        Some(Target {
            canonical: canonical.to_vec(),
            is_file,
            mode,
        })
    };
    for (target, step) in [
        (None, OpStep::Follow(b"/bin/op".to_vec())),
        (
            target(b"/opt/op", true, 0o755),
            OpStep::Resolved(String::from("/opt/op")),
        ),
        (
            target(b"/opt/op", true, 0o644),
            OpStep::Refused("op is not a regular executable"),
        ),
        (
            target(b"/opt/op", false, 0o755),
            OpStep::Refused("op is not a regular executable"),
        ),
        (
            target(b"/\xff", true, 0o755),
            OpStep::Refused("op path is not UTF-8"),
        ),
    ] {
        assert_eq!(resolve_op(Some(b"/bin/op"), None, &vec![], target), step);
    }
}

#[test]
fn op_is_resolved_from_the_path_unless_it_is_given() {
    let resolved = |explicit: Option<&[u8]>, path: Option<&[u8]>, examined: &[(bool, u32)]| {
        resolve_op(explicit, path, &examined.to_vec(), None)
    };
    assert_eq!(
        resolved(Some(b"bin/op"), Some(b"/bin"), &[]),
        OpStep::Refused("explicit op path is not absolute")
    );
    assert_eq!(
        resolved(None, None, &[]),
        OpStep::Refused("PATH is not set")
    );
    assert_eq!(
        resolved(None, Some(b"/bin:/opt"), &[(true, 0o600)]),
        OpStep::Examine(b"/opt/op".to_vec())
    );
    assert_eq!(
        resolved(None, Some(b"/bin:/opt"), &[(true, 0o600), (true, 0o700)]),
        OpStep::Follow(b"/opt/op".to_vec())
    );
    assert_eq!(
        resolved(None, Some(b"/bin:/opt"), &[(true, 0o600), (false, 0)]),
        OpStep::Refused("op not found")
    );
    let target = Target {
        canonical: b"/cellar/op".to_vec(),
        is_file: true,
        mode: 0o700,
    };
    assert_eq!(
        resolve_op(None, Some(b"/bin"), &vec![(true, 0o700)], Some(target)),
        OpStep::Resolved(String::from("/cellar/op"))
    );
}
