use opp::startup::{
    accept_step, check_startup_magic, connection_stop_actions, executor_stop_actions,
    listener_closing_actions, listener_leaving_actions, lock_outcome, read_startup_length,
    read_startup_path, read_startup_result, run_internal, set_flag, startup_step, wait_flag,
    write_startup_configuration, AcceptAction, Accepted, Flag, StageOutcome, StartupDecision,
    StartupResult, StartupStage, StopAction,
};

const STAGES: [StartupStage; 13] = [
    StartupStage::PrepareProcess,
    StartupStage::ReadConfiguration,
    StartupStage::LoadUser,
    StartupStage::LoadPaths,
    StartupStage::PrepareDirectory,
    StartupStage::AcquireLock,
    StartupStage::AcquireTerminal,
    StartupStage::RemoveStaleSocket,
    StartupStage::BindSocket,
    StartupStage::ProtectSocket,
    StartupStage::UnblockSocket,
    StartupStage::StartExecutor,
    StartupStage::ReportReady,
];

#[test]
fn configurations_are_read_back() {
    let bytes = write_startup_configuration("/bin/öp").unwrap();
    assert_eq!(bytes, b"OPPCFG1\0\0\0\0\x08/bin/\xc3\xb6p".to_vec());
    assert!(check_startup_magic(&bytes[..8]).is_ok());
    assert_eq!(read_startup_length(&bytes[8..12]), Ok(8));
    assert_eq!(
        read_startup_path(bytes[12..].to_vec()),
        Ok(String::from("/bin/öp"))
    );
}

#[test]
fn malformed_configurations_are_refused() {
    assert_eq!(
        check_startup_magic(b"OPPCFG2\0"),
        Err("invalid broker startup configuration")
    );
    for length in [[0, 0, 0, 0], [0, 0x20, 0, 1]] {
        assert_eq!(
            read_startup_length(&length),
            Err("invalid broker op path length")
        );
    }
    assert_eq!(read_startup_length(&[0, 0x20, 0, 0]), Ok(0x20_0000));
    assert_eq!(
        read_startup_path(vec![0xff]),
        Err("invalid broker op path")
    );
}

#[test]
fn startup_results_are_read() {
    assert_eq!(read_startup_result(1), Ok(StartupResult::Ready));
    assert_eq!(read_startup_result(2), Ok(StartupResult::Existing));
    assert_eq!(read_startup_result(3), Ok(StartupResult::Failed));
    for value in [0, 4, 255] {
        assert_eq!(
            read_startup_result(value),
            Err("invalid broker startup response")
        );
    }
    assert_eq!(run_internal(true), 0);
    assert_eq!(run_internal(false), 1);
}

#[test]
fn the_broker_comes_up_in_order() {
    for pair in STAGES.windows(2) {
        assert_eq!(
            startup_step(pair[0], StageOutcome::Succeeded),
            StartupDecision::Next(pair[1])
        );
    }
    assert_eq!(
        startup_step(StartupStage::ReportReady, StageOutcome::Succeeded),
        StartupDecision::Serve
    );
    assert_eq!(lock_outcome(true), StageOutcome::Held);
    assert_eq!(lock_outcome(false), StageOutcome::Failed);
    for stage in STAGES {
        let told = matches!(
            stage,
            StartupStage::AcquireLock
                | StartupStage::AcquireTerminal
                | StartupStage::RemoveStaleSocket
                | StartupStage::BindSocket
        );
        let failed = if told {
            StartupDecision::LeaveWithError
        } else {
            StartupDecision::LeaveSilently
        };
        assert_eq!(startup_step(stage, StageOutcome::Failed), failed);
        let held = if stage == StartupStage::AcquireLock {
            StartupDecision::LeaveToExisting
        } else {
            failed
        };
        assert_eq!(startup_step(stage, StageOutcome::Held), held);
    }
}

#[test]
fn connections_are_limited() {
    assert_eq!(accept_step(Accepted::Connection, 63), AcceptAction::Serve);
    assert_eq!(accept_step(Accepted::Connection, 64), AcceptAction::Refuse);
    assert_eq!(accept_step(Accepted::WouldBlock, 0), AcceptAction::Pause);
    assert_eq!(accept_step(Accepted::Failed, 0), AcceptAction::Abort);
}

#[test]
fn flags_stay_raised() {
    let mut flag = Flag::default();
    assert!(wait_flag(&flag));
    set_flag(&mut flag);
    assert!(!wait_flag(&flag));
    set_flag(&mut flag);
    assert!(!wait_flag(&flag));
}

/// Plays the three parties to a stop, in the order that `choices` gives.
fn played(choices: &[usize]) -> Vec<StopAction> {
    let mut listener = listener_closing_actions();
    listener.extend(listener_leaving_actions(true));
    let parties = [listener, executor_stop_actions(), connection_stop_actions()];
    let mut done = [0_usize; 3];
    let mut history: Vec<StopAction> = Vec::new();
    let mut turn = 0;
    while (0..3).any(|party| done[party] < parties[party].len()) {
        let mut moved = false;
        for offset in 0..3 {
            let party = (choices[turn % choices.len()] + offset) % 3;
            let Some(action) = parties[party].get(done[party]).copied() else {
                continue;
            };
            let ready = match action {
                StopAction::AwaitComplete => history.contains(&StopAction::RaiseComplete),
                StopAction::AwaitSocketRemoved => {
                    history.contains(&StopAction::RaiseSocketRemoved)
                }
                StopAction::AwaitAcknowledged => history.contains(&StopAction::RaiseAcknowledged),
                StopAction::JoinExecutor => done[1] == parties[1].len(),
                _ => true,
            };
            if ready {
                history.push(action);
                done[party] += 1;
                moved = true;
                break;
            }
        }
        assert!(moved, "blocked after {history:?}");
        turn += 1;
    }
    history
}

#[test]
fn a_stop_is_answered_when_everything_is_gone() {
    let position = |history: &[StopAction], action: StopAction| {
        history.iter().position(|done| *done == action).unwrap()
    };
    for choices in [
        vec![0],
        vec![1],
        vec![2],
        vec![0, 1, 2],
        vec![2, 1, 0],
        vec![2, 2, 2, 0, 1],
    ] {
        let history = played(&choices);
        let answer = position(&history, StopAction::Answer);
        for before in [
            StopAction::ClearRecords,
            StopAction::CloseTerminal,
            StopAction::RemoveSocket,
        ] {
            assert!(position(&history, before) < answer);
        }
        assert_eq!(history.last(), Some(&StopAction::JoinExecutor));
    }
    assert_eq!(
        listener_leaving_actions(false),
        vec![StopAction::JoinExecutor]
    );
}
