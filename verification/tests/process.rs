use opp::codec::invalid;
use opp::process::{
    map_wait_status, process_group_exists, terminate_group, Launch, Look, ProcessOutcome,
    RequestControl, Wait, Waited,
};
use opp::protocol::ClientEvent;

fn look(waited: Waited, now: u64) -> Look {
    Look {
        waited,
        shutdown: false,
        control: RequestControl::default(),
        now,
    }
}

#[test]
fn controls_remember_what_clients_say() {
    let mut control = RequestControl::default();
    assert!(!control.is_cancelled());
    assert_eq!(control.signal(), 0);
    assert!(control.observe(Ok(ClientEvent::StreamsClosed)));
    assert!(control.streams_closed && !control.is_cancelled());
    assert!(control.observe(Ok(ClientEvent::Cancel(2))));
    assert!(control.is_cancelled());
    assert_eq!(control.signal(), 2);
    assert!(!control.observe(Err(invalid("gone"))));
    assert!(control.is_cancelled());
    assert_eq!(control.signal(), 2);

    let mut control = RequestControl::default();
    control.disconnect();
    assert!(control.is_cancelled() && control.streams_closed);
    assert_eq!(control.signal(), 0);
    let mut control = RequestControl::default();
    control.close_streams();
    assert!(!control.is_cancelled() && control.streams_closed);
    control.cancel(15);
    assert_eq!(control.signal(), 15);
}

#[test]
fn wait_statuses_are_mapped() {
    assert_eq!(
        map_wait_status(Waited::Exited(42)),
        ProcessOutcome::Exited(42)
    );
    assert_eq!(
        map_wait_status(Waited::Signaled(15)),
        ProcessOutcome::Signaled(15)
    );
    assert_eq!(
        map_wait_status(Waited::Other),
        ProcessOutcome::Signaled(libc::SIGKILL)
    );
}

#[test]
fn a_natural_end_waits_for_the_streams() {
    let mut wait = Wait::new(Some(1_000));
    assert_eq!(wait.look(&look(Waited::StillAlive, 0)), None);
    assert_eq!(wait.conclude(true, false, false), None);
    assert_eq!(wait.look(&look(Waited::Exited(3), 1)), None);
    assert!(!wait.awaits_group(true, false));
    assert_eq!(wait.conclude(false, false, true), None);
    assert_eq!(
        wait.conclude(true, false, true),
        Some(ProcessOutcome::Exited(3))
    );
    assert_eq!(wait.conclude(false, true, true), None);
    assert_eq!(wait.look(&look(Waited::Signaled(9), 2)), None);
    assert_eq!(wait.status, Some(Waited::Exited(3)));
}

#[test]
fn a_timeout_escalates_after_the_grace_period() {
    let mut wait = Wait::new(Some(1_000));
    assert_eq!(wait.look(&look(Waited::StillAlive, 999)), None);
    assert_eq!(
        wait.look(&look(Waited::StillAlive, 1_000)),
        Some(libc::SIGTERM)
    );
    wait.begin_grace(1_500);
    assert_eq!(wait.look(&look(Waited::StillAlive, 2_000_001_499)), None);
    assert_eq!(
        wait.look(&look(Waited::StillAlive, 2_000_001_500)),
        Some(libc::SIGKILL)
    );
    assert_eq!(
        wait.look(&look(Waited::Signaled(9), 9_000_000_000)),
        None
    );
    assert!(wait.awaits_group(true, false));
    assert_eq!(wait.conclude(true, false, true), None);
    assert_eq!(
        wait.conclude(true, false, false),
        Some(ProcessOutcome::TimedOut)
    );
}

#[test]
fn the_first_reason_counts() {
    let mut wait = Wait::new(Some(10));
    let mut cancelled = look(Waited::StillAlive, 100);
    cancelled.control.cancel(2);
    assert_eq!(wait.look(&cancelled), Some(libc::SIGTERM));
    wait.begin_grace(100);
    let mut shutdown = look(Waited::Exited(0), 101);
    shutdown.shutdown = true;
    assert_eq!(wait.look(&shutdown), None);
    assert_eq!(
        wait.conclude(true, true, false),
        Some(ProcessOutcome::Cancelled(2))
    );

    let mut wait = Wait::new(None);
    let mut both = cancelled;
    both.shutdown = true;
    assert_eq!(wait.look(&both), Some(libc::SIGTERM));
    assert_eq!(wait.termination, Some(ProcessOutcome::Shutdown));
}

#[test]
fn pauses_are_bounded() {
    let wait = Wait::new(Some(100_000_000));
    assert_eq!(wait.pause(0), 10_000_000);
    assert_eq!(wait.pause(95_000_000), 5_000_000);
    assert_eq!(wait.pause(99_999_999), 1_000_000);
    assert_eq!(wait.pause(200_000_000), 1_000_000);
    assert_eq!(Wait::new(None).pause(5), 10_000_000);
}

#[test]
fn groups_that_are_gone_need_no_signal() {
    assert!(terminate_group(None));
    assert!(terminate_group(Some(libc::ESRCH)));
    assert!(!terminate_group(Some(libc::EPERM)));
    assert_eq!(process_group_exists(None), Some(true));
    assert_eq!(process_group_exists(Some(libc::ESRCH)), Some(false));
    assert_eq!(process_group_exists(Some(libc::EPERM)), Some(true));
    assert_eq!(process_group_exists(Some(libc::EINVAL)), None);
}

#[test]
fn launches_clean_up() {
    let outcome = Some(ProcessOutcome::Exited(0));
    let mut launch = Launch::OpenPipes;
    for expected in [
        Launch::Drain,
        Launch::Spawn,
        Launch::TakeForeground,
        Launch::Continue,
        Launch::Await,
    ] {
        assert!(!launch.advance(true, None));
        assert_eq!(launch, expected);
    }
    assert!(!launch.advance(true, outcome));
    assert_eq!(launch, Launch::RestoreForeground(outcome));
    let mut unrestored = launch;
    assert!(!launch.advance(true, None));
    assert_eq!(launch, Launch::Finished(outcome));
    assert!(!unrestored.advance(false, None));
    assert_eq!(unrestored, Launch::Finished(None));

    for start in [Launch::OpenPipes, Launch::Drain, Launch::Spawn] {
        let mut launch = start;
        assert!(!launch.advance(false, None));
        assert_eq!(launch, Launch::Finished(None));
    }
    let mut launch = Launch::TakeForeground;
    assert!(launch.advance(false, None));
    assert_eq!(launch, Launch::Finished(None));
    for start in [Launch::Continue, Launch::Await] {
        let mut launch = start;
        assert!(launch.advance(false, None));
        assert_eq!(launch, Launch::RestoreForeground(None));
        assert!(!launch.advance(true, None));
        assert_eq!(launch, Launch::Finished(None));
    }
}
