use opp::spawn::{cvt_spawn, drain_terminal, spawn_plan, DrainAction, DrainRead};

#[test]
fn plans_hold_what_the_system_takes() {
    let arguments = vec![b"item".to_vec(), Vec::new()];
    let environment = vec![
        (b"A".to_vec(), b"1".to_vec()),
        (b"B".to_vec(), b"x=y".to_vec()),
    ];
    let plan = spawn_plan("/bin/op", &arguments, &environment, b"/work").unwrap();
    assert_eq!(plan.executable, b"/bin/op".to_vec());
    assert_eq!(plan.cwd, b"/work".to_vec());
    assert_eq!(
        plan.arguments,
        vec![b"/bin/op".to_vec(), b"item".to_vec(), Vec::new()]
    );
    assert_eq!(
        plan.environment,
        vec![b"A=1".to_vec(), b"B=x=y".to_vec()]
    );
}

#[test]
fn no_part_of_a_plan_holds_nul() {
    let none: Vec<Vec<u8>> = Vec::new();
    let empty: Vec<(Vec<u8>, Vec<u8>)> = Vec::new();
    assert!(spawn_plan("/op", &none, &empty, b"/").is_ok());
    for plan in [
        spawn_plan("/o\0p", &none, &empty, b"/"),
        spawn_plan("/op", &vec![vec![0]], &empty, b"/"),
        spawn_plan("/op", &none, &vec![(vec![0], Vec::new())], b"/"),
        spawn_plan("/op", &none, &vec![(vec![b'a'], vec![0])], b"/"),
        spawn_plan("/op", &none, &empty, b"/\0"),
    ] {
        assert_eq!(plan.err(), Some("process value contains NUL"));
    }
}

#[test]
fn spawn_results_are_converted() {
    assert_eq!(cvt_spawn(0), Ok(()));
    assert_eq!(cvt_spawn(13), Err(13));
}

#[test]
fn the_terminal_is_drained_until_it_is_closed() {
    assert_eq!(drain_terminal(DrainRead::Bytes(5)), DrainAction::Read);
    assert_eq!(drain_terminal(DrainRead::Bytes(0)), DrainAction::Stop);
    assert_eq!(drain_terminal(DrainRead::WouldBlock), DrainAction::Pause);
    assert_eq!(
        drain_terminal(DrainRead::Failed(libc::EIO)),
        DrainAction::Pause
    );
    assert_eq!(
        drain_terminal(DrainRead::Failed(libc::EBADF)),
        DrainAction::Stop
    );
}
