use opp::cli::{
    has_help, parse, parse_exec, parse_start, parse_status, parse_stop, reject_account_override,
    Action, Invocation, EXEC_HELP, ROOT_HELP, START_HELP, STATUS_HELP, STOP_HELP,
};

fn words(arguments: &[&str]) -> Vec<Vec<u8>> {
    arguments
        .iter()
        .map(|argument| argument.as_bytes().to_vec())
        .collect()
}

fn error(action: Result<Action, &'static str>) -> &'static str {
    match action {
        Ok(action) => panic!("accepted {action:?}"),
        Err(message) => message,
    }
}

fn help(action: Result<Action, &'static str>) -> &'static str {
    match action {
        Ok(Action::Help(text)) => text,
        other => panic!("no help but {other:?}"),
    }
}

#[test]
fn rejects_only_account_options_before_inner_separator() {
    assert!(reject_account_override(&[b"item".to_vec(), b"--account=x".to_vec()]).is_err());
    assert!(
        reject_account_override(&[b"run".to_vec(), b"--".to_vec(), b"--account=x".to_vec(),])
            .is_ok()
    );
}

#[test]
fn enforces_raw_argument_limits_before_connecting() {
    let mut maximum_count = vec![b"--".to_vec()];
    maximum_count.extend((0..256).map(|_| Vec::new()));
    assert!(parse_exec(&maximum_count).is_ok());
    maximum_count.push(Vec::new());
    assert!(parse_exec(&maximum_count).is_err());

    let maximum_bytes = [b"--".to_vec(), vec![b'x'; 65_536]];
    assert!(parse_exec(&maximum_bytes).is_ok());
    let too_many_bytes = [b"--".to_vec(), vec![b'x'; 65_537]];
    assert!(parse_exec(&too_many_bytes).is_err());
    let nul = [b"--".to_vec(), vec![b'x', 0]];
    assert!(parse_exec(&nul).is_err());
}

#[test]
fn each_limit_has_its_message() {
    let mut many = words(&["--"]);
    many.extend((0..257).map(|_| Vec::new()));
    assert_eq!(
        error(parse_exec(&many)),
        "exec accepts at most 256 op arguments"
    );
    assert_eq!(
        error(parse_exec(&[b"--".to_vec(), vec![b'x'; 65_537]])),
        "op arguments exceed 65,536 bytes"
    );
    assert_eq!(
        error(parse_exec(&[b"--".to_vec(), vec![0]])),
        "op arguments must not contain NUL"
    );
    assert_eq!(
        error(parse_exec(&words(&["--", "item", "--account"]))),
        "proxied op arguments may not override the selected account"
    );
}

#[test]
fn account_overrides_are_matched_exactly() {
    for argument in ["--account", "--account=", "--account=x"] {
        assert!(reject_account_override(&words(&[argument])).is_err());
    }
    for argument in ["--accounts", "-account", "account", "--Account"] {
        assert!(reject_account_override(&words(&[argument])).is_ok());
    }
    assert!(reject_account_override(&[]).is_ok());
    assert!(reject_account_override(&words(&["a", "--account", "--"])).is_err());
}

#[test]
fn commands_have_their_help() {
    assert_eq!(help(parse(&words(&["--help"]))), ROOT_HELP);
    assert_eq!(help(parse(&words(&["start", "--help"]))), START_HELP);
    assert_eq!(help(parse(&words(&["status", "x", "--help"]))), STATUS_HELP);
    assert_eq!(help(parse(&words(&["stop", "--help"]))), STOP_HELP);
    assert_eq!(help(parse(&words(&["exec", "--help"]))), EXEC_HELP);
    assert_eq!(help(parse(&words(&["exec", "--help", "--", "a"]))), EXEC_HELP);
    assert!(matches!(
        parse(&words(&["exec", "--", "--help"])),
        Ok(Action::Exec { .. })
    ));
    assert!(has_help(&words(&["a", "--help"])));
    assert!(!has_help(&words(&["a", "--helps"])));
}

#[test]
fn unknown_commands_are_refused() {
    assert_eq!(error(parse(&[])), "a command is required");
    for arguments in [
        words(&["--help", "x"]),
        words(&["--version", "x"]),
        words(&["Start"]),
        vec![vec![0xff]],
    ] {
        assert_eq!(error(parse(&arguments)), "unknown command or option");
    }
    assert!(matches!(
        parse(&words(&["--version"])),
        Ok(Action::Version)
    ));
}

#[test]
fn start_takes_each_option_once() {
    match parse_start(&words(&["--op", "/bin/op", "--account", "a"])) {
        Ok(Action::Start { account, op }) => {
            assert_eq!(account, Some(b"a".to_vec()));
            assert_eq!(op, Some(b"/bin/op".to_vec()));
        }
        other => panic!("{other:?}"),
    }
    assert!(matches!(
        parse_start(&[]),
        Ok(Action::Start {
            account: None,
            op: None
        })
    ));
    assert_eq!(
        error(parse_start(&words(&["--account"]))),
        "--account requires a value"
    );
    assert_eq!(error(parse_start(&words(&["--op"]))), "--op requires a value");
    for arguments in [
        words(&["--account", "a", "--account", "b"]),
        words(&["--op", "/a", "--op", "/b"]),
        words(&["x"]),
    ] {
        assert_eq!(error(parse_start(&arguments)), "invalid start option");
    }
}

#[test]
fn status_and_stop_take_little() {
    assert!(matches!(
        parse_status(&[]),
        Ok(Action::Status { account: None })
    ));
    match parse_status(&words(&["--account", "a"])) {
        Ok(Action::Status { account }) => assert_eq!(account, Some(b"a".to_vec())),
        other => panic!("{other:?}"),
    }
    assert_eq!(
        error(parse_status(&words(&["--account"]))),
        "invalid status option"
    );
    assert_eq!(
        error(parse_status(&words(&["--op", "a"]))),
        "invalid status option"
    );
    assert!(matches!(parse_stop(&[]), Ok(Action::Stop)));
    assert_eq!(
        error(parse_stop(&words(&["x"]))),
        "stop accepts no options"
    );
}

#[test]
fn exec_passes_its_arguments_on() {
    match parse_exec(&words(&[
        "--timeout",
        "1.5s",
        "--account",
        "a",
        "--",
        "run",
        "--",
        "--account=child",
    ])) {
        Ok(Action::Exec {
            account,
            timeout,
            arguments,
        }) => {
            assert_eq!(account, Some(b"a".to_vec()));
            assert_eq!(timeout, 1_500_000_000);
            assert_eq!(arguments, words(&["run", "--", "--account=child"]));
        }
        other => panic!("{other:?}"),
    }
    match parse_exec(&words(&["--"])) {
        Ok(Action::Exec {
            account,
            timeout,
            arguments,
        }) => {
            assert_eq!(account, None);
            assert_eq!(timeout, 120_000_000_000);
            assert!(arguments.is_empty());
        }
        other => panic!("{other:?}"),
    }
}

#[test]
fn exec_options_have_their_messages() {
    for (arguments, message) in [
        (words(&["a"]), "exec requires the -- separator"),
        (words(&["--account", "--"]), "--account requires a value"),
        (words(&["--timeout", "--"]), "--timeout requires a value"),
        (words(&["--timeout", "1", "--"]), "invalid timeout duration"),
        (words(&["x", "--"]), "invalid exec option"),
        (
            words(&["--timeout", "2s", "--timeout", "3s", "--"]),
            "invalid exec option",
        ),
        (
            vec![b"--timeout".to_vec(), vec![0xff], b"--".to_vec()],
            "timeout must be valid UTF-8",
        ),
    ] {
        assert_eq!(error(parse_exec(&arguments)), message);
    }
}

#[test]
fn the_program_does_what_its_arguments_say() {
    let run = |arguments: &[&str], account: Option<&[u8]>| {
        let mut all = words(&["opp"]);
        all.extend(words(arguments));
        opp::run(&all, account.map(<[u8]>::to_vec))
    };
    assert!(matches!(
        run(&["__opp_internal_broker_v1"], None),
        Invocation::Broker
    ));
    assert!(matches!(
        run(&["__opp_internal_broker_v1", "x"], None),
        Invocation::Exit(2)
    ));
    match run(&["--version"], None) {
        Invocation::Output(text) => assert_eq!(text, "opp 0.1.0\n"),
        other => panic!("{other:?}"),
    }
    match run(&["--help"], None) {
        Invocation::Output(text) => assert_eq!(text, ROOT_HELP),
        other => panic!("{other:?}"),
    }
    for invocation in [run(&[], None), opp::run(&[], None)] {
        match invocation {
            Invocation::Usage(text) => {
                assert_eq!(text, "opp: a command is required\nTry 'opp --help'.\n");
            }
            other => panic!("{other:?}"),
        }
    }
    match run(&["status"], Some(&[0xff])) {
        Invocation::Usage(text) => assert_eq!(
            text,
            "opp: account selectors must be valid UTF-8\nTry 'opp --help'.\n"
        ),
        other => panic!("{other:?}"),
    }
    match run(&["start", "--op", "/op"], Some(b"env")) {
        Invocation::Start { account, op } => {
            assert_eq!(account.0, Some(String::from("env")));
            assert_eq!(op, Some(b"/op".to_vec()));
        }
        other => panic!("{other:?}"),
    }
    match run(&["status", "--account", "option"], Some(b"env")) {
        Invocation::Status { account } => assert_eq!(account.0, Some(String::from("option"))),
        other => panic!("{other:?}"),
    }
    assert!(matches!(run(&["stop"], Some(&[0xff])), Invocation::Stop));
    match run(&["exec", "--", "whoami"], None) {
        Invocation::Exec {
            account,
            timeout,
            arguments,
        } => {
            assert_eq!(account.0, None);
            assert_eq!(timeout, 120_000_000_000);
            assert_eq!(arguments, words(&["whoami"]));
        }
        other => panic!("{other:?}"),
    }
}
