use opp::account::Account;
use opp::environment::{
    configuration_value, has_configuration_value, is_removed, remove, system_path,
    ClientContext,
};

fn entry(key: &str, value: &str) -> (Vec<u8>, Vec<u8>) {
    (key.as_bytes().to_vec(), value.as_bytes().to_vec())
}

fn named(selector: &str) -> Account {
    Account(Some(String::from(selector)))
}

#[test]
fn sanitizes_sensitive_variables() {
    let context = ClientContext {
        cwd: b"/tmp".to_vec(),
        environment: vec![
            (b"KEEP".to_vec(), b"yes".to_vec()),
            (b"OP_SESSION_work".to_vec(), b"secret".to_vec()),
            (b"OPP_PRIVATE".to_vec(), b"secret".to_vec()),
            (b"OP_ACCOUNT".to_vec(), b"old".to_vec()),
        ],
    };
    let result = context.sanitized(&Account(Some(String::from("new"))));
    assert!(result
        .iter()
        .any(|entry| entry == &(b"KEEP".to_vec(), b"yes".to_vec())));
    assert!(result
        .iter()
        .any(|entry| entry == &(b"OP_ACCOUNT".to_vec(), b"new".to_vec())));
    assert!(!result.iter().any(|(key, _)| key.starts_with(b"OP_SESSION")));
    assert!(!result.iter().any(|(key, _)| key.starts_with(b"OPP_")));
}

#[test]
fn sanitizing_gives_an_exact_environment() {
    let context = ClientContext {
        cwd: b"/tmp".to_vec(),
        environment: vec![
            entry("OP_ACCOUNT", "old"),
            entry("B", "1"),
            entry("OP_BIOMETRIC_UNLOCK_ENABLED", "false"),
            entry("OP_SESSION", "x"),
            entry("A", "2"),
            entry("OP_SESSIONS", "kept"),
            entry("OP_CONNECT_HOST", "x"),
            entry("OP_CONNECT_TOKEN", "x"),
            entry("OP_SERVICE_ACCOUNT_TOKEN", "x"),
            entry("OPP_", "x"),
            entry("B", "3"),
        ],
    };
    let expected = vec![
        entry("B", "1"),
        entry("A", "2"),
        entry("OP_SESSIONS", "kept"),
        entry("B", "3"),
        entry("OP_BIOMETRIC_UNLOCK_ENABLED", "true"),
    ];
    assert_eq!(context.sanitized(&Account(None)), expected);
    let mut selected = expected;
    selected.push(entry("OP_ACCOUNT", "work"));
    assert_eq!(context.sanitized(&named("work")), selected);
    let again = ClientContext {
        cwd: b"/".to_vec(),
        environment: selected.clone(),
    };
    assert_eq!(again.sanitized(&named("work")), selected);
}

#[test]
fn set_and_remove_touch_one_variable() {
    let mut environment = vec![entry("A", "1"), entry("B", "2"), entry("A", "3")];
    opp::environment::set(&mut environment, b"A", b"4");
    assert_eq!(environment, vec![entry("B", "2"), entry("A", "4")]);
    remove(&mut environment, b"B");
    assert_eq!(environment, vec![entry("A", "4")]);
    remove(&mut environment, b"C");
    assert_eq!(environment, vec![entry("A", "4")]);
}

#[test]
fn removed_variables_are_matched_exactly() {
    for key in [
        "OP_SESSION",
        "OP_SESSION_",
        "OP_SESSION_x",
        "OP_SERVICE_ACCOUNT_TOKEN",
        "OP_CONNECT_HOST",
        "OP_CONNECT_TOKEN",
        "OPP_",
        "OPP_X",
    ] {
        assert!(is_removed(key.as_bytes()), "kept {key}");
    }
    for key in ["OP_SESSIONX", "OPP", "OP_CONNECT_HOSTS", "op_session", ""] {
        assert!(!is_removed(key.as_bytes()), "removed {key}");
    }
}

#[test]
fn a_relative_directory_is_not_captured() {
    assert!(ClientContext::capture(b"tmp".to_vec(), Vec::new()).is_none());
    assert!(ClientContext::capture(Vec::new(), Vec::new()).is_none());
    let context = ClientContext::capture(b"/tmp".to_vec(), vec![entry("A", "1")]).unwrap();
    assert_eq!(context.cwd, b"/tmp".to_vec());
    assert_eq!(context.environment, vec![entry("A", "1")]);
}

#[test]
fn configuration_strings_lose_their_terminator() {
    assert!(!has_configuration_value(0));
    assert!(!has_configuration_value(1));
    assert!(has_configuration_value(2));
    assert_eq!(
        configuration_value(b"/bin\0".to_vec(), 5),
        Some(b"/bin".to_vec())
    );
    assert_eq!(configuration_value(b"/bin\0".to_vec(), 0), None);
    assert_eq!(configuration_value(b"/bin\0".to_vec(), 6), None);
    assert_eq!(
        system_path(None),
        b"/usr/bin:/bin:/usr/sbin:/sbin".to_vec()
    );
    assert_eq!(system_path(Some(b"/bin".to_vec())), b"/bin".to_vec());
}
