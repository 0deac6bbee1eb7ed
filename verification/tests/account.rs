use opp::account::Account;

#[test]
fn explicit_selector_is_exact() {
    assert_eq!(
        Account::select(Some(b"Work.Example".to_vec()), None)
            .unwrap()
            .0,
        Some(String::from("Work.Example"))
    );
}

#[test]
fn invalid_utf8_is_rejected() {
    let value = vec![0xff];
    assert!(Account::select(Some(value), None).is_err());
}

#[test]
fn the_option_comes_before_the_environment() {
    let selected = |option: Option<&[u8]>, environment: Option<&[u8]>| {
        Account::select(option.map(<[u8]>::to_vec), environment.map(<[u8]>::to_vec))
            .map(|account| account.0)
    };
    assert_eq!(
        selected(Some(b"a"), Some(b"b")),
        Ok(Some(String::from("a")))
    );
    assert_eq!(selected(Some(b""), Some(b"b")), Ok(Some(String::from("b"))));
    assert_eq!(selected(None, Some(b"b")), Ok(Some(String::from("b"))));
    assert_eq!(selected(None, Some(b"")), Ok(None));
    assert_eq!(selected(None, None), Ok(None));
    assert_eq!(
        selected(None, Some(&[0xff])),
        Err("account selectors must be valid UTF-8")
    );
    assert_eq!(
        selected(Some(b"a"), Some(&[0xff])),
        Ok(Some(String::from("a")))
    );
}

#[test]
fn selectors_are_told_apart_letter_by_letter() {
    let work = Account(Some(String::from("work")));
    assert!(work.same(&work.clone()));
    assert!(!work.same(&Account(Some(String::from("Work")))));
    assert!(!work.same(&Account(None)));
    assert!(Account(None).same(&Account(None)));
    assert_eq!(work.explicit(), Some("work"));
    assert_eq!(Account(None).explicit(), None);
}
