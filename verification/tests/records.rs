use opp::account::Account;
use opp::records::{ActiveAuthorization, AuthorizationRecord, Records};

fn active(hard_deadline: u64, next_probe_deadline: u64) -> AuthorizationRecord {
    AuthorizationRecord::Active(ActiveAuthorization {
        authorized_at: 0,
        hard_expires_at: 0,
        hard_deadline,
        next_probe_at: 0,
        next_probe_deadline,
    })
}

fn named(selector: &str) -> Account {
    Account(Some(String::from(selector)))
}

#[test]
fn records_are_replaced_expired_and_forgotten() {
    let mut records = Records::new();
    assert_eq!(records.get(&Account(None)), None);
    records.insert(named("a"), active(10, 5));
    records.insert(named("b"), active(20, 5));
    records.insert(Account(None), AuthorizationRecord::Required);
    records.insert(named("a"), active(15, 5));
    assert_eq!(records.get(&named("a")), Some(active(15, 5)));
    assert!(!records.is_active(&Account(None)));
    records.expire(14);
    assert!(records.is_active(&named("a")));
    records.expire(15);
    assert_eq!(
        records.get(&named("a")),
        Some(AuthorizationRecord::Required)
    );
    assert!(records.is_active(&named("b")));
    records.invalidate_all();
    assert_eq!(
        records.get(&named("b")),
        Some(AuthorizationRecord::Required)
    );
    records.clear();
    assert_eq!(records.get(&named("b")), None);
}

#[test]
fn the_first_deadline_sets_the_wait() {
    let mut records = Records::new();
    assert_eq!(records.next_wait(0), 100_000_000);
    records.insert(named("a"), AuthorizationRecord::Required);
    assert_eq!(records.next_wait(0), 100_000_000);
    records.insert(named("b"), active(900, 700));
    records.insert(named("c"), active(600, 800));
    assert_eq!(records.next_wait(100), 500);
    assert_eq!(records.next_wait(601), 0);
    assert!(records.due_maintenance(699).is_none());
    assert!(records.due_maintenance(700).unwrap().same(&named("b")));
}
