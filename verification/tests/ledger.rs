use optionledger::models::LedgerError;
use optionledger::store::Ledger;

#[test]
fn created_user_is_listed_once_with_fresh_id() {
    let mut l = Ledger::new();
    let u = l.create_user("alice".to_string()).unwrap();
    assert_eq!(u.id, 1);
    assert_eq!(u.name, "alice");
    let users = l.list_users();
    assert_eq!(users.len(), 1);
    assert_eq!(users[0].id, 1);
    assert_eq!(users[0].name, "alice");
    let v = l.create_user("bob".to_string()).unwrap();
    assert_eq!(v.id, 2);
    let names: Vec<String> = l.list_users().iter().map(|x| x.name.clone()).collect();
    assert_eq!(names.iter().filter(|n| n.as_str() == "alice").count(), 1);
}

#[test]
fn duplicate_user_name_is_a_constraint_violation() {
    let mut l = Ledger::new();
    l.create_user("alice".to_string()).unwrap();
    let r = l.create_user("alice".to_string());
    assert_eq!(r, Err(LedgerError::ConstraintViolation));
    assert_eq!(l.list_users().len(), 1);
}

#[test]
fn empty_user_name_is_a_validation_error() {
    let mut l = Ledger::new();
    let r = l.create_user(String::new());
    assert_eq!(r, Err(LedgerError::ValidationError));
    assert!(l.list_users().is_empty());
}

#[test]
fn invalid_option_kind_is_rejected_and_nothing_is_persisted() {
    let mut l = Ledger::new();
    for kind in ["CALL", "Put", "straddle", "", "call ", "cal"] {
        let r = l.create_option(
            "AAPL".to_string(),
            kind.to_string(),
            150.0f64.to_bits(),
            "2027-01-15".to_string(),
        );
        assert_eq!(r, Err(LedgerError::ValidationError));
        assert!(l.list_options().is_empty());
    }
}

#[test]
fn call_and_put_options_are_created_in_order() {
    let mut l = Ledger::new();
    let strike = 150.25f64;
    let a = l
        .create_option(
            "AAPL".to_string(),
            "call".to_string(),
            strike.to_bits(),
            "2027-01-15".to_string(),
        )
        .unwrap();
    let b = l
        .create_option(
            "MSFT".to_string(),
            "put".to_string(),
            300.0f64.to_bits(),
            "2026-06-19".to_string(),
        )
        .unwrap();
    assert_eq!(a.id, 1);
    assert_eq!(b.id, 2);
    assert_eq!(a.option_type, "call");
    assert_eq!(b.option_type, "put");
    assert_eq!(f64::from_bits(a.strike), 150.25);
    let options = l.list_options();
    assert_eq!(options.len(), 2);
    assert_eq!(options[0].symbol, "AAPL");
    assert_eq!(options[1].symbol, "MSFT");
}

#[test]
fn empty_expiration_is_a_validation_error() {
    let mut l = Ledger::new();
    let r = l.create_option(
        "AAPL".to_string(),
        "call".to_string(),
        100.0f64.to_bits(),
        String::new(),
    );
    assert_eq!(r, Err(LedgerError::ValidationError));
    assert!(l.list_options().is_empty());
}

fn small_ledger() -> Ledger {
    let mut l = Ledger::new();
    l.create_user("alice".to_string()).unwrap();
    l.create_user("bob".to_string()).unwrap();
    l.create_option(
        "AAPL".to_string(),
        "call".to_string(),
        150.0f64.to_bits(),
        "2027-01-15".to_string(),
    )
    .unwrap();
    l.create_option(
        "MSFT".to_string(),
        "put".to_string(),
        300.0f64.to_bits(),
        "2026-06-19".to_string(),
    )
    .unwrap();
    l
}

#[test]
fn nonpositive_quantity_deletes_regardless_of_prior_state() {
    let mut l = small_ledger();
    assert_eq!(l.set_ownership(1, 1, 0), Ok(()));
    assert!(l.get_ownerships().is_empty());
    l.set_ownership(1, 1, 9).unwrap();
    assert_eq!(l.get_ownerships().len(), 1);
    assert_eq!(l.set_ownership(1, 1, 0), Ok(()));
    assert!(l.get_ownerships().is_empty());
    l.set_ownership(1, 1, 9).unwrap();
    assert_eq!(l.set_ownership(1, 1, -5), Ok(()));
    assert!(l.get_ownerships().is_empty());
    // Never an error, even when neither id exists.
    assert_eq!(l.set_ownership(77, 88, 0), Ok(()));
    assert_eq!(l.set_ownership(77, 88, -5), Ok(()));
}

#[test]
fn second_set_overwrites_instead_of_accumulating() {
    let mut l = small_ledger();
    l.set_ownership(1, 1, 5).unwrap();
    l.set_ownership(1, 1, 3).unwrap();
    let owns = l.get_ownerships();
    assert_eq!(owns.len(), 1);
    assert_eq!(owns[0].user_id, 1);
    assert_eq!(owns[0].option_id, 1);
    assert_eq!(owns[0].quantity, 3);
}

#[test]
fn positive_set_for_missing_ids_is_not_found() {
    let mut l = small_ledger();
    assert_eq!(l.set_ownership(99, 1, 5), Err(LedgerError::NotFound));
    assert_eq!(l.set_ownership(1, 99, 5), Err(LedgerError::NotFound));
    assert!(l.get_ownerships().is_empty());
}

#[test]
fn deleting_a_user_cascades_to_its_ownerships() {
    let mut l = small_ledger();
    l.set_ownership(1, 1, 5).unwrap();
    l.set_ownership(1, 2, 2).unwrap();
    l.set_ownership(2, 1, 7).unwrap();
    l.delete_user(1);
    let users = l.list_users();
    assert_eq!(users.len(), 1);
    assert_eq!(users[0].name, "bob");
    let owns = l.get_ownerships();
    assert!(owns.iter().all(|w| w.user_id != 1));
    assert_eq!(owns.len(), 1);
    assert_eq!((owns[0].user_id, owns[0].option_id, owns[0].quantity), (2, 1, 7));
}

#[test]
fn deleting_an_option_cascades_to_its_ownerships() {
    let mut l = small_ledger();
    l.set_ownership(1, 1, 5).unwrap();
    l.set_ownership(2, 2, 4).unwrap();
    l.delete_option(2);
    let options = l.list_options();
    assert_eq!(options.len(), 1);
    assert_eq!(options[0].symbol, "AAPL");
    let owns = l.get_ownerships();
    assert!(owns.iter().all(|w| w.option_id != 2));
    assert_eq!(owns.len(), 1);
}

#[test]
fn deleting_an_absent_id_is_a_no_op() {
    let mut l = small_ledger();
    l.delete_user(42);
    l.delete_option(42);
    assert_eq!(l.list_users().len(), 2);
    assert_eq!(l.list_options().len(), 2);
}

#[test]
fn ownerships_are_listed_by_option_then_user() {
    let mut l = small_ledger();
    l.set_ownership(2, 2, 1).unwrap();
    l.set_ownership(1, 2, 2).unwrap();
    l.set_ownership(2, 1, 3).unwrap();
    l.set_ownership(1, 1, 4).unwrap();
    let keys: Vec<(i64, i64)> = l.get_ownerships().iter().map(|w| (w.option_id, w.user_id)).collect();
    assert_eq!(keys, vec![(1, 1), (1, 2), (2, 1), (2, 2)]);
}

#[test]
fn net_effect_is_independent_of_interleaving() {
    // The same independent creations and writes, in two different orders.
    let mut a = Ledger::new();
    a.create_user("alice".to_string()).unwrap();
    a.create_user("bob".to_string()).unwrap();
    a.create_option(
        "AAPL".to_string(),
        "call".to_string(),
        150.0f64.to_bits(),
        "2027-01-15".to_string(),
    )
    .unwrap();
    a.set_ownership(1, 1, 5).unwrap();
    a.set_ownership(2, 1, 8).unwrap();

    let mut b = Ledger::new();
    b.create_user("alice".to_string()).unwrap();
    b.create_user("bob".to_string()).unwrap();
    b.create_option(
        "AAPL".to_string(),
        "call".to_string(),
        150.0f64.to_bits(),
        "2027-01-15".to_string(),
    )
    .unwrap();
    b.set_ownership(2, 1, 8).unwrap();
    b.set_ownership(1, 1, 5).unwrap();

    assert_eq!(a.list_users(), b.list_users());
    assert_eq!(a.list_options(), b.list_options());
    assert_eq!(a.get_ownerships(), b.get_ownerships());
}

#[test]
fn creates_and_deletes_leave_exactly_the_net_entries() {
    let mut l = Ledger::new();
    l.create_user("alice".to_string()).unwrap();
    l.create_user("bob".to_string()).unwrap();
    l.create_user("carol".to_string()).unwrap();
    l.delete_user(2);
    let names: Vec<String> = l.list_users().iter().map(|x| x.name.clone()).collect();
    assert_eq!(names, vec!["alice".to_string(), "carol".to_string()]);
    // The freed name may be used again, under a fresh id.
    let again = l.create_user("bob".to_string()).unwrap();
    assert_eq!(again.id, 4);
    let ids: Vec<i64> = l.list_users().iter().map(|x| x.id).collect();
    assert_eq!(ids, vec![1, 3, 4]);
}
