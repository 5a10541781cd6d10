use optionledger::store::Ledger;

#[test]
fn matrix_with_one_ownership_fills_its_cell_and_zeroes_the_rest() {
    let mut l = Ledger::new();
    l.create_user("alice".to_string()).unwrap();
    l.create_user("bob".to_string()).unwrap();
    l.create_option(
        "AAPL".to_string(),
        "call".to_string(),
        150.0f64.to_bits(),
        "2027-01-15".to_string(),
    )
    .unwrap();
    l.set_ownership(1, 1, 7).unwrap();
    let m = l.get_matrix_view();
    let user_ids: Vec<i64> = m.users.iter().map(|u| u.id).collect();
    assert_eq!(user_ids, vec![1, 2]);
    assert_eq!(m.rows.len(), 1);
    assert_eq!(m.rows[0].option.id, 1);
    assert_eq!(m.rows[0].option.symbol, "AAPL");
    assert_eq!(m.rows[0].quantities, vec![7, 0]);
}

#[test]
fn matrix_with_zero_options_has_no_rows_and_the_full_user_list() {
    let mut l = Ledger::new();
    l.create_user("alice".to_string()).unwrap();
    l.create_user("bob".to_string()).unwrap();
    let m = l.get_matrix_view();
    assert!(m.rows.is_empty());
    assert_eq!(m.users, l.list_users());
}

#[test]
fn matrix_with_zero_users_has_empty_rows() {
    let mut l = Ledger::new();
    l.create_option(
        "AAPL".to_string(),
        "call".to_string(),
        150.0f64.to_bits(),
        "2027-01-15".to_string(),
    )
    .unwrap();
    let m = l.get_matrix_view();
    assert!(m.users.is_empty());
    assert_eq!(m.rows.len(), 1);
    assert!(m.rows[0].quantities.is_empty());
}

#[test]
fn matrix_rows_and_columns_follow_creation_order() {
    let mut l = Ledger::new();
    l.create_user("alice".to_string()).unwrap();
    l.create_user("bob".to_string()).unwrap();
    l.create_user("carol".to_string()).unwrap();
    l.create_option(
        "AAPL".to_string(),
        "call".to_string(),
        150.0f64.to_bits(),
        "2027-01-15".to_string(),
    )
    .unwrap();
    l.create_option(
        "MSFT".to_string(),
        "put".to_string(),
        300.0f64.to_bits(),
        "2026-06-19".to_string(),
    )
    .unwrap();
    l.set_ownership(1, 1, 5).unwrap();
    l.set_ownership(3, 1, 2).unwrap();
    l.set_ownership(2, 2, 9).unwrap();
    let m = l.get_matrix_view();
    assert_eq!(m.rows.len(), 2);
    assert_eq!(m.rows[0].option.symbol, "AAPL");
    assert_eq!(m.rows[1].option.symbol, "MSFT");
    assert_eq!(m.rows[0].quantities, vec![5, 0, 2]);
    assert_eq!(m.rows[1].quantities, vec![0, 9, 0]);
}

#[test]
fn matrix_reflects_cascaded_deletion() {
    let mut l = Ledger::new();
    l.create_user("alice".to_string()).unwrap();
    l.create_user("bob".to_string()).unwrap();
    l.create_option(
        "AAPL".to_string(),
        "call".to_string(),
        150.0f64.to_bits(),
        "2027-01-15".to_string(),
    )
    .unwrap();
    l.set_ownership(1, 1, 7).unwrap();
    l.set_ownership(2, 1, 3).unwrap();
    l.delete_user(1);
    let m = l.get_matrix_view();
    let user_ids: Vec<i64> = m.users.iter().map(|u| u.id).collect();
    assert_eq!(user_ids, vec![2]);
    assert_eq!(m.rows[0].quantities, vec![3]);
}
