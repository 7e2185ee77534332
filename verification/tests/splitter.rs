use loan_wallet::models::room::RoomItem;
use loan_wallet::models::money::Currency;
use loan_wallet::services::splitter::{simplify, split_item};
use std::collections::HashMap;

fn item(price: i64, selected: &[&str]) -> RoomItem {
    RoomItem {
        id: "x".into(),
        room_id: "r".into(),
        name: "x".into(),
        unit: None,
        total_price_minor: price,
        selected_by: selected.iter().map(|s| s.to_string()).collect(),
        created_at: 0,
    }
}

#[test]
fn splits_evenly() {
    let shares = split_item(&item(900, &["a", "b", "c"]));
    assert_eq!(shares.iter().map(|s| s.amount_minor).sum::<i64>(), 900);
    for s in &shares {
        assert_eq!(s.amount_minor, 300);
    }
}

#[test]
fn splits_with_remainder() {
    let shares = split_item(&item(1000, &["b", "a", "c"]));
    assert_eq!(shares.iter().map(|s| s.amount_minor).sum::<i64>(), 1000);
    assert_eq!(shares[0].user_id, "a");
}

#[test]
fn empty_selection_no_shares() {
    let shares = split_item(&item(1000, &[]));
    assert!(shares.is_empty());
}

#[test]
fn whole_remainder_goes_to_the_first_id() {
    let shares = split_item(&item(1001, &["c", "a", "b"]));
    let got: Vec<(String, i64)> = shares.iter().map(|s| (s.user_id.clone(), s.amount_minor)).collect();
    assert_eq!(got, vec![("a".to_string(), 335), ("b".to_string(), 333), ("c".to_string(), 333)]);
    let shares = split_item(&item(1003, &["d", "b", "c", "a"]));
    let amounts: Vec<i64> = shares.iter().map(|s| s.amount_minor).collect();
    assert_eq!(amounts, vec![253, 250, 250, 250]);
}

#[test]
fn remainder_goes_to_first_ids_in_order() {
    let shares = split_item(&item(1001, &["d", "b", "c", "a"]));
    let got: Vec<(String, i64)> = shares.iter().map(|s| (s.user_id.clone(), s.amount_minor)).collect();
    assert_eq!(
        got,
        vec![("a".to_string(), 251), ("b".to_string(), 250), ("c".to_string(), 250), ("d".to_string(), 250)]
    );
    assert!(split_item(&item(0, &["a"])).is_empty());
    assert!(split_item(&item(-5, &["a"])).is_empty());
}

#[test]
fn simplifies_chain() {
    let mut bal = HashMap::new();
    bal.insert("A".to_string(), -100);
    bal.insert("B".to_string(), 0);
    bal.insert("C".to_string(), 100);
    let xs = simplify(bal, Currency::Uzs);
    assert_eq!(xs.len(), 1);
    assert_eq!(xs[0].from_user_id, "A");
    assert_eq!(xs[0].to_user_id, "C");
    assert_eq!(xs[0].amount_minor, 100);
}

#[test]
fn simplify_zeroes_every_balance() {
    let mut bal = HashMap::new();
    bal.insert("A".to_string(), -70);
    bal.insert("B".to_string(), -50);
    bal.insert("C".to_string(), 80);
    bal.insert("D".to_string(), 40);
    let xs = simplify(bal.clone(), Currency::Rub);
    let mut left = bal.clone();
    for t in &xs {
        assert!(t.amount_minor > 0);
        *left.get_mut(&t.from_user_id).unwrap() += t.amount_minor;
        *left.get_mut(&t.to_user_id).unwrap() -= t.amount_minor;
    }
    assert!(left.values().all(|v| *v == 0));
    assert_eq!(xs[0].from_user_id, "A");
    assert_eq!(xs[0].to_user_id, "C");
    assert_eq!(xs[0].amount_minor, 70);
}
