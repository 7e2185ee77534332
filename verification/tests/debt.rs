use loan_wallet::handlers::debts::{debt_totals, debt_totals_checked};
use loan_wallet::models::debt::{Debt, DebtSource, DebtStatus, Installment, Payment};
use loan_wallet::models::money::Currency;

const NOW: i64 = 1_781_496_000;

fn inst(due: i64, amount: i64) -> Installment {
    Installment { due_date: due, amount_minor: amount, paid: false, due_notified_at: None, overdue_notified_at: None }
}

fn debt(amount: i64) -> Debt {
    Debt::new("d".to_string(), "c".to_string(), amount, Currency::Uzs, "обед".to_string(), DebtSource::Manual, &uuid::Uuid::now_v7(), NOW)
}

#[test]
fn new_debt_is_confirmed_and_empty() {
    let d = debt(500);
    assert_eq!(d.status, DebtStatus::Confirmed);
    assert!(d.payments.is_empty() && d.installments.is_empty());
    assert_eq!(d.remaining_minor(), 500);
    assert_eq!(d.total_paid_minor(), 0);
}

#[test]
fn payments_cover_earliest_instalments_first() {
    let mut d = debt(300);
    d.installments = vec![inst(300, 100), inst(100, 100), inst(200, 100)];
    d.payments.push(Payment { amount_minor: 150, at: 0, note: None });
    d.recompute_installment_status();
    let paid: Vec<bool> = d.installments.iter().map(|i| i.paid).collect();
    assert_eq!(paid, vec![false, true, false]);
    assert_eq!(d.installments[0].due_date, 300);
}

#[test]
fn recording_payments_caps_and_settles() {
    let mut d = debt(300);
    d.installments = vec![inst(100, 150), inst(200, 150)];
    assert!(d.can_record_payment(100));
    assert_eq!(d.record_payment(100, 7), 100);
    assert_eq!(d.remaining_minor(), 200);
    assert_eq!(d.status, DebtStatus::Confirmed);
    assert_eq!(d.record_payment(1000, 9), 200);
    assert_eq!(d.remaining_minor(), 0);
    assert_eq!(d.status, DebtStatus::Settled);
    assert_eq!(d.settled_at, Some(9));
    assert!(d.installments.iter().all(|i| i.paid));
}

#[test]
fn forgiving_closes_the_debt() {
    let mut d = debt(300);
    d.forgive(42);
    assert_eq!(d.status, DebtStatus::Forgiven);
    assert_eq!(d.settled_at, Some(42));
}

#[test]
fn overflowing_sums_are_detected() {
    let mut d = debt(i64::MAX);
    d.payments.push(Payment { amount_minor: -5, at: 0, note: None });
    assert!(!d.sums_fit());
    let ok = debt(10);
    assert!(ok.sums_fit());
}

#[test]
fn list_totals_count_what_is_left_of_active_debts() {
    let mut a = Debt::new("me".to_string(), "x".to_string(), 500, Currency::Uzs, String::new(), DebtSource::Manual, &uuid::Uuid::now_v7(), NOW);
    a.payments.push(Payment { amount_minor: 200, at: 0, note: None });
    let b = Debt::new("y".to_string(), "me".to_string(), 700, Currency::Usd, String::new(), DebtSource::Manual, &uuid::Uuid::now_v7(), NOW);
    let mut c = Debt::new("z".to_string(), "me".to_string(), 900, Currency::Usd, String::new(), DebtSource::Manual, &uuid::Uuid::now_v7(), NOW);
    c.forgive(10);
    let ds = vec![a, b, c];
    assert_eq!(debt_totals(&ds, &"me".to_string()), (700, 300));
    assert_eq!(debt_totals_checked(&ds, &"me".to_string()), Some((700, 300)));
    let big = vec![
        Debt::new("y".to_string(), "me".to_string(), i64::MAX, Currency::Usd, String::new(), DebtSource::Manual, &uuid::Uuid::now_v7(), NOW),
        Debt::new("z".to_string(), "me".to_string(), 1, Currency::Usd, String::new(), DebtSource::Manual, &uuid::Uuid::now_v7(), NOW),
    ];
    assert_eq!(debt_totals_checked(&big, &"me".to_string()), None);
}
