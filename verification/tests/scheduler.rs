use loan_wallet::models::debt::{Debt, DebtSource, DebtStatus, Installment};
use loan_wallet::models::money::Currency;
use loan_wallet::services::scheduler::{reminder_candidates, Reminder, ReminderKind};

const NOW: i64 = 1_781_496_000;

fn inst(due: i64) -> Installment {
    Installment { due_date: due, amount_minor: 10, paid: false, due_notified_at: None, overdue_notified_at: None }
}

#[test]
fn reminders_on_due_day_then_overdue_once_each() {
    let mut d = Debt::new("a".into(), "b".into(), 20, Currency::Uzs, String::new(), DebtSource::Manual, &uuid::Uuid::now_v7(), NOW);
    d.installments = vec![inst(1000), inst(1000 + 86_400 * 3)];
    assert!(d.take_reminders(999).is_empty());
    assert_eq!(d.take_reminders(1000), vec![Reminder { index: 0, kind: ReminderKind::Due }]);
    assert_eq!(d.installments[0].due_notified_at, Some(1000));
    assert!(d.take_reminders(2000).is_empty());
    assert_eq!(d.take_reminders(1000 + 86_400), vec![Reminder { index: 0, kind: ReminderKind::Overdue }]);
    assert!(d.take_reminders(1000 + 86_400 * 2).is_empty());
    d.installments[1].paid = true;
    assert!(d.take_reminders(1000 + 86_400 * 3).is_empty());
}

#[test]
fn candidates_once_per_id_and_active_with_schedule() {
    let mut a = Debt::new("a".into(), "b".into(), 20, Currency::Uzs, String::new(), DebtSource::Manual, &uuid::Uuid::now_v7(), NOW);
    a.installments = vec![inst(0)];
    let mut b = Debt::new("a".into(), "b".into(), 20, Currency::Uzs, String::new(), DebtSource::Manual, &uuid::Uuid::now_v7(), NOW);
    b.installments = vec![inst(0)];
    b.status = DebtStatus::Settled;
    let c = Debt::new("a".into(), "b".into(), 20, Currency::Uzs, String::new(), DebtSource::Manual, &uuid::Uuid::now_v7(), NOW);
    let a_id = a.id.clone();
    let list = vec![a.clone(), b, c, a];
    let got = reminder_candidates(list);
    assert_eq!(got.len(), 1);
    assert_eq!(got[0].id, a_id);
}
