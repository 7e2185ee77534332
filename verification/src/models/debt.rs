//! Debts, their payments and instalment schedules.
use crate::ids::{is_hyphenated_uuid, new_id};
use crate::models::money::{in_i64, Currency};
use vstd::prelude::*;

verus! {

/// Where a debt came from.
#[derive(Debug, Clone)]
pub enum DebtSource {
    Manual,
    FromRoom { room_id: String },
}

#[derive(Debug, Clone, Copy, PartialEq, Eq, Structural)]
pub enum DebtStatus {
    /// An active debt.
    Confirmed,
    /// Paid off in full.
    Settled,
    /// Disputed by the debtor.
    Disputed,
    /// Forgiven by the creditor.
    Forgiven,
}

/// One scheduled payment of a debt.
#[derive(Debug, Clone)]
pub struct Installment {
    /// Unix seconds.
    pub due_date: i64,
    pub amount_minor: i64,
    pub paid: bool,
    /// When the "due today" reminder went out; `None` = not yet.
    pub due_notified_at: Option<i64>,
    /// When the "overdue" reminder went out; `None` = not yet.
    pub overdue_notified_at: Option<i64>,
}

#[derive(Debug, Clone)]
pub struct Payment {
    pub amount_minor: i64,
    /// Unix seconds.
    pub at: i64,
    pub note: Option<String>,
}

#[derive(Debug, Clone)]
pub struct Debt {
    pub id: String,
    pub debtor_user_id: String,
    pub creditor_user_id: String,
    pub original_amount_minor: i64,
    pub currency: Currency,
    pub description: String,
    pub source: DebtSource,
    /// Empty for a debt paid in one sum.
    pub installments: Vec<Installment>,
    pub payments: Vec<Payment>,
    pub status: DebtStatus,
    /// Unix seconds.
    pub created_at: i64,
    pub settled_at: Option<i64>,
}

/// The sum of the payments.
pub open spec fn payments_total(p: Seq<Payment>) -> int
    decreases p.len(),
{
    if p.len() == 0 {
        0
    } else {
        payments_total(p.drop_last()) + p.last().amount_minor
    }
}

/// Whether every running sum of the payments, in order, fits in an `i64`.
pub open spec fn payment_sums_fit(p: Seq<Payment>) -> bool {
    forall|k: int| 0 <= k <= p.len() ==> in_i64(#[trigger] payments_total(p.take(k)))
}

/// Whether instalment `j` comes no later than instalment `k` in the order of due
/// dates (equal dates keep their positions).
pub open spec fn due_no_later(s: Seq<Installment>, j: int, k: int) -> bool {
    s[j].due_date < s[k].due_date || (s[j].due_date == s[k].due_date && j <= k)
}

/// The sum of the amounts among the first `m` instalments that come no later than
/// instalment `k`.
pub open spec fn due_sum_upto(s: Seq<Installment>, k: int, m: int) -> int
    decreases m,
{
    if m <= 0 {
        0
    } else {
        due_sum_upto(s, k, m - 1) + (if due_no_later(s, m - 1, k) {
            s[m - 1].amount_minor as int
        } else {
            0
        })
    }
}

/// What must be paid, in all, for instalment `k` to be covered: the amounts of all
/// instalments due no later than it, itself included.
pub open spec fn due_sum(s: Seq<Installment>, k: int) -> int {
    due_sum_upto(s, k, s.len() as int)
}

/// Whether every such cumulative amount fits in an `i64`.
pub open spec fn due_sums_fit(s: Seq<Installment>) -> bool {
    forall|k: int| 0 <= k < s.len() ==> in_i64(#[trigger] due_sum(s, k))
}

/// Whether the running sums of a debt's arithmetic fit in an `i64`.
pub open spec fn debt_sums_fit(d: Debt) -> bool {
    &&& payment_sums_fit(d.payments@)
    &&& in_i64(d.original_amount_minor - payments_total(d.payments@))
    &&& due_sums_fit(d.installments@)
}

/// What is left to pay: the original amount less the payments, never below zero.
pub open spec fn remaining_of(d: Debt) -> int {
    let r = d.original_amount_minor - payments_total(d.payments@);
    if r > 0 { r } else { 0 }
}

/// `d2` is `d` with only its instalments' `paid` flags possibly changed.
pub open spec fn same_but_paid_flags(d: Debt, d2: Debt) -> bool {
    &&& d2.id == d.id
    &&& d2.debtor_user_id == d.debtor_user_id
    &&& d2.creditor_user_id == d.creditor_user_id
    &&& d2.original_amount_minor == d.original_amount_minor
    &&& d2.currency == d.currency
    &&& d2.description == d.description
    &&& d2.source == d.source
    &&& d2.payments == d.payments
    &&& d2.status == d.status
    &&& d2.created_at == d.created_at
    &&& d2.settled_at == d.settled_at
    &&& d2.installments@.len() == d.installments@.len()
    &&& forall|k: int|
        0 <= k < d.installments@.len() ==> {
            &&& (#[trigger] d2.installments@[k]).due_date == d.installments@[k].due_date
            &&& d2.installments@[k].amount_minor == d.installments@[k].amount_minor
            &&& d2.installments@[k].due_notified_at == d.installments@[k].due_notified_at
            &&& d2.installments@[k].overdue_notified_at == d.installments@[k].overdue_notified_at
        }
}


/// The amount a recorded payment counts for: what was entered, capped at what is
/// left.
pub open spec fn capped_payment(d: Debt, amount: int) -> int {
    if amount < remaining_of(d) { amount } else { remaining_of(d) }
}

/// Whether recording a payment of `amount` keeps the debt's sums within `i64`.
pub open spec fn payment_fits(d: Debt, amount: int) -> bool {
    let pay = capped_payment(d, amount);
    &&& in_i64(payments_total(d.payments@) + pay)
    &&& in_i64(d.original_amount_minor - (payments_total(d.payments@) + pay))
}

proof fn lemma_payments_push(p: Seq<Payment>, x: Payment)
    requires
        payment_sums_fit(p),
        in_i64(payments_total(p) + x.amount_minor),
    ensures
        payments_total(p.push(x)) == payments_total(p) + x.amount_minor,
        payment_sums_fit(p.push(x)),
{
    let q = p.push(x);
    assert(q.drop_last() == p);
    assert forall|k: int| 0 <= k <= q.len() implies in_i64(#[trigger] payments_total(q.take(k))) by {
        if k <= p.len() {
            assert(q.take(k) == p.take(k));
        } else {
            assert(q.take(k) == q);
        }
    }
}

/// Whether `due_sums_fit(s)` holds.
fn due_sums_fit_exec(s: &Vec<Installment>) -> (r: bool)
    ensures
        r == due_sums_fit(s@),
{
    let mut k: usize = 0;
    while k < s.len()
        invariant
            k <= s.len(),
            forall|j: int| 0 <= j < k ==> in_i64(#[trigger] due_sum(s@, j)),
        decreases s.len() - k,
    {
        let v = due_sum_exec(s, k);
        if v < i64::MIN as i128 || v > i64::MAX as i128 {
            return false;
        }
        k += 1;
    }
    true
}

/// Whether `payment_sums_fit(p)` holds, and the total.
fn payment_sums_check(p: &Vec<Payment>) -> (r: Option<i64>)
    ensures
        r is Some == payment_sums_fit(p@),
        r matches Some(t) ==> t == payments_total(p@),
{
    let mut t: i128 = 0;
    let mut i: usize = 0;
    while i < p.len()
        invariant
            i <= p.len(),
            t == payments_total(p@.take(i as int)),
            forall|k: int| 0 <= k <= i ==> in_i64(#[trigger] payments_total(p@.take(k))),
        decreases p.len() - i,
    {
        assert(p@.take(i + 1).drop_last() == p@.take(i as int));
        t = t + p[i].amount_minor as i128;
        if t < i64::MIN as i128 || t > i64::MAX as i128 {
            assert(!in_i64(payments_total(p@.take(i + 1))));
            return None;
        }
        i += 1;
    }
    assert(p@.take(p.len() as int) == p@);
    Some(t as i64)
}

fn payments_sum(p: &Vec<Payment>) -> (t: i64)
    requires
        payment_sums_fit(p@),
    ensures
        t == payments_total(p@),
{
    let mut t: i64 = 0;
    let mut i: usize = 0;
    while i < p.len()
        invariant
            i <= p.len(),
            payment_sums_fit(p@),
            t == payments_total(p@.take(i as int)),
        decreases p.len() - i,
    {
        assert(p@.take(i + 1).drop_last() == p@.take(i as int));
        assert(in_i64(payments_total(p@.take(i + 1))));
        t = t + p[i].amount_minor;
        i += 1;
    }
    assert(p@.take(p.len() as int) == p@);
    t
}

/// `due_sum(s, k)`, computed without overflow.
fn due_sum_exec(s: &Vec<Installment>, k: usize) -> (r: i128)
    requires
        k < s@.len(),
    ensures
        r == due_sum(s@, k as int),
{
    let mut acc: i128 = 0;
    let mut m: usize = 0;
    while m < s.len()
        invariant
            m <= s.len(),
            k < s@.len(),
            acc == due_sum_upto(s@, k as int, m as int),
            -(m as int) * 0x8000_0000_0000_0000 <= acc <= (m as int) * 0x8000_0000_0000_0000,
        decreases s.len() - m,
    {
        if s[m].due_date < s[k].due_date || (s[m].due_date == s[k].due_date && m <= k) {
            acc = acc + s[m].amount_minor as i128;
        }
        m += 1;
    }
    acc
}

impl Debt {
    /// A new confirmed debt without payments or schedule.
    pub fn new(
        debtor: String,
        creditor: String,
        amount_minor: i64,
        currency: Currency,
        description: String,
        source: DebtSource,
        fresh_id: &uuid::Uuid,
        now: i64,
    ) -> (d: Debt)
        ensures
            is_hyphenated_uuid(d.id@),
            d.debtor_user_id == debtor,
            d.creditor_user_id == creditor,
            d.original_amount_minor == amount_minor,
            d.currency == currency,
            d.description == description,
            d.source == source,
            d.installments@.len() == 0,
            d.payments@.len() == 0,
            d.status == DebtStatus::Confirmed,
            d.created_at == now,
            d.settled_at is None,
    {
        Debt {
            id: new_id(fresh_id),
            debtor_user_id: debtor,
            creditor_user_id: creditor,
            original_amount_minor: amount_minor,
            currency,
            description,
            source,
            installments: Vec::new(),
            payments: Vec::new(),
            status: DebtStatus::Confirmed,
            created_at: now,
            settled_at: None,
        }
    }

    /// The sum of all payments.
    pub fn total_paid_minor(&self) -> (t: i64)
        requires
            payment_sums_fit(self.payments@),
        ensures
            t == payments_total(self.payments@),
    {
        payments_sum(&self.payments)
    }

    /// What is left to pay, never below zero.
    pub fn remaining_minor(&self) -> (r: i64)
        requires
            payment_sums_fit(self.payments@),
            in_i64(self.original_amount_minor - payments_total(self.payments@)),
        ensures
            r == remaining_of(*self),
    {
        let left = self.original_amount_minor - self.total_paid_minor();
        if left > 0 { left } else { 0 }
    }

    /// Re-derives each instalment's `paid` flag from the payments: payments go to
    /// the instalments in order of due date, so an instalment counts as paid when the
    /// payments cover it and every instalment due before it. The stored order of the
    /// instalments is kept.
    pub fn recompute_installment_status(&mut self)
        requires
            old(self).installments@.len() > 0 ==> payment_sums_fit(old(self).payments@)
                && due_sums_fit(old(self).installments@),
        ensures
            same_but_paid_flags(*old(self), *final(self)),
            old(self).installments@.len() == 0 ==> *final(self) == *old(self),
            forall|k: int|
                0 <= k < old(self).installments@.len() ==> (#[trigger] final(self).installments@[k]).paid
                    == (payments_total(old(self).payments@) >= due_sum(
                    old(self).installments@,
                    k,
                )),
    {
        if self.installments.len() == 0 {
            return;
        }
        let total = self.total_paid_minor() as i128;
        let ghost orig = self.installments@;
        let n = self.installments.len();
        let mut k: usize = 0;
        while k < n
            invariant
                k <= n,
                n == orig.len(),
                self.installments@.len() == n,
                total == payments_total(self.payments@),
                self.payments == old(self).payments,
                self.id == old(self).id,
                self.debtor_user_id == old(self).debtor_user_id,
                self.creditor_user_id == old(self).creditor_user_id,
                self.original_amount_minor == old(self).original_amount_minor,
                self.currency == old(self).currency,
                self.description == old(self).description,
                self.source == old(self).source,
                self.status == old(self).status,
                self.created_at == old(self).created_at,
                self.settled_at == old(self).settled_at,
                orig == old(self).installments@,
                forall|j: int|
                    0 <= j < n ==> {
                        &&& (#[trigger] self.installments@[j]).due_date == orig[j].due_date
                        &&& self.installments@[j].amount_minor == orig[j].amount_minor
                        &&& self.installments@[j].due_notified_at == orig[j].due_notified_at
                        &&& self.installments@[j].overdue_notified_at == orig[j].overdue_notified_at
                        &&& (j >= k ==> self.installments@[j].paid == orig[j].paid)
                        &&& (j < k ==> self.installments@[j].paid == (total >= due_sum(orig, j)))
                    },
            decreases n - k,
        {
            let need = due_sum_exec(&self.installments, k);
            assert(due_sum(self.installments@, k as int) == due_sum(orig, k as int)) by {
                lemma_due_sum_same_dates(self.installments@, orig, k as int, n as int);
            }
            let cur = &self.installments[k];
            let inst = Installment {
                due_date: cur.due_date,
                amount_minor: cur.amount_minor,
                paid: total >= need,
                due_notified_at: cur.due_notified_at,
                overdue_notified_at: cur.overdue_notified_at,
            };
            self.installments.set(k, inst);
            k += 1;
        }
    }


    /// Whether the debt's sums fit in `i64` (`debt_sums_fit`), as the arithmetic of
    /// `remaining_minor` and `recompute_installment_status` needs.
    pub fn sums_fit(&self) -> (r: bool)
        ensures
            r == debt_sums_fit(*self),
    {
        match payment_sums_check(&self.payments) {
            None => false,
            Some(t) => {
                let left = self.original_amount_minor as i128 - t as i128;
                if left < i64::MIN as i128 || left > i64::MAX as i128 {
                    false
                } else {
                    due_sums_fit_exec(&self.installments)
                }
            },
        }
    }

    /// Whether `record_payment(amount_minor, _)` can run without overflow.
    pub fn can_record_payment(&self, amount_minor: i64) -> (r: bool)
        ensures
            r == (debt_sums_fit(*self) && payment_fits(*self, amount_minor as int)),
    {
        if !self.sums_fit() {
            return false;
        }
        let rem = self.remaining_minor();
        let pay = if amount_minor < rem { amount_minor } else { rem };
        let t = self.total_paid_minor() as i128;
        let after = t + pay as i128;
        let left = self.original_amount_minor as i128 - after;
        i64::MIN as i128 <= after && after <= i64::MAX as i128 && i64::MIN as i128 <= left && left
            <= i64::MAX as i128
    }

    /// The debtor reports paying `amount_minor` at `at`. The amount is capped at
    /// what is left and recorded as a payment; the instalments' `paid` flags are
    /// recomputed; when nothing is left the debt is settled at `at`. Returns the
    /// recorded amount.
    pub fn record_payment(&mut self, amount_minor: i64, at: i64) -> (pay: i64)
        requires
            debt_sums_fit(*old(self)),
            payment_fits(*old(self), amount_minor as int),
        ensures
            pay == capped_payment(*old(self), amount_minor as int),
            pay <= remaining_of(*old(self)),
            final(self).payments@ == old(self).payments@.push(
                Payment { amount_minor: pay, at, note: None },
            ),
            payments_total(final(self).payments@) == payments_total(old(self).payments@) + pay,
            debt_sums_fit(*final(self)),
            amount_minor >= 0 ==> pay >= 0 && remaining_of(*final(self)) == remaining_of(*old(self))
                - pay,
            final(self).installments@.len() == old(self).installments@.len(),
            forall|k: int|
                0 <= k < old(self).installments@.len() ==> {
                    &&& (#[trigger] final(self).installments@[k]).due_date
                        == old(self).installments@[k].due_date
                    &&& final(self).installments@[k].amount_minor
                        == old(self).installments@[k].amount_minor
                    &&& final(self).installments@[k].due_notified_at
                        == old(self).installments@[k].due_notified_at
                    &&& final(self).installments@[k].overdue_notified_at
                        == old(self).installments@[k].overdue_notified_at
                    &&& final(self).installments@[k].paid == (payments_total(final(self).payments@)
                        >= due_sum(old(self).installments@, k))
                },
            remaining_of(*final(self)) == 0 ==> final(self).status == DebtStatus::Settled
                && final(self).settled_at == Some(at),
            remaining_of(*final(self)) != 0 ==> final(self).status == old(self).status
                && final(self).settled_at == old(self).settled_at,
            final(self).id == old(self).id,
            final(self).debtor_user_id == old(self).debtor_user_id,
            final(self).creditor_user_id == old(self).creditor_user_id,
            final(self).original_amount_minor == old(self).original_amount_minor,
            final(self).currency == old(self).currency,
            final(self).description == old(self).description,
            final(self).source == old(self).source,
            final(self).created_at == old(self).created_at,
    {
        let rem = self.remaining_minor();
        let pay = if amount_minor < rem { amount_minor } else { rem };
        let ghost before = self.payments@;
        proof {
            lemma_payments_push(before, Payment { amount_minor: pay, at, note: None });
        }
        self.payments.push(Payment { amount_minor: pay, at, note: None });
        self.recompute_installment_status();
        assert(due_sums_fit(self.installments@)) by {
            assert forall|k: int| 0 <= k < self.installments@.len() implies in_i64(
                #[trigger] due_sum(self.installments@, k),
            ) by {
                lemma_due_sum_same_dates(
                    self.installments@,
                    old(self).installments@,
                    k,
                    self.installments@.len() as int,
                );
            }
        }
        if self.remaining_minor() == 0 {
            self.status = DebtStatus::Settled;
            self.settled_at = Some(at);
        }
        pay
    }

    /// The creditor forgives what is left: the debt is closed as forgiven at `now`.
    pub fn forgive(&mut self, now: i64)
        ensures
            final(self).status == DebtStatus::Forgiven,
            final(self).settled_at == Some(now),
            final(self).id == old(self).id,
            final(self).debtor_user_id == old(self).debtor_user_id,
            final(self).creditor_user_id == old(self).creditor_user_id,
            final(self).original_amount_minor == old(self).original_amount_minor,
            final(self).currency == old(self).currency,
            final(self).description == old(self).description,
            final(self).source == old(self).source,
            final(self).installments == old(self).installments,
            final(self).payments == old(self).payments,
            final(self).created_at == old(self).created_at,
    {
        self.status = DebtStatus::Forgiven;
        self.settled_at = Some(now);
    }
}


proof fn lemma_due_sum_monotone(s: Seq<Installment>, j: int, k: int, m: int)
    requires
        0 <= j < s.len(),
        0 <= k < s.len(),
        0 <= m <= s.len(),
        due_no_later(s, j, k),
        forall|i: int| 0 <= i < s.len() ==> (#[trigger] s[i]).amount_minor >= 0,
    ensures
        due_sum_upto(s, j, m) <= due_sum_upto(s, k, m),
    decreases m,
{
    if m > 0 {
        lemma_due_sum_monotone(s, j, k, m - 1);
        assert(s[m - 1].amount_minor >= 0);
    }
}

/// Payments cover instalments in order of due date: where all amounts are not
/// negative, whatever total covers an instalment also covers every instalment due
/// no later than it. With `recompute_installment_status`, a paid instalment has only
/// paid instalments before it.
pub proof fn lemma_payments_cover_earliest_first(s: Seq<Installment>, total: int, j: int, k: int)
    requires
        0 <= j < s.len(),
        0 <= k < s.len(),
        due_no_later(s, j, k),
        forall|i: int| 0 <= i < s.len() ==> (#[trigger] s[i]).amount_minor >= 0,
        total >= due_sum(s, k),
    ensures
        total >= due_sum(s, j),
{
    lemma_due_sum_monotone(s, j, k, s.len() as int);
}

proof fn lemma_due_sum_same_dates(a: Seq<Installment>, b: Seq<Installment>, k: int, m: int)
    requires
        a.len() == b.len(),
        0 <= m <= a.len(),
        0 <= k < a.len(),
        forall|j: int|
            0 <= j < a.len() ==> (#[trigger] a[j]).due_date == b[j].due_date && a[j].amount_minor
                == b[j].amount_minor,
    ensures
        due_sum_upto(a, k, m) == due_sum_upto(b, k, m),
    decreases m,
{
    if m > 0 {
        lemma_due_sum_same_dates(a, b, k, m - 1);
        assert(a[m - 1].due_date == b[m - 1].due_date);
        assert(a[k].due_date == b[k].due_date);
    }
}

} // verus!
