//! Decisions of the background reminder loop for instalment payments.
//!
//! Every minute the loop goes through the active debts with a schedule and sends
//! reminders: on the due day (once), and a day after the due instant if still unpaid
//! ("overdue", once). The `due_notified_at` / `overdue_notified_at` marks prevent
//! repeats.
use crate::models::debt::{Debt, DebtStatus, Installment};
use crate::models::room::{contains_id, has_id};
use crate::services::clock::DAY_SECS;
use vstd::prelude::*;

verus! {

/// Seconds between two rounds of the reminder loop.
pub const TICK_SECS: u64 = 60;

#[derive(Debug, Clone, Copy, PartialEq, Eq, Structural)]
pub enum ReminderKind {
    /// The instalment falls due today.
    Due,
    /// The instalment is a day or more past due.
    Overdue,
}

/// A reminder to send to both sides of a debt about one instalment.
#[derive(Debug, Clone, Copy, PartialEq, Eq, Structural)]
pub struct Reminder {
    /// The position of the instalment in the debt's schedule.
    pub index: usize,
    pub kind: ReminderKind,
}

/// Whether the "due today" reminder is owed at `now`: unpaid, not yet sent, and
/// `now` within the day that starts at the due instant.
pub open spec fn due_reminder_owed(i: Installment, now: int) -> bool {
    !i.paid && i.due_notified_at is None && i.due_date <= now < i.due_date + DAY_SECS
}

/// Whether the "overdue" reminder is owed at `now`: unpaid, not yet sent, and at
/// least a day past the due instant.
pub open spec fn overdue_reminder_owed(i: Installment, now: int) -> bool {
    !i.paid && i.overdue_notified_at is None && now >= i.due_date + DAY_SECS
}

/// The reminders owed at `now` for the first `m` instalments, in schedule order.
pub open spec fn reminders_owed(s: Seq<Installment>, now: int, m: int) -> Seq<Reminder>
    decreases m,
{
    if m <= 0 {
        Seq::empty()
    } else {
        let r = reminders_owed(s, now, m - 1);
        let i = s[m - 1];
        if due_reminder_owed(i, now) {
            r.push(Reminder { index: (m - 1) as usize, kind: ReminderKind::Due })
        } else if overdue_reminder_owed(i, now) {
            r.push(Reminder { index: (m - 1) as usize, kind: ReminderKind::Overdue })
        } else {
            r
        }
    }
}

/// The instalment after a round at `now`: the mark of a reminder owed is set to `now`.
pub open spec fn after_round(i: Installment, now: int) -> Installment {
    Installment {
        due_notified_at: if due_reminder_owed(i, now) { Some(now as i64) } else { i.due_notified_at },
        overdue_notified_at: if overdue_reminder_owed(i, now) {
            Some(now as i64)
        } else {
            i.overdue_notified_at
        },
        ..i
    }
}

/// The instalments after a round at `now`.
pub open spec fn after_rounds(s: Seq<Installment>, now: int) -> Seq<Installment> {
    s.map_values(|i: Installment| after_round(i, now))
}

/// Whether the due instants of the unpaid instalments leave room for a day.
pub open spec fn due_dates_fit(s: Seq<Installment>) -> bool {
    forall|k: int| 0 <= k < s.len() && !(#[trigger] s[k]).paid ==> s[k].due_date + DAY_SECS <= i64::MAX
}

impl Debt {
    /// One round of the reminder loop at `now` for this debt: the reminders owed, in
    /// schedule order, with their marks set. At most one reminder per instalment: the
    /// due-day one and the overdue one exclude each other. The debt needs saving when
    /// the result is not empty.
    pub fn take_reminders(&mut self, now: i64) -> (r: Vec<Reminder>)
        requires
            due_dates_fit(old(self).installments@),
        ensures
            r@ == reminders_owed(old(self).installments@, now as int, old(self).installments@.len() as int),
            final(self).installments@ == after_rounds(old(self).installments@, now as int),
            final(self).id == old(self).id,
            final(self).debtor_user_id == old(self).debtor_user_id,
            final(self).creditor_user_id == old(self).creditor_user_id,
            final(self).original_amount_minor == old(self).original_amount_minor,
            final(self).currency == old(self).currency,
            final(self).description == old(self).description,
            final(self).source == old(self).source,
            final(self).payments == old(self).payments,
            final(self).status == old(self).status,
            final(self).created_at == old(self).created_at,
            final(self).settled_at == old(self).settled_at,
    {
        let mut out: Vec<Reminder> = Vec::new();
        let ghost orig = self.installments@;
        let n = self.installments.len();
        let mut k: usize = 0;
        while k < n
            invariant
                k <= n,
                n == orig.len(),
                orig == old(self).installments@,
                due_dates_fit(orig),
                self.installments@.len() == n,
                out@ == reminders_owed(orig, now as int, k as int),
                forall|j: int| 0 <= j < k ==> #[trigger] self.installments@[j] == after_round(orig[j], now as int),
                forall|j: int| k <= j < n ==> #[trigger] self.installments@[j] == orig[j],
                self.id == old(self).id,
                self.debtor_user_id == old(self).debtor_user_id,
                self.creditor_user_id == old(self).creditor_user_id,
                self.original_amount_minor == old(self).original_amount_minor,
                self.currency == old(self).currency,
                self.description == old(self).description,
                self.source == old(self).source,
                self.payments == old(self).payments,
                self.status == old(self).status,
                self.created_at == old(self).created_at,
                self.settled_at == old(self).settled_at,
            decreases n - k,
        {
            let cur = &self.installments[k];
            let paid = cur.paid;
            let due = cur.due_date;
            let due_mark = cur.due_notified_at;
            let overdue_mark = cur.overdue_notified_at;
            let amount = cur.amount_minor;
            assert(orig[k as int] == self.installments@[k as int]);
            if !paid {
                let day_after = due + DAY_SECS;
                let mut new_due = due_mark;
                let mut new_overdue = overdue_mark;
                if due_mark.is_none() && now >= due && now < day_after {
                    out.push(Reminder { index: k, kind: ReminderKind::Due });
                    new_due = Some(now);
                }
                if overdue_mark.is_none() && now >= day_after {
                    out.push(Reminder { index: k, kind: ReminderKind::Overdue });
                    new_overdue = Some(now);
                }
                self.installments.set(
                    k,
                    Installment {
                        due_date: due,
                        amount_minor: amount,
                        paid,
                        due_notified_at: new_due,
                        overdue_notified_at: new_overdue,
                    },
                );
            }
            k += 1;
        }
        assert(self.installments@ == after_rounds(orig, now as int));
        out
    }
}

proof fn lemma_owed_entries(s: Seq<Installment>, now: int, m: int)
    requires
        0 <= m <= s.len() <= usize::MAX,
    ensures
        forall|j: int|
            0 <= j < reminders_owed(s, now, m).len() ==> {
                let r = #[trigger] reminders_owed(s, now, m)[j];
                &&& 0 <= r.index < m
                &&& r.kind == ReminderKind::Due ==> due_reminder_owed(s[r.index as int], now)
                &&& r.kind == ReminderKind::Overdue ==> overdue_reminder_owed(s[r.index as int], now)
            },
    decreases m,
{
    if m > 0 {
        lemma_owed_entries(s, now, m - 1);
        let r = reminders_owed(s, now, m - 1);
        assert forall|j: int| 0 <= j < r.len() implies reminders_owed(s, now, m)[j] == r[j] by {}
    }
}

/// Whether some entry of `r` is the reminder of kind `kind` for instalment `k`.
pub open spec fn has_reminder(r: Seq<Reminder>, k: int, kind: ReminderKind) -> bool {
    exists|j: int| 0 <= j < r.len() && (#[trigger] r[j]).index == k && r[j].kind == kind
}

proof fn lemma_owed_prefix(s: Seq<Installment>, now: int, m: int)
    requires
        0 <= m <= s.len() <= usize::MAX,
    ensures
        forall|i: int, j: int|
            #![trigger reminders_owed(s, now, m)[i], reminders_owed(s, now, m)[j]]
            0 <= i < j < reminders_owed(s, now, m).len() ==> reminders_owed(s, now, m)[i].index
                < reminders_owed(s, now, m)[j].index,
        forall|k: int|
            0 <= k < m ==> (has_reminder(reminders_owed(s, now, m), k, ReminderKind::Due)
                <==> due_reminder_owed(#[trigger] s[k], now)),
        forall|k: int|
            0 <= k < m ==> (has_reminder(reminders_owed(s, now, m), k, ReminderKind::Overdue)
                <==> overdue_reminder_owed(#[trigger] s[k], now)),
    decreases m,
{
    lemma_owed_entries(s, now, m);
    if m > 0 {
        lemma_owed_prefix(s, now, m - 1);
        lemma_owed_entries(s, now, m - 1);
        let q = reminders_owed(s, now, m - 1);
        let r = reminders_owed(s, now, m);
        assert forall|j: int| 0 <= j < q.len() implies r[j] == q[j] by {}
        assert forall|k: int, kind: ReminderKind| 0 <= k < m - 1 implies (has_reminder(r, k, kind)
            <==> has_reminder(q, k, kind)) by {
            if has_reminder(q, k, kind) {
                let j = choose|j: int| 0 <= j < q.len() && (#[trigger] q[j]).index == k && q[j].kind == kind;
                assert(r[j] == q[j]);
            }
            if has_reminder(r, k, kind) {
                let j = choose|j: int| 0 <= j < r.len() && (#[trigger] r[j]).index == k && r[j].kind == kind;
                if j < q.len() {
                    assert(r[j] == q[j]);
                }
            }
        }
        assert forall|kind: ReminderKind| !#[trigger] has_reminder(q, m - 1, kind) by {
            if has_reminder(q, m - 1, kind) {
                let j = choose|j: int| 0 <= j < q.len() && (#[trigger] q[j]).index == m - 1 && q[j].kind == kind;
            }
        }
        let i = s[m - 1];
        if due_reminder_owed(i, now) {
            assert(r[q.len() as int].index == m - 1);
            assert(has_reminder(r, m - 1, ReminderKind::Due));
        } else if overdue_reminder_owed(i, now) {
            assert(r[q.len() as int].index == m - 1);
            assert(has_reminder(r, m - 1, ReminderKind::Overdue));
        }
        assert forall|kind: ReminderKind| #[trigger] has_reminder(r, m - 1, kind) implies (kind
            == ReminderKind::Due && due_reminder_owed(i, now)) || (kind == ReminderKind::Overdue
            && overdue_reminder_owed(i, now)) by {
            let j = choose|j: int| 0 <= j < r.len() && (#[trigger] r[j]).index == m - 1 && r[j].kind == kind;
            if j < q.len() {
                assert(r[j] == q[j]);
            }
        }
        assert(has_reminder(r, m - 1, ReminderKind::Due) <==> due_reminder_owed(i, now));
        assert(has_reminder(r, m - 1, ReminderKind::Overdue) <==> overdue_reminder_owed(i, now));
    }
}

/// What a round of reminders sends and records, stated over the instalments
/// themselves: a reminder names an instalment of the schedule that is not paid; the
/// due-day one comes when its mark is unset and `now` lies in the day from the due
/// instant, the overdue one when its mark is unset and a full day has passed; every
/// reminder so owed is sent, in schedule order, at most one per instalment. A paid
/// instalment gets none and keeps its marks; the mark of each reminder sent is set
/// to `now`, and nothing else of an instalment changes.
pub proof fn lemma_round_sends_what_is_owed(s: Seq<Installment>, now: i64)
    requires
        s.len() <= usize::MAX,
    ensures
        ({
            let r = reminders_owed(s, now as int, s.len() as int);
            let after = after_rounds(s, now as int);
            &&& forall|j: int|
                0 <= j < r.len() ==> {
                    let k = (#[trigger] r[j]).index as int;
                    &&& 0 <= k < s.len()
                    &&& !s[k].paid
                    &&& r[j].kind == ReminderKind::Due ==> s[k].due_notified_at is None
                        && s[k].due_date <= now < s[k].due_date + DAY_SECS
                    &&& r[j].kind == ReminderKind::Overdue ==> s[k].overdue_notified_at is None
                        && now >= s[k].due_date + DAY_SECS
                }
            &&& forall|i: int, j: int|
                #![trigger r[i], r[j]]
                0 <= i < j < r.len() ==> r[i].index < r[j].index
            &&& forall|k: int|
                0 <= k < s.len() && !(#[trigger] s[k]).paid && s[k].due_notified_at is None
                    && s[k].due_date <= now < s[k].due_date + DAY_SECS ==> has_reminder(
                    r,
                    k,
                    ReminderKind::Due,
                )
            &&& forall|k: int|
                0 <= k < s.len() && !(#[trigger] s[k]).paid && s[k].overdue_notified_at is None
                    && now >= s[k].due_date + DAY_SECS ==> has_reminder(r, k, ReminderKind::Overdue)
            &&& after.len() == s.len()
            &&& forall|k: int|
                0 <= k < s.len() ==> {
                    &&& (#[trigger] after[k]).paid == s[k].paid
                    &&& after[k].due_date == s[k].due_date
                    &&& after[k].amount_minor == s[k].amount_minor
                    &&& s[k].paid ==> after[k] == s[k] && !has_reminder(r, k, ReminderKind::Due)
                        && !has_reminder(r, k, ReminderKind::Overdue)
                    &&& after[k].due_notified_at == if has_reminder(r, k, ReminderKind::Due) {
                        Some(now)
                    } else {
                        s[k].due_notified_at
                    }
                    &&& after[k].overdue_notified_at == if has_reminder(r, k, ReminderKind::Overdue) {
                        Some(now)
                    } else {
                        s[k].overdue_notified_at
                    }
                }
        }),
{
    let n = s.len() as int;
    lemma_owed_entries(s, now as int, n);
    lemma_owed_prefix(s, now as int, n);
    let r = reminders_owed(s, now as int, n);
    let after = after_rounds(s, now as int);
    assert forall|k: int| 0 <= k < n implies {
        &&& (#[trigger] after[k]).paid == s[k].paid
        &&& after[k].due_date == s[k].due_date
        &&& after[k].amount_minor == s[k].amount_minor
        &&& s[k].paid ==> after[k] == s[k] && !has_reminder(r, k, ReminderKind::Due)
            && !has_reminder(r, k, ReminderKind::Overdue)
        &&& after[k].due_notified_at == if has_reminder(r, k, ReminderKind::Due) {
            Some(now)
        } else {
            s[k].due_notified_at
        }
        &&& after[k].overdue_notified_at == if has_reminder(r, k, ReminderKind::Overdue) {
            Some(now)
        } else {
            s[k].overdue_notified_at
        }
    } by {
        assert(after[k] == after_round(s[k], now as int));
        assert(has_reminder(r, k, ReminderKind::Due) <==> due_reminder_owed(s[k], now as int));
        assert(has_reminder(r, k, ReminderKind::Overdue) <==> overdue_reminder_owed(s[k], now as int));
    }
}

/// Whether every reminder mark set in `a` is still set in `b`, a schedule of the
/// same length: what a round does, and what recording a payment keeps.
pub open spec fn marks_kept(a: Seq<Installment>, b: Seq<Installment>) -> bool {
    &&& a.len() == b.len()
    &&& forall|k: int|
        #![trigger a[k], b[k]]
        0 <= k < a.len() ==> (a[k].due_notified_at is Some ==> b[k].due_notified_at is Some) && (
        a[k].overdue_notified_at is Some ==> b[k].overdue_notified_at is Some)
}

/// The reminders that round `j` of a run owes: those of state `j` at instant `j`.
pub open spec fn owed_in_round(states: Seq<Seq<Installment>>, times: Seq<int>, j: int) -> Seq<Reminder> {
    reminders_owed(states[j], times[j], states[j].len() as int)
}

proof fn lemma_round_keeps_marks(s: Seq<Installment>, now: int)
    ensures
        marks_kept(s, after_rounds(s, now)),
{
}

proof fn lemma_marks_kept_trans(a: Seq<Installment>, b: Seq<Installment>, c: Seq<Installment>)
    requires
        marks_kept(a, b),
        marks_kept(b, c),
    ensures
        marks_kept(a, c),
{
    assert forall|k: int| 0 <= k < a.len() implies (a[k].due_notified_at is Some ==> c[k].due_notified_at is Some)
        && (a[k].overdue_notified_at is Some ==> c[k].overdue_notified_at is Some) by {
        let (x, y, z) = (a[k], b[k], c[k]);
        assert(x.due_notified_at is Some ==> y.due_notified_at is Some);
        assert(x.overdue_notified_at is Some ==> y.overdue_notified_at is Some);
        assert(y.due_notified_at is Some ==> z.due_notified_at is Some);
        assert(y.overdue_notified_at is Some ==> z.overdue_notified_at is Some);
    }
}

proof fn lemma_marks_persist(states: Seq<Seq<Installment>>, times: Seq<int>, a: int, m: int)
    requires
        states.len() == times.len(),
        forall|j: int|
            0 <= j < states.len() - 1 ==> marks_kept(#[trigger] after_rounds(states[j], times[j]), states[j + 1]),
        0 <= a < m < states.len(),
    ensures
        marks_kept(after_rounds(states[a], times[a]), states[m]),
    decreases m - a,
{
    if m > a + 1 {
        lemma_marks_persist(states, times, a, m - 1);
        lemma_round_keeps_marks(states[m - 1], times[m - 1]);
        lemma_marks_kept_trans(after_rounds(states[a], times[a]), states[m - 1], after_rounds(states[m - 1], times[m - 1]));
        lemma_marks_kept_trans(after_rounds(states[a], times[a]), after_rounds(states[m - 1], times[m - 1]), states[m]);
    }
}

/// The marks prevent repeats, over any run of rounds: where each state is what the
/// round before left (its marks kept, whatever else, such as a payment, happened in
/// between), no reminder owed in one round is owed again in a later one.
pub proof fn lemma_reminders_never_repeated(states: Seq<Seq<Installment>>, times: Seq<int>, a: int, b: int)
    requires
        states.len() == times.len(),
        forall|j: int| 0 <= j < states.len() ==> (#[trigger] states[j]).len() <= usize::MAX,
        forall|j: int|
            0 <= j < states.len() - 1 ==> marks_kept(#[trigger] after_rounds(states[j], times[j]), states[j + 1]),
        0 <= a < b < states.len(),
    ensures
        forall|x: int, y: int|
            0 <= x < owed_in_round(states, times, a).len() && 0 <= y < owed_in_round(states, times, b).len()
                ==> #[trigger] owed_in_round(states, times, a)[x] != #[trigger] owed_in_round(states, times, b)[y],
{
    let sa = states[a];
    let sb = states[b];
    lemma_marks_persist(states, times, a, b);
    lemma_owed_entries(sa, times[a], sa.len() as int);
    lemma_owed_entries(sb, times[b], sb.len() as int);
    let after = after_rounds(sa, times[a]);
    assert forall|x: int, y: int|
        0 <= x < owed_in_round(states, times, a).len() && 0 <= y < owed_in_round(states, times, b).len()
            implies #[trigger] owed_in_round(states, times, a)[x] != #[trigger] owed_in_round(states, times, b)[y] by {
        let r1 = owed_in_round(states, times, a)[x];
        let r2 = owed_in_round(states, times, b)[y];
        if r1 == r2 {
            let k = r1.index as int;
            assert(after[k] == after_round(sa[k], times[a]));
            assert(after[k] == after[k] && sb[k] == sb[k]);
        }
    }
}

/// Whether debt `i` is the first in `ds` with its id.
pub open spec fn first_with_id(ds: Seq<Debt>, i: int) -> bool {
    forall|j: int| 0 <= j < i ==> (#[trigger] ds[j]).id@ != ds[i].id@
}

/// The debts a round of the loop looks at, in order: each id once (its first
/// occurrence), only confirmed debts that have a schedule.
pub open spec fn reminder_candidates_of(ds: Seq<Debt>) -> Seq<Debt>
    decreases ds.len(),
{
    if ds.len() == 0 {
        Seq::empty()
    } else {
        let r = reminder_candidates_of(ds.drop_last());
        let d = ds.last();
        if first_with_id(ds, ds.len() - 1) && d.status == DebtStatus::Confirmed
            && d.installments@.len() > 0 {
            r.push(d)
        } else {
            r
        }
    }
}

/// A round looks at each debt once: every debt it takes comes from `ds`, is confirmed
/// and has a schedule, no two share an id, and every confirmed debt with a schedule
/// is taken where it is the first in `ds` with its id.
pub proof fn lemma_candidates_once_each(ds: Seq<Debt>)
    ensures
        ({
            let r = reminder_candidates_of(ds);
            &&& forall|j: int|
                0 <= j < r.len() ==> (#[trigger] r[j]).status == DebtStatus::Confirmed
                    && r[j].installments@.len() > 0 && exists|i: int| 0 <= i < ds.len() && ds[i] == r[j]
            &&& forall|i: int, j: int| #![trigger r[i], r[j]] 0 <= i < j < r.len() ==> r[i].id@ != r[j].id@
            &&& forall|k: int|
                0 <= k < ds.len() && (#[trigger] ds[k]).status == DebtStatus::Confirmed
                    && ds[k].installments@.len() > 0 && (forall|i: int| 0 <= i < k ==> ds[i].id@ != ds[k].id@)
                    ==> exists|j: int| 0 <= j < r.len() && r[j] == ds[k]
        }),
    decreases ds.len(),
{
    if ds.len() > 0 {
        let p = ds.drop_last();
        lemma_candidates_once_each(p);
        let q = reminder_candidates_of(p);
        let r = reminder_candidates_of(ds);
        let n = ds.len() - 1;
        assert forall|j: int| 0 <= j < q.len() implies r[j] == q[j] && exists|i: int| 0 <= i < n && ds[i] == q[j] by {
            let i = choose|i: int| 0 <= i < p.len() && p[i] == q[j];
            assert(ds[i] == p[i]);
        }
        if r.len() > q.len() {
            assert(r[q.len() as int] == ds[n]);
            assert(first_with_id(ds, n));
            assert forall|j: int| 0 <= j < q.len() implies q[j].id@ != ds[n].id@ by {
                let i = choose|i: int| 0 <= i < n && ds[i] == q[j];
                assert(ds[i].id@ != ds[n].id@);
            }
        }
        assert forall|j: int| 0 <= j < r.len() implies exists|i: int| 0 <= i < ds.len() && ds[i] == #[trigger] r[j] by {
            if j < q.len() {
                let i = choose|i: int| 0 <= i < n && ds[i] == q[j];
                assert(ds[i] == r[j]);
            } else {
                assert(ds[n] == r[j]);
            }
        }
        assert forall|k: int|
            0 <= k < ds.len() && (#[trigger] ds[k]).status == DebtStatus::Confirmed
                && ds[k].installments@.len() > 0 && (forall|i: int| 0 <= i < k ==> ds[i].id@ != ds[k].id@)
                implies exists|j: int| 0 <= j < r.len() && r[j] == ds[k] by {
            if k < n {
                assert(p[k] == ds[k]);
                assert forall|i: int| 0 <= i < k implies p[i].id@ != p[k].id@ by {
                    assert(p[i] == ds[i]);
                }
                let j = choose|j: int| 0 <= j < q.len() && q[j] == p[k];
                assert(r[j] == q[j]);
            } else {
                assert forall|i: int| 0 <= i < n implies (#[trigger] ds[i]).id@ != ds[n].id@ by {}
                assert(first_with_id(ds, n));
                assert(r[q.len() as int] == ds[k]);
            }
        }
    }
}

/// The debts that a round of the reminder loop processes, from the debts of all users
/// (where a debt shows up once per party).
pub fn reminder_candidates(debts: Vec<Debt>) -> (r: Vec<Debt>)
    ensures
        r@ == reminder_candidates_of(debts@),
{
    let ghost all = debts@;
    let total_len = debts.len();
    let mut rest = debts;
    let mut seen: Vec<String> = Vec::new();
    let mut out: Vec<Debt> = Vec::new();
    let mut i: usize = 0;
    while rest.len() > 0
        invariant
            i + rest@.len() == all.len(),
            all.len() == total_len,
            rest@ == all.skip(i as int),
            out@ == reminder_candidates_of(all.take(i as int)),
            seen@.len() == i,
            forall|j: int| 0 <= j < i ==> (#[trigger] seen@[j])@ == all[j].id@,
        decreases rest@.len(),
    {
        let d = rest.remove(0);
        assert(d == all[i as int]);
        assert(all.take(i + 1).drop_last() == all.take(i as int));
        let dup = has_id(&seen, &d.id);
        assert(dup == !first_with_id(all.take(i + 1), i as int)) by {
            if dup {
                let j = choose|j: int| 0 <= j < seen@.len() && (#[trigger] seen@[j])@ == d.id@;
                assert(all.take(i + 1)[j] == all[j]);
            } else {
                assert forall|j: int| 0 <= j < i implies (#[trigger] all.take(i + 1)[j]).id@ != all.take(i + 1)[i as int].id@ by {
                    assert(seen@[j]@ == all[j].id@);
                }
            }
        }
        seen.push(d.id.clone());
        if !dup && d.status == DebtStatus::Confirmed && d.installments.len() > 0 {
            out.push(d);
        }
        assert(rest@ == all.skip(i + 1));
        i += 1;
    }
    assert(all.take(all.len() as int) == all);
    out
}

} // verus!
