//! Decisions behind the debt screens.
use crate::models::contact::Contact;
use crate::models::debt::{
    debt_sums_fit, payment_sums_fit, payments_total, remaining_of, Debt, DebtStatus,
};
use crate::models::money::in_i64;
use crate::telegram::types::{is_callback_button, InlineKeyboardButton};
use crate::text::concat_str;
use vstd::prelude::*;

verus! {

/// The marker of a debt's status in the debt list.
pub open spec fn status_marker(s: DebtStatus) -> Seq<char> {
    match s {
        DebtStatus::Confirmed => "🟠"@,
        DebtStatus::Settled => "✅"@,
        DebtStatus::Disputed => "⚠️"@,
        DebtStatus::Forgiven => "🕊"@,
    }
}

/// The marker of a debt's status.
pub fn status_emoji(s: DebtStatus) -> (t: &'static str)
    ensures
        t@ == status_marker(s),
{
    match s {
        DebtStatus::Confirmed => "🟠",
        DebtStatus::Settled => "✅",
        DebtStatus::Disputed => "⚠️",
        DebtStatus::Forgiven => "🕊",
    }
}

/// What the debt screen offers the viewing user.
#[derive(Debug, Clone, Copy, PartialEq, Eq, Structural)]
pub struct DebtCard {
    /// The viewer is the debtor (else the creditor).
    pub me_debtor: bool,
    /// "I paid part": for the debtor of an active debt with something left.
    pub can_pay: bool,
    /// "Make it instalments": for the creditor of an active debt with something left,
    /// no schedule and no payments yet.
    pub can_schedule: bool,
    /// "Forgive the rest": for the creditor of an active debt with something left.
    pub can_forgive: bool,
}

/// The buttons of the debt screen for `viewer`.
pub fn debt_card(d: &Debt, viewer: &String) -> (c: DebtCard)
    requires
        payment_sums_fit(d.payments@),
        in_i64(d.original_amount_minor - payments_total(d.payments@)),
    ensures
        c.me_debtor == (d.debtor_user_id@ == viewer@),
        c.can_pay == (d.status == DebtStatus::Confirmed && c.me_debtor && remaining_of(*d) > 0),
        c.can_schedule == (d.status == DebtStatus::Confirmed && !c.me_debtor && remaining_of(*d)
            > 0 && d.installments@.len() == 0 && d.payments@.len() == 0),
        c.can_forgive == (d.status == DebtStatus::Confirmed && !c.me_debtor && remaining_of(*d) > 0),
{
    let me_debtor = d.debtor_user_id == *viewer;
    let active = d.status == DebtStatus::Confirmed && d.remaining_minor() > 0;
    DebtCard {
        me_debtor,
        can_pay: active && me_debtor,
        can_schedule: active && !me_debtor && d.installments.len() == 0 && d.payments.len() == 0,
        can_forgive: active && !me_debtor,
    }
}

/// Whether `user` may set up a schedule for the debt: they are its creditor and it
/// has neither a schedule nor payments.
pub fn may_schedule(d: &Debt, user: &String) -> (r: bool)
    ensures
        r == (d.creditor_user_id@ == user@ && d.installments@.len() == 0 && d.payments@.len() == 0),
{
    d.creditor_user_id == *user && d.installments.len() == 0 && d.payments.len() == 0
}

/// What the active debts in `ds` add up to from `user`'s side: (owed to them,
/// owed by them), counting what is left of each confirmed debt, regardless of
/// currency.
pub open spec fn debt_totals_of(ds: Seq<Debt>, user: Seq<char>) -> (int, int)
    decreases ds.len(),
{
    if ds.len() == 0 {
        (0, 0)
    } else {
        let (to_me, by_me) = debt_totals_of(ds.drop_last(), user);
        let d = ds.last();
        if d.status != DebtStatus::Confirmed {
            (to_me, by_me)
        } else if d.debtor_user_id@ == user {
            (to_me, by_me + remaining_of(d))
        } else {
            (to_me + remaining_of(d), by_me)
        }
    }
}

/// Whether every running total of `debt_totals_of` fits in an `i64`.
pub open spec fn debt_totals_fit(ds: Seq<Debt>, user: Seq<char>) -> bool {
    forall|k: int|
        0 <= k <= ds.len() ==> in_i64(#[trigger] debt_totals_of(ds.take(k), user).0) && in_i64(
            debt_totals_of(ds.take(k), user).1,
        )
}

/// The summary line of the debt list: (owed to `user`, owed by `user`).
pub fn debt_totals(ds: &Vec<Debt>, user: &String) -> (r: (i64, i64))
    requires
        forall|k: int| 0 <= k < ds@.len() ==> debt_sums_fit(#[trigger] ds@[k]),
        debt_totals_fit(ds@, user@),
    ensures
        r.0 == debt_totals_of(ds@, user@).0,
        r.1 == debt_totals_of(ds@, user@).1,
{
    let mut to_me: i64 = 0;
    let mut by_me: i64 = 0;
    let mut k: usize = 0;
    while k < ds.len()
        invariant
            k <= ds@.len(),
            forall|m: int| 0 <= m < ds@.len() ==> debt_sums_fit(#[trigger] ds@[m]),
            debt_totals_fit(ds@, user@),
            to_me == debt_totals_of(ds@.take(k as int), user@).0,
            by_me == debt_totals_of(ds@.take(k as int), user@).1,
        decreases ds@.len() - k,
    {
        let d = &ds[k];
        assert(ds@.take(k + 1).drop_last() == ds@.take(k as int));
        assert(ds@.take(k + 1).last() == ds@[k as int]);
        assert(debt_sums_fit(ds@[k as int]));
        assert(in_i64(debt_totals_of(ds@.take(k + 1), user@).0));
        if d.status == DebtStatus::Confirmed {
            if d.debtor_user_id == *user {
                by_me = by_me + d.remaining_minor();
            } else {
                to_me = to_me + d.remaining_minor();
            }
        }
        k += 1;
    }
    assert(ds@.take(ds@.len() as int) == ds@);
    (to_me, by_me)
}

/// The summary line of the debt list, where the sums fit: `None` when some debt's
/// own sums, or a running total, leave the `i64` range.
pub fn debt_totals_checked(ds: &Vec<Debt>, user: &String) -> (r: Option<(i64, i64)>)
    ensures
        r is Some <==> (forall|k: int| 0 <= k < ds@.len() ==> debt_sums_fit(#[trigger] ds@[k]))
            && debt_totals_fit(ds@, user@),
        r matches Some(t) ==> t.0 == debt_totals_of(ds@, user@).0 && t.1 == debt_totals_of(
            ds@,
            user@,
        ).1,
{
    let mut to_me: i64 = 0;
    let mut by_me: i64 = 0;
    let mut k: usize = 0;
    assert(debt_totals_of(ds@.take(0), user@) == (0int, 0int));
    while k < ds.len()
        invariant
            k <= ds@.len(),
            forall|m: int| 0 <= m < k ==> debt_sums_fit(#[trigger] ds@[m]),
            forall|j: int|
                0 <= j <= k ==> in_i64(#[trigger] debt_totals_of(ds@.take(j), user@).0) && in_i64(
                    debt_totals_of(ds@.take(j), user@).1,
                ),
            to_me == debt_totals_of(ds@.take(k as int), user@).0,
            by_me == debt_totals_of(ds@.take(k as int), user@).1,
        decreases ds@.len() - k,
    {
        let d = &ds[k];
        if !d.sums_fit() {
            return None;
        }
        assert(ds@.take(k + 1).drop_last() == ds@.take(k as int));
        assert(ds@.take(k + 1).last() == ds@[k as int]);
        if d.status == DebtStatus::Confirmed {
            let left = d.remaining_minor();
            if d.debtor_user_id == *user {
                match by_me.checked_add(left) {
                    Some(v) => by_me = v,
                    None => {
                        assert(!in_i64(debt_totals_of(ds@.take(k + 1), user@).1));
                        assert(!debt_totals_fit(ds@, user@)) by {
                            if debt_totals_fit(ds@, user@) {
                                assert(in_i64(debt_totals_of(ds@.take(k + 1), user@).0));
                            }
                        }
                        return None;
                    },
                }
            } else {
                match to_me.checked_add(left) {
                    Some(v) => to_me = v,
                    None => {
                        assert(!in_i64(debt_totals_of(ds@.take(k + 1), user@).0));
                        assert(!debt_totals_fit(ds@, user@)) by {
                            if debt_totals_fit(ds@, user@) {
                                assert(in_i64(debt_totals_of(ds@.take(k + 1), user@).0));
                            }
                        }
                        return None;
                    },
                }
            }
        }
        k += 1;
    }
    assert(ds@.take(ds@.len() as int) == ds@);
    Some((to_me, by_me))
}

/// Each side of the debt-list summary adds up what is left of the confirmed debts
/// on that side: owed to `user` is the sum of `remaining_of` over the confirmed
/// debts whose debtor is someone else, owed by `user` the same sum over those whose
/// debtor is `user`. Settled, disputed and forgiven debts count for nothing.
pub proof fn lemma_debt_totals_add_up_what_is_left(ds: Seq<Debt>, user: Seq<char>)
    ensures
        debt_totals_of(ds, user).0 == ds.fold_left(
            0int,
            |acc: int, d: Debt|
                if d.status == DebtStatus::Confirmed && d.debtor_user_id@ != user {
                    acc + remaining_of(d)
                } else {
                    acc
                },
        ),
        debt_totals_of(ds, user).1 == ds.fold_left(
            0int,
            |acc: int, d: Debt|
                if d.status == DebtStatus::Confirmed && d.debtor_user_id@ == user {
                    acc + remaining_of(d)
                } else {
                    acc
                },
        ),
    decreases ds.len(),
{
    if ds.len() > 0 {
        lemma_debt_totals_add_up_what_is_left(ds.drop_last(), user);
    }
}

/// The contacts one can put a debt on: those linked to a user, in order.
pub open spec fn linked_of(cs: Seq<Contact>) -> Seq<usize>
    decreases cs.len(),
{
    if cs.len() == 0 {
        Seq::empty()
    } else {
        let r = linked_of(cs.drop_last());
        if cs.last().linked_user_id is Some {
            r.push((cs.len() - 1) as usize)
        } else {
            r
        }
    }
}

/// The positions returned are exactly those of the contacts linked to a user: each
/// names a contact of `cs` whose `linked_user_id` is set, every such contact is
/// named, and they come in increasing order, so none twice.
pub proof fn lemma_linked_are_exactly_the_linked(cs: Seq<Contact>)
    requires
        cs.len() <= usize::MAX,
    ensures
        ({
            let r = linked_of(cs);
            &&& forall|j: int|
                0 <= j < r.len() ==> #[trigger] r[j] < cs.len() && cs[r[j] as int].linked_user_id is Some
            &&& forall|i: int, j: int| #![trigger r[i], r[j]] 0 <= i < j < r.len() ==> r[i] < r[j]
            &&& forall|k: int|
                0 <= k < cs.len() && #[trigger] cs[k].linked_user_id is Some
                    ==> exists|j: int| 0 <= j < r.len() && #[trigger] r[j] == k
        }),
    decreases cs.len(),
{
    if cs.len() > 0 {
        let p = cs.drop_last();
        lemma_linked_are_exactly_the_linked(p);
        let q = linked_of(p);
        let r = linked_of(cs);
        assert forall|j: int| 0 <= j < q.len() implies r[j] == q[j] && q[j] < p.len()
            && cs[q[j] as int] == p[q[j] as int] by {}
        assert forall|k: int| 0 <= k < cs.len() && #[trigger] cs[k].linked_user_id is Some
            implies exists|j: int| 0 <= j < r.len() && #[trigger] r[j] == k by {
            if k < p.len() {
                assert(p[k] == cs[k]);
                let j = choose|j: int| 0 <= j < q.len() && #[trigger] q[j] == k;
                assert(r[j] == q[j]);
            } else {
                assert(r[q.len() as int] == k);
            }
        }
    }
}

/// The positions of the linked contacts, the candidates for a new debt's debtor.
pub fn linked_contacts(cs: &Vec<Contact>) -> (r: Vec<usize>)
    ensures
        r@ == linked_of(cs@),
{
    let mut r: Vec<usize> = Vec::new();
    let mut k: usize = 0;
    while k < cs.len()
        invariant
            k <= cs@.len(),
            r@ == linked_of(cs@.take(k as int)),
        decreases cs@.len() - k,
    {
        assert(cs@.take(k + 1).drop_last() == cs@.take(k as int));
        if cs[k].linked_user_id.is_some() {
            r.push(k);
        }
        k += 1;
    }
    assert(cs@.take(cs@.len() as int) == cs@);
    r
}

/// The button of a linked contact when a new debt's debtor is picked: an inert
/// "blocked you" row when that user has blocked the creditor, else "pick" with the
/// user's id.
pub open spec fn debtor_button_of(name: Seq<char>, user_id: Seq<char>, blocked: bool) -> (Seq<char>, Seq<char>) {
    if blocked {
        ("🚫 "@ + name + " (заблокировал вас)"@, "noop"@)
    } else {
        ("👤 "@ + name, "debt:pickdebtor:"@ + user_id)
    }
}

/// The debtor button for contact `c`, linked to the user `linked`; `blocked` is
/// whether that user has blocked the creditor.
pub fn debtor_button(c: &Contact, linked: &String, blocked: bool) -> (b: InlineKeyboardButton)
    ensures
        is_callback_button(
            b,
            debtor_button_of(c.display_name@, linked@, blocked).0,
            debtor_button_of(c.display_name@, linked@, blocked).1,
        ),
{
    if blocked {
        let text = concat_str(concat_str("🚫 ", c.display_name.as_str()).as_str(), " (заблокировал вас)");
        InlineKeyboardButton::callback(text.as_str(), "noop")
    } else {
        let text = concat_str("👤 ", c.display_name.as_str());
        let data = concat_str("debt:pickdebtor:", linked.as_str());
        InlineKeyboardButton::callback(text.as_str(), data.as_str())
    }
}

} // verus!
