//! Decisions behind /start, shared contacts and invitations.
use crate::models::contact::Contact;
use crate::telegram::types::{KeyboardButton, ReplyKeyboardMarkup, ReplyMarkup, TgContact};
use vstd::prelude::*;

verus! {

/// The Russian word for "people" after a count in the genitive ("у 1 человека",
/// "у 5 человек"): singular only when the last digit is 1 and the last two are not
/// 11 to 14.
pub open spec fn people_word(n: int) -> Seq<char> {
    if n % 10 == 1 && !(11 <= n % 100 <= 14) {
        "человека"@
    } else {
        "человек"@
    }
}

/// The word for "people" after the count `n`.
pub fn ru_people(n: usize) -> (w: &'static str)
    ensures
        w@ == people_word(n as int),
{
    let n100 = n % 100;
    let n10 = n % 10;
    if n10 == 1 && !(11 <= n100 && n100 <= 14) {
        "человека"
    } else {
        "человек"
    }
}

/// Whether the shared contact is the sender's own: its Telegram user is the sender.
pub fn is_own_contact(contact: &TgContact, telegram_id: i64) -> (r: bool)
    ensures
        r == (contact.user_id == Some(telegram_id)),
{
    match contact.user_id {
        Some(id) => id == telegram_id,
        None => false,
    }
}

/// The contacts found by phone that are not linked to anyone yet, in order.
pub open spec fn unlinked_of(cs: Seq<Contact>) -> Seq<usize>
    decreases cs.len(),
{
    if cs.len() == 0 {
        Seq::empty()
    } else {
        let r = unlinked_of(cs.drop_last());
        if cs.last().linked_user_id is None {
            r.push((cs.len() - 1) as usize)
        } else {
            r
        }
    }
}

/// The positions of the contacts to link to a user who shared their phone.
pub fn unlinked_contacts(cs: &Vec<Contact>) -> (r: Vec<usize>)
    ensures
        r@ == unlinked_of(cs@),
{
    let mut r: Vec<usize> = Vec::new();
    let mut k: usize = 0;
    while k < cs.len()
        invariant
            k <= cs@.len(),
            r@ == unlinked_of(cs@.take(k as int)),
        decreases cs@.len() - k,
    {
        assert(cs@.take(k + 1).drop_last() == cs@.take(k as int));
        if cs[k].linked_user_id.is_none() {
            r.push(k);
        }
        k += 1;
    }
    assert(cs@.take(cs@.len() as int) == cs@);
    r
}

/// The positions returned are exactly those of the contacts not linked to anyone:
/// each names a contact of `cs` whose `linked_user_id` is `None`, every such contact
/// is named, and they come in increasing order, so none twice.
pub proof fn lemma_unlinked_are_exactly_the_unlinked(cs: Seq<Contact>)
    requires
        cs.len() <= usize::MAX,
    ensures
        ({
            let r = unlinked_of(cs);
            &&& forall|j: int|
                0 <= j < r.len() ==> #[trigger] r[j] < cs.len() && cs[r[j] as int].linked_user_id is None
            &&& forall|i: int, j: int| #![trigger r[i], r[j]] 0 <= i < j < r.len() ==> r[i] < r[j]
            &&& forall|k: int|
                0 <= k < cs.len() && #[trigger] cs[k].linked_user_id is None
                    ==> exists|j: int| 0 <= j < r.len() && #[trigger] r[j] == k
        }),
    decreases cs.len(),
{
    if cs.len() > 0 {
        let p = cs.drop_last();
        lemma_unlinked_are_exactly_the_unlinked(p);
        let q = unlinked_of(p);
        let r = unlinked_of(cs);
        assert forall|j: int| 0 <= j < q.len() implies r[j] == q[j] && q[j] < p.len()
            && cs[q[j] as int] == p[q[j] as int] by {}
        assert forall|k: int| 0 <= k < cs.len() && #[trigger] cs[k].linked_user_id is None
            implies exists|j: int| 0 <= j < r.len() && #[trigger] r[j] == k by {
            if k < p.len() {
                assert(p[k] == cs[k]);
                let j = choose|j: int| 0 <= j < q.len() && #[trigger] q[j] == k;
                assert(r[j] == q[j]);
            } else {
                assert(r[q.len() as int] == k);
            }
        }
    }
}

/// A one-button reply keyboard that asks to share a contact, shown once.
pub fn share_contact_keyboard(label: &str) -> (m: ReplyMarkup)
    ensures
        m matches ReplyMarkup::ReplyKeyboard(k) && {
            &&& k.keyboard@.len() == 1
            &&& k.keyboard@[0]@.len() == 1
            &&& k.keyboard@[0]@[0].text@ == label@
            &&& k.keyboard@[0]@[0].request_contact == Some(true)
            &&& k.resize_keyboard == Some(true)
            &&& k.one_time_keyboard == Some(true)
        },
{
    let mut row: Vec<KeyboardButton> = Vec::new();
    row.push(KeyboardButton::request_contact(label));
    let mut rows: Vec<Vec<KeyboardButton>> = Vec::new();
    rows.push(row);
    ReplyMarkup::ReplyKeyboard(
        ReplyKeyboardMarkup {
            keyboard: rows,
            resize_keyboard: Some(true),
            one_time_keyboard: Some(true),
        },
    )
}

} // verus!
