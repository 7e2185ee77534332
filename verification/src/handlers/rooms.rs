//! Decisions behind the room screens and the settlement of a room.
use crate::models::room::{contains_id, has_id, Room, RoomItem, RoomStatus};
use crate::models::contact::Contact;
use crate::services::splitter::{
    distinct_keys, has_key, has_share, lemma_no_share_zero, pairs_total, room_totals, taken_total,
    user_total,
};
use crate::telegram::types::{is_callback_button, InlineKeyboardButton};
use crate::text::{chars_of, concat_str, dec_digits, push_dec, push_str, string_of};
use vstd::prelude::*;

verus! {

/// The label of a room status.
pub open spec fn status_label(s: RoomStatus) -> Seq<char> {
    match s {
        RoomStatus::Collecting => "🟢 идёт сбор"@,
        RoomStatus::Locked => "🟡 закрыта"@,
        RoomStatus::Settled => "✅ долги созданы"@,
        RoomStatus::Archived => "📦 в архиве"@,
    }
}

/// The label of a room status, as the room screen shows it.
pub fn status_text(s: RoomStatus) -> (t: &'static str)
    ensures
        t@ == status_label(s),
{
    match s {
        RoomStatus::Collecting => "🟢 идёт сбор",
        RoomStatus::Locked => "🟡 закрыта",
        RoomStatus::Settled => "✅ долги созданы",
        RoomStatus::Archived => "📦 в архиве",
    }
}

/// The badge of a room status in the room list.
pub open spec fn status_mark(s: RoomStatus) -> Seq<char> {
    match s {
        RoomStatus::Collecting => "🟢"@,
        RoomStatus::Locked => "🟡"@,
        RoomStatus::Settled => "✅"@,
        RoomStatus::Archived => "📦"@,
    }
}

/// The badge of a room status.
pub fn status_badge(s: RoomStatus) -> (t: &'static str)
    ensures
        t@ == status_mark(s),
{
    match s {
        RoomStatus::Collecting => "🟢",
        RoomStatus::Locked => "🟡",
        RoomStatus::Settled => "✅",
        RoomStatus::Archived => "📦",
    }
}

/// What the creator can do with the room, by button.
#[derive(Debug, Clone, Copy, PartialEq, Eq, Structural)]
pub enum RoomAdminAction {
    AddItem,
    Members,
    Settle,
    Archive,
}

/// The creator's buttons on the room screen: add an item, manage members and settle
/// while collecting; archive once locked or settled; nothing else, and nothing for
/// other members.
pub open spec fn admin_actions_of(is_creator: bool, s: RoomStatus) -> Seq<RoomAdminAction> {
    if !is_creator {
        Seq::empty()
    } else {
        match s {
            RoomStatus::Collecting => seq![
                RoomAdminAction::AddItem,
                RoomAdminAction::Members,
                RoomAdminAction::Settle,
            ],
            RoomStatus::Locked | RoomStatus::Settled => seq![RoomAdminAction::Archive],
            RoomStatus::Archived => Seq::empty(),
        }
    }
}

/// What the room screen offers `user_id`.
pub struct RoomView {
    /// Whether the user may see the room at all.
    pub is_member: bool,
    /// One toggle button per item while the room collects: whether the user has
    /// taken that item. Empty otherwise.
    pub item_marks: Vec<bool>,
    pub admin_actions: Vec<RoomAdminAction>,
}

/// The decisions of the room screen for `user_id`.
pub fn room_view(room: &Room, items: &Vec<RoomItem>, user_id: &String) -> (v: RoomView)
    ensures
        v.is_member == contains_id(room.member_user_ids@, user_id@),
        room.status == RoomStatus::Collecting ==> v.item_marks@.len() == items@.len() && forall|k: int|
            0 <= k < items@.len() ==> #[trigger] v.item_marks@[k] == contains_id(items@[k].selected_by@, user_id@),
        room.status != RoomStatus::Collecting ==> v.item_marks@.len() == 0,
        v.admin_actions@ == admin_actions_of(room.creator_user_id@ == user_id@, room.status),
{
    let is_member = has_id(&room.member_user_ids, user_id);
    let mut marks: Vec<bool> = Vec::new();
    if room.status == RoomStatus::Collecting {
        let mut k: usize = 0;
        while k < items.len()
            invariant
                k <= items@.len(),
                marks@.len() == k,
                forall|j: int| 0 <= j < k ==> #[trigger] marks@[j] == contains_id(items@[j].selected_by@, user_id@),
            decreases items@.len() - k,
        {
            marks.push(has_id(&items[k].selected_by, user_id));
            k += 1;
        }
    }
    let mut admin: Vec<RoomAdminAction> = Vec::new();
    if room.creator_user_id == *user_id {
        match room.status {
            RoomStatus::Collecting => {
                admin.push(RoomAdminAction::AddItem);
                admin.push(RoomAdminAction::Members);
                admin.push(RoomAdminAction::Settle);
            },
            RoomStatus::Locked | RoomStatus::Settled => {
                admin.push(RoomAdminAction::Archive);
            },
            RoomStatus::Archived => {},
        }
    }
    assert(admin@ =~= admin_actions_of(room.creator_user_id@ == user_id@, room.status));
    RoomView { is_member, item_marks: marks, admin_actions: admin }
}

/// The positions of the items that nobody picked, in order.
pub open spec fn unselected_of(items: Seq<RoomItem>) -> Seq<usize>
    decreases items.len(),
{
    if items.len() == 0 {
        Seq::empty()
    } else {
        let r = unselected_of(items.drop_last());
        if items.last().selected_by@.len() == 0 {
            r.push((items.len() - 1) as usize)
        } else {
            r
        }
    }
}

/// The positions returned are exactly those of the items nobody picked: each names
/// an item of `items` with no one in `selected_by`, every such item is named, and
/// they come in increasing order, so none twice.
pub proof fn lemma_unselected_are_exactly_the_unpicked(items: Seq<RoomItem>)
    requires
        items.len() <= usize::MAX,
    ensures
        ({
            let r = unselected_of(items);
            &&& forall|j: int|
                0 <= j < r.len() ==> #[trigger] r[j] < items.len() && items[r[j] as int].selected_by@.len() == 0
            &&& forall|i: int, j: int| #![trigger r[i], r[j]] 0 <= i < j < r.len() ==> r[i] < r[j]
            &&& forall|k: int|
                0 <= k < items.len() && #[trigger] items[k].selected_by@.len() == 0
                    ==> exists|j: int| 0 <= j < r.len() && #[trigger] r[j] == k
        }),
    decreases items.len(),
{
    if items.len() > 0 {
        let p = items.drop_last();
        lemma_unselected_are_exactly_the_unpicked(p);
        let q = unselected_of(p);
        let r = unselected_of(items);
        assert forall|j: int| 0 <= j < q.len() implies r[j] == q[j] && q[j] < p.len()
            && items[q[j] as int] == p[q[j] as int] by {}
        assert forall|k: int| 0 <= k < items.len() && #[trigger] items[k].selected_by@.len() == 0
            implies exists|j: int| 0 <= j < r.len() && #[trigger] r[j] == k by {
            if k < p.len() {
                assert(p[k] == items[k]);
                let j = choose|j: int| 0 <= j < q.len() && #[trigger] q[j] == k;
                assert(r[j] == q[j]);
            } else {
                assert(r[q.len() as int] == k);
            }
        }
    }
}

/// The positions of the items nobody picked; settling asks first when there are any.
pub fn unselected_items(items: &Vec<RoomItem>) -> (r: Vec<usize>)
    ensures
        r@ == unselected_of(items@),
{
    let mut r: Vec<usize> = Vec::new();
    let mut k: usize = 0;
    while k < items.len()
        invariant
            k <= items@.len(),
            r@ == unselected_of(items@.take(k as int)),
        decreases items@.len() - k,
    {
        assert(items@.take(k + 1).drop_last() == items@.take(k as int));
        if items[k].selected_by.len() == 0 {
            r.push(k);
        }
        k += 1;
    }
    assert(items@.take(items@.len() as int) == items@);
    r
}

/// Settling anyway: the items nobody picked go to the creator. Returns the positions
/// of the items changed.
pub fn assign_unselected(items: &mut Vec<RoomItem>, creator: &String) -> (changed: Vec<usize>)
    ensures
        changed@ == unselected_of(old(items)@),
        final(items)@.len() == old(items)@.len(),
        forall|k: int|
            0 <= k < old(items)@.len() ==> {
                &&& (#[trigger] final(items)@[k]).id == old(items)@[k].id
                &&& final(items)@[k].room_id == old(items)@[k].room_id
                &&& final(items)@[k].name == old(items)@[k].name
                &&& final(items)@[k].unit == old(items)@[k].unit
                &&& final(items)@[k].total_price_minor == old(items)@[k].total_price_minor
                &&& final(items)@[k].created_at == old(items)@[k].created_at
                &&& final(items)@[k].selected_by@ == if old(items)@[k].selected_by@.len() == 0 {
                    seq![*creator]
                } else {
                    old(items)@[k].selected_by@
                }
            },
{
    let ghost orig = items@;
    let mut changed: Vec<usize> = Vec::new();
    let mut k: usize = 0;
    while k < items.len()
        invariant
            k <= items@.len(),
            items@.len() == orig.len(),
            orig == old(items)@,
            changed@ == unselected_of(orig.take(k as int)),
            forall|j: int|
                0 <= j < orig.len() ==> {
                    &&& (#[trigger] items@[j]).id == orig[j].id
                    &&& items@[j].room_id == orig[j].room_id
                    &&& items@[j].name == orig[j].name
                    &&& items@[j].unit == orig[j].unit
                    &&& items@[j].total_price_minor == orig[j].total_price_minor
                    &&& items@[j].created_at == orig[j].created_at
                    &&& items@[j].selected_by@ == if j < k && orig[j].selected_by@.len() == 0 {
                        seq![*creator]
                    } else {
                        orig[j].selected_by@
                    }
                },
        decreases items@.len() - k,
    {
        assert(orig.take(k + 1).drop_last() == orig.take(k as int));
        if items[k].selected_by.len() == 0 {
            let cur = &items[k];
            let mut sel: Vec<String> = Vec::new();
            sel.push(creator.clone());
            let it = RoomItem {
                id: cur.id.clone(),
                room_id: cur.room_id.clone(),
                name: cur.name.clone(),
                unit: crate::text::opt_str_clone(&cur.unit),
                total_price_minor: cur.total_price_minor,
                selected_by: sel,
                created_at: cur.created_at,
            };
            items.set(k, it);
            changed.push(k);
        }
        k += 1;
    }
    assert(orig.take(orig.len() as int) == orig);
    changed
}

/// What each participant other than the creator owes the creator when the room is
/// settled: the creator paid for everything, so everyone else owes their total
/// (`room_totals`). One entry per such user with a share; together they come to the
/// prices of the items taken less the creator's own share.
pub fn settlement_owes(items: &Vec<RoomItem>, creator: &String) -> (r: Vec<(String, i64)>)
    requires
        forall|u: Seq<char>| #[trigger] user_total(items@, u) <= i64::MAX,
    ensures
        distinct_keys(r@),
        forall|k: int| 0 <= k < r@.len() ==> (#[trigger] r@[k]).1 == user_total(items@, r@[k].0@),
        forall|u: Seq<char>| #[trigger] has_key(r@, u) <==> (has_share(items@, u) && u != creator@),
        pairs_total(r@) == taken_total(items@) - user_total(items@, creator@),
{
    let totals = room_totals(items);
    let mut r: Vec<(String, i64)> = Vec::new();
    let mut k: usize = 0;
    while k < totals.len()
        invariant
            k <= totals@.len(),
            distinct_keys(totals@),
            forall|m: int| 0 <= m < totals@.len() ==> (#[trigger] totals@[m]).1 == user_total(items@, totals@[m].0@),
            forall|u: Seq<char>| #[trigger] has_key(totals@, u) <==> has_share(items@, u),
            distinct_keys(r@),
            forall|m: int| 0 <= m < r@.len() ==> (#[trigger] r@[m]).1 == user_total(items@, r@[m].0@),
            forall|u: Seq<char>| #[trigger] has_key(r@, u) <==> (has_key(totals@.take(k as int), u) && u != creator@),
            pairs_total(r@) + (if has_key(totals@.take(k as int), creator@) {
                user_total(items@, creator@)
            } else {
                0
            }) == pairs_total(totals@.take(k as int)),
        decreases totals@.len() - k,
    {
        let ghost old_r = r@;
        assert forall|u: Seq<char>| #[trigger] has_key(totals@.take(k + 1), u) <==> (has_key(totals@.take(k as int), u) || totals@[k as int].0@ == u) by {
            if has_key(totals@.take(k + 1), u) {
                let q = choose|q: int| 0 <= q < k + 1 && (#[trigger] totals@.take(k + 1)[q]).0@ == u;
                if q < k {
                    assert(totals@.take(k as int)[q] == totals@[q]);
                }
            }
            if has_key(totals@.take(k as int), u) {
                let q = choose|q: int| 0 <= q < k && (#[trigger] totals@.take(k as int)[q]).0@ == u;
                assert(totals@.take(k + 1)[q] == totals@[q]);
            }
            if totals@[k as int].0@ == u {
                assert(totals@.take(k + 1)[k as int] == totals@[k as int]);
            }
        }
        assert(totals@.take(k + 1).drop_last() == totals@.take(k as int));
        assert(totals@.take(k + 1).last() == totals@[k as int]);
        if totals[k].0 == *creator {
            assert(!has_key(totals@.take(k as int), creator@)) by {
                if has_key(totals@.take(k as int), creator@) {
                    let q = choose|q: int| 0 <= q < k && (#[trigger] totals@.take(k as int)[q]).0@ == creator@;
                    assert(totals@[q].0@ != totals@[k as int].0@);
                }
            }
        }
        if totals[k].0 != *creator {
            assert(!has_key(old_r, totals@[k as int].0@)) by {
                if has_key(old_r, totals@[k as int].0@) {
                    let q = choose|q: int| 0 <= q < k && (#[trigger] totals@.take(k as int)[q]).0@ == totals@[k as int].0@;
                    assert(totals@[q].0@ != totals@[k as int].0@);
                }
            }
            r.push((totals[k].0.clone(), totals[k].1));
            assert forall|a: int, b: int| 0 <= a < b < r@.len() implies (#[trigger] r@[a]).0@ != (#[trigger] r@[b]).0@ by {
                if b == r@.len() - 1 {
                    if r@[a].0@ == r@[b].0@ {
                        assert(has_key(old_r, totals@[k as int].0@));
                    }
                }
            }
            assert forall|u: Seq<char>| #[trigger] has_key(r@, u) <==> (has_key(old_r, u) || totals@[k as int].0@ == u) by {
                if has_key(old_r, u) {
                    let q = choose|q: int| 0 <= q < old_r.len() && (#[trigger] old_r[q]).0@ == u;
                    assert(r@[q] == old_r[q]);
                }
                if has_key(r@, u) {
                    let q = choose|q: int| 0 <= q < r@.len() && (#[trigger] r@[q]).0@ == u;
                    if q < old_r.len() {
                        assert(r@[q] == old_r[q]);
                    }
                }
                if totals@[k as int].0@ == u {
                    assert(r@[old_r.len() as int].0@ == u);
                }
            }
            assert(r@.drop_last() == old_r);
        }
        k += 1;
    }
    assert(totals@.take(totals@.len() as int) == totals@);
    proof {
        if !has_share(items@, creator@) {
            lemma_no_share_zero(items@, creator@);
        }
    }
    r
}

/// The contacts that can still be offered for the room: linked to a user who is
/// not yet a member. Positions in `contacts`, in order.
pub open spec fn addable_of(room: Room, contacts: Seq<Contact>) -> Seq<usize>
    decreases contacts.len(),
{
    if contacts.len() == 0 {
        Seq::empty()
    } else {
        let r = addable_of(room, contacts.drop_last());
        match contacts.last().linked_user_id {
            Some(l) => if contains_id(room.member_user_ids@, l@) {
                r
            } else {
                r.push((contacts.len() - 1) as usize)
            },
            None => r,
        }
    }
}

/// The positions returned are exactly those of the contacts linked to a user who is
/// not a member of the room: each names such a contact of `contacts`, every such
/// contact is named, and they come in increasing order, so none twice.
pub proof fn lemma_addable_are_exactly_the_non_members(room: Room, contacts: Seq<Contact>)
    requires
        contacts.len() <= usize::MAX,
    ensures
        ({
            let r = addable_of(room, contacts);
            &&& forall|j: int|
                0 <= j < r.len() ==> #[trigger] r[j] < contacts.len() && (contacts[r[j] as int].linked_user_id
                    matches Some(l) && !contains_id(room.member_user_ids@, l@))
            &&& forall|i: int, j: int| #![trigger r[i], r[j]] 0 <= i < j < r.len() ==> r[i] < r[j]
            &&& forall|k: int|
                0 <= k < contacts.len() && (#[trigger] contacts[k].linked_user_id matches Some(l)
                    && !contains_id(room.member_user_ids@, l@)) ==> exists|j: int| 0 <= j < r.len() && #[trigger] r[j] == k
        }),
    decreases contacts.len(),
{
    if contacts.len() > 0 {
        let p = contacts.drop_last();
        lemma_addable_are_exactly_the_non_members(room, p);
        let q = addable_of(room, p);
        let r = addable_of(room, contacts);
        assert forall|j: int| 0 <= j < q.len() implies r[j] == q[j] && q[j] < p.len()
            && contacts[q[j] as int] == p[q[j] as int] by {}
        assert forall|k: int|
            0 <= k < contacts.len() && (#[trigger] contacts[k].linked_user_id matches Some(l)
                && !contains_id(room.member_user_ids@, l@)) implies exists|j: int| 0 <= j < r.len() && #[trigger] r[j] == k by {
            if k < p.len() {
                assert(p[k] == contacts[k]);
                let j = choose|j: int| 0 <= j < q.len() && #[trigger] q[j] == k;
                assert(r[j] == q[j]);
            } else {
                assert(r[q.len() as int] == k);
            }
        }
    }
}

/// The contacts offered on the members screen (each then shown as blocked or
/// addable).
pub fn addable_contacts(room: &Room, contacts: &Vec<Contact>) -> (r: Vec<usize>)
    ensures
        r@ == addable_of(*room, contacts@),
{
    let mut r: Vec<usize> = Vec::new();
    let mut k: usize = 0;
    while k < contacts.len()
        invariant
            k <= contacts@.len(),
            r@ == addable_of(*room, contacts@.take(k as int)),
        decreases contacts@.len() - k,
    {
        assert(contacts@.take(k + 1).drop_last() == contacts@.take(k as int));
        match &contacts[k].linked_user_id {
            Some(l) => {
                if !has_id(&room.member_user_ids, l) {
                    r.push(k);
                }
            },
            None => {},
        }
        k += 1;
    }
    assert(contacts@.take(contacts@.len() as int) == contacts@);
    r
}

/// The button of a contact on the members screen: an inert "blocked you" row when
/// the contact's user has blocked the creator, else "add" with the contact's id.
pub open spec fn member_button_of(name: Seq<char>, contact_id: Seq<char>, blocked: bool) -> (Seq<char>, Seq<char>) {
    if blocked {
        ("🚫 "@ + name + " (заблокировал вас)"@, "noop"@)
    } else {
        ("➕ "@ + name, "room:addm:"@ + contact_id)
    }
}

/// The members-screen button for contact `c`; `blocked` is whether its user has
/// blocked the room's creator.
pub fn member_button(c: &Contact, blocked: bool) -> (b: InlineKeyboardButton)
    ensures
        is_callback_button(
            b,
            member_button_of(c.display_name@, c.id@, blocked).0,
            member_button_of(c.display_name@, c.id@, blocked).1,
        ),
{
    if blocked {
        let text = concat_str(concat_str("🚫 ", c.display_name.as_str()).as_str(), " (заблокировал вас)");
        InlineKeyboardButton::callback(text.as_str(), "noop")
    } else {
        let text = concat_str("➕ ", c.display_name.as_str());
        let data = concat_str("room:addm:", c.id.as_str());
        InlineKeyboardButton::callback(text.as_str(), data.as_str())
    }
}

/// The first `names` joined with ", ".
pub open spec fn joined(names: Seq<Seq<char>>) -> Seq<char>
    decreases names.len(),
{
    if names.len() == 0 {
        Seq::empty()
    } else if names.len() == 1 {
        names[0]
    } else {
        joined(names.drop_last()) + ", "@ + names.last()
    }
}

/// Who took an item, as the room screen lists it: "—" for nobody, else the first
/// three names joined with ", ", and " +N" for the N others.
pub open spec fn taken_text_of(names: Seq<Seq<char>>) -> Seq<char> {
    if names.len() == 0 {
        "—"@
    } else if names.len() <= 3 {
        joined(names)
    } else {
        joined(names.take(3)) + " +"@ + dec_digits((names.len() - 3) as nat)
    }
}

/// The names of those who took an item, as the room screen shows them.
pub fn taken_text(names: &Vec<String>) -> (s: String)
    ensures
        s@ == taken_text_of(names@.map_values(|n: String| n@)),
{
    let ghost views = names@.map_values(|n: String| n@);
    if names.len() == 0 {
        proof {
            reveal_strlit("—");
        }
        return "—".to_owned();
    }
    let shown: usize = if names.len() < 3 { names.len() } else { 3 };
    let mut out: Vec<char> = chars_of(names[0].as_str());
    let mut k: usize = 1;
    assert(views.take(1).drop_last() == Seq::<Seq<char>>::empty());
    assert(joined(views.take(1)) == views[0]);
    while k < shown
        invariant
            1 <= k <= shown <= 3,
            shown <= names@.len(),
            views == names@.map_values(|n: String| n@),
            out@ == joined(views.take(k as int)),
        decreases shown - k,
    {
        push_str(&mut out, ", ");
        push_str(&mut out, names[k].as_str());
        assert(views.take(k + 1).drop_last() == views.take(k as int));
        assert(views.take(k + 1).last() == views[k as int]);
        k += 1;
    }
    if names.len() > 3 {
        push_str(&mut out, " +");
        push_dec(&mut out, (names.len() - 3) as u64);
    } else {
        assert(views.take(names@.len() as int) == views);
    }
    string_of(&out)
}

} // verus!
