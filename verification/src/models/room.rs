//! Rooms: shared purchases whose items members pick and then split.
use crate::ids::{is_hyphenated_uuid, new_id};
use crate::models::money::Currency;
use vstd::prelude::*;

verus! {

/// Where a room is in its life.
#[derive(Debug, Clone, Copy, PartialEq, Eq, Structural)]
pub enum RoomStatus {
    /// The creator adds items and the members pick theirs.
    Collecting,
    /// The lists are frozen while everyone finishes picking.
    Locked,
    /// The shares are computed and the debts created.
    Settled,
    Archived,
}

/// A shared purchase.
#[derive(Debug, Clone)]
pub struct Room {
    pub id: String,
    pub name: String,
    pub creator_user_id: String,
    /// Only users who have started the bot.
    pub member_user_ids: Vec<String>,
    pub currency: Currency,
    pub status: RoomStatus,
    /// Unix seconds.
    pub created_at: i64,
    pub locked_at: Option<i64>,
    pub settled_at: Option<i64>,
}

/// One position of a room's shopping list.
#[derive(Debug, Clone)]
pub struct RoomItem {
    pub id: String,
    pub room_id: String,
    pub name: String,
    pub unit: Option<String>,
    /// The price of the whole position, in minor units of the room's currency.
    pub total_price_minor: i64,
    /// The members who took this position; the price is split between them.
    pub selected_by: Vec<String>,
    /// Unix seconds.
    pub created_at: i64,
}

/// Whether `id` (by its characters) occurs in `ids`.
pub open spec fn contains_id(ids: Seq<String>, id: Seq<char>) -> bool {
    exists|i: int| 0 <= i < ids.len() && (#[trigger] ids[i])@ == id
}

/// Whether `ids` (by their characters) contains `id`.
pub fn has_id(ids: &Vec<String>, id: &String) -> (r: bool)
    ensures
        r == contains_id(ids@, id@),
{
    let mut i: usize = 0;
    while i < ids.len()
        invariant
            i <= ids.len(),
            forall|j: int| 0 <= j < i ==> (#[trigger] ids@[j])@ != id@,
        decreases ids.len() - i,
    {
        if ids[i] == *id {
            return true;
        }
        i += 1;
    }
    false
}

impl Room {
    /// A new room collecting items, with its creator as the only member.
    pub fn new(name: String, creator_user_id: String, currency: Currency, fresh_id: &uuid::Uuid, now: i64) -> (r: Room)
        ensures
            is_hyphenated_uuid(r.id@),
            r.name == name,
            r.creator_user_id == creator_user_id,
            r.member_user_ids@ == seq![creator_user_id],
            r.currency == currency,
            r.status == RoomStatus::Collecting,
            r.created_at == now,
            r.locked_at is None,
            r.settled_at is None,
    {
        let id = new_id(fresh_id);
        let creator = creator_user_id.clone();
        let mut members: Vec<String> = Vec::new();
        members.push(creator_user_id);
        Room {
            id,
            name,
            creator_user_id: creator,
            member_user_ids: members,
            currency,
            status: RoomStatus::Collecting,
            created_at: now,
            locked_at: None,
            settled_at: None,
        }
    }

    /// Adds `user_id` to the members unless already there; `true` if it was added.
    pub fn add_member(&mut self, user_id: String) -> (added: bool)
        ensures
            added == !contains_id(old(self).member_user_ids@, user_id@),
            final(self).member_user_ids@ == if added {
                old(self).member_user_ids@.push(user_id)
            } else {
                old(self).member_user_ids@
            },
            final(self).id == old(self).id,
            final(self).name == old(self).name,
            final(self).creator_user_id == old(self).creator_user_id,
            final(self).currency == old(self).currency,
            final(self).status == old(self).status,
            final(self).created_at == old(self).created_at,
            final(self).locked_at == old(self).locked_at,
            final(self).settled_at == old(self).settled_at,
    {
        if has_id(&self.member_user_ids, &user_id) {
            false
        } else {
            self.member_user_ids.push(user_id);
            true
        }
    }
}


/// Whether `after` is `before` with `user` toggled: the first entry equal to `user`
/// (by its characters) removed if there is one, else `user` appended.
pub open spec fn toggled(before: Seq<String>, user: String, after: Seq<String>) -> bool {
    &&& contains_id(before, user@) ==> exists|p: int|
        0 <= p < before.len() && (#[trigger] before[p])@ == user@ && (forall|q: int|
            0 <= q < p ==> (#[trigger] before[q])@ != user@) && after == before.remove(p)
    &&& !contains_id(before, user@) ==> after == before.push(user)
}

/// Taking an item and giving it back leaves its list of takers as it was, for a
/// user who had not taken it.
pub proof fn lemma_toggle_twice_restores(s0: Seq<String>, user: String, s1: Seq<String>, s2: Seq<String>)
    requires
        !contains_id(s0, user@),
        toggled(s0, user, s1),
        toggled(s1, user, s2),
    ensures
        s2 == s0,
{
    assert(s1[s0.len() as int] == user);
    assert(contains_id(s1, user@));
    let p = choose|p: int|
        0 <= p < s1.len() && (#[trigger] s1[p])@ == user@ && (forall|q: int|
            0 <= q < p ==> (#[trigger] s1[q])@ != user@) && s2 == s1.remove(p);
    if p < s0.len() {
        assert(s1[p] == s0[p]);
        assert(contains_id(s0, user@));
    }
    assert(s1.remove(p) == s0);
}

impl RoomItem {
    /// The user takes the item, or gives it back if they had taken it.
    pub fn toggle_selection(&mut self, user_id: &String)
        ensures
            toggled(old(self).selected_by@, *user_id, final(self).selected_by@),
            final(self).id == old(self).id,
            final(self).room_id == old(self).room_id,
            final(self).name == old(self).name,
            final(self).unit == old(self).unit,
            final(self).total_price_minor == old(self).total_price_minor,
            final(self).created_at == old(self).created_at,
    {
        let mut p: usize = 0;
        while p < self.selected_by.len()
            invariant
                p <= self.selected_by@.len(),
                self.selected_by@ == old(self).selected_by@,
                self.id == old(self).id,
                self.room_id == old(self).room_id,
                self.name == old(self).name,
                self.unit == old(self).unit,
                self.total_price_minor == old(self).total_price_minor,
                self.created_at == old(self).created_at,
                forall|q: int| 0 <= q < p ==> (#[trigger] self.selected_by@[q])@ != user_id@,
            decreases self.selected_by@.len() - p,
        {
            if self.selected_by[p] == *user_id {
                self.selected_by.remove(p);
                return;
            }
            p += 1;
        }
        self.selected_by.push(user_id.clone());
    }
}

impl RoomItem {
    /// A new position that nobody has picked yet.
    pub fn new(room_id: String, name: String, total_price_minor: i64, fresh_id: &uuid::Uuid, now: i64) -> (it: RoomItem)
        ensures
            is_hyphenated_uuid(it.id@),
            it.room_id == room_id,
            it.name == name,
            it.unit is None,
            it.total_price_minor == total_price_minor,
            it.selected_by@.len() == 0,
            it.created_at == now,
    {
        RoomItem {
            id: new_id(fresh_id),
            room_id,
            name,
            unit: None,
            total_price_minor,
            selected_by: Vec::new(),
            created_at: now,
        }
    }
}

} // verus!
