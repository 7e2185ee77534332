//! Blocks between users.
use crate::ids::{is_hyphenated_uuid, new_id};
use vstd::prelude::*;

verus! {

/// The blocker blocked the blocked user: the blocked user cannot add the blocker to a
/// room or put a debt on them, and the bot sends the blocker no notices caused by the
/// blocked user.
#[derive(Debug, Clone)]
pub struct Block {
    pub id: String,
    pub blocker_user_id: String,
    pub blocked_user_id: String,
    /// Unix seconds.
    pub created_at: i64,
}

impl Block {
    pub fn new(blocker: String, blocked: String, fresh_id: &uuid::Uuid, now: i64) -> (b: Block)
        ensures
            is_hyphenated_uuid(b.id@),
            b.blocker_user_id == blocker,
            b.blocked_user_id == blocked,
            b.created_at == now,
    {
        Block {
            id: new_id(fresh_id),
            blocker_user_id: blocker,
            blocked_user_id: blocked,
            created_at: now,
        }
    }
}

} // verus!
