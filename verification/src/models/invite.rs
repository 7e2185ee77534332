//! Deep-link invitations.
use crate::ids::{is_simple_uuid, new_token};
use vstd::prelude::*;

verus! {

#[derive(Debug, Clone)]
pub enum InvitePurpose {
    /// An invitation from A: when B presses /start with it, B becomes the linked user
    /// of the contact with this id.
    AddContact { contact_id: String },
}

#[derive(Debug, Clone)]
pub struct Invite {
    /// The token in the deep link t.me/<bot>?start=<token>; also the record's key.
    pub token: String,
    pub created_by_user_id: String,
    pub purpose: InvitePurpose,
    pub used_by_user_id: Option<String>,
    /// Unix seconds.
    pub expires_at: Option<i64>,
    pub created_at: i64,
}

/// Whether `s` can be a Telegram start payload: at most 64 characters of
/// `A-Za-z0-9_-`.
pub open spec fn is_start_payload(s: Seq<char>) -> bool {
    &&& s.len() <= 64
    &&& forall|i: int|
        0 <= i < s.len() ==> {
            let c = #[trigger] s[i];
            ('a' <= c <= 'z') || ('A' <= c <= 'Z') || ('0' <= c <= '9') || c == '_' || c == '-'
        }
}

impl Invite {
    /// A new unused invitation without expiry; its token fits a Telegram start payload.
    pub fn new(created_by: String, purpose: InvitePurpose, fresh_id: &uuid::Uuid, now: i64) -> (inv: Invite)
        ensures
            is_simple_uuid(inv.token@),
            is_start_payload(inv.token@),
            inv.created_by_user_id == created_by,
            inv.purpose == purpose,
            inv.used_by_user_id is None,
            inv.expires_at is None,
            inv.created_at == now,
    {
        let token = new_token(fresh_id);
        assert(is_start_payload(token@)) by {
            assert forall|i: int| 0 <= i < token@.len() implies {
                let c = #[trigger] token@[i];
                ('a' <= c <= 'z') || ('A' <= c <= 'Z') || ('0' <= c <= '9') || c == '_' || c == '-'
            } by {
                assert(crate::ids::is_lower_hex(token@[i]));
            }
        }
        Invite {
            token,
            created_by_user_id: created_by,
            purpose,
            used_by_user_id: None,
            expires_at: None,
            created_at: now,
        }
    }
}

/// The contact to link when `user_id` opens the invitation: none when it is already
/// used or the user invited themselves.
pub open spec fn invite_target(inv: Invite, user_id: Seq<char>) -> Option<Seq<char>> {
    if inv.used_by_user_id is Some || inv.created_by_user_id@ == user_id {
        None
    } else {
        match inv.purpose {
            InvitePurpose::AddContact { contact_id } => Some(contact_id@),
        }
    }
}

impl Invite {
    /// The contact that opening this invitation links to `user_id`, if any.
    pub fn target_for(&self, user_id: &String) -> (r: Option<String>)
        ensures
            match r {
                Some(c) => invite_target(*self, user_id@) == Some(c@),
                None => invite_target(*self, user_id@) is None,
            },
    {
        if self.used_by_user_id.is_some() {
            return None;
        }
        if self.created_by_user_id == *user_id {
            return None;
        }
        match &self.purpose {
            InvitePurpose::AddContact { contact_id } => Some(contact_id.clone()),
        }
    }
}

} // verus!
