//! The state of multi-step dialogues.
use crate::models::money::Currency;
use vstd::prelude::*;

verus! {

/// One active dialogue branch per user.
#[derive(Debug, Clone)]
pub struct Session {
    pub telegram_id: i64,
    pub state: SessionState,
    /// Unix seconds.
    pub updated_at: i64,
}

impl Session {
    pub fn new(telegram_id: i64, state: SessionState, now: i64) -> (s: Session)
        ensures
            s.telegram_id == telegram_id,
            s.state == state,
            s.updated_at == now,
    {
        Session { telegram_id, state, updated_at: now }
    }
}

#[derive(Debug, Clone)]
pub enum SessionState {
    Idle,
    // Contacts
    /// Waiting for the name of a new contact.
    AwaitingContactName,
    /// Waiting for the user to share the contact's phone.
    AwaitingContactShare { display_name: String },
    // Rooms
    AwaitingRoomName,
    AwaitingRoomCurrency { name: String },
    AwaitingItemName { room_id: String },
    AwaitingItemPrice { room_id: String, item_name: String },
    /// The creator manages a room's members.
    ManagingRoom { room_id: String },
    // Debts
    /// Picking the debtor among the contacts.
    AwaitingDebtorPick,
    AwaitingDebtAmount { debtor_user_id: String },
    AwaitingDebtCurrency { debtor_user_id: String, amount_minor_or_text: String },
    AwaitingDebtDescription { debtor_user_id: String, amount_minor: i64, currency: Currency },
    AwaitingInstallmentPlan { debt_id: String },
    // Repayment
    AwaitingPaymentAmount { debt_id: String },
}

} // verus!
