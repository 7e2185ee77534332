//! Decisions behind the address book and blocking.
use crate::models::contact::Contact;
use crate::telegram::types::{is_callback_button, InlineKeyboardButton};
use crate::text::{chars_of, concat_str, push_str, string_of};
use vstd::prelude::*;

verus! {

/// The deep link that invites someone: "https://t.me/<bot>?start=<token>".
pub open spec fn invite_link_of(bot: Seq<char>, token: Seq<char>) -> Seq<char> {
    "https://t.me/"@ + bot + "?start="@ + token
}

/// The invitation link for `token` to the bot `bot_username`.
pub fn invite_link(bot_username: &str, token: &str) -> (s: String)
    ensures
        s@ == invite_link_of(bot_username@, token@),
{
    let mut v = chars_of("https://t.me/");
    push_str(&mut v, bot_username);
    push_str(&mut v, "?start=");
    push_str(&mut v, token);
    string_of(&v)
}

/// The marker of a contact in the list: linked (in the bot) or still invited.
pub open spec fn contact_marker(c: Contact) -> Seq<char> {
    if c.linked_user_id is Some { "✅"@ } else { "⏳"@ }
}

/// The marker of a contact in the list.
pub fn contact_mark(c: &Contact) -> (t: &'static str)
    ensures
        t@ == contact_marker(*c),
{
    if c.linked_user_id.is_some() { "✅" } else { "⏳" }
}

/// Whether `user` owns the contact, as viewing, blocking, unblocking and deleting
/// require.
pub fn owns_contact(c: &Contact, user: &String) -> (r: bool)
    ensures
        r == (c.owner_user_id@ == user@),
{
    c.owner_user_id == *user
}

/// The blocking button of a linked contact's card: "unblock" when the owner has
/// blocked the contact's user, else "block".
pub open spec fn block_button_of(contact_id: Seq<char>, blocked_by_me: bool) -> (Seq<char>, Seq<char>) {
    if blocked_by_me {
        ("🔓 Разблокировать"@, "contact:unblock:"@ + contact_id)
    } else {
        ("🚫 Заблокировать"@, "contact:block:"@ + contact_id)
    }
}

/// The blocking button for contact `c`.
pub fn block_button(c: &Contact, blocked_by_me: bool) -> (b: InlineKeyboardButton)
    ensures
        is_callback_button(b, block_button_of(c.id@, blocked_by_me).0, block_button_of(c.id@, blocked_by_me).1),
{
    if blocked_by_me {
        let data = concat_str("contact:unblock:", c.id.as_str());
        InlineKeyboardButton::callback("🔓 Разблокировать", data.as_str())
    } else {
        let data = concat_str("contact:block:", c.id.as_str());
        InlineKeyboardButton::callback("🚫 Заблокировать", data.as_str())
    }
}

} // verus!
