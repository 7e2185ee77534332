//! The part of the Telegram Bot API data that the bot reads and sends.
use vstd::prelude::*;

verus! {

/// An incoming update.
#[derive(Debug)]
pub struct Update {
    pub update_id: i64,
    pub message: Option<Message>,
    pub callback_query: Option<CallbackQuery>,
}

#[derive(Debug)]
pub struct Message {
    pub message_id: i64,
    pub from: Option<TgUser>,
    pub chat: Chat,
    pub text: Option<String>,
    pub contact: Option<TgContact>,
}

#[derive(Debug)]
pub struct TgUser {
    pub id: i64,
    pub is_bot: bool,
    pub first_name: String,
    pub last_name: Option<String>,
    pub username: Option<String>,
    pub language_code: Option<String>,
}

#[derive(Debug)]
pub struct Chat {
    pub id: i64,
    /// The chat type ("private", "group", ...).
    pub kind: String,
}

#[derive(Debug)]
pub struct TgContact {
    pub phone_number: String,
    pub first_name: String,
    pub last_name: Option<String>,
    /// The Telegram user id of the contact's owner, where they use Telegram.
    pub user_id: Option<i64>,
}

#[derive(Debug)]
pub struct CallbackQuery {
    pub id: String,
    pub from: TgUser,
    pub message: Option<Message>,
    pub data: Option<String>,
}

/// Keyboard attached to an outgoing message.
#[derive(Debug)]
pub enum ReplyMarkup {
    InlineKeyboard(InlineKeyboardMarkup),
    ReplyKeyboard(ReplyKeyboardMarkup),
    Remove(ReplyKeyboardRemove),
}

#[derive(Debug, Clone)]
pub struct InlineKeyboardMarkup {
    pub inline_keyboard: Vec<Vec<InlineKeyboardButton>>,
}

#[derive(Debug, Clone)]
pub struct InlineKeyboardButton {
    pub text: String,
    pub callback_data: Option<String>,
    pub url: Option<String>,
}

/// Whether `b` is a callback button with this text and data.
pub open spec fn is_callback_button(b: InlineKeyboardButton, text: Seq<char>, data: Seq<char>) -> bool {
    &&& b.text@ == text
    &&& b.callback_data matches Some(d) && d@ == data
    &&& b.url is None
}

impl InlineKeyboardButton {
    /// A button that sends `data` back to the bot when pressed.
    pub fn callback(text: &str, data: &str) -> (b: InlineKeyboardButton)
        ensures
            is_callback_button(b, text@, data@),
    {
        InlineKeyboardButton { text: text.to_owned(), callback_data: Some(data.to_owned()), url: None }
    }

    /// A button that opens `url`.
    pub fn link(text: &str, url: &str) -> (b: InlineKeyboardButton)
        ensures
            b.text@ == text@,
            b.callback_data is None,
            b.url matches Some(u) && u@ == url@,
    {
        InlineKeyboardButton { text: text.to_owned(), callback_data: None, url: Some(url.to_owned()) }
    }
}

#[derive(Debug)]
pub struct ReplyKeyboardMarkup {
    pub keyboard: Vec<Vec<KeyboardButton>>,
    pub resize_keyboard: Option<bool>,
    pub one_time_keyboard: Option<bool>,
}

#[derive(Debug)]
pub struct KeyboardButton {
    pub text: String,
    pub request_contact: Option<bool>,
}

impl KeyboardButton {
    /// A reply-keyboard button that sends its text.
    pub fn text(t: &str) -> (b: KeyboardButton)
        ensures
            b.text@ == t@,
            b.request_contact is None,
    {
        KeyboardButton { text: t.to_owned(), request_contact: None }
    }

    /// A reply-keyboard button that shares the user's own contact.
    pub fn request_contact(t: &str) -> (b: KeyboardButton)
        ensures
            b.text@ == t@,
            b.request_contact == Some(true),
    {
        KeyboardButton { text: t.to_owned(), request_contact: Some(true) }
    }
}

#[derive(Debug)]
pub struct ReplyKeyboardRemove {
    pub remove_keyboard: bool,
}

} // verus!
