//! Menus and keyboards shared by the handlers.
use crate::models::money::{currency_of_code, spec_to_uppercase, Currency};
use crate::telegram::types::{
    is_callback_button, InlineKeyboardButton, InlineKeyboardMarkup, ReplyMarkup,
};
use crate::text::concat_str;
use vstd::prelude::*;

verus! {

/// The main menu: contacts and rooms, then debts and help.
pub fn main_menu_markup() -> (m: ReplyMarkup)
    ensures
        m matches ReplyMarkup::InlineKeyboard(k) && {
            let rows = k.inline_keyboard@;
            &&& rows.len() == 2
            &&& rows[0]@.len() == 2
            &&& rows[1]@.len() == 2
            &&& is_callback_button(rows[0]@[0], "👥 Контакты"@, "menu:contacts"@)
            &&& is_callback_button(rows[0]@[1], "🏠 Комнаты"@, "menu:rooms"@)
            &&& is_callback_button(rows[1]@[0], "💸 Долги"@, "menu:debts"@)
            &&& is_callback_button(rows[1]@[1], "ℹ️ Помощь"@, "menu:help"@)
        },
{
    let mut first: Vec<InlineKeyboardButton> = Vec::new();
    first.push(InlineKeyboardButton::callback("👥 Контакты", "menu:contacts"));
    first.push(InlineKeyboardButton::callback("🏠 Комнаты", "menu:rooms"));
    let mut second: Vec<InlineKeyboardButton> = Vec::new();
    second.push(InlineKeyboardButton::callback("💸 Долги", "menu:debts"));
    second.push(InlineKeyboardButton::callback("ℹ️ Помощь", "menu:help"));
    let mut rows: Vec<Vec<InlineKeyboardButton>> = Vec::new();
    rows.push(first);
    rows.push(second);
    ReplyMarkup::InlineKeyboard(InlineKeyboardMarkup { inline_keyboard: rows })
}

/// The "« Меню" button that leads back to the main menu.
pub fn back_to_menu_button() -> (b: InlineKeyboardButton)
    ensures
        is_callback_button(b, "« Меню"@, "menu:main"@),
{
    InlineKeyboardButton::callback("« Меню", "menu:main")
}

/// One row of currency buttons; each sends "`prefix`:CODE".
pub fn currency_keyboard(prefix: &str) -> (k: InlineKeyboardMarkup)
    ensures
        k.inline_keyboard@.len() == 1,
        k.inline_keyboard@[0]@.len() == 4,
        is_callback_button(k.inline_keyboard@[0]@[0], "UZS"@, prefix@ + ":UZS"@),
        is_callback_button(k.inline_keyboard@[0]@[1], "RUB"@, prefix@ + ":RUB"@),
        is_callback_button(k.inline_keyboard@[0]@[2], "USD"@, prefix@ + ":USD"@),
        is_callback_button(k.inline_keyboard@[0]@[3], "EUR"@, prefix@ + ":EUR"@),
{
    let mut row: Vec<InlineKeyboardButton> = Vec::new();
    row.push(InlineKeyboardButton::callback("UZS", concat_str(prefix, ":UZS").as_str()));
    row.push(InlineKeyboardButton::callback("RUB", concat_str(prefix, ":RUB").as_str()));
    row.push(InlineKeyboardButton::callback("USD", concat_str(prefix, ":USD").as_str()));
    row.push(InlineKeyboardButton::callback("EUR", concat_str(prefix, ":EUR").as_str()));
    let mut rows: Vec<Vec<InlineKeyboardButton>> = Vec::new();
    rows.push(row);
    InlineKeyboardMarkup { inline_keyboard: rows }
}

/// The currency a code names, in any letter case.
pub fn parse_currency(s: &str) -> (r: Option<Currency>)
    ensures
        r == currency_of_code(spec_to_uppercase(s@)),
{
    Currency::parse(s)
}

} // verus!
