//! Users of the bot.
use crate::ids::{is_hyphenated_uuid, new_id};
use crate::models::money::Currency;
use crate::telegram::types::TgUser;
use crate::text::{chars_of, has_prefix, opt_str_clone, opt_str_eq, opt_view, push_str, starts_with, string_of};
use vstd::prelude::*;

verus! {

#[derive(Debug, Clone)]
pub struct User {
    pub id: String,
    pub telegram_id: i64,
    pub telegram_username: Option<String>,
    pub first_name: String,
    pub last_name: Option<String>,
    pub phone: Option<String>,
    pub language: String,
    pub preferred_currency: Currency,
    /// Unix seconds.
    pub created_at: i64,
}

/// The name shown for a user: first and last name separated by a space.
pub open spec fn display_name_of(first: Seq<char>, last: Option<Seq<char>>) -> Seq<char> {
    match last {
        Some(l) => first + seq![' '] + l,
        None => first,
    }
}

/// The language a new user gets from Telegram's language code: "uz" or "en" where the
/// code starts so, "ru" otherwise.
pub open spec fn language_of(code: Option<Seq<char>>) -> Seq<char> {
    match code {
        Some(c) => if has_prefix(c, seq!['u', 'z']) {
            seq!['u', 'z']
        } else if has_prefix(c, seq!['e', 'n']) {
            seq!['e', 'n']
        } else {
            seq!['r', 'u']
        },
        None => seq!['r', 'u'],
    }
}

impl User {
    /// A new user with Russian as language and UZS as preferred currency.
    pub fn new(telegram_id: i64, first_name: String, fresh_id: &uuid::Uuid, now: i64) -> (u: User)
        ensures
            is_hyphenated_uuid(u.id@),
            u.telegram_id == telegram_id,
            u.telegram_username is None,
            u.first_name == first_name,
            u.last_name is None,
            u.phone is None,
            u.language@ == seq!['r', 'u'],
            u.preferred_currency == Currency::Uzs,
            u.created_at == now,
    {
        proof {
            reveal_strlit("ru");
            assert("ru"@ =~= seq!['r', 'u']);
        }
        User {
            id: new_id(fresh_id),
            telegram_id,
            telegram_username: None,
            first_name,
            last_name: None,
            phone: None,
            language: "ru".to_owned(),
            preferred_currency: Currency::Uzs,
            created_at: now,
        }
    }

    /// "First Last", or just the first name.
    pub fn display_name(&self) -> (s: String)
        ensures
            s@ == display_name_of(self.first_name@, opt_view(self.last_name)),
    {
        match &self.last_name {
            Some(ln) => {
                let mut v = chars_of(self.first_name.as_str());
                v.push(' ');
                push_str(&mut v, ln.as_str());
                string_of(&v)
            },
            None => self.first_name.clone(),
        }
    }

    /// The user record for someone who writes to the bot for the first time: their
    /// Telegram names, and the language their Telegram client reports.
    pub fn from_tg(tg: &TgUser, fresh_id: &uuid::Uuid, now: i64) -> (u: User)
        ensures
            is_hyphenated_uuid(u.id@),
            u.telegram_id == tg.id,
            u.telegram_username == tg.username,
            u.first_name == tg.first_name,
            u.last_name == tg.last_name,
            u.phone is None,
            u.language@ == language_of(opt_view(tg.language_code)),
            u.preferred_currency == Currency::Uzs,
            u.created_at == now,
    {
        let mut u = User::new(tg.id, tg.first_name.clone(), fresh_id, now);
        u.last_name = opt_str_clone(&tg.last_name);
        u.telegram_username = opt_str_clone(&tg.username);
        proof {
            reveal_strlit("uz");
            reveal_strlit("en");
            assert("uz"@ =~= seq!['u', 'z']);
            assert("en"@ =~= seq!['e', 'n']);
        }
        if let Some(lc) = &tg.language_code {
            if starts_with(lc.as_str(), "uz") {
                u.language = "uz".to_owned();
            } else if starts_with(lc.as_str(), "en") {
                u.language = "en".to_owned();
            }
        }
        u
    }

    /// Takes over the names that may have changed in Telegram; `true` when something
    /// changed and the record needs saving.
    pub fn refresh_from_tg(&mut self, tg: &TgUser) -> (dirty: bool)
        ensures
            opt_view(final(self).telegram_username) == opt_view(tg.username),
            final(self).first_name@ == tg.first_name@,
            opt_view(final(self).last_name) == opt_view(tg.last_name),
            dirty == (opt_view(old(self).telegram_username) != opt_view(tg.username)
                || old(self).first_name@ != tg.first_name@ || opt_view(old(self).last_name)
                != opt_view(tg.last_name)),
            final(self).id == old(self).id,
            final(self).telegram_id == old(self).telegram_id,
            final(self).phone == old(self).phone,
            final(self).language == old(self).language,
            final(self).preferred_currency == old(self).preferred_currency,
            final(self).created_at == old(self).created_at,
    {
        let mut dirty = false;
        if !opt_str_eq(&self.telegram_username, &tg.username) {
            self.telegram_username = opt_str_clone(&tg.username);
            dirty = true;
        }
        if self.first_name != tg.first_name {
            self.first_name = tg.first_name.clone();
            dirty = true;
        }
        if !opt_str_eq(&self.last_name, &tg.last_name) {
            self.last_name = opt_str_clone(&tg.last_name);
            dirty = true;
        }
        dirty
    }
}

} // verus!
