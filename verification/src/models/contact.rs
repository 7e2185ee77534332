//! Address-book entries and phone number normalisation.
use crate::ids::{is_hyphenated_uuid, new_id};
use crate::text::{all_digits, chars_of, is_digit, push_chars, string_of};
use vstd::prelude::*;

verus! {

/// An entry in a user's address book.
#[derive(Debug, Clone)]
pub struct Contact {
    pub id: String,
    /// The owner of the address book.
    pub owner_user_id: String,
    /// The name the owner gave this contact.
    pub display_name: String,
    /// The normalised phone number, from a Telegram shared contact.
    pub phone: String,
    /// The contact's own user, once they have started the bot.
    pub linked_user_id: Option<String>,
    /// Unix seconds.
    pub created_at: i64,
}

/// The ASCII digits of `s`, in order.
pub open spec fn ascii_digits_of(s: Seq<char>) -> Seq<char>
    decreases s.len(),
{
    if s.len() == 0 {
        Seq::empty()
    } else {
        let rest = ascii_digits_of(s.drop_last());
        if is_digit(s.last()) {
            rest.push(s.last())
        } else {
            rest
        }
    }
}

/// The normalised form of a digit string `d`: empty for no digits; "+998" before nine
/// digits (Uzbek number without country code); "+998" in place of the leading '0' of
/// ten digits; "+7" in place of the leading '8' of eleven digits (Russian form); '+'
/// before anything else.
pub open spec fn normalized_digits(d: Seq<char>) -> Seq<char> {
    if d.len() == 0 {
        Seq::empty()
    } else if d.len() == 9 {
        seq!['+', '9', '9', '8'] + d
    } else if d.len() == 10 && d[0] == '0' {
        seq!['+', '9', '9', '8'] + d.drop_first()
    } else if d.len() == 11 && d[0] == '8' {
        seq!['+', '7'] + d.drop_first()
    } else {
        seq!['+'] + d
    }
}

/// The normal form `+XXXXXXXXXXXX` of a phone number as typed.
pub open spec fn normalized_phone(s: Seq<char>) -> Seq<char> {
    normalized_digits(ascii_digits_of(s))
}

proof fn lemma_digits_of_all_digits(s: Seq<char>)
    requires
        all_digits(s),
    ensures
        ascii_digits_of(s) == s,
    decreases s.len(),
{
    if s.len() > 0 {
        assert(all_digits(s.drop_last()));
        lemma_digits_of_all_digits(s.drop_last());
        assert(s.drop_last().push(s.last()) == s);
    }
}

proof fn lemma_digits_of_concat(a: Seq<char>, b: Seq<char>)
    ensures
        ascii_digits_of(a + b) == ascii_digits_of(a) + ascii_digits_of(b),
    decreases b.len(),
{
    if b.len() == 0 {
        assert(a + b == a);
    } else {
        assert((a + b).drop_last() == a + b.drop_last());
        lemma_digits_of_concat(a, b.drop_last());
    }
}

proof fn lemma_ascii_digits_are_digits(s: Seq<char>)
    ensures
        all_digits(ascii_digits_of(s)),
    decreases s.len(),
{
    if s.len() > 0 {
        lemma_ascii_digits_are_digits(s.drop_last());
    }
}

/// A normalised number is empty, or '+' followed by ASCII digits only.
pub proof fn lemma_normalized_shape(s: Seq<char>)
    ensures
        normalized_phone(s).len() == 0 || (normalized_phone(s)[0] == '+' && all_digits(
            normalized_phone(s).drop_first(),
        )),
{
    let d = ascii_digits_of(s);
    lemma_ascii_digits_are_digits(s);
    let n = normalized_phone(s);
    if d.len() > 0 {
        assert(all_digits(n.drop_first())) by {
            assert forall|i: int| 0 <= i < n.drop_first().len() implies is_digit(
                #[trigger] n.drop_first()[i],
            ) by {
                if d.len() == 9 || (d.len() == 10 && d[0] == '0') {
                    if i >= 3 {
                        if d.len() == 9 {
                            assert(n.drop_first()[i] == d[i - 3]);
                        } else {
                            assert(n.drop_first()[i] == d[i - 2]);
                        }
                    }
                } else if d.len() == 11 && d[0] == '8' {
                    if i >= 1 {
                        assert(n.drop_first()[i] == d[i]);
                    }
                } else {
                    assert(n.drop_first()[i] == d[i]);
                }
            }
        }
    }
}

/// Normalising a normalised number changes nothing.
pub proof fn lemma_normalize_idempotent(s: Seq<char>)
    ensures
        normalized_phone(normalized_phone(s)) == normalized_phone(s),
{
    let n = normalized_phone(s);
    lemma_normalized_shape(s);
    if n.len() > 0 {
        let rest = n.drop_first();
        assert(n == seq!['+'] + rest);
        lemma_digits_of_concat(seq!['+'], rest);
        assert(ascii_digits_of(seq!['+']) == Seq::<char>::empty()) by {
            assert(seq!['+'].drop_last() == Seq::<char>::empty());
            assert(seq!['+'].last() == '+');
            assert(!is_digit('+'));
            assert(ascii_digits_of(Seq::<char>::empty()) == Seq::<char>::empty());
        }
        lemma_digits_of_all_digits(rest);
        assert(ascii_digits_of(n) == rest);
        let d = ascii_digits_of(s);
        if d.len() == 9 {
            assert(rest == seq!['9', '9', '8'] + d);
        } else if d.len() == 10 && d[0] == '0' {
            assert(rest == seq!['9', '9', '8'] + d.drop_first());
        } else if d.len() == 11 && d[0] == '8' {
            assert(rest == seq!['7'] + d.drop_first());
        } else {
            assert(rest == d);
        }
    }
}

/// Normalises a phone number to the form `+XXXXXXXXXXXX`; only its digits count.
///
/// - `+998 90 336 36 39` → `+998903363639`
/// - `998-90-336-36-39` → `+998903363639`
/// - `0903363639` → `+998903363639` (Uzbek local form with 0)
/// - `903363639` → `+998903363639` (Uzbek local form without 0)
/// - `89031234567` → `+79031234567` (Russian form with 8)
pub fn normalize_phone(s: &str) -> (r: String)
    ensures
        r@ == normalized_phone(s@),
{
    let cs = chars_of(s);
    let mut digits: Vec<char> = Vec::new();
    let mut i: usize = 0;
    while i < cs.len()
        invariant
            i <= cs.len(),
            cs@ == s@,
            digits@ == ascii_digits_of(cs@.take(i as int)),
        decreases cs.len() - i,
    {
        assert(cs@.take(i + 1).drop_last() == cs@.take(i as int));
        let c = cs[i];
        if '0' <= c && c <= '9' {
            digits.push(c);
        }
        i += 1;
    }
    assert(cs@.take(cs.len() as int) == cs@);
    let n = digits.len();
    let mut out: Vec<char> = Vec::new();
    if n == 0 {
    } else if n == 9 {
        out.push('+');
        out.push('9');
        out.push('9');
        out.push('8');
        push_chars(&mut out, &digits);
    } else if n == 10 && digits[0] == '0' {
        out.push('+');
        out.push('9');
        out.push('9');
        out.push('8');
        let tail = slice_to_vec(&digits[1..n]);
        push_chars(&mut out, &tail);
    } else if n == 11 && digits[0] == '8' {
        out.push('+');
        out.push('7');
        let tail = slice_to_vec(&digits[1..n]);
        push_chars(&mut out, &tail);
    } else {
        out.push('+');
        push_chars(&mut out, &digits);
    }
    string_of(&out)
}

fn slice_to_vec(s: &[char]) -> (v: Vec<char>)
    ensures
        v@ == s@,
{
    let mut v: Vec<char> = Vec::new();
    let mut i: usize = 0;
    while i < s.len()
        invariant
            i <= s.len(),
            v@ == s@.take(i as int),
        decreases s.len() - i,
    {
        v.push(s[i]);
        assert(s@.take(i + 1) == s@.take(i as int).push(s@[i as int]));
        i += 1;
    }
    assert(s@.take(s.len() as int) == s@);
    v
}

impl Contact {
    /// A new address-book entry of `owner_user_id`; the phone is stored normalised,
    /// the contact is not linked yet.
    pub fn new(owner_user_id: String, display_name: String, phone: String, fresh_id: &uuid::Uuid, now: i64) -> (c: Contact)
        ensures
            is_hyphenated_uuid(c.id@),
            c.owner_user_id == owner_user_id,
            c.display_name == display_name,
            c.phone@ == normalized_phone(phone@),
            c.linked_user_id is None,
            c.created_at == now,
    {
        let id = new_id(fresh_id);
        let phone = normalize_phone(phone.as_str());
        Contact {
            id,
            owner_user_id,
            display_name,
            phone,
            linked_user_id: None,
            created_at: now,
        }
    }
}

} // verus!
