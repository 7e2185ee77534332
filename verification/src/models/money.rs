//! Currencies and amounts of money in minor units.
use crate::text::{
    all_digits, chars_of, dec_digits, digit_char, digit_of, digit_value, digits_value,
    int_from_str, is_digit, is_unicode_whitespace, is_whitespace, parse_int, push_chars,
    push_dec, push_str, string_of,
};
use vstd::prelude::*;

verus! {

/// A currency that amounts can be kept in.
#[derive(Debug, Clone, Copy, PartialEq, Eq, Hash, Structural)]
pub enum Currency {
    Uzs,
    Rub,
    Usd,
    Eur,
}

/// The characters of a currency's display symbol.
pub open spec fn symbol_chars(c: Currency) -> Seq<char> {
    match c {
        Currency::Uzs => seq!['с', 'у', 'м'],
        Currency::Rub => seq!['₽'],
        Currency::Usd => seq!['$'],
        Currency::Eur => seq!['€'],
    }
}

/// The currency that an upper-cased code or symbol names, if any.
pub open spec fn currency_of_code(code: Seq<char>) -> Option<Currency> {
    if code == seq!['U', 'Z', 'S'] || code == seq!['С', 'У', 'М'] {
        Some(Currency::Uzs)
    } else if code == seq!['R', 'U', 'B'] || code == seq!['R', 'U', 'R'] || code == seq!['₽'] {
        Some(Currency::Rub)
    } else if code == seq!['U', 'S', 'D'] || code == seq!['$'] {
        Some(Currency::Usd)
    } else if code == seq!['E', 'U', 'R'] || code == seq!['€'] {
        Some(Currency::Eur)
    } else {
        None
    }
}

/// A currency's code: the label of its button, and what the button sends after the
/// prefix ("UZS", "RUB", "USD", "EUR").
pub open spec fn currency_code(c: Currency) -> Seq<char> {
    match c {
        Currency::Uzs => "UZS"@,
        Currency::Rub => "RUB"@,
        Currency::Usd => "USD"@,
        Currency::Eur => "EUR"@,
    }
}

/// Every currency's own code reads back as that currency, and so does its display
/// symbol where the symbol has no letter case (₽, $, €); different currencies have
/// different codes.
pub proof fn lemma_currency_codes_read_back(c: Currency, d: Currency)
    ensures
        currency_of_code(currency_code(c)) == Some(c),
        c != Currency::Uzs ==> currency_of_code(symbol_chars(c)) == Some(c),
        c != d ==> currency_code(c) != currency_code(d),
{
    lemma_code_reads_back(c);
    lemma_code_reads_back(d);
    match c {
        Currency::Uzs => {},
        Currency::Rub => {
            assert(seq!['₽'][0] != seq!['$'][0]);
            assert(seq!['₽'][0] != seq!['€'][0]);
        },
        Currency::Usd => {
            assert(seq!['$'][0] != seq!['₽'][0]);
            assert(seq!['$'][0] != seq!['€'][0]);
        },
        Currency::Eur => {
            assert(seq!['€'][0] != seq!['₽'][0]);
            assert(seq!['€'][0] != seq!['$'][0]);
        },
    }
}

proof fn lemma_code_reads_back(c: Currency)
    ensures
        currency_of_code(currency_code(c)) == Some(c),
{
    reveal_strlit("UZS");
    reveal_strlit("RUB");
    reveal_strlit("USD");
    reveal_strlit("EUR");
    match c {
        Currency::Uzs => {
            assert("UZS"@ =~= seq!['U', 'Z', 'S']);
        },
        Currency::Rub => {
            assert("RUB"@ =~= seq!['R', 'U', 'B']);
            assert(seq!['R', 'U', 'B'][0] != seq!['U', 'Z', 'S'][0]);
            assert(seq!['R', 'U', 'B'][0] != seq!['С', 'У', 'М'][0]);
        },
        Currency::Usd => {
            assert("USD"@ =~= seq!['U', 'S', 'D']);
            assert(seq!['U', 'S', 'D'][1] != seq!['U', 'Z', 'S'][1]);
            assert(seq!['U', 'S', 'D'][0] != seq!['С', 'У', 'М'][0]);
            assert(seq!['U', 'S', 'D'][0] != seq!['R', 'U', 'B'][0]);
            assert(seq!['U', 'S', 'D'][0] != seq!['R', 'U', 'R'][0]);
        },
        Currency::Eur => {
            assert("EUR"@ =~= seq!['E', 'U', 'R']);
            assert(seq!['E', 'U', 'R'][0] != seq!['U', 'Z', 'S'][0]);
            assert(seq!['E', 'U', 'R'][0] != seq!['С', 'У', 'М'][0]);
            assert(seq!['E', 'U', 'R'][0] != seq!['R', 'U', 'B'][0]);
            assert(seq!['E', 'U', 'R'][0] != seq!['R', 'U', 'R'][0]);
            assert(seq!['E', 'U', 'R'][0] != seq!['U', 'S', 'D'][0]);
        },
    }
}

/// What `str::to_uppercase` returns for a string: the full Unicode upper-case mapping.
pub uninterp spec fn spec_to_uppercase(s: Seq<char>) -> Seq<char>;

/// `str::to_uppercase`: its result is named by `spec_to_uppercase` of the argument.
#[verifier::external_body]
fn to_uppercase(s: &str) -> (r: String)
    ensures
        r@ == spec_to_uppercase(s@),
{
    s.to_uppercase()
}

/// Whether `a` holds exactly the characters of the literal `lit`.
fn is_code(a: &Vec<char>, lit: &str) -> (r: bool)
    ensures
        r == (a@ == lit@),
{
    let b = chars_of(lit);
    crate::text::chars_eq(a.as_slice(), b.as_slice())
}

impl Currency {
    /// The number of minor units in one major unit (100 for every currency here).
    pub open spec fn spec_minor_per_major(self) -> int {
        100
    }

    /// Minor units per major unit: 1 USD = 100 cents, and so for the others.
    pub fn minor_per_major(self) -> (r: i64)
        ensures
            r == self.spec_minor_per_major(),
    {
        match self {
            Currency::Uzs => 100,
            Currency::Rub => 100,
            Currency::Usd => 100,
            Currency::Eur => 100,
        }
    }

    /// The display symbol: "сум", "₽", "$", "€".
    pub fn symbol(self) -> (r: &'static str)
        ensures
            r@ == symbol_chars(self),
    {
        proof {
            reveal_strlit("сум");
            reveal_strlit("₽");
            reveal_strlit("$");
            reveal_strlit("€");
        }
        match self {
            Currency::Uzs => "сум",
            Currency::Rub => "₽",
            Currency::Usd => "$",
            Currency::Eur => "€",
        }
    }

    /// The currency that an already upper-cased code or symbol names.
    pub fn from_code(code: &str) -> (r: Option<Currency>)
        ensures
            r == currency_of_code(code@),
    {
        let a = chars_of(code);
        proof {
            reveal_strlit("UZS");
            reveal_strlit("СУМ");
            reveal_strlit("RUB");
            reveal_strlit("RUR");
            reveal_strlit("₽");
            reveal_strlit("USD");
            reveal_strlit("$");
            reveal_strlit("EUR");
            reveal_strlit("€");
            assert("UZS"@ =~= seq!['U', 'Z', 'S']);
            assert("СУМ"@ =~= seq!['С', 'У', 'М']);
            assert("RUB"@ =~= seq!['R', 'U', 'B']);
            assert("RUR"@ =~= seq!['R', 'U', 'R']);
            assert("₽"@ =~= seq!['₽']);
            assert("USD"@ =~= seq!['U', 'S', 'D']);
            assert("$"@ =~= seq!['$']);
            assert("EUR"@ =~= seq!['E', 'U', 'R']);
            assert("€"@ =~= seq!['€']);
        }
        if is_code(&a, "UZS") || is_code(&a, "СУМ") {
            Some(Currency::Uzs)
        } else if is_code(&a, "RUB") || is_code(&a, "RUR") || is_code(&a, "₽") {
            Some(Currency::Rub)
        } else if is_code(&a, "USD") || is_code(&a, "$") {
            Some(Currency::Usd)
        } else if is_code(&a, "EUR") || is_code(&a, "€") {
            Some(Currency::Eur)
        } else {
            None
        }
    }

    /// Reads a currency code or symbol in any letter case ("usd", "СУМ", "€").
    pub fn parse(s: &str) -> (r: Option<Currency>)
        ensures
            r == currency_of_code(spec_to_uppercase(s@)),
    {
        let up = to_uppercase(s);
        Currency::from_code(up.as_str())
    }
}

/// An amount of money in minor units (tiyin, kopecks, cents).
#[derive(Debug, Clone, Copy, PartialEq, Eq, Structural)]
pub struct Money {
    pub amount_minor: i64,
    pub currency: Currency,
}

/// `|n|`.
pub open spec fn abs(n: int) -> int {
    if n < 0 { -n } else { n }
}

/// Integer division rounding toward zero, as Rust's `/` on integers does.
pub open spec fn trunc_div(a: int, b: int) -> int {
    if a >= 0 { a / b } else { -((-a) / b) }
}

/// Three digits of a number below 1000, with leading zeros.
pub open spec fn pad3(m: nat) -> Seq<char> {
    seq![digit_char((m / 100) as int), digit_char(((m / 10) % 10) as int), digit_char((m % 10) as int)]
}

/// The decimal representation of `n` with a space between groups of three digits,
/// counted from the right: 1234500 is "1 234 500".
pub open spec fn grouped(n: nat) -> Seq<char>
    decreases n,
{
    if n < 1000 {
        dec_digits(n)
    } else {
        grouped(n / 1000) + seq![' '] + pad3(n % 1000)
    }
}

/// A signed integer in grouped form: "-" before negative numbers.
pub open spec fn grouped_int(n: int) -> Seq<char> {
    (if n < 0 { seq!['-'] } else { Seq::empty() }) + grouped(abs(n) as nat)
}

/// The number part of an amount's display text: "12 345" or "12,05". The major part
/// is the amount divided by 100 rounding toward zero, the minor part the absolute
/// remainder, shown only when it is not zero.
pub open spec fn amount_text(amount: int) -> Seq<char> {
    let major = trunc_div(amount, 100);
    let minor = abs(amount) % 100;
    grouped_int(major) + (if minor == 0 {
        Seq::empty()
    } else {
        seq![',', digit_char(minor / 10), digit_char(minor % 10)]
    })
}

/// The display text of an amount: "12 345 сум" or "12,05 ₽".
pub open spec fn money_text(amount: int, currency: Currency) -> Seq<char> {
    amount_text(amount) + seq![' '] + symbol_chars(currency)
}

fn push_pad3(out: &mut Vec<char>, m: u64)
    requires
        m < 1000,
    ensures
        final(out)@ == old(out)@ + pad3(m as nat),
{
    out.push(digit_of(m / 100));
    out.push(digit_of((m / 10) % 10));
    out.push(digit_of(m % 10));
}

fn push_grouped(out: &mut Vec<char>, n: u64)
    ensures
        final(out)@ == old(out)@ + grouped(n as nat),
    decreases n,
{
    if n < 1000 {
        push_dec(out, n);
    } else {
        push_grouped(out, n / 1000);
        out.push(' ');
        push_pad3(out, n % 1000);
        assert(final(out)@ == old(out)@ + grouped(n as nat));
    }
}

/// `n` in decimal with thousands separated by spaces: -1234567 is "-1 234 567".
fn group_thousands(n: i64) -> (s: Vec<char>)
    ensures
        s@ == grouped_int(n as int),
{
    let mut out: Vec<char> = Vec::new();
    if n < 0 {
        out.push('-');
    }
    let mag: u64 = if n < 0 { (-(n as i128)) as u64 } else { n as u64 };
    push_grouped(&mut out, mag);
    out
}


/// What reading an amount text gives: an amount in minor units, a rejection, or a
/// failure of the arithmetic or of the string handling (overflow, or cutting a
/// string inside a character).
pub enum AmountParse {
    Amount(int),
    Rejected,
    Fails,
}

/// Whether `x` fits in an `i64`.
pub open spec fn in_i64(x: int) -> bool {
    i64::MIN <= x <= i64::MAX
}

/// The input with whitespace removed and every ',' turned into '.'.
pub open spec fn clean_amount(s: Seq<char>) -> Seq<char>
    decreases s.len(),
{
    if s.len() == 0 {
        Seq::empty()
    } else {
        let rest = clean_amount(s.drop_last());
        let c = s.last();
        if is_unicode_whitespace(c) {
            rest
        } else if c == ',' {
            rest.push('.')
        } else {
            rest.push(c)
        }
    }
}

/// The index of the first '.' in `s`, or -1.
pub open spec fn dot_index(s: Seq<char>) -> int
    decreases s.len(),
{
    if s.len() == 0 {
        -1
    } else {
        let r = dot_index(s.drop_last());
        if r >= 0 {
            r
        } else if s.last() == '.' {
            s.len() - 1
        } else {
            -1
        }
    }
}

/// The number of bytes of `c` in UTF-8.
pub open spec fn utf8_width(c: char) -> int {
    let u = c as u32;
    if u < 0x80 {
        1
    } else if u < 0x800 {
        2
    } else if u < 0x10000 {
        3
    } else {
        4
    }
}

/// Whether cutting the fraction text to its first two bytes would cut inside a
/// character (`String::truncate` then panics).
pub open spec fn frac_cut_fails(f: Seq<char>) -> bool {
    f.len() >= 1 && (utf8_width(f[0]) >= 3 || (utf8_width(f[0]) == 1 && f.len() >= 2
        && utf8_width(f[1]) >= 2))
}

/// The fraction text padded with '0' to two bytes, then cut to two bytes.
pub open spec fn frac_field(f: Seq<char>) -> Seq<char> {
    if f.len() == 0 {
        seq!['0', '0']
    } else if utf8_width(f[0]) == 1 {
        if f.len() == 1 {
            seq![f[0], '0']
        } else {
            seq![f[0], f[1]]
        }
    } else {
        seq![f[0]]
    }
}

/// The meaning of an amount text such as "12345", "12 345.67" or "12345,5", read in
/// a currency with 100 minor units: the whole part and a two-digit fraction part,
/// each read as an `i64`; the result is negative when the whole part is negative or
/// starts with '-'.
pub open spec fn parse_amount(s: Seq<char>) -> AmountParse {
    let c = clean_amount(s);
    let k = dot_index(c);
    if k < 0 {
        match int_from_str(c, true, i64::MIN as int, i64::MAX as int) {
            None => AmountParse::Rejected,
            Some(w) => if in_i64(w * 100) {
                AmountParse::Amount(w * 100)
            } else {
                AmountParse::Fails
            },
        }
    } else {
        let whole = c.take(k);
        let frac = c.skip(k + 1);
        match int_from_str(whole, true, i64::MIN as int, i64::MAX as int) {
            None => AmountParse::Rejected,
            Some(w) => if frac_cut_fails(frac) {
                AmountParse::Fails
            } else {
                match int_from_str(frac_field(frac), true, i64::MIN as int, i64::MAX as int) {
                    None => AmountParse::Rejected,
                    Some(f) => {
                        let mag = abs(w) * 100 + f;
                        if !in_i64(abs(w) * 100) || !in_i64(mag) {
                            AmountParse::Fails
                        } else if w < 0 || (whole.len() > 0 && whole[0] == '-') {
                            AmountParse::Amount(-mag)
                        } else {
                            AmountParse::Amount(mag)
                        }
                    },
                }
            },
        }
    }
}

fn utf8_width_of(c: char) -> (w: u32)
    ensures
        w == utf8_width(c),
{
    let u = c as u32;
    if u < 0x80 {
        1
    } else if u < 0x800 {
        2
    } else if u < 0x10000 {
        3
    } else {
        4
    }
}

fn clean_chars(s: &Vec<char>) -> (c: Vec<char>)
    ensures
        c@ == clean_amount(s@),
{
    let mut out: Vec<char> = Vec::new();
    let mut i: usize = 0;
    while i < s.len()
        invariant
            i <= s.len(),
            out@ == clean_amount(s@.take(i as int)),
        decreases s.len() - i,
    {
        let ch = s[i];
        assert(s@.take(i + 1).drop_last() == s@.take(i as int));
        if is_whitespace(ch) {
        } else if ch == ',' {
            out.push('.');
        } else {
            out.push(ch);
        }
        i += 1;
    }
    assert(s@.take(s.len() as int) == s@);
    out
}

fn find_dot(s: &Vec<char>) -> (k: Option<usize>)
    ensures
        match k {
            Some(k) => dot_index(s@) == k as int && k < s.len(),
            None => dot_index(s@) < 0,
        },
{
    let mut i: usize = 0;
    while i < s.len()
        invariant
            i <= s.len(),
            dot_index(s@.take(i as int)) < 0,
        decreases s.len() - i,
    {
        assert(s@.take(i + 1).drop_last() == s@.take(i as int));
        if s[i] == '.' {
            proof {
                lemma_dot_index_prefix(s@, i as int + 1);
            }
            return Some(i);
        }
        i += 1;
    }
    assert(s@.take(s.len() as int) == s@);
    None
}

proof fn lemma_dot_index_prefix(s: Seq<char>, n: int)
    requires
        0 < n <= s.len(),
        dot_index(s.take(n)) >= 0,
    ensures
        dot_index(s) == dot_index(s.take(n)),
    decreases s.len() - n,
{
    if n < s.len() {
        assert(s.take(n + 1).drop_last() == s.take(n));
        lemma_dot_index_prefix(s, n + 1);
    } else {
        assert(s.take(n) == s);
    }
}

/// Whether reading `s` as an amount fails in its arithmetic or string handling.
pub fn amount_parse_fails(s: &str) -> (r: bool)
    ensures
        r == (parse_amount(s@) is Fails),
{
    match read_amount(s) {
        None => true,
        Some(_) => false,
    }
}

/// Reads an amount text, or `None` where reading it fails (see `parse_amount`).
fn read_amount(s: &str) -> (r: Option<Option<i64>>)
    ensures
        match parse_amount(s@) {
            AmountParse::Amount(a) => r == Some(Some(a as i64)),
            AmountParse::Rejected => r == Some(None::<i64>),
            AmountParse::Fails => r is None,
        },
{
    let raw = chars_of(s);
    let c = clean_chars(&raw);
    match find_dot(&c) {
        None => {
            match parse_int(c.as_slice(), true, i64::MIN, i64::MAX) {
                None => Some(None),
                Some(w) => {
                    let v = (w as i128) * 100;
                    if v < i64::MIN as i128 || v > i64::MAX as i128 {
                        None
                    } else {
                        Some(Some(v as i64))
                    }
                },
            }
        },
        Some(k) => {
            let whole = &c[0..k];
            let frac = &c[k + 1..c.len()];
            assert(whole@ == c@.take(k as int));
            assert(frac@ == c@.skip(k + 1));
            match parse_int(whole, true, i64::MIN, i64::MAX) {
                None => Some(None),
                Some(w) => {
                    let mut field: Vec<char> = Vec::new();
                    if frac.len() == 0 {
                        field.push('0');
                        field.push('0');
                    } else {
                        let w0 = utf8_width_of(frac[0]);
                        if w0 >= 3 {
                            return None;
                        } else if w0 == 1 {
                            if frac.len() == 1 {
                                field.push(frac[0]);
                                field.push('0');
                            } else {
                                if utf8_width_of(frac[1]) >= 2 {
                                    return None;
                                }
                                field.push(frac[0]);
                                field.push(frac[1]);
                            }
                        } else {
                            field.push(frac[0]);
                        }
                    }
                    assert(field@ == frac_field(frac@));
                    match parse_int(field.as_slice(), true, i64::MIN, i64::MAX) {
                        None => Some(None),
                        Some(f) => {
                            let a: i128 = if w < 0 { -(w as i128) } else { w as i128 };
                            let hundred = a * 100;
                            let mag = hundred + f as i128;
                            if hundred > i64::MAX as i128 || mag < i64::MIN as i128 || mag
                                > i64::MAX as i128 {
                                None
                            } else if w < 0 || (whole.len() > 0 && whole[0] == '-') {
                                Some(Some((-mag) as i64))
                            } else {
                                Some(Some(mag as i64))
                            }
                        },
                    }
                },
            }
        },
    }
}

impl Money {
    pub fn new(amount_minor: i64, currency: Currency) -> (m: Money)
        ensures
            m.amount_minor == amount_minor,
            m.currency == currency,
    {
        Money { amount_minor, currency }
    }

    /// Display form: "12 345,67 ₽" / "150 000 сум".
    pub fn format(&self) -> (s: String)
        ensures
            s@ == money_text(self.amount_minor as int, self.currency),
    {
        let per = self.currency.minor_per_major();
        let major = self.amount_minor / per;
        let minor_signed = self.amount_minor % per;
        let minor: i64 = if minor_signed < 0 { -minor_signed } else { minor_signed };
        let mut out = group_thousands(major);
        if minor == 0 {
            out.push(' ');
        } else {
            out.push(',');
            out.push(digit_of((minor / 10) as u64));
            out.push(digit_of((minor % 10) as u64));
            out.push(' ');
        }
        push_str(&mut out, self.currency.symbol());
        string_of(&out)
    }

    /// Reads user input such as "12345", "12 345.67" or "12345,5" as an amount in
    /// `currency`: `None` when it is not a number.
    pub fn parse(s: &str, currency: Currency) -> (r: Option<Money>)
        requires
            !(parse_amount(s@) is Fails),
        ensures
            match parse_amount(s@) {
                AmountParse::Amount(a) => r == Some(Money { amount_minor: a as i64, currency }),
                _ => r is None,
            },
    {
        match read_amount(s) {
            Some(Some(a)) => Some(Money::new(a, currency)),
            _ => None,
        }
    }
}

proof fn lemma_digit_char_value(d: int)
    requires
        0 <= d <= 9,
    ensures
        is_digit(digit_char(d)),
        digit_value(digit_char(d)) == d,
        utf8_width(digit_char(d)) == 1,
{
}

proof fn lemma_clean_concat(x: Seq<char>, y: Seq<char>)
    ensures
        clean_amount(x + y) == clean_amount(x) + clean_amount(y),
    decreases y.len(),
{
    if y.len() == 0 {
        assert(x + y == x);
        assert(clean_amount(x) + clean_amount(y) == clean_amount(x));
    } else {
        lemma_clean_concat(x, y.drop_last());
        assert((x + y).drop_last() == x + y.drop_last());
        assert((x + y).last() == y.last());
    }
}

proof fn lemma_clean_digits(d: Seq<char>)
    requires
        all_digits(d),
    ensures
        clean_amount(d) == d,
    decreases d.len(),
{
    if d.len() > 0 {
        assert(all_digits(d.drop_last()));
        lemma_clean_digits(d.drop_last());
        assert(is_digit(d.last()));
        assert(d.drop_last().push(d.last()) == d);
    }
}

proof fn lemma_dec_digits(n: nat)
    ensures
        dec_digits(n).len() >= 1,
        all_digits(dec_digits(n)),
        digits_value(dec_digits(n)) == n,
    decreases n,
{
    if n < 10 {
        lemma_digit_char_value(n as int);
        let d = seq![digit_char(n as int)];
        assert(d.drop_last() == Seq::<char>::empty());
        assert(d.last() == digit_char(n as int));
        assert(digits_value(d) == digits_value(d.drop_last()) * 10 + digit_value(d.last()));
    } else {
        lemma_dec_digits(n / 10);
        lemma_digit_char_value((n % 10) as int);
        let d = dec_digits(n);
        assert(d.drop_last() == dec_digits(n / 10));
        assert(d.last() == digit_char((n % 10) as int));
        assert(digits_value(d) == digits_value(d.drop_last()) * 10 + digit_value(d.last()));
        assert forall|i: int| 0 <= i < d.len() implies is_digit(#[trigger] d[i]) by {
            if i < d.len() - 1 {
                assert(d[i] == dec_digits(n / 10)[i]);
            }
        }
    }
}

/// The digits that a grouped number leaves once its spaces are dropped.
proof fn lemma_grouped_clean(n: nat)
    ensures
        clean_amount(grouped(n)).len() >= 1,
        all_digits(clean_amount(grouped(n))),
        digits_value(clean_amount(grouped(n))) == n,
    decreases n,
{
    if n < 1000 {
        lemma_dec_digits(n);
        lemma_clean_digits(dec_digits(n));
    } else {
        let q = n / 1000;
        let r = n % 1000;
        lemma_grouped_clean(q);
        let cq = clean_amount(grouped(q));
        let p = pad3(r);
        lemma_digit_char_value((r / 100) as int);
        lemma_digit_char_value(((r / 10) % 10) as int);
        lemma_digit_char_value((r % 10) as int);
        assert(all_digits(p));
        lemma_clean_digits(p);
        lemma_clean_concat(grouped(q), seq![' ']);
        lemma_clean_concat(grouped(q) + seq![' '], p);
        assert(seq![' '].drop_last() == Seq::<char>::empty());
        assert(seq![' '].last() == ' ');
        assert((' ' as u32) == 0x20);
        assert(is_unicode_whitespace(' '));
        assert(clean_amount(Seq::<char>::empty()) == Seq::<char>::empty());
        assert(clean_amount(seq![' ']) == clean_amount(seq![' '].drop_last()));
        assert(clean_amount(seq![' ']) == Seq::<char>::empty());
        assert(clean_amount(grouped(n)) == cq + p);
        let c = cq + p;
        assert(c.drop_last() == cq + seq![p[0], p[1]]);
        assert(c.drop_last().drop_last() == cq + seq![p[0]]);
        assert(c.drop_last().drop_last().drop_last() == cq);
        assert(c.last() == p[2]);
        assert(c.drop_last().last() == p[1]);
        assert(c.drop_last().drop_last().last() == p[0]);
        assert(digits_value(c) == digits_value(c.drop_last()) * 10 + digit_value(p[2]));
        assert(digits_value(c.drop_last()) == digits_value(c.drop_last().drop_last()) * 10 + digit_value(p[1]));
        assert(digits_value(c.drop_last().drop_last()) == digits_value(cq) * 10 + digit_value(p[0]));
        assert forall|i: int| 0 <= i < c.len() implies is_digit(#[trigger] c[i]) by {
            if i < cq.len() {
                assert(c[i] == cq[i]);
            } else {
                assert(c[i] == p[i - cq.len()]);
            }
        }
        assert(100 * (r / 100) + 10 * ((r / 10) % 10) + r % 10 == r);
    }
}

proof fn lemma_no_dot(s: Seq<char>)
    requires
        all_digits(s),
    ensures
        dot_index(s) == -1,
    decreases s.len(),
{
    if s.len() > 0 {
        assert(all_digits(s.drop_last()));
        lemma_no_dot(s.drop_last());
        assert(is_digit(s.last()));
    }
}

proof fn lemma_digits_read(d: Seq<char>)
    requires
        d.len() >= 1,
        all_digits(d),
        digits_value(d) <= i64::MAX,
    ensures
        int_from_str(d, true, i64::MIN as int, i64::MAX as int) == Some(digits_value(d) as int),
{
    assert(is_digit(d[0]));
}

/// Reading back what `Money::format` shows, without its currency symbol, gives the
/// amount back, for every amount that is not negative: the spaces between groups of
/// digits are dropped and the ',' before the minor units is read as the decimal point.
pub proof fn lemma_format_then_parse(amount: int)
    requires
        0 <= amount <= i64::MAX,
    ensures
        parse_amount(amount_text(amount)) == AmountParse::Amount(amount),
{
    let major = amount / 100;
    let minor = amount % 100;
    assert(trunc_div(amount, 100) == major);
    assert(abs(amount) % 100 == minor);
    assert(grouped_int(major) == grouped(major as nat));
    lemma_grouped_clean(major as nat);
    let g = grouped(major as nat);
    let cg = clean_amount(g);
    lemma_no_dot(cg);
    lemma_digits_read(cg);
    if minor == 0 {
        assert(amount_text(amount) == g);
    } else {
        let d1 = digit_char(minor / 10);
        let d2 = digit_char(minor % 10);
        lemma_digit_char_value(minor / 10);
        lemma_digit_char_value(minor % 10);
        let t = seq![',', d1, d2];
        assert(amount_text(amount) == g + t);
        lemma_clean_concat(g, t);
        assert(t.drop_last() == seq![',', d1]);
        assert(t.drop_last().drop_last() == seq![',']);
        assert(seq![','].drop_last() == Seq::<char>::empty());
        assert(seq![','].last() == ',');
        assert((',' as u32) == 0x2C);
        assert(!is_unicode_whitespace(','));
        assert(clean_amount(Seq::<char>::empty()) == Seq::<char>::empty());
        assert(clean_amount(seq![',']) == clean_amount(seq![','].drop_last()).push('.'));
        assert(Seq::<char>::empty().push('.') == seq!['.']);
        assert(clean_amount(seq![',']) == seq!['.']);
        assert(seq![',', d1].drop_last() == seq![',']);
        assert(seq![',', d1].last() == d1);
        assert(!is_unicode_whitespace(d1) && d1 != ',');
        assert(clean_amount(seq![',', d1]) == seq!['.', d1]);
        assert(t.last() == d2);
        assert(!is_unicode_whitespace(d2) && d2 != ',');
        assert(clean_amount(t) == seq!['.', d1, d2]);
        let c = cg + seq!['.', d1, d2];
        assert(clean_amount(amount_text(amount)) == c);
        assert(c.take(cg.len() as int + 1) == cg.push('.'));
        assert(cg.push('.').drop_last() == cg);
        lemma_dot_index_prefix(c, cg.len() as int + 1);
        assert(dot_index(c) == cg.len());
        assert(c.take(cg.len() as int) == cg);
        assert(c.skip(cg.len() as int + 1) == seq![d1, d2]);
        let f = seq![d1, d2];
        assert(!frac_cut_fails(f));
        assert(frac_field(f) == f);
        assert(f.drop_last() == seq![d1]);
        assert(seq![d1].drop_last() == Seq::<char>::empty());
        assert(all_digits(f));
        assert(f.last() == d2);
        assert(seq![d1].last() == d1);
        assert(digits_value(seq![d1]) == digits_value(Seq::<char>::empty()) * 10 + digit_value(d1));
        assert(digits_value(f) == digits_value(seq![d1]) * 10 + digit_value(d2));
        assert(digits_value(f) == minor);
        lemma_digits_read(f);
        assert(cg.len() > 0 && cg[0] != '-') by {
            assert(is_digit(cg[0]));
        }
    }
}

} // verus!
