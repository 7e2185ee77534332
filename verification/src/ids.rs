//! Identifiers written from UUIDs.
use vstd::prelude::*;

verus! {

#[verifier::external_type_specification]
#[verifier::external_body]
pub struct ExUuid(uuid::Uuid);

/// Whether `c` is a lower-case hexadecimal digit.
pub open spec fn is_lower_hex(c: char) -> bool {
    ('0' <= c <= '9') || ('a' <= c <= 'f')
}

/// The hyphenated form of a UUID: 36 characters, '-' at 8, 13, 18 and 23, lower-case
/// hex digits elsewhere.
pub open spec fn is_hyphenated_uuid(s: Seq<char>) -> bool {
    &&& s.len() == 36
    &&& forall|i: int|
        0 <= i < 36 ==> if i == 8 || i == 13 || i == 18 || i == 23 {
            #[trigger] s[i] == '-'
        } else {
            is_lower_hex(s[i])
        }
}

/// The simple form of a UUID: 32 lower-case hex digits.
pub open spec fn is_simple_uuid(s: Seq<char>) -> bool {
    &&& s.len() == 32
    &&& forall|i: int| 0 <= i < 32 ==> is_lower_hex(#[trigger] s[i])
}

/// The `Display` form of a `uuid::Uuid`, which the crate documents and writes as the
/// hyphenated lower-case form.
#[verifier::external_body]
fn uuid_hyphenated(u: &uuid::Uuid) -> (s: String)
    ensures
        is_hyphenated_uuid(s@),
{
    u.to_string()
}

/// `uuid::Uuid::as_simple`, written out: 32 lower-case hex digits.
#[verifier::external_body]
fn uuid_simple(u: &uuid::Uuid) -> (s: String)
    ensures
        is_simple_uuid(s@),
{
    u.as_simple().to_string()
}

/// A record id from a fresh UUID (a new version-7 UUID, made where the clock and the
/// random source are read), in hyphenated form.
pub fn new_id(fresh: &uuid::Uuid) -> (s: String)
    ensures
        is_hyphenated_uuid(s@),
{
    uuid_hyphenated(fresh)
}

/// An invite token from a fresh UUID, as 32 hex digits.
pub fn new_token(fresh: &uuid::Uuid) -> (s: String)
    ensures
        is_simple_uuid(s@),
{
    uuid_simple(fresh)
}

} // verus!
