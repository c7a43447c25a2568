//! Identifier capabilities.
//!
//! User ids, token ids and refresh tokens are 128-bit values carried in their
//! canonical hyphenated text form. The text form and the parse of that form
//! are named functions of the value and of the text alone; freshness is
//! random and nothing is promised of a fresh value.

use vstd::prelude::*;

verus! {

/// The canonical hyphenated text of a 128-bit id.
pub uninterp spec fn uuid_str_of(v: u128) -> Seq<char>;

/// The 128-bit value a text parses to, if it is a well-formed id.
pub uninterp spec fn uuid_of(s: Seq<char>) -> Option<u128>;

/// The characters canonical id text is made of.
pub open spec fn is_uuid_char(c: char) -> bool {
    ('0' <= c && c <= '9') || ('a' <= c && c <= 'f') || c == '-'
}

/// Relies on `uuid::Uuid::new_v4` and `Uuid::as_u128`: a fresh random
/// version-4 id; nothing is promised of its value.
#[verifier::external_body]
pub fn new_uuid_bits() -> u128 {
    uuid::Uuid::new_v4().as_u128()
}

/// Relies on `uuid::Uuid::from_u128` and the `Display` of `Uuid` (the
/// hyphenated form): 36 lower-case hex and hyphen characters determined by
/// the value alone, and `Uuid::parse_str` accepts that form back.
#[verifier::external_body]
pub fn uuid_to_string(v: u128) -> (r: String)
    ensures
        r@ == uuid_str_of(v),
        r@.len() == 36,
        forall|i: int| 0 <= i < r@.len() ==> is_uuid_char(#[trigger] r@[i]),
        uuid_of(r@) == Some(v),
{
    uuid::Uuid::from_u128(v).to_string()
}

/// Relies on `uuid::Uuid::parse_str` and `Uuid::as_u128`: whether the text
/// parses, and to which value, is a function of the text alone.
#[verifier::external_body]
pub fn uuid_parse(s: &str) -> (r: Option<u128>)
    ensures
        r == uuid_of(s@),
{
    match uuid::Uuid::parse_str(s) {
        Ok(u) => Some(u.as_u128()),
        Err(_) => None,
    }
}

/// A fresh random id in canonical text form.
pub fn new_id_string() -> (r: String)
    ensures
        exists|v: u128| r@ == uuid_str_of(v) && uuid_of(r@) == Some(v),
        r@.len() == 36,
        forall|i: int| 0 <= i < r@.len() ==> is_uuid_char(#[trigger] r@[i]),
{
    let v = new_uuid_bits();
    uuid_to_string(v)
}

} // verus!
