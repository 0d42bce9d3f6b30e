//! Opaque 128-bit identities, written as UUIDs.

use uuid::Uuid;
use vstd::prelude::*;

verus! {

/// What `uuid::Uuid::parse_str` reads in a text, as a number.
pub uninterp spec fn parsed_id(text: Seq<char>) -> Option<u128>;

/// `uuid::Uuid::parse_str`, with its error dropped: the result depends on the
/// text alone and goes by the name `parsed_id`.
#[verifier::external_body]
pub(crate) fn parse_id(text: &str) -> (r: Option<u128>)
    ensures
        r == parsed_id(text@),
{
    match Uuid::parse_str(text) {
        Ok(id) => Some(id.as_u128()),
        Err(_) => None,
    }
}

/// The version and variant bits of a random identity.
pub open spec fn marked_random(id: u128) -> bool {
    id & 0xf000_c000_0000_0000_0000 == 0x4000_8000_0000_0000_0000
}

/// `uuid::Uuid::new_v4`: chance decides all but the version and variant bits.
#[verifier::external_body]
pub(crate) fn fresh_id() -> (r: u128)
    ensures
        marked_random(r),
{
    Uuid::new_v4().as_u128()
}

/// A small hexadecimal digit.
pub open spec fn hex_digit(n: int) -> char {
    if n < 10 {
        ((0x30 + n) as u32) as char
    } else {
        ((0x57 + n) as u32) as char
    }
}

/// How many hyphens precede position `i` of a written identity.
pub open spec fn hyphens_before(i: int) -> int {
    (if i > 8 { 1int } else { 0int }) + (if i > 13 { 1int } else { 0int }) + (if i > 18 {
        1int
    } else {
        0int
    }) + (if i > 23 { 1int } else { 0int })
}

/// The `k`-th of the 32 hexadecimal digits of `id`, the highest first.
pub open spec fn nibble(id: u128, k: int) -> int {
    (id as int / vstd::arithmetic::power::pow(16, (31 - k) as nat)) % 16
}

/// An identity in print: 32 small hexadecimal digits in groups of 8, 4, 4, 4
/// and 12, with a hyphen between two groups.
pub open spec fn written_id(id: u128) -> Seq<char> {
    Seq::new(
        36,
        |i: int|
            if i == 8 || i == 13 || i == 18 || i == 23 {
                '-'
            } else {
                hex_digit(nibble(id, i - hyphens_before(i)))
            },
    )
}

/// The `Display` form of `uuid::Uuid`: the hyphenated small letters, which
/// `uuid::Uuid::parse_str` reads back as the same identity.
#[verifier::external_body]
pub(crate) fn write_id(id: u128) -> (r: String)
    ensures
        r@ == written_id(id),
        parsed_id(r@) == Some(id),
{
    Uuid::from_u128(id).to_string()
}

} // verus!
