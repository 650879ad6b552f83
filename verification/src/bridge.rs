//! The calls into `uuid` and `chrono`, each with the contract that the crate's
//! source and documentation give it.

use vstd::prelude::*;
use crate::utils::Timestamp;

verus! {

/// What `uuid::Uuid::parse_str` makes of a text: the `u128` of the UUID it
/// reads, or `None` when the text is in none of the forms it accepts (simple,
/// hyphenated, braced, URN; either case).
pub uninterp spec fn uuid_parse(text: Seq<char>) -> Option<u128>;

/// 16 to the power `n`.
pub open spec fn pow16(n: nat) -> nat
    decreases n,
{
    if n == 0 {
        1
    } else {
        16 * pow16((n - 1) as nat)
    }
}

/// The lower-case hexadecimal digit of `n` (0 to 15).
pub open spec fn hex_digit(n: int) -> char {
    if n < 10 {
        ('0' as int + n) as char
    } else {
        ('a' as int + n - 10) as char
    }
}

/// Which of the 32 hex digits stands at position `p` of the hyphenated form.
pub open spec fn digit_of_position(p: int) -> int {
    p - (if p > 23 {
        4int
    } else if p > 18 {
        3int
    } else if p > 13 {
        2int
    } else if p > 8 {
        1int
    } else {
        0int
    })
}

/// The hyphenated lower-case text of a UUID, `xxxxxxxx-xxxx-xxxx-xxxx-xxxxxxxxxxxx`,
/// most significant digit first.
pub open spec fn uuid_text(v: u128) -> Seq<char> {
    Seq::new(
        36,
        |p: int|
            if p == 8 || p == 13 || p == 18 || p == 23 {
                '-'
            } else {
                hex_digit((v as int / pow16((31 - digit_of_position(p)) as nat) as int) % 16)
            },
    )
}

/// Calls `uuid::Uuid::parse_str` and hands back the UUID as its `u128`
/// (`Uuid::as_u128`); the contract names the result `uuid_parse` of the text.
#[verifier::external_body]
pub(crate) fn parse_uuid(text: &str) -> (r: Option<u128>)
    ensures
        r == uuid_parse(text@),
{
    match uuid::Uuid::parse_str(text) {
        Ok(u) => Some(u.as_u128()),
        Err(_) => None,
    }
}

/// Calls `to_string` on `uuid::Uuid::from_u128(id)`; its `Display` writes the
/// hyphenated lower-case form, which is what the contract states.
#[verifier::external_body]
pub(crate) fn uuid_string(id: u128) -> (r: String)
    ensures
        r@ == uuid_text(id),
{
    uuid::Uuid::from_u128(id).to_string()
}

/// Calls `uuid::Uuid::new_v4` and hands back its `u128`. The value is random;
/// the contract states only the version (4) and variant (RFC 4122) bits that
/// the crate sets.
#[verifier::external_body]
pub(crate) fn new_uuid() -> (r: u128)
    ensures
        (r >> 76u128) & 0xfu128 == 4,
        (r >> 62u128) & 0x3u128 == 2,
{
    uuid::Uuid::new_v4().as_u128()
}

/// Calls `chrono::Utc::now` and hands back its seconds and nanoseconds since the
/// epoch. The value is the clock's; the contract states only that it is not
/// before the epoch (the call panics otherwise) and carries no leap second.
#[verifier::external_body]
pub(crate) fn current_time() -> (t: Timestamp)
    ensures
        t.secs >= 0,
        t.nanos < 1_000_000_000,
{
    let now = chrono::Utc::now();
    Timestamp { secs: now.timestamp(), nanos: now.timestamp_subsec_nanos() }
}

} // verus!
