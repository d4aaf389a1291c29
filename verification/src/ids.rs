//! Identifiers: random UUIDs for reservations, permits and approvals,
//! name-based UUIDs for derived content, and the text form of a UUID.

use vstd::prelude::*;

verus! {

/// Draws a random version-4 UUID with `uuid::Uuid::new_v4` and returns it as
/// its 128-bit value (`Uuid::as_u128`). The crate's source ORs the version
/// and variant bits into the random value, so it is never the nil UUID
/// (zero); nothing else is claimed of it, and two draws may be equal.
#[verifier::external_body]
pub(crate) fn random_uuid() -> (id: u128)
    ensures
        id != 0,
{
    uuid::Uuid::new_v4().as_u128()
}

/// The lowercase hexadecimal digit of `n` (below sixteen).
pub open spec fn hex_digit(n: nat) -> char {
    if n < 10 {
        (('0' as u32) + n) as char
    } else {
        (('a' as u32) + (n - 10)) as char
    }
}

/// The `i`-th hexadecimal digit of `id`, most significant first.
pub open spec fn nibble(id: u128, i: int) -> nat {
    ((id >> ((124 - 4 * i) as u128)) & 0xf) as nat
}

/// The hyphenated text of a UUID: its 32 lowercase hexadecimal digits,
/// most significant first, grouped 8-4-4-4-12.
pub open spec fn uuid_text(id: u128) -> Seq<char> {
    let h = Seq::new(32, |i: int| hex_digit(nibble(id, i)));
    h.subrange(0, 8) + seq!['-'] + h.subrange(8, 12) + seq!['-'] + h.subrange(12, 16) + seq!['-']
        + h.subrange(16, 20) + seq!['-'] + h.subrange(20, 32)
}

/// The text of the UUID `id`: `uuid::Uuid::from_u128(id)` (whose bytes are
/// `id` in big-endian order) printed by its `Display`, which the crate's
/// source writes as the hyphenated lowercase form.
#[verifier::external_body]
pub(crate) fn uuid_string(id: u128) -> (text: String)
    ensures
        text@ == uuid_text(id),
{
    uuid::Uuid::from_u128(id).to_string()
}

/// What `uuid::Uuid::new_v5` gives for the namespace `namespace` (as its
/// 128-bit value) and the name bytes `name`: the SHA-1 name-based UUID of
/// RFC 9562, as its 128-bit value. It depends on these alone.
pub uninterp spec fn name_based_uuid(namespace: u128, name: Seq<u8>) -> u128;

/// Calls `uuid::Uuid::new_v5` on `Uuid::from_u128(namespace)` and `name`
/// and returns the result's 128-bit value; the result is named, not
/// written out (see `name_based_uuid`).
#[verifier::external_body]
pub(crate) fn uuid_v5(namespace: u128, name: &[u8]) -> (id: u128)
    ensures
        id == name_based_uuid(namespace, name@),
{
    uuid::Uuid::new_v5(&uuid::Uuid::from_u128(namespace), name).as_u128()
}

} // verus!
