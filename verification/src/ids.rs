//! Random identifiers (UUID v4) as `u128` values, and their simple text form.
use uuid::Uuid;
use vstd::prelude::*;

verus! {

/// The lowercase hexadecimal digit for `d < 16`.
pub open spec fn hex_char(d: nat) -> char {
    if d < 10 {
        (('0' as nat) + d) as char
    } else {
        (('a' as nat) + (d - 10)) as char
    }
}

/// The last `k` hexadecimal digits of `n`, most significant first.
pub open spec fn hex_digits(n: nat, k: nat) -> Seq<char>
    decreases k,
{
    if k == 0 {
        Seq::empty()
    } else {
        hex_digits(n / 16, (k - 1) as nat).push(hex_char(n % 16))
    }
}

/// The simple form of a UUID: its 128 bits as 32 lowercase hexadecimal digits.
pub open spec fn uuid_simple(id: u128) -> Seq<char> {
    hex_digits(id as nat, 32)
}

pub proof fn lemma_hex_digits_len(n: nat, k: nat)
    ensures
        hex_digits(n, k).len() == k,
    decreases k,
{
    if k > 0 {
        lemma_hex_digits_len(n / 16, (k - 1) as nat);
    }
}

/// The bits that every version-4 UUID carries: the version nibble (bits 76
/// to 79) is 4 and the variant bits (62 and 63) are `10`.
pub open spec fn is_v4_uuid(id: u128) -> bool {
    (id >> 76u128) & 0xfu128 == 4 && (id >> 62u128) & 3u128 == 2
}

/// The hyphenated form of a UUID, as `Display` writes it: the 32 digits of
/// the simple form in groups of 8, 4, 4, 4 and 12, joined by `-`.
pub open spec fn uuid_hyphenated(id: u128) -> Seq<char> {
    let d = uuid_simple(id);
    d.subrange(0, 8) + seq!['-'] + d.subrange(8, 12) + seq!['-'] + d.subrange(12, 16) + seq!['-']
        + d.subrange(16, 20) + seq!['-'] + d.subrange(20, 32)
}

/// The hyphenated text form of a UUID.
///
/// Trusted: calls `Uuid::from_u128(id).to_string()`; the uuid crate's
/// `Display` writes the lowercase hyphenated form, the simple form's digits
/// in groups of 8-4-4-4-12.
#[verifier::external_body]
pub(crate) fn uuid_hyphenated_string(id: u128) -> (s: String)
    ensures
        s@ == uuid_hyphenated(id),
{
    Uuid::from_u128(id).to_string()
}

/// A fresh random (version 4) UUID, as its 128-bit value.
///
/// Trusted: calls `Uuid::new_v4()` and `as_u128`. The value is random; the
/// contract states only the bits that `new_v4` sets on every value: the
/// version nibble (bits 76 to 79) is 4 and the variant bits (62 and 63) are `10`.
#[verifier::external_body]
pub(crate) fn new_uuid_v4() -> (id: u128)
    ensures
        (id >> 76u128) & 0xfu128 == 4,
        (id >> 62u128) & 3u128 == 2,
{
    Uuid::new_v4().as_u128()
}

/// The simple text form of a UUID.
///
/// Trusted: calls `Uuid::from_u128(id).simple().to_string()`; the uuid crate
/// writes the simple form as the 16 bytes of the value, most significant
/// first, each as two lowercase hexadecimal digits.
#[verifier::external_body]
pub(crate) fn uuid_simple_string(id: u128) -> (s: String)
    ensures
        s@ == uuid_simple(id),
{
    Uuid::from_u128(id).simple().to_string()
}

} // verus!
