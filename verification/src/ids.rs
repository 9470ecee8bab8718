//! Session identifiers: random 128-bit numbers, and their text.

use vstd::prelude::*;

use crate::text;

verus! {

/// A session's identifier, as a number: the 16 bytes of a UUID, the first byte
/// the most significant.
pub type SessionId = u128;

/// The hexadecimal digit at place `k` of an identifier, counted from the most
/// significant one.
pub open spec fn nibble(id: SessionId, k: int) -> int {
    (id as int / vstd::arithmetic::power::pow(16, (31 - k) as nat)) % 16
}

/// How many hyphens stand before place `i` of an identifier's text.
pub open spec fn hyphens_before(i: int) -> int {
    if i <= 8 {
        0
    } else if i <= 13 {
        1
    } else if i <= 18 {
        2
    } else if i <= 23 {
        3
    } else {
        4
    }
}

/// The text of an identifier: 32 lowercase hexadecimal digits in groups of 8,
/// 4, 4, 4 and 12, with a hyphen between groups.
pub open spec fn hyphenated(id: SessionId) -> Seq<char> {
    Seq::new(
        36,
        |i: int|
            if i == 8 || i == 13 || i == 18 || i == 23 {
                '-'
            } else {
                text::hex_digit(nibble(id, i - hyphens_before(i)))
            },
    )
}

/// Whether an identifier is marked as a random UUID: version 4, and the
/// variant that RFC 9562 describes.
pub open spec fn is_random_uuid(id: SessionId) -> bool {
    &&& (id as int / vstd::arithmetic::power::pow(16, 19)) % 16 == 4
    &&& 8 <= (id as int / vstd::arithmetic::power::pow(16, 15)) % 16 < 12
}

/// Makes an identifier through `uuid::Uuid::new_v4`.
///
/// Claimed of every result: its version and variant bits mark a random UUID.
#[verifier::external_body]
fn new_v4() -> (r: SessionId)
    ensures
        is_random_uuid(r),
{
    uuid::Uuid::new_v4().as_u128()
}

/// Writes an identifier through the `Display` of `uuid::Uuid`.
///
/// Claimed: the text is the hyphenated lowercase form.
#[verifier::external_body]
fn uuid_text(id: SessionId) -> (r: String)
    ensures
        r@ == hyphenated(id),
{
    uuid::Uuid::from_u128(id).to_string()
}

/// A new random identifier.
pub fn new_session_id() -> (r: SessionId)
    ensures
        is_random_uuid(r),
{
    new_v4()
}

/// The text of an identifier.
pub fn session_id_text(id: SessionId) -> (r: String)
    ensures
        r@ == hyphenated(id),
{
    uuid_text(id)
}

/// The text of an identifier tells it apart from every other.
pub proof fn law_id_text_is_unique(a: SessionId, b: SessionId)
    requires
        hyphenated(a) == hyphenated(b),
    ensures
        a == b,
{
    assert forall|k: int| 0 <= k < 32 implies nibble(a, k) == nibble(b, k) by {
        let i = if k < 8 {
            k
        } else if k < 12 {
            k + 1
        } else if k < 16 {
            k + 2
        } else if k < 20 {
            k + 3
        } else {
            k + 4
        };
        assert(hyphenated(a)[i] == hyphenated(b)[i]);
        assert(hyphenated(a)[i] == text::hex_digit(nibble(a, k)));
        assert(i - hyphens_before(i) == k);
        text::lemma_hex_digit(nibble(a, k));
        text::lemma_hex_digit(nibble(b, k));
    }
    lemma_high_digits_agree(a, b, 32);
    vstd::arithmetic::power::lemma_pow0(16);
}

proof fn lemma_high_digits_agree(a: SessionId, b: SessionId, n: nat)
    requires
        n <= 32,
        forall|k: int| 0 <= k < 32 ==> nibble(a, k) == nibble(b, k),
    ensures
        a as int / vstd::arithmetic::power::pow(16, (32 - n) as nat) == b as int / vstd::arithmetic::power::pow(16, (32 - n) as nat),
    decreases n,
{
    if n == 0 {
        assert(vstd::arithmetic::power::pow(16, 32) == 0x1_0000_0000_0000_0000_0000_0000_0000_0000) by {
            reveal_with_fuel(vstd::arithmetic::power::pow, 33);
        }
    } else {
        lemma_high_digits_agree(a, b, (n - 1) as nat);
        let p = vstd::arithmetic::power::pow(16, (32 - n) as nat);
        vstd::arithmetic::power::lemma_pow_positive(16, (32 - n) as nat);
        assert(vstd::arithmetic::power::pow(16, (33 - n) as nat) == 16 * p) by {
            reveal(vstd::arithmetic::power::pow);
        }
        lemma_split(a as int, p);
        lemma_split(b as int, p);
        assert(nibble(a, n - 1) == nibble(b, n - 1));
    }
}

proof fn lemma_split(x: int, p: int)
    requires
        x >= 0,
        p > 0,
    ensures
        x / p == 16 * (x / (16 * p)) + (x / p) % 16,
{
    vstd::arithmetic::div_mod::lemma_div_denominator(x, p, 16);
    assert(p * 16 == 16 * p);
}

} // verus!
