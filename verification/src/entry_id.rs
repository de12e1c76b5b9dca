//! Entry IDs: 128-bit tokens that name cache entries and travel to clients
//! as the text of an `ETag` header.

use crate::text::{is_text, is_visible_text, visible, HYPHEN};
use vstd::arithmetic::power::pow;
use vstd::prelude::*;

verus! {

/// The token that names one cache entry.
pub type EntryId = u128;

/// The ASCII digit for a value below sixteen, in lower case.
pub open spec fn hex_digit(n: int) -> u8 {
    if n < 10 {
        (48 + n) as u8
    } else {
        (87 + n) as u8
    }
}

/// The `k`-th of the 32 hexadecimal digits of `id`, most significant first.
pub open spec fn nibble(id: u128, k: int) -> int {
    (id as int / pow(16, (31 - k) as nat)) % 16
}

/// Which digit stands at position `i` of the text, hyphens aside.
pub open spec fn digit_index(i: int) -> int {
    if i < 8 {
        i
    } else if i < 13 {
        i - 1
    } else if i < 18 {
        i - 2
    } else if i < 23 {
        i - 3
    } else {
        i - 4
    }
}

/// The canonical text of an entry ID: its 32 lower-case hexadecimal digits
/// in groups of 8, 4, 4, 4 and 12, joined by hyphens.
pub open spec fn canonical_text(id: u128) -> Seq<u8> {
    Seq::new(
        36,
        |i: int|
            if i == 8 || i == 13 || i == 18 || i == 23 {
                HYPHEN
            } else {
                hex_digit(nibble(id, digit_index(i)))
            },
    )
}

/// What the UUID parser makes of a byte string: the 128-bit value, or
/// nothing where the string is in none of the forms it reads.
pub uninterp spec fn uuid_parse(text: Seq<u8>) -> Option<u128>;

/// The entry ID that a header value or a path segment stands for. Only
/// visible text is read at all.
pub open spec fn entry_id_of(text: Seq<u8>) -> Option<u128> {
    if is_text(text) {
        uuid_parse(text)
    } else {
        None
    }
}

/// Calls `uuid::Uuid::try_parse_ascii`, the parser behind `Uuid::from_str`,
/// and hands back the value as an integer. The contract only names the
/// parser's answer.
#[verifier::external_body]
fn uuid_from_text(text: &[u8]) -> (r: Option<u128>)
    ensures
        r == uuid_parse(text@),
{
    match uuid::Uuid::try_parse_ascii(text) {
        Ok(id) => Some(id.as_u128()),
        Err(_) => None,
    }
}

/// Calls `uuid::Uuid::to_string` on the UUID with this value. The contract
/// claims that the text is the hyphenated lower-case form, and that the
/// parser reads that form back to the same value.
#[verifier::external_body]
fn uuid_to_text(id: u128) -> (r: Vec<u8>)
    ensures
        r@ == canonical_text(id),
        uuid_parse(r@) == Some(id),
{
    uuid::Uuid::from_u128(id).to_string().into_bytes()
}

/// Mints a fresh entry ID by calling `uuid::Uuid::new_v4`, which draws a
/// random UUID. Nothing is claimed of the value.
#[verifier::external_body]
pub(crate) fn mint_entry_id() -> (r: EntryId) {
    uuid::Uuid::new_v4().as_u128()
}

/// The canonical text is visible text, so it can travel in a header.
pub proof fn lemma_canonical_text_visible(id: u128)
    ensures
        canonical_text(id).len() == 36,
        is_text(canonical_text(id)),
{
    assert forall|i: int| 0 <= i < canonical_text(id).len() implies visible(
        #[trigger] canonical_text(id)[i],
    ) by {
        let n = nibble(id, digit_index(i));
        assert(0 <= n < 16);
    }
}

/// Reads an entry ID from text.
pub fn parse_entry_id(text: &[u8]) -> (r: Option<EntryId>)
    ensures
        r == entry_id_of(text@),
{
    if is_visible_text(text) {
        uuid_from_text(text)
    } else {
        None
    }
}

/// Renders an entry ID as the text that clients see. Reading the text back
/// gives the same ID.
pub fn entry_id_text(id: EntryId) -> (r: Vec<u8>)
    ensures
        r@ == canonical_text(id),
        entry_id_of(r@) == Some(id),
{
    proof {
        lemma_canonical_text_visible(id);
    }
    uuid_to_text(id)
}

} // verus!
