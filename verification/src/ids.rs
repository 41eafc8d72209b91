//! Fresh ids, the clock, and the text form of ids.

use vstd::prelude::*;
use vstd::arithmetic::power::pow;

verus! {

/// A fresh random id (`uuid::Uuid::new_v4`, as its 128-bit value). Nothing
/// is promised of the value: it is random.
#[verifier::external_body]
pub(crate) fn new_id() -> u128 {
    uuid::Uuid::new_v4().as_u128()
}

/// The current time in nanoseconds since the Unix epoch
/// (`chrono::Utc::now` and `DateTime::timestamp_nanos_opt`), or `None` past
/// the range of `i64`. Nothing is promised of the value: it is the clock's.
#[verifier::external_body]
pub(crate) fn now_nanos() -> Option<i64> {
    chrono::Utc::now().timestamp_nanos_opt()
}

/// Lower-case hexadecimal digit of `n` (below 16).
pub open spec fn hex_lower(n: int) -> char {
    if n < 10 {
        (48 + n) as char
    } else {
        (87 + n) as char
    }
}

/// The `i`-th hexadecimal digit of `id`, most significant first.
pub open spec fn nibble(id: u128, i: int) -> int {
    (id as int / pow(16, (31 - i) as nat)) % 16
}

/// Number of hyphens before position `k` of the hyphenated form.
pub open spec fn hyphens_before(k: int) -> int {
    if k > 23 {
        4
    } else if k > 18 {
        3
    } else if k > 13 {
        2
    } else if k > 8 {
        1
    } else {
        0
    }
}

/// The hyphenated lower-case form of a UUID: 32 hexadecimal digits of its
/// big-endian value, grouped 8-4-4-4-12.
pub open spec fn uuid_text(id: u128) -> Seq<char> {
    Seq::new(
        36,
        |k: int|
            if k == 8 || k == 13 || k == 18 || k == 23 {
                '-'
            } else {
                hex_lower(nibble(id, k - hyphens_before(k)))
            },
    )
}

/// The text form of an id (`Uuid::from_u128` then `to_string`): the
/// hyphenated lower-case form, as `uuid`'s `Display` writes it, which
/// `Uuid::parse_str` reads back as the same id.
#[verifier::external_body]
pub(crate) fn id_string(id: u128) -> (r: String)
    ensures
        r@ == uuid_text(id),
        crate::wiki::frontmatter::uuid_parse(r@) == Some(id),
{
    uuid::Uuid::from_u128(id).to_string()
}

} // verus!
