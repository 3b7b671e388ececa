use vstd::prelude::*;

verus! {

/// Relies on `uuid::Uuid::new_v4` (random bits from the operating system,
/// with the version and variant fields set) and `Uuid::as_u128` (its 128 bits,
/// big-endian). The value is random: only those two fields are promised.
#[verifier::external_body]
pub(crate) fn random_record_id() -> (id: u128)
    ensures
        (id >> 76u128) & 0xfu128 == 4,
        (id >> 62u128) & 0x3u128 == 2,
{
    uuid::Uuid::new_v4().as_u128()
}

/// Relies on `chrono::Utc::now` and `DateTime::timestamp_millis`: the wall
/// clock, in milliseconds since the Unix epoch. Nothing is promised of it.
#[verifier::external_body]
pub(crate) fn now_millis() -> (t: i64) {
    chrono::Utc::now().timestamp_millis()
}

/// The lower-case hexadecimal digit for `d`, from 0 to 15.
pub open spec fn hex_digit(d: int) -> char {
    seq!['0', '1', '2', '3', '4', '5', '6', '7', '8', '9', 'a', 'b', 'c', 'd', 'e', 'f'][d]
}

/// Character `k` (0 to 35) of the hyphenated text of the UUID with bits `id`:
/// hyphens at 8, 13, 18 and 23, and elsewhere the 32 hex digits of `id`, most
/// significant first.
pub open spec fn uuid_char(id: u128, k: int) -> char {
    if k == 8 || k == 13 || k == 18 || k == 23 {
        '-'
    } else {
        let i = if k < 8 {
            k
        } else if k < 13 {
            k - 1
        } else if k < 18 {
            k - 2
        } else if k < 23 {
            k - 3
        } else {
            k - 4
        };
        hex_digit(((id >> ((4 * (31 - i)) as u128)) & 0xfu128) as int)
    }
}

/// `text` is the hyphenated text of the UUID with bits `id`.
pub open spec fn is_uuid_text(text: Seq<char>, id: u128) -> bool {
    text.len() == 36 && forall|k: int| 0 <= k < 36 ==> #[trigger] text[k] == uuid_char(id, k)
}

/// Relies on `uuid::Uuid::from_u128` (bytes big-endian) and `Uuid`'s
/// `Display`, which writes the lower-case hyphenated form: each byte as two
/// hex digits, with hyphens after the 4th, 6th, 8th and 10th byte.
#[verifier::external_body]
pub(crate) fn uuid_text(id: u128) -> (r: String)
    ensures
        r@.len() == 36,
        forall|k: int| 0 <= k < 36 ==> #[trigger] r@[k] == uuid_char(id, k),
{
    uuid::Uuid::from_u128(id).to_string()
}

/// Relies on `validator::ValidateLength::validate_length` for `String`, which
/// counts characters (`chars().count()`) and holds that count to the bounds.
#[verifier::external_body]
pub(crate) fn char_count_within(s: &String, min: u64, max: u64) -> (r: bool)
    ensures
        r == (min <= s@.len() <= max),
{
    validator::ValidateLength::<u64>::validate_length(s, Some(min), Some(max), None)
}

} // verus!
