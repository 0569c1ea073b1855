//! Identifiers and times stamped on stored records.

use vstd::prelude::*;

verus! {

/// A lower-case hexadecimal digit.
pub open spec fn is_lower_hex(c: char) -> bool {
    ('0' <= c && c <= '9') || ('a' <= c && c <= 'f')
}

/// Every character of `s` is a lower-case hexadecimal digit.
pub open spec fn is_lower_hex_text(s: Seq<char>) -> bool {
    forall|i: int| 0 <= i < s.len() ==> is_lower_hex(#[trigger] s[i])
}

/// The canonical text of a version-7 UUID: 36 characters, hyphens at
/// 8, 13, 18 and 23, lower-case hexadecimal digits elsewhere, the
/// version digit `7` at 14 and an RFC 4122 variant digit (`8`, `9`, `a`
/// or `b`) at 19.
pub open spec fn is_v7_uuid_text(s: Seq<char>) -> bool {
    &&& s.len() == 36
    &&& forall|i: int|
        0 <= i < 36 ==> if i == 8 || i == 13 || i == 18 || i == 23 {
            #[trigger] s[i] == '-'
        } else {
            is_lower_hex(s[i])
        }
    &&& s[14] == '7'
    &&& (s[19] == '8' || s[19] == '9' || s[19] == 'a' || s[19] == 'b')
}

/// `uuid::Uuid::now_v7()` in canonical hyphenated text, which uuid's
/// `Display` writes in lower case; `now_v7` sets the version to 7 and
/// the RFC 4122 variant. Which identifier comes back depends on the
/// clock and on chance, and is not stated.
#[verifier::external_body]
pub(crate) fn new_v7_id() -> (r: String)
    ensures
        is_v7_uuid_text(r@),
{
    uuid::Uuid::now_v7().to_string()
}

/// `SystemTime::elapsed` on the Unix epoch: the current time in
/// milliseconds since the epoch (0 for a clock set before it). Nothing
/// is stated of the value.
#[verifier::external_body]
pub(crate) fn now_unix_millis() -> (r: u64) {
    std::time::UNIX_EPOCH.elapsed().map(|d| d.as_millis() as u64).unwrap_or(0)
}

/// `uuid::Uuid::new_v4()` in its simple form, which uuid writes as 32
/// lower-case hexadecimal digits. Which identifier comes back depends on
/// chance and is not stated.
#[verifier::external_body]
pub(crate) fn new_v4_simple_id() -> (r: String)
    ensures
        r@.len() == 32,
        is_lower_hex_text(r@),
{
    uuid::Uuid::new_v4().simple().to_string()
}

} // verus!
