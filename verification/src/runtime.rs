//! Values that come from the running system: the clock and fresh identifiers.

use vstd::prelude::*;

verus! {

/// `chrono::Utc::now()`, as microseconds since the Unix epoch
/// (`DateTime::timestamp_micros`). Nothing is promised of the value: it is the clock.
#[verifier::external_body]
pub(crate) fn now_micros() -> (t: i64) {
    chrono::Utc::now().timestamp_micros()
}

/// `uuid::Uuid::new_v4()` written with `to_string`: the hyphenated lower-case form,
/// 36 ASCII characters with hyphens at 8, 13, 18 and 23 and lower-case hexadecimal
/// digits elsewhere. Which digits is chance.
#[verifier::external_body]
pub(crate) fn new_uuid() -> (s: String)
    ensures
        s@.len() == 36,
        vstd::utf8::is_ascii_chars(s@),
        forall|i: int| 0 <= i < 36 ==> (#[trigger] s@[i] == '-' <==> (i == 8 || i == 13 || i == 18 || i == 23)),
        forall|i: int| 0 <= i < 36 && i != 8 && i != 13 && i != 18 && i != 23
            ==> ('0' <= #[trigger] s@[i] <= '9' || 'a' <= s@[i] <= 'f'),
{
    uuid::Uuid::new_v4().to_string()
}

/// `chrono::Utc::now().to_rfc3339()`: the current time as RFC 3339 text. Nothing
/// is promised of the value: it is the clock.
#[verifier::external_body]
pub(crate) fn now_rfc3339() -> (s: String) {
    chrono::Utc::now().to_rfc3339()
}

} // verus!
