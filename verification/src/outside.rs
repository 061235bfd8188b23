//! The calls that leave the library: the clock and fresh identifiers
//! (which depend on the machine and on chance), the calendar text of a
//! timestamp, and Unicode lower-casing.
use vstd::prelude::*;

verus! {

pub open spec fn is_lower_hex_digit(c: char) -> bool {
    ('0' <= c && c <= '9') || ('a' <= c && c <= 'f')
}

/// The hyphenated lower-case form of a version-4 UUID,
/// `xxxxxxxx-xxxx-4xxx-xxxx-xxxxxxxxxxxx`.
pub open spec fn is_v4_uuid_text(s: Seq<char>) -> bool {
    &&& s.len() == 36
    &&& forall|i: int|
        0 <= i < 36 ==> if i == 8 || i == 13 || i == 18 || i == 23 {
            #[trigger] s[i] == '-'
        } else {
            is_lower_hex_digit(s[i])
        }
    &&& s[14] == '4'
}

/// The current time in milliseconds since the Unix epoch:
/// `chrono::Local::now().timestamp_millis()`. The clock decides the value,
/// so nothing is promised of it.
#[verifier::external_body]
pub(crate) fn now_millis() -> i64 {
    chrono::Local::now().timestamp_millis()
}

/// A fresh random identifier: `uuid::Uuid::new_v4().to_string()`.
/// The value is random; what every outcome shares is the hyphenated
/// lower-case form that `Uuid`'s `Display` writes, with the version
/// digit `4` that `new_v4` sets.
#[verifier::external_body]
pub(crate) fn new_note_id() -> (id: String)
    ensures
        is_v4_uuid_text(id@),
{
    uuid::Uuid::new_v4().to_string()
}

/// The text `chrono` gives for `DateTime::from_timestamp_millis(millis)`
/// formatted with `"%d/%m/%y %H:%M"` (day, month, two-digit year, hours and
/// minutes of the UTC time), or `None` when the timestamp is out of
/// `chrono`'s range.
pub uninterp spec fn utc_date_text(millis: i64) -> Option<Seq<char>>;

pub open spec fn opt_text_view(o: Option<String>) -> Option<Seq<char>> {
    match o {
        Some(s) => Some(s@),
        None => None,
    }
}

/// `chrono::DateTime::from_timestamp_millis(millis)` followed by
/// `.format("%d/%m/%y %H:%M").to_string()`. Its result is named by
/// `utc_date_text`; the calendar arithmetic behind it is left unstated.
#[verifier::external_body]
pub(crate) fn format_utc_date(millis: i64) -> (r: Option<String>)
    ensures
        opt_text_view(r) == utc_date_text(millis),
{
    match chrono::DateTime::from_timestamp_millis(millis) {
        Some(dt) => Some(dt.format("%d/%m/%y %H:%M").to_string()),
        None => None,
    }
}

/// The Unicode lower-case mapping of a text, as `str::to_lowercase` gives it.
pub uninterp spec fn lowercase(s: Seq<char>) -> Seq<char>;

/// `str::to_lowercase`. Its result is named by `lowercase`; the Unicode
/// case tables behind it are left unstated.
#[verifier::external_body]
pub(crate) fn to_lowercase(s: &str) -> (r: String)
    ensures
        r@ == lowercase(s@),
{
    s.to_lowercase()
}

} // verus!
