//! Calls into chrono, uuid, regex and std whose behaviour this crate takes on trust.
use vstd::prelude::*;
use vstd::utf8::{decode_utf8, is_ascii_chars, valid_utf8};

verus! {

/// One second in nanoseconds.
pub const SECOND_NANOS: i128 = 1_000_000_000;

/// The first instant chrono can hold (the start of the year -262143), in nanoseconds since
/// the Unix epoch.
pub const MIN_UTC_NANOS: i128 = -8_334_601_315_200_000_000_000;

/// The last instant chrono can hold (the end of the year 262142), in nanoseconds since the
/// Unix epoch.
pub const MAX_UTC_NANOS: i128 = 8_210_266_876_799_999_999_999;

/// Whether `t` (nanoseconds since the epoch) is an instant chrono can hold.
pub open spec fn in_utc_range(t: int) -> bool {
    MIN_UTC_NANOS <= t <= MAX_UTC_NANOS
}

/// `chrono::Utc::now()`, as its `timestamp()` seconds and `timestamp_subsec_nanos()`.
/// Claimed: the seconds are not negative (chrono panics on a clock before the epoch), the
/// nanoseconds are below one second (chrono builds the value from `SystemTime`, which has
/// no leap seconds), and the instant is one chrono can hold, as every `DateTime` is.
#[verifier::external_body]
pub fn utc_now_parts() -> (r: (i64, u32))
    ensures
        r.0 >= 0,
        r.1 < 1_000_000_000,
        in_utc_range(r.0 * 1_000_000_000 + r.1),
{
    let t = chrono::Utc::now();
    (t.timestamp(), t.timestamp_subsec_nanos())
}

/// The wall-clock time in nanoseconds since the Unix epoch.
pub fn now_nanos() -> (r: i128)
    ensures
        0 <= r <= MAX_UTC_NANOS,
{
    let (secs, nsecs) = utc_now_parts();
    (secs as i128) * SECOND_NANOS + (nsecs as i128)
}

/// `chrono::DateTime::from_timestamp(secs, nsecs)` shown in the machine's time zone with the
/// format `%H:%M`. Claimed: chrono returns `None` only outside its date range, so every
/// instant it can hold, given with `nsecs` below one second, gives a text; a text is five
/// characters, two digits, a colon and two digits. Which digits depends on the time zone:
/// not stated (nor the panic inside chrono when the machine's time-zone data has no entry
/// for the instant).
#[verifier::external_body]
pub fn local_clock_text(secs: i64, nsecs: u32) -> (r: Option<String>)
    ensures
        nsecs < 1_000_000_000 && in_utc_range(secs * 1_000_000_000 + nsecs) ==> r is Some,
        r matches Some(s) ==> clock_text_shape(s@),
{
    match chrono::DateTime::from_timestamp(secs, nsecs) {
        Some(t) => Some(t.with_timezone(&chrono::Local).format("%H:%M").to_string()),
        None => None,
    }
}

/// `HH:MM`: two ASCII digits, a colon, two ASCII digits.
pub open spec fn clock_text_shape(s: Seq<char>) -> bool {
    &&& s.len() == 5
    &&& s[2] == ':'
    &&& forall|i: int| 0 <= i < 5 && i != 2 ==> '0' <= #[trigger] s[i] && s[i] <= '9'
}

/// Whether `c` is a lower-case ASCII hexadecimal digit.
pub open spec fn is_lower_hex(c: char) -> bool {
    ('0' <= c && c <= '9') || ('a' <= c && c <= 'f')
}

/// The hyphenated lower-case form of a UUID: 36 characters, hyphens at 8, 13, 18 and 23,
/// hexadecimal digits elsewhere.
pub open spec fn uuid_text(s: Seq<char>) -> bool {
    &&& s.len() == 36
    &&& forall|i: int|
        0 <= i < 36 ==> if i == 8 || i == 13 || i == 18 || i == 23 {
            #[trigger] s[i] == '-'
        } else {
            is_lower_hex(s[i])
        }
}

/// The hyphenated text of a random (version 4, RFC 4122 variant) UUID: the version digit
/// (character 14) is `4`, and the variant digit (character 19) is `8`, `9`, `a` or `b`.
pub open spec fn uuid_v4_text(s: Seq<char>) -> bool {
    &&& uuid_text(s)
    &&& s[14] == '4'
    &&& (s[19] == '8' || s[19] == '9' || s[19] == 'a' || s[19] == 'b')
}

/// `uuid::Uuid::new_v4().to_string()`: a random UUID. Claimed: the text has the hyphenated
/// lower-case shape that uuid's `Display` writes, with the version and variant digits that
/// `new_v4` sets. Which random bits come out: not stated.
#[verifier::external_body]
pub fn new_uuid_text() -> (r: String)
    ensures
        uuid_v4_text(r@),
{
    uuid::Uuid::new_v4().to_string()
}

/// Whether `name` has the form `[A-Za-z0-9][A-Za-z0-9_-]{0,31}`: one to 32 characters,
/// ASCII letters, digits, `_` and `-`, the first a letter or digit.
pub open spec fn mount_name_ok(name: Seq<char>) -> bool {
    &&& 1 <= name.len() <= 32
    &&& is_ascii_alnum(name[0])
    &&& forall|i: int| 1 <= i < name.len() ==> is_ascii_alnum(#[trigger] name[i]) || name[i] == '_' || name[i] == '-'
}

/// Whether `c` is an ASCII letter or digit.
pub open spec fn is_ascii_alnum(c: char) -> bool {
    ('0' <= c && c <= '9') || ('A' <= c && c <= 'Z') || ('a' <= c && c <= 'z')
}

/// `regex::Regex::new(pattern).unwrap().is_match(text)` for the one pattern
/// `^[A-Za-z0-9][A-Za-z0-9_-]{0,31}$`. Claimed: that pattern compiles, and (with `^` and `$`
/// anchoring at the ends of the text, as regex documents) a text matches exactly when it
/// has the form that `mount_name_ok` states.
#[verifier::external_body]
pub fn regex_is_match(pattern: &str, text: &str) -> (b: bool)
    requires
        pattern@ == "^[A-Za-z0-9][A-Za-z0-9_-]{0,31}$"@,
    ensures
        b == mount_name_ok(text@),
{
    regex::Regex::new(pattern).unwrap().is_match(text)
}

/// What `str::to_uppercase` gives for a text (Unicode upper-case mapping).
pub uninterp spec fn unicode_upper(s: Seq<char>) -> Seq<char>;

/// ASCII upper-casing of a text.
pub open spec fn ascii_upper(s: Seq<char>) -> Seq<char> {
    s.map_values(|c: char| if 'a' <= c && c <= 'z' { ((c as u32) - 32) as char } else { c })
}

/// The upper-case form of a text: ASCII upper-casing for an ASCII text, the Unicode
/// mapping named `unicode_upper` for any other.
pub open spec fn upper_text(s: Seq<char>) -> Seq<char> {
    if is_ascii_chars(s) {
        ascii_upper(s)
    } else {
        unicode_upper(s)
    }
}

/// `str::to_uppercase`. Claimed: the result is the Unicode upper-case mapping of the text;
/// on an ASCII text that mapping changes `a`-`z` to `A`-`Z` and keeps every other
/// character. For other texts the mapping is only named (`unicode_upper`).
#[verifier::external_body]
pub fn to_uppercase(s: &str) -> (r: String)
    ensures
        r@ == upper_text(s@),
        !is_ascii_chars(s@) ==> r@ == unicode_upper(s@),
{
    s.to_uppercase()
}

/// What `String::from_utf8_lossy` gives for a byte sequence.
pub uninterp spec fn utf8_lossy(bytes: Seq<u8>) -> Seq<char>;

/// `String::from_utf8_lossy(bytes).to_string()`. Claimed: the result is named `utf8_lossy`,
/// and for valid UTF-8 it is the decoded text, with nothing replaced. How invalid
/// sequences are replaced is not stated.
#[verifier::external_body]
pub fn from_utf8_lossy(bytes: &[u8]) -> (r: String)
    ensures
        r@ == utf8_lossy(bytes@),
        valid_utf8(bytes@) ==> r@ == decode_utf8(bytes@),
{
    String::from_utf8_lossy(bytes).to_string()
}

/// What `String::from_utf16_lossy` gives for a sequence of UTF-16 code units.
pub uninterp spec fn utf16_lossy(units: Seq<u16>) -> Seq<char>;

/// The UTF-16 code units of one character: one unit below U+10000, else a surrogate pair.
pub open spec fn char_utf16(c: char) -> Seq<u16> {
    if (c as u32) < 0x10000 {
        seq![(c as u32) as u16]
    } else {
        let v = (c as u32) - 0x10000;
        seq![(0xD800 + v / 0x400) as u16, (0xDC00 + v % 0x400) as u16]
    }
}

/// The UTF-16 encoding of a text.
pub open spec fn utf16_encode(s: Seq<char>) -> Seq<u16>
    decreases s.len(),
{
    if s.len() == 0 {
        Seq::empty()
    } else {
        utf16_encode(s.drop_last()) + char_utf16(s.last())
    }
}

/// `String::from_utf16_lossy(units)`. Claimed: the result is named `utf16_lossy`; valid
/// UTF-16, the encoding of some text, decodes to that text with nothing replaced; and code
/// units outside the surrogate range U+D800..U+DFFF decode one to one into that character.
/// How lone surrogates are replaced is not stated.
#[verifier::external_body]
pub fn from_utf16_lossy(units: &[u16]) -> (r: String)
    ensures
        r@ == utf16_lossy(units@),
        forall|s: Seq<char>| #[trigger] utf16_encode(s) == units@ ==> r@ == s,
        (forall|i: int|
            0 <= i < units@.len() ==> #[trigger] units@[i] < 0xD800 || units@[i] >= 0xE000)
            ==> r@ == units@.map_values(|u: u16| u as char),
{
    String::from_utf16_lossy(units)
}

} // verus!
