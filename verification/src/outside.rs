//! What the library takes on trust: contracts of functions of std and of the
//! crates `chrono` and `uuid`. Nothing here is proved.

use vstd::prelude::*;

use crate::html;
use crate::text;

verus! {

/// `String::push` appends one character to the end of the string.
pub assume_specification[ String::push ](s: &mut String, c: char)
    ensures
        final(s)@ == old(s)@.push(c),
;

/// What `str::to_lowercase` makes of a text.
pub uninterp spec fn unicode_lowercase(s: Seq<char>) -> Seq<char>;

/// `str::to_lowercase` maps a text to its Unicode lower case. That is a function
/// of the text alone; on ASCII text it is the ASCII lower case.
pub assume_specification[ str::to_lowercase ](s: &str) -> (r: String)
    ensures
        r@ == unicode_lowercase(s@),
        vstd::utf8::is_ascii_chars(s@) ==> r@ == text::ascii_lower(s@),
;

/// Whether the bits of a 128-bit identifier are those of a random UUID: version
/// 4, variant 10.
pub open spec fn is_random_id(id: u128) -> bool {
    &&& (id / 0x1000_0000_0000_0000_0000) % 16 == 4
    &&& (id / 0x4000_0000_0000_0000) % 4 == 2
}

/// `uuid::Uuid::new_v4` draws a random UUID, here as its 128 bits, the first
/// byte highest. Its version and variant are set; the other bits are left open.
/// It panics where the operating system gives no random bytes.
#[verifier::external_body]
pub(crate) fn random_id() -> (id: u128)
    ensures
        is_random_id(id),
{
    uuid::Uuid::new_v4().as_u128()
}

/// The hexadecimal digit of a number below 16, in lower case.
pub open spec fn hex_digit(n: nat) -> char {
    if n < 10 {
        ('0' as nat + n) as char
    } else {
        ('a' as nat + (n - 10)) as char
    }
}

/// The last `len` hexadecimal digits of `n`.
pub open spec fn hex(n: nat, len: nat) -> Seq<char>
    decreases len,
{
    if len == 0 {
        Seq::empty()
    } else {
        hex(n / 16, (len - 1) as nat).push(hex_digit(n % 16))
    }
}

/// The text of a UUID: 32 hexadecimal digits in five groups, with hyphens
/// between them.
pub open spec fn hyphenated(id: u128) -> Seq<char> {
    let d = hex(id as nat, 32);
    d.subrange(0, 8).push('-') + d.subrange(8, 12).push('-') + d.subrange(12, 16).push('-')
        + d.subrange(16, 20).push('-') + d.subrange(20, 32)
}

/// The `Display` of `uuid::Uuid` writes it in lower case with hyphens.
#[verifier::external_body]
pub(crate) fn id_text(id: u128) -> (s: String)
    ensures
        s@ == hyphenated(id),
{
    uuid::Uuid::from_u128(id).to_string()
}

/// Whether `chrono` can represent a point in time, given in seconds since 1970
/// in UTC and nanoseconds within the second: the year is one from -262143 to
/// 262142, and only the last second of a minute may be a leap second, with
/// nanoseconds beyond the first billion.
pub open spec fn representable(secs: i64, nanos: u32) -> bool {
    &&& -8_334_601_228_800 <= secs <= 8_210_266_876_799
    &&& nanos < 1_000_000_000 || (nanos < 2_000_000_000 && secs as int % 60 == 59)
}

/// `chrono::Utc::now` reads the system clock, here in seconds since 1970 and
/// nanoseconds within the second. It panics where the clock stands before 1970.
#[verifier::external_body]
pub(crate) fn utc_now() -> (t: (i64, u32))
    ensures
        representable(t.0, t.1),
        0 <= t.0,
        t.1 < 1_000_000_000,
{
    let now = chrono::Utc::now();
    (now.timestamp(), now.timestamp_subsec_nanos())
}

/// A number below 100 as two decimal digits.
pub open spec fn two_digits(n: nat) -> Seq<char> {
    seq![('0' as nat + n / 10) as char, ('0' as nat + n % 10) as char]
}

/// The hour, the minute and the second of a point in time in UTC, with colons
/// between them. A leap second is the second 60 of its minute.
pub open spec fn time_of_day(secs: i64, nanos: u32) -> Seq<char> {
    let in_day = (secs as int % 86_400) as nat;
    let leap: nat = if nanos >= 1_000_000_000 {
        1
    } else {
        0
    };
    two_digits(in_day / 3600).push(':') + two_digits(in_day / 60 % 60).push(':') + two_digits(
        in_day % 60 + leap,
    )
}

/// Whether a text consists of two digits, three ASCII letters and the time of
/// day of a point in time, with a space between each.
pub open spec fn is_row_time(s: Seq<char>, secs: i64, nanos: u32) -> bool {
    &&& s.len() == 15
    &&& forall|i: int| 0 <= i < 2 ==> '0' <= #[trigger] s[i] <= '9'
    &&& s[2] == ' '
    &&& forall|i: int|
        3 <= i < 6 ==> 'A' <= #[trigger] s[i] <= 'Z' || 'a' <= s[i] <= 'z'
    &&& s[6] == ' '
    &&& s.skip(7) == time_of_day(secs, nanos)
}

/// What `chrono` writes for a point in time in UTC under a format.
pub uninterp spec fn utc_text(secs: i64, nanos: u32, format: Seq<char>) -> Seq<char>;

/// `chrono::DateTime::format` writes a point in time in UTC as the format says.
/// The text is a function of the two. A format with an unknown specifier would
/// make it panic, so only the one that the web page uses is admitted; under that
/// one the text is the day in two digits, the month in three letters and the
/// time of day. Which day and which month they are is left unsaid.
#[verifier::external_body]
pub(crate) fn format_utc(secs: i64, nanos: u32, format: &str) -> (s: String)
    requires
        representable(secs, nanos),
        format@ == html::ROW_TIME_FORMAT@,
    ensures
        s@ == utc_text(secs, nanos, format@),
        is_row_time(s@, secs, nanos),
{
    chrono::DateTime::from_timestamp(secs, nanos).unwrap().format(format).to_string()
}

} // verus!
