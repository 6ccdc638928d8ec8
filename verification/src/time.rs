//! Timestamps: parsing and printing through jiff, and the repair of
//! timestamps whose fraction has more than three digits.

use vstd::prelude::*;
#[allow(unused_imports)]
use crate::text::{chars_of, copy_range, find_char, lemma_find_char_at, lemma_find_char_absent, string_from_chars};

verus! {

/// A point in time, in milliseconds since the Unix epoch.
#[derive(Clone, Copy, Debug, PartialEq, Eq, Structural)]
pub struct TimestampMs(pub i64);

impl TimestampMs {
    /// The timestamp `millis` milliseconds after the Unix epoch.
    pub fn from_millis(millis: i64) -> (t: TimestampMs)
        ensures
            t.0 == millis,
    {
        TimestampMs(millis)
    }

    /// The Unix epoch itself.
    pub fn unix_epoch() -> (t: TimestampMs)
        ensures
            t.0 == 0,
    {
        TimestampMs(0)
    }
}

#[verifier::external_type_specification]
#[verifier::external_body]
pub struct ExTimeZone(jiff::tz::TimeZone);

/// The milliseconds that jiff can hold as a `Timestamp`: whole seconds from
/// `Timestamp::MIN` up to `Timestamp::MAX`.
pub open spec fn within_jiff_range(ms: i64) -> bool {
    -377_705_023_201_000 <= ms && ms <= 253_402_207_200_000
}

/// What jiff reads from a timestamp text, as milliseconds since the epoch.
pub uninterp spec fn jiff_parsed_millis(text: Seq<char>) -> Option<i64>;

/// The text that jiff prints for a timestamp with millisecond precision.
pub uninterp spec fn jiff_millis_text(ms: i64) -> Option<Seq<char>>;

/// Parses `text` with `<jiff::Timestamp as FromStr>::from_str` and reads the
/// result back with `Timestamp::as_millisecond`. The contract names the
/// outcome: it depends on the text alone.
#[verifier::external_body]
fn parse_jiff_timestamp(text: &str) -> (r: Option<i64>)
    ensures
        r == jiff_parsed_millis(text@),
{
    match text.parse::<jiff::Timestamp>() {
        Ok(ts) => Some(ts.as_millisecond()),
        Err(_) => None,
    }
}

/// Builds a timestamp with `jiff::Timestamp::from_millisecond` and prints it
/// with three fractional digits (`{:.3}`). jiff documents that
/// `from_millisecond` fails exactly outside its range; the text itself is
/// named, not stated.
#[verifier::external_body]
fn print_jiff_millis(ms: i64) -> (r: Option<String>)
    ensures
        r is Some <==> within_jiff_range(ms),
        match r {
            Some(t) => jiff_millis_text(ms) == Some(t@),
            None => jiff_millis_text(ms) is None,
        },
{
    match jiff::Timestamp::from_millisecond(ms) {
        Ok(ts) => Some(format!("{:.3}", ts)),
        Err(_) => None,
    }
}

/// Whether a character is an ASCII decimal digit.
pub open spec fn is_ascii_digit(c: char) -> bool {
    '0' <= c && c <= '9'
}

/// The number that two ASCII decimal digits spell.
pub open spec fn two_digit_value(high: char, low: char) -> int {
    10 * ((high as u32) - ('0' as u32)) + ((low as u32) - ('0' as u32))
}

/// `YYYY-MM-DD` with month 01 to 12 and day 01 to 31.
pub open spec fn is_year_month_day(d: Seq<char>) -> bool {
    &&& d.len() == 10
    &&& is_ascii_digit(d[0]) && is_ascii_digit(d[1]) && is_ascii_digit(d[2]) && is_ascii_digit(d[3])
    &&& d[4] == '-'
    &&& is_ascii_digit(d[5]) && is_ascii_digit(d[6])
    &&& 1 <= two_digit_value(d[5], d[6]) <= 12
    &&& d[7] == '-'
    &&& is_ascii_digit(d[8]) && is_ascii_digit(d[9])
    &&& 1 <= two_digit_value(d[8], d[9]) <= 31
}

/// A calendar date as jiff prints it: `YYYY-MM-DD`, and for a year before
/// year zero `-00` followed by the year's four digits (never `0000`).
pub open spec fn is_date_text(s: Seq<char>) -> bool {
    ||| is_year_month_day(s)
    ||| {
        &&& s.len() == 13
        &&& s[0] == '-' && s[1] == '0' && s[2] == '0'
        &&& is_year_month_day(s.skip(3))
        &&& !(s[3] == '0' && s[4] == '0' && s[5] == '0' && s[6] == '0')
    }
}

/// The calendar date that jiff prints for a timestamp (milliseconds since the
/// epoch) moved into a zone.
pub uninterp spec fn jiff_zoned_date(ms: i64, zone: jiff::tz::TimeZone) -> Seq<char>;

/// `date` is the calendar date of the timestamp in the given zone, or in some
/// zone (the system's) when none is given, and empty when the timestamp lies
/// outside what jiff can represent.
pub open spec fn is_date_in_zone(
    date: Seq<char>,
    ts: TimestampMs,
    tz: Option<&jiff::tz::TimeZone>,
) -> bool {
    if within_jiff_range(ts.0) {
        &&& is_date_text(date)
        &&& match tz {
            Some(zone) => date == jiff_zoned_date(ts.0, *zone),
            None => exists|zone: jiff::tz::TimeZone| date == jiff_zoned_date(ts.0, zone),
        }
    } else {
        date == Seq::<char>::empty()
    }
}

/// Builds a timestamp with `jiff::Timestamp::from_millisecond`, moves it into
/// the zone with `Timestamp::to_zoned` and prints its civil date
/// (`civil::Date` as `Display` writes it: the year padded to four digits,
/// behind `-00` when negative, then the month and the day padded to two).
/// Which date it is, is named: it follows from the timestamp and the zone's
/// rules, which the zone value holds.
#[verifier::external_body]
fn print_jiff_date(ms: i64, zone: &jiff::tz::TimeZone) -> (r: Option<String>)
    ensures
        r is Some <==> within_jiff_range(ms),
        r matches Some(t) ==> is_date_text(t@) && t@ == jiff_zoned_date(ms, *zone),
{
    match jiff::Timestamp::from_millisecond(ms) {
        Ok(ts) => Some(ts.to_zoned(zone.clone()).date().to_string()),
        Err(_) => None,
    }
}

/// The machine's own time zone (`jiff::tz::TimeZone::system`); nothing is
/// stated of it, since it comes from the environment.
#[verifier::external_body]
fn system_time_zone() -> jiff::tz::TimeZone {
    jiff::tz::TimeZone::system()
}

/// The timestamp that a text denotes, if jiff can read it.
pub open spec fn parsed_timestamp(text: Seq<char>) -> Option<TimestampMs> {
    match jiff_parsed_millis(text) {
        Some(ms) => Some(TimestampMs(ms)),
        None => None,
    }
}

/// Reads an RFC 3339 timestamp.
pub fn parse_ts_timestamp(text: &str) -> (r: Option<TimestampMs>)
    ensures
        r == parsed_timestamp(text@),
{
    match parse_jiff_timestamp(text) {
        Some(ms) => Some(TimestampMs(ms)),
        None => None,
    }
}

/// The RFC 3339 text of a timestamp with millisecond precision; empty when
/// the timestamp lies outside what jiff can represent.
pub open spec fn rfc3339_millis_text(ts: TimestampMs) -> Seq<char> {
    match jiff_millis_text(ts.0) {
        Some(t) => t,
        None => seq![],
    }
}

/// Prints a timestamp as RFC 3339 with millisecond precision.
pub fn format_rfc3339_millis(ts: TimestampMs) -> (s: String)
    ensures
        s@ == rfc3339_millis_text(ts),
{
    match print_jiff_millis(ts.0) {
        Some(t) => t,
        None => String::new(),
    }
}

/// The calendar date (`YYYY-MM-DD`) of a timestamp in the given zone, or in
/// the system zone when none is given; empty when the timestamp lies outside
/// what jiff can represent.
pub fn format_date_tz(ts: TimestampMs, tz: Option<&jiff::tz::TimeZone>) -> (s: String)
    ensures
        is_date_in_zone(s@, ts, tz),
{
    let date = match tz {
        Some(zone) => print_jiff_date(ts.0, zone),
        None => {
            let zone = system_time_zone();
            let date = print_jiff_date(ts.0, &zone);
            proof {
                if date is Some {
                    assert(date->0@ == jiff_zoned_date(ts.0, zone));
                }
            }
            date
        },
    };
    match date {
        Some(t) => t,
        None => String::new(),
    }
}

/// The timestamp of a file modification time given in milliseconds since the
/// epoch: the epoch itself when there is none or it does not fit in `i64`.
pub open spec fn modified_timestamp(modified_ms: Option<u128>) -> TimestampMs {
    match modified_ms {
        Some(ms) => if ms <= i64::MAX {
            TimestampMs(ms as i64)
        } else {
            TimestampMs(0)
        },
        None => TimestampMs(0),
    }
}

/// The timestamp of a file's modification time (milliseconds since the
/// epoch, absent when the file system could not tell).
pub fn file_modified_timestamp(modified_ms: Option<u128>) -> (t: TimestampMs)
    ensures
        t == modified_timestamp(modified_ms),
{
    match modified_ms {
        Some(ms) => if ms <= i64::MAX as u128 {
            TimestampMs(ms as i64)
        } else {
            TimestampMs(0)
        },
        None => TimestampMs(0),
    }
}


/// The number of bytes that UTF-8 takes for a character.
pub open spec fn char_width(c: char) -> int {
    if (c as u32) < 0x80 {
        1
    } else if (c as u32) < 0x800 {
        2
    } else if (c as u32) < 0x10000 {
        3
    } else {
        4
    }
}

/// The length of a text in UTF-8 bytes.
pub open spec fn utf8_len(s: Seq<char>) -> int
    decreases s.len(),
{
    if s.len() == 0 {
        0
    } else {
        char_width(s[0]) + utf8_len(s.drop_first())
    }
}

proof fn lemma_utf8_len_nonneg(s: Seq<char>)
    ensures
        utf8_len(s) >= 0,
    decreases s.len(),
{
    if s.len() > 0 {
        lemma_utf8_len_nonneg(s.drop_first());
    }
}

/// The number of leading characters of `s` whose UTF-8 encoding takes exactly
/// `n` bytes, if some prefix does.
pub open spec fn chars_for_bytes(s: Seq<char>, n: int) -> Option<int>
    decreases s.len(),
{
    if n == 0 {
        Some(0)
    } else if s.len() == 0 || char_width(s[0]) > n {
        None
    } else {
        match chars_for_bytes(s.drop_first(), n - char_width(s[0])) {
            Some(k) => Some(k + 1),
            None => None,
        }
    }
}

/// The characters that may start a UTC offset after a fraction.
pub open spec fn is_offset_sign(c: char) -> bool {
    c == 'Z' || c == '+' || c == '-'
}

/// Position of the first character of `s` that may start an offset.
pub open spec fn find_offset_sign(s: Seq<char>) -> Option<int>
    decreases s.len(),
{
    if s.len() == 0 {
        None
    } else if is_offset_sign(s[0]) {
        Some(0)
    } else {
        match find_offset_sign(s.drop_first()) {
            Some(i) => Some(i + 1),
            None => None,
        }
    }
}

proof fn lemma_find_offset_sign(s: Seq<char>)
    ensures
        match find_offset_sign(s) {
            Some(i) => 0 <= i < s.len() && is_offset_sign(s[i]) && forall|j: int|
                0 <= j < i ==> !is_offset_sign(s[j]),
            None => forall|j: int| 0 <= j < s.len() ==> !is_offset_sign(s[j]),
        },
    decreases s.len(),
{
    if s.len() > 0 {
        lemma_find_offset_sign(s.drop_first());
        if !is_offset_sign(s[0]) {
            assert forall|j: int| 1 <= j < s.len() implies s[j] == s.drop_first()[j - 1] by {}
        }
    }
}

/// Where the fraction of a timestamp text lies: the position of the first `.`
/// and of the first `Z`, `+` or `-` after it.
pub open spec fn fraction_bounds(v: Seq<char>) -> Option<(int, int)> {
    match find_char(v, '.') {
        Some(dot) => match find_offset_sign(v.skip(dot + 1)) {
            Some(k) => Some((dot, dot + 1 + k)),
            None => None,
        },
        None => None,
    }
}

/// Cutting the fraction after its first three bytes would split a character:
/// the fraction has three bytes or more, but no prefix of it takes exactly
/// three.
pub open spec fn fraction_cut_splits_char(v: Seq<char>) -> bool {
    match fraction_bounds(v) {
        Some((dot, off)) => {
            let fraction = v.subrange(dot + 1, off);
            utf8_len(fraction) >= 3 && chars_for_bytes(fraction, 3) is None
        },
        None => false,
    }
}

/// The text with its fraction cut to three bytes, when it has a fraction of at
/// least three bytes followed by an offset.
pub open spec fn fraction_cut_to_millis(v: Seq<char>) -> Option<Seq<char>> {
    match fraction_bounds(v) {
        Some((dot, off)) => {
            let fraction = v.subrange(dot + 1, off);
            if utf8_len(fraction) < 3 {
                None
            } else {
                match chars_for_bytes(fraction, 3) {
                    Some(k) => Some(v.take(dot) + seq!['.'] + fraction.take(k) + v.skip(off)),
                    None => None,
                }
            }
        },
        None => None,
    }
}

/// A Grok timestamp text made readable: the text itself when it reads as a
/// timestamp, else the text with its fraction cut to milliseconds when that
/// reads as one.
pub open spec fn normalized_timestamp(v: Seq<char>) -> Option<Seq<char>> {
    if jiff_parsed_millis(v) is Some {
        Some(v)
    } else {
        match fraction_cut_to_millis(v) {
            Some(n) => if jiff_parsed_millis(n) is Some {
                Some(n)
            } else {
                None
            },
            None => None,
        }
    }
}

/// Whatever a Grok timestamp text normalizes to reads as a timestamp, and a
/// text that already reads as one is kept as it is.
pub proof fn lemma_normalized_reads(v: Seq<char>)
    ensures
        normalized_timestamp(v) matches Some(n) ==> jiff_parsed_millis(n) is Some,
        jiff_parsed_millis(v) is Some ==> normalized_timestamp(v) == Some(v),
{
}

/// Normalizing `v` runs to completion: either `v` reads as a timestamp, or
/// cutting its fraction does not split a character.
pub open spec fn normalize_defined(v: Seq<char>) -> bool {
    jiff_parsed_millis(v) is Some || !fraction_cut_splits_char(v)
}

fn char_width_of(c: char) -> (w: usize)
    ensures
        w == char_width(c),
{
    let code = c as u32;
    if code < 0x80 {
        1
    } else if code < 0x800 {
        2
    } else if code < 0x10000 {
        3
    } else {
        4
    }
}

/// Where the fraction of the text lies (see `fraction_bounds`).
fn locate_fraction(chars: &Vec<char>) -> (r: Option<(usize, usize)>)
    ensures
        match r {
            Some((dot, off)) => fraction_bounds(chars@) == Some((dot as int, off as int)) && dot
                < off <= chars@.len(),
            None => fraction_bounds(chars@) is None,
        },
{
    let n = chars.len();
    let mut dot: usize = 0;
    while dot < n && chars[dot] != '.'
        invariant
            dot <= n,
            n == chars@.len(),
            forall|j: int| 0 <= j < dot ==> chars@[j] != '.',
        decreases n - dot,
    {
        dot = dot + 1;
    }
    if dot == n {
        proof {
            lemma_find_char_absent(chars@, '.');
        }
        return None;
    }
    proof {
        lemma_find_char_at(chars@, '.', dot as int);
    }
    let mut off: usize = dot + 1;
    while off < n && chars[off] != 'Z' && chars[off] != '+' && chars[off] != '-'
        invariant
            dot < off <= n,
            n == chars@.len(),
            forall|j: int| dot < j < off ==> !is_offset_sign(chars@[j]),
        decreases n - off,
    {
        off = off + 1;
    }
    let ghost after = chars@.skip(dot + 1);
    proof {
        lemma_find_offset_sign(after);
        if off < n {
            assert(after[off - dot - 1] == chars@[off as int]);
            assert forall|j: int| 0 <= j < off - dot - 1 implies !is_offset_sign(after[j]) by {
                assert(after[j] == chars@[dot + 1 + j]);
            }
            if find_offset_sign(after) != Some(off - dot - 1) {
                let k = find_offset_sign(after)->0;
                assert(after[k] == chars@[dot + 1 + k]);
            }
        } else {
            if find_offset_sign(after) is Some {
                let k = find_offset_sign(after)->0;
                assert(after[k] == chars@[dot + 1 + k]);
            }
        }
    }
    if off == n {
        return None;
    }
    Some((dot, off))
}

/// How a fraction is cut after three bytes.
enum MillisCut {
    /// The fraction has fewer than three bytes.
    Short,
    /// Its first `k` characters take exactly three bytes.
    At(usize),
    /// The cut would split a character.
    Splits,
}

fn millis_cut(fraction: &Vec<char>) -> (r: MillisCut)
    ensures
        match r {
            MillisCut::Short => utf8_len(fraction@) < 3,
            MillisCut::At(k) => utf8_len(fraction@) >= 3 && chars_for_bytes(fraction@, 3) == Some(
                k as int,
            ) && k <= fraction@.len(),
            MillisCut::Splits => utf8_len(fraction@) >= 3 && chars_for_bytes(fraction@, 3) is None,
        },
{
    let ghost f = fraction@;
    let flen = fraction.len();
    let mut k: usize = 0;
    let mut rem: usize = 3;
    let mut splits = false;
    assert(f.skip(0) == f);
    while k < flen && rem > 0
        invariant_except_break
            !splits,
            k <= flen,
            flen == f.len(),
            fraction@ == f,
            rem <= 3,
            utf8_len(f) == (3 - rem) + utf8_len(f.skip(k as int)),
            chars_for_bytes(f, 3) == match chars_for_bytes(f.skip(k as int), rem as int) {
                Some(j) => Some(j + k),
                None => None,
            },
        ensures
            k <= flen,
            splits ==> utf8_len(f) >= 3 && chars_for_bytes(f, 3) is None,
            !splits ==> utf8_len(f) == (3 - rem) + utf8_len(f.skip(k as int)),
            !splits ==> chars_for_bytes(f, 3) == match chars_for_bytes(
                f.skip(k as int),
                rem as int,
            ) {
                Some(j) => Some(j + k),
                None => None,
            },
            !splits ==> (k == flen || rem == 0),
        decreases flen - k,
    {
        let w = char_width_of(fraction[k]);
        let ghost tail = f.skip(k as int);
        assert(tail[0] == f[k as int]);
        assert(tail.drop_first() == f.skip(k + 1));
        proof {
            lemma_utf8_len_nonneg(tail.drop_first());
        }
        if w > rem {
            splits = true;
            break;
        }
        rem = rem - w;
        k = k + 1;
    }
    if splits {
        return MillisCut::Splits;
    }
    if rem > 0 {
        assert(f.skip(flen as int).len() == 0);
        return MillisCut::Short;
    }
    proof {
        lemma_utf8_len_nonneg(f.skip(k as int));
    }
    MillisCut::At(k)
}

/// Whether cutting the fraction of a timestamp text after three bytes would
/// split a character.
pub fn fraction_cut_splits(value: &str) -> (b: bool)
    ensures
        b == fraction_cut_splits_char(value@),
{
    let chars = chars_of(value);
    match locate_fraction(&chars) {
        Some((dot, off)) => {
            let fraction = copy_range(chars.as_slice(), dot + 1, off);
            match millis_cut(&fraction) {
                MillisCut::Splits => true,
                _ => false,
            }
        },
        None => false,
    }
}

/// Whether normalizing a timestamp text runs to completion.
pub fn normalize_is_defined(value: &str) -> (b: bool)
    ensures
        b == normalize_defined(value@),
{
    parse_ts_timestamp(value).is_some() || !fraction_cut_splits(value)
}

/// Grok writes timestamps whose fraction may carry more digits than a
/// timestamp reader takes; this keeps a readable text as it is and otherwise
/// cuts the fraction to three bytes.
pub fn normalize_grok_timestamp(value: &str) -> (r: Option<String>)
    requires
        normalize_defined(value@),
    ensures
        match r {
            Some(t) => normalized_timestamp(value@) == Some(t@),
            None => normalized_timestamp(value@) is None,
        },
{
    if parse_ts_timestamp(value).is_some() {
        return Some(string_from_chars(chars_of(value).as_slice()));
    }
    let chars = chars_of(value);
    let n = chars.len();
    let (dot, off) = match locate_fraction(&chars) {
        Some(bounds) => bounds,
        None => return None,
    };
    let fraction = copy_range(chars.as_slice(), dot + 1, off);
    let ghost f = fraction@;
    let k = match millis_cut(&fraction) {
        MillisCut::Short => return None,
        MillisCut::At(k) => k,
        MillisCut::Splits => {
            // the precondition rules this out: the text does not read as a timestamp
            assert(false);
            return None;
        },
    };
    let flen = fraction.len();
    let mut out = copy_range(chars.as_slice(), 0, dot);
    out.push('.');
    let mut i: usize = 0;
    while i < k
        invariant
            i <= k <= flen,
            flen == f.len(),
            fraction@ == f,
            out@ == value@.take(dot as int) + seq!['.'] + f.take(i as int),
        decreases k - i,
    {
        out.push(fraction[i]);
        assert(f.take(i + 1) == f.take(i as int).push(f[i as int]));
        i = i + 1;
    }
    let tail = copy_range(chars.as_slice(), off, n);
    let mut j: usize = 0;
    let tlen = tail.len();
    let ghost head = out@;
    while j < tlen
        invariant
            j <= tlen,
            tlen == tail@.len(),
            out@ == head + tail@.take(j as int),
        decreases tlen - j,
    {
        out.push(tail[j]);
        assert(tail@.take(j + 1) == tail@.take(j as int).push(tail@[j as int]));
        j = j + 1;
    }
    assert(tail@.take(tlen as int) == tail@);
    assert(tail@ == value@.skip(off as int));
    let normalized = string_from_chars(out.as_slice());
    assert(fraction_cut_to_millis(value@) == Some(normalized@));
    if parse_ts_timestamp(normalized.as_str()).is_some() {
        Some(normalized)
    } else {
        None
    }
}


/// Every character is an ASCII decimal digit.
pub open spec fn all_ascii_digits(s: Seq<char>) -> bool {
    forall|i: int| 0 <= i < s.len() ==> is_ascii_digit(#[trigger] s[i])
}

proof fn lemma_digits_utf8_len(f: Seq<char>)
    requires
        all_ascii_digits(f),
    ensures
        utf8_len(f) == f.len(),
    decreases f.len(),
{
    if f.len() > 0 {
        assert(is_ascii_digit(f[0]));
        assert(all_ascii_digits(f.drop_first())) by {
            assert forall|i: int| 0 <= i < f.drop_first().len() implies is_ascii_digit(
                #[trigger] f.drop_first()[i],
            ) by {
                assert(f.drop_first()[i] == f[i + 1]);
            }
        }
        lemma_digits_utf8_len(f.drop_first());
    }
}

proof fn lemma_digits_cut(f: Seq<char>, n: int)
    requires
        all_ascii_digits(f),
        0 <= n <= f.len(),
    ensures
        chars_for_bytes(f, n) == Some(n),
    decreases n,
{
    if n > 0 {
        assert(is_ascii_digit(f[0]));
        assert(all_ascii_digits(f.drop_first())) by {
            assert forall|i: int| 0 <= i < f.drop_first().len() implies is_ascii_digit(
                #[trigger] f.drop_first()[i],
            ) by {
                assert(f.drop_first()[i] == f[i + 1]);
            }
        }
        lemma_digits_cut(f.drop_first(), n - 1);
    }
}

/// A timestamp text `T.FO`, with `T` holding no `.`, `F` a fraction of three
/// digits or more, and `O` an offset starting with `Z`, `+` or `-`, is kept
/// when it reads as a timestamp and otherwise becomes `T.F'O` with `F'` the
/// first three digits of `F`, when that reads as one; normalizing it always
/// runs to completion.
pub proof fn lemma_normalize_long_fraction(t: Seq<char>, f: Seq<char>, o: Seq<char>)
    requires
        forall|i: int| 0 <= i < t.len() ==> t[i] != '.',
        all_ascii_digits(f),
        f.len() >= 3,
        o.len() > 0,
        o[0] == 'Z' || o[0] == '+' || o[0] == '-',
    ensures
        ({
            let v = t + seq!['.'] + f + o;
            let cut = t + seq!['.'] + f.take(3) + o;
            &&& normalize_defined(v)
            &&& normalized_timestamp(v) == if jiff_parsed_millis(v) is Some {
                Some(v)
            } else if jiff_parsed_millis(cut) is Some {
                Some(cut)
            } else {
                None
            }
        }),
{
    let v = t + seq!['.'] + f + o;
    let cut = t + seq!['.'] + f.take(3) + o;
    let dot = t.len() as int;
    assert(v[dot] == '.');
    assert forall|j: int| 0 <= j < dot implies v[j] != '.' by {
        assert(v[j] == t[j]);
    }
    lemma_find_char_at(v, '.', dot);
    let after = v.skip(dot + 1);
    assert(after == f + o);
    lemma_find_offset_sign(after);
    assert(is_offset_sign(after[f.len() as int]));
    assert forall|j: int| 0 <= j < f.len() implies !is_offset_sign(after[j]) by {
        assert(after[j] == f[j]);
        assert(is_ascii_digit(f[j]));
    }
    if find_offset_sign(after) != Some(f.len() as int) {
        let k = find_offset_sign(after)->0;
        assert(k < f.len() || k > f.len());
    }
    assert(fraction_bounds(v) == Some((dot, dot + 1 + f.len())));
    assert(v.subrange(dot + 1, dot + 1 + f.len()) == f);
    lemma_digits_utf8_len(f);
    lemma_digits_cut(f, 3);
    assert(v.take(dot) == t);
    assert(v.skip(dot + 1 + f.len()) == o);
    assert(fraction_cut_to_millis(v) == Some(cut));
}

} // verus!
