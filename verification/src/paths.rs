//! Session file paths: the session id and the encoded project directory that
//! a `signals.json` path carries.

use vstd::prelude::*;
use vstd::utf8::{
    char_is_scalar, char_u32_cast, decode_utf8, encode_scalar, encode_utf8, encode_utf8_decode_utf8, encode_utf8_valid_utf8,
    valid_utf8,
};

verus! {

/// What `std::path::Path::parent` gives for a path, as text.
pub uninterp spec fn std_path_parent(path: Seq<char>) -> Option<Seq<char>>;

/// What `std::path::Path::file_name` gives for a path, as text.
pub uninterp spec fn std_path_file_name(path: Seq<char>) -> Option<Seq<char>>;

/// What `String::from_utf8_lossy` makes of some bytes.
pub uninterp spec fn utf8_lossy_text(bytes: Seq<u8>) -> Seq<char>;

/// `Path::new(path).parent()` read back as text (`Path::to_str`). The
/// component rules of `Path` are named, not stated.
#[verifier::external_body]
fn path_parent(path: &str) -> (r: Option<String>)
    ensures
        match r {
            Some(p) => std_path_parent(path@) == Some(p@),
            None => std_path_parent(path@) is None,
        },
{
    match std::path::Path::new(path).parent() {
        Some(parent) => match parent.to_str() {
            Some(text) => Some(text.to_string()),
            None => None,
        },
        None => None,
    }
}

/// `Path::new(path).file_name()` read back as text (`OsStr::to_str`). The
/// component rules of `Path` are named, not stated.
#[verifier::external_body]
fn path_file_name(path: &str) -> (r: Option<String>)
    ensures
        match r {
            Some(n) => std_path_file_name(path@) == Some(n@),
            None => std_path_file_name(path@) is None,
        },
{
    match std::path::Path::new(path).file_name() {
        Some(name) => match name.to_str() {
            Some(text) => Some(text.to_string()),
            None => None,
        },
        None => None,
    }
}

/// `String::from_utf8_lossy`: invalid sequences become U+FFFD; as its
/// documentation says, valid UTF-8 is decoded unchanged. Every character of
/// the result stands for at least one byte (a valid character or an invalid
/// sequence), so there are no more characters than bytes.
#[verifier::external_body]
fn utf8_lossy(bytes: &[u8]) -> (r: String)
    ensures
        r@ == utf8_lossy_text(bytes@),
        valid_utf8(bytes@) ==> r@ == decode_utf8(bytes@),
        r@.len() <= bytes@.len(),
{
    String::from_utf8_lossy(bytes).into_owned()
}

/// The value of an ASCII hexadecimal digit.
pub open spec fn hex_digit(b: u8) -> Option<u8> {
    if 0x30 <= b && b <= 0x39 {
        Some((b - 0x30) as u8)
    } else if 0x61 <= b && b <= 0x66 {
        Some((b - 0x61 + 10) as u8)
    } else if 0x41 <= b && b <= 0x46 {
        Some((b - 0x41 + 10) as u8)
    } else {
        None
    }
}

/// The byte that two hexadecimal digits spell, high digit first.
pub open spec fn hex_pair(high: u8, low: u8) -> Option<u8> {
    match (hex_digit(high), hex_digit(low)) {
        (Some(h), Some(l)) => Some((h * 16 + l) as u8),
        _ => None,
    }
}

/// The value of an ASCII hexadecimal digit (either case).
pub fn hex_value(value: u8) -> (r: Option<u8>)
    ensures
        r == hex_digit(value),
        r matches Some(v) ==> v < 16,
{
    if 0x30u8 <= value && value <= 0x39u8 {
        Some(value - 0x30u8)
    } else if 0x61u8 <= value && value <= 0x66u8 {
        Some(value - 0x61u8 + 10)
    } else if 0x41u8 <= value && value <= 0x46u8 {
        Some(value - 0x41u8 + 10)
    } else {
        None
    }
}

/// The byte that two hexadecimal digits spell.
pub fn hex_byte(high: u8, low: u8) -> (r: Option<u8>)
    ensures
        r == hex_pair(high, low),
{
    let h = match hex_value(high) {
        Some(h) => h,
        None => return None,
    };
    let l = match hex_value(low) {
        Some(l) => l,
        None => return None,
    };
    Some(h * 16 + l)
}

/// Percent-decoding on bytes: `%` and two hexadecimal digits stand for the
/// byte they spell; every other byte stands for itself.
pub open spec fn percent_decoded_bytes(b: Seq<u8>) -> Seq<u8>
    decreases b.len(),
{
    if b.len() == 0 {
        seq![]
    } else if b[0] == 0x25 && 2 < b.len() && hex_pair(b[1], b[2]) is Some {
        seq![hex_pair(b[1], b[2])->0] + percent_decoded_bytes(b.skip(3))
    } else {
        seq![b[0]] + percent_decoded_bytes(b.skip(1))
    }
}

/// Percent-decoding of a text: decode its UTF-8 bytes, then read them back
/// as UTF-8, replacing what is not valid.
pub open spec fn percent_decoded(s: Seq<char>) -> Seq<char> {
    utf8_lossy_text(percent_decoded_bytes(encode_utf8(s)))
}

proof fn lemma_encode_scalar_no_percent(scalar: u32)
    requires
        scalar != 0x25,
        scalar <= 0x10FFFF,
    ensures
        forall|i: int| 0 <= i < encode_scalar(scalar).len() ==> encode_scalar(scalar)[i] != 0x25,
{
    assert(scalar <= 0x7F ==> ((scalar & 0x7F) as u8) as u32 == scalar) by (bit_vector);
    assert(forall|x: u8| (0x80u8 | x) >= 0x80u8) by (bit_vector);
    assert(forall|x: u8| (0xC0u8 | x) >= 0x80u8) by (bit_vector);
    assert(forall|x: u8| (0xE0u8 | x) >= 0x80u8) by (bit_vector);
    assert(forall|x: u8| (0xF0u8 | x) >= 0x80u8) by (bit_vector);
}

proof fn lemma_encode_no_percent(s: Seq<char>)
    requires
        forall|i: int| 0 <= i < s.len() ==> s[i] != '%',
    ensures
        forall|i: int| 0 <= i < encode_utf8(s).len() ==> encode_utf8(s)[i] != 0x25,
    decreases s.len(),
{
    if s.len() > 0 {
        let rest = s.drop_first();
        lemma_encode_no_percent(rest);
        let c = s[0];
        char_is_scalar(c);
        char_u32_cast(c, c as u32);
        char_u32_cast('%', '%' as u32);
        assert(('%' as u32) == 0x25);
        assert((c as u32) != 0x25);
        lemma_encode_scalar_no_percent(c as u32);
        let head = encode_scalar(c as u32);
        assert(encode_utf8(s) == head + encode_utf8(rest));
        assert forall|i: int| 0 <= i < encode_utf8(s).len() implies encode_utf8(s)[i] != 0x25 by {
            if i >= head.len() {
                assert(encode_utf8(s)[i] == encode_utf8(rest)[i - head.len()]);
            }
        }
    }
}

proof fn lemma_no_escapes_unchanged(b: Seq<u8>)
    requires
        forall|i: int| 0 <= i < b.len() ==> b[i] != 0x25,
    ensures
        percent_decoded_bytes(b) == b,
    decreases b.len(),
{
    if b.len() > 0 {
        lemma_no_escapes_unchanged(b.skip(1));
        assert(seq![b[0]] + b.skip(1) == b);
    }
}

/// Decoding never makes bytes longer: an escape of three bytes becomes one.
pub proof fn lemma_percent_decoded_not_longer(b: Seq<u8>)
    ensures
        percent_decoded_bytes(b).len() <= b.len(),
    decreases b.len(),
{
    if b.len() > 0 {
        lemma_percent_decoded_not_longer(b.skip(1));
        if b.len() > 2 {
            lemma_percent_decoded_not_longer(b.skip(3));
        }
    }
}

/// Decodes `%XX` escapes in a text.
pub fn percent_decode(value: &str) -> (r: String)
    ensures
        r@ == percent_decoded(value@),
        valid_utf8(percent_decoded_bytes(encode_utf8(value@))) ==> r@ == decode_utf8(
            percent_decoded_bytes(encode_utf8(value@)),
        ),
        (forall|i: int| 0 <= i < value@.len() ==> value@[i] != '%') ==> r@ == value@,
        r@.len() <= percent_decoded_bytes(encode_utf8(value@)).len() <= encode_utf8(value@).len(),
{
    proof {
        lemma_percent_decoded_not_longer(encode_utf8(value@));
        if forall|i: int| 0 <= i < value@.len() ==> value@[i] != '%' {
            lemma_encode_no_percent(value@);
            lemma_no_escapes_unchanged(encode_utf8(value@));
            encode_utf8_valid_utf8(value@);
            encode_utf8_decode_utf8(value@);
        }
    }
    let bytes = value.as_bytes();
    let ghost all = bytes@;
    assert(all == encode_utf8(value@));
    let n = bytes.len();
    let mut output: Vec<u8> = Vec::new();
    let mut index: usize = 0;
    assert(all.skip(0) == all);
    while index < n
        invariant
            n == all.len(),
            bytes@ == all,
            index <= n,
            output@ + percent_decoded_bytes(all.skip(index as int)) == percent_decoded_bytes(all),
        decreases n - index,
    {
        let ghost rest = all.skip(index as int);
        assert(rest[0] == all[index as int]);
        if bytes[index] == 0x25u8 && 2 < n - index {
            assert(rest[1] == all[index + 1]);
            assert(rest[2] == all[index + 2]);
            if let Some(value) = hex_byte(bytes[index + 1], bytes[index + 2]) {
                assert(rest.skip(3) == all.skip(index + 3));
                assert(output@.push(value) + percent_decoded_bytes(all.skip(index + 3)) == output@
                    + percent_decoded_bytes(rest));
                output.push(value);
                index = index + 3;
                continue;
            }
        }
        assert(rest.skip(1) == all.skip(index + 1));
        assert(output@.push(bytes[index as int]) + percent_decoded_bytes(all.skip(index + 1))
            == output@ + percent_decoded_bytes(rest));
        output.push(bytes[index]);
        index = index + 1;
    }
    assert(all.skip(n as int).len() == 0);
    assert(output@ + percent_decoded_bytes(all.skip(n as int)) == output@);
    utf8_lossy(output.as_slice())
}

/// The session id that a `signals.json` path carries: the name of the
/// directory that holds the file, unless empty.
pub open spec fn session_id_of_path(path: Seq<char>) -> Option<Seq<char>> {
    match std_path_parent(path) {
        Some(dir) => match std_path_file_name(dir) {
            Some(name) => if name.len() > 0 {
                Some(name)
            } else {
                None
            },
            None => None,
        },
        None => None,
    }
}

/// The session id that a `signals.json` path carries.
pub fn session_id_from_path(path: &str) -> (r: Option<String>)
    ensures
        match r {
            Some(id) => session_id_of_path(path@) == Some(id@),
            None => session_id_of_path(path@) is None,
        },
{
    let dir = match path_parent(path) {
        Some(dir) => dir,
        None => return None,
    };
    let name = match path_file_name(dir.as_str()) {
        Some(name) => name,
        None => return None,
    };
    if name.as_str().is_empty() {
        None
    } else {
        Some(name)
    }
}

/// The project path that a `signals.json` path carries: the name of the
/// directory two levels up, percent-decoded, unless that is empty.
pub open spec fn project_path_of_path(path: Seq<char>) -> Option<Seq<char>> {
    match std_path_parent(path) {
        Some(session_dir) => match std_path_parent(session_dir) {
            Some(project_dir) => match std_path_file_name(project_dir) {
                Some(encoded) => if percent_decoded(encoded).len() > 0 {
                    Some(percent_decoded(encoded))
                } else {
                    None
                },
                None => None,
            },
            None => None,
        },
        None => None,
    }
}

/// The project path that a `signals.json` path carries, decoded from the
/// name of its project directory.
pub fn project_path_from_session_file(path: &str) -> (r: Option<String>)
    ensures
        match r {
            Some(p) => project_path_of_path(path@) == Some(p@),
            None => project_path_of_path(path@) is None,
        },
{
    let session_dir = match path_parent(path) {
        Some(dir) => dir,
        None => return None,
    };
    let project_dir = match path_parent(session_dir.as_str()) {
        Some(dir) => dir,
        None => return None,
    };
    let encoded = match path_file_name(project_dir.as_str()) {
        Some(name) => name,
        None => return None,
    };
    let decoded = percent_decode(encoded.as_str());
    if decoded.as_str().is_empty() {
        None
    } else {
        Some(decoded)
    }
}


/// The ASCII code of the upper-case hexadecimal digit for `n` (below 16).
pub open spec fn hex_digit_code(n: u8) -> u8 {
    if n < 10 {
        (0x30 + n) as u8
    } else {
        (0x41 + n - 10) as u8
    }
}

/// Bytes written as `%XX` escapes, two upper-case hexadecimal digits each.
pub open spec fn escaped_bytes(b: Seq<u8>) -> Seq<u8>
    decreases b.len(),
{
    if b.len() == 0 {
        seq![]
    } else {
        seq![0x25u8, hex_digit_code(b[0] / 16), hex_digit_code(b[0] % 16)] + escaped_bytes(
            b.drop_first(),
        )
    }
}

/// The text that escapes every byte of `bytes` (an ASCII text).
pub open spec fn escaped_text(bytes: Seq<u8>) -> Seq<char> {
    escaped_bytes(bytes).map_values(|c: u8| c as char)
}

proof fn lemma_escaped_bytes_ascii(b: Seq<u8>)
    ensures
        forall|i: int| 0 <= i < escaped_bytes(b).len() ==> escaped_bytes(b)[i] < 0x80,
    decreases b.len(),
{
    if b.len() > 0 {
        lemma_escaped_bytes_ascii(b.drop_first());
        let head = seq![0x25u8, hex_digit_code(b[0] / 16), hex_digit_code(b[0] % 16)];
        assert forall|i: int| 0 <= i < escaped_bytes(b).len() implies escaped_bytes(b)[i]
            < 0x80 by {
            if i >= 3 {
                assert(escaped_bytes(b)[i] == escaped_bytes(b.drop_first())[i - 3]);
            } else {
                assert(escaped_bytes(b)[i] == head[i]);
            }
        }
    }
}

proof fn lemma_escapes_decode(b: Seq<u8>)
    ensures
        percent_decoded_bytes(escaped_bytes(b)) == b,
    decreases b.len(),
{
    if b.len() > 0 {
        lemma_escapes_decode(b.drop_first());
        let e = escaped_bytes(b);
        let hi = b[0] / 16;
        let lo = b[0] % 16;
        assert(hex_digit(hex_digit_code(hi)) == Some(hi));
        assert(hex_digit(hex_digit_code(lo)) == Some(lo));
        assert(hi * 16 + lo == b[0]);
        assert(e[0] == 0x25 && e[1] == hex_digit_code(hi) && e[2] == hex_digit_code(lo));
        assert(e.skip(3) == escaped_bytes(b.drop_first()));
        assert(seq![b[0]] + b.drop_first() == b);
    }
}

proof fn lemma_ascii_encode(chars: Seq<char>)
    requires
        forall|i: int| 0 <= i < chars.len() ==> (chars[i] as u32) < 0x80,
    ensures
        encode_utf8(chars) == chars.map_values(|c: char| (c as u32) as u8),
    decreases chars.len(),
{
    if chars.len() > 0 {
        lemma_ascii_encode(chars.drop_first());
        let s = chars[0] as u32;
        assert(s <= 0x7F ==> ((s & 0x7F) as u8) as u32 == s) by (bit_vector);
        assert(encode_scalar(s) == seq![(s as u8)]);
        assert(chars.map_values(|c: char| (c as u32) as u8) == seq![(s as u8)]
            + chars.drop_first().map_values(|c: char| (c as u32) as u8));
    }
}

/// Escaping every byte of a text as `%XX` and decoding the result gives the
/// text back: decoding yields its UTF-8 bytes again, which are valid UTF-8
/// and decode to the text.
pub proof fn lemma_percent_round_trip(t: Seq<char>)
    ensures
        percent_decoded_bytes(encode_utf8(escaped_text(encode_utf8(t)))) == encode_utf8(t),
        valid_utf8(encode_utf8(t)),
        decode_utf8(encode_utf8(t)) == t,
{
    let b = encode_utf8(t);
    let e = escaped_bytes(b);
    let text = escaped_text(b);
    lemma_escaped_bytes_ascii(b);
    assert forall|i: int| 0 <= i < text.len() implies (text[i] as u32) < 0x80 by {
        let x = e[i];
        assert(text[i] == x as char);
        assert(((x as char) as u32) == x as u32);
    }
    lemma_ascii_encode(text);
    assert forall|i: int| 0 <= i < e.len() implies text.map_values(|c: char| (c as u32) as u8)[i]
        == e[i] by {
        let x = e[i];
        assert(((x as char) as u32) == x as u32);
        assert((((x as char) as u32) as u8) == x);
    }
    assert(encode_utf8(text) == e);
    lemma_escapes_decode(b);
    encode_utf8_valid_utf8(t);
    encode_utf8_decode_utf8(t);
}


/// Bytes with those in `set` written as `%XX` escapes (two upper-case
/// hexadecimal digits) and all others kept.
pub open spec fn escaped_bytes_in(b: Seq<u8>, set: Set<u8>) -> Seq<u8>
    decreases b.len(),
{
    if b.len() == 0 {
        seq![]
    } else if set.contains(b[0]) {
        seq![0x25u8, hex_digit_code(b[0] / 16), hex_digit_code(b[0] % 16)] + escaped_bytes_in(
            b.drop_first(),
            set,
        )
    } else {
        seq![b[0]] + escaped_bytes_in(b.drop_first(), set)
    }
}

proof fn lemma_partial_escapes_decode(b: Seq<u8>, set: Set<u8>)
    requires
        set.contains(0x25u8),
    ensures
        percent_decoded_bytes(escaped_bytes_in(b, set)) == b,
    decreases b.len(),
{
    if b.len() > 0 {
        lemma_partial_escapes_decode(b.drop_first(), set);
        let e = escaped_bytes_in(b, set);
        if set.contains(b[0]) {
            let hi = b[0] / 16;
            let lo = b[0] % 16;
            assert(hex_digit(hex_digit_code(hi)) == Some(hi));
            assert(hex_digit(hex_digit_code(lo)) == Some(lo));
            assert(hi * 16 + lo == b[0]);
            assert(e[0] == 0x25 && e[1] == hex_digit_code(hi) && e[2] == hex_digit_code(lo));
            assert(e.skip(3) == escaped_bytes_in(b.drop_first(), set));
        } else {
            assert(e[0] == b[0]);
            assert(b[0] != 0x25);
            assert(e.skip(1) == escaped_bytes_in(b.drop_first(), set));
        }
        assert(seq![b[0]] + b.drop_first() == b);
    }
}

/// Escaping some of a text's bytes as `%XX`, `%` among them, and decoding
/// the escaped text gives the text back: decoding yields its UTF-8 bytes,
/// which are valid UTF-8 and decode to the text (so `percent_decode` of the
/// escaped text is the text).
pub proof fn lemma_partial_percent_round_trip(t: Seq<char>, escaped: Seq<char>, set: Set<u8>)
    requires
        set.contains(0x25u8),
        encode_utf8(escaped) == escaped_bytes_in(encode_utf8(t), set),
    ensures
        percent_decoded_bytes(encode_utf8(escaped)) == encode_utf8(t),
        valid_utf8(encode_utf8(t)),
        decode_utf8(encode_utf8(t)) == t,
{
    lemma_partial_escapes_decode(encode_utf8(t), set);
    encode_utf8_valid_utf8(t);
    encode_utf8_decode_utf8(t);
}

} // verus!
