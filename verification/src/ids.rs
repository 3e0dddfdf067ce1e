//! Identifiers and file names: version 7 UUIDs for records, short random
//! identifiers for tags and projects, and texts made safe as file names.

use vstd::prelude::*;
use crate::table::utf8_len;
use crate::types::Timestamp;

verus! {

broadcast use vstd::string::group_string_axioms;

// ---------------------------------------------------------------- file names

/// A character that sanitize-filename removes from a name: one of
/// `/ ? < > \ : * | "` or a control character (U+0000 to U+001F, U+0080 to
/// U+009F).
pub open spec fn removed_from_file_names(c: char) -> bool {
    ||| c == '/'
    ||| c == '?'
    ||| c == '<'
    ||| c == '>'
    ||| c == '\\'
    ||| c == ':'
    ||| c == '*'
    ||| c == '|'
    ||| c == '"'
    ||| (c as u32) <= 0x1f
    ||| (0x80 <= (c as u32) && (c as u32) <= 0x9f)
}

/// Whether `a` is `b` with some characters left out.
pub open spec fn is_subsequence(a: Seq<char>, b: Seq<char>) -> bool
    decreases b.len(),
{
    if a.len() == 0 {
        true
    } else if b.len() == 0 {
        false
    } else if a.last() == b.last() {
        is_subsequence(a.drop_last(), b.drop_last())
    } else {
        is_subsequence(a, b.drop_last())
    }
}

/// Whether a character is `lower`, an ASCII letter, in either case.
pub open spec fn is_letter_ci(c: char, lower: char) -> bool {
    c == lower || (c as u32) + 32 == (lower as u32)
}

/// Whether a character is an ASCII digit.
pub open spec fn is_ascii_digit(c: char) -> bool {
    '0' as u32 <= (c as u32) && (c as u32) <= '9' as u32
}

/// Whether a name is one that Windows reserves, in any case and with any
/// extension: CON, PRN, AUX, NUL, COM0 to COM9 or LPT0 to LPT9.
pub open spec fn is_windows_reserved(s: Seq<char>) -> bool {
    ||| (s.len() == 3 || (s.len() > 3 && s[3] == '.')) && (
        (is_letter_ci(s[0], 'c') && is_letter_ci(s[1], 'o') && is_letter_ci(s[2], 'n'))
        || (is_letter_ci(s[0], 'p') && is_letter_ci(s[1], 'r') && is_letter_ci(s[2], 'n'))
        || (is_letter_ci(s[0], 'a') && is_letter_ci(s[1], 'u') && is_letter_ci(s[2], 'x'))
        || (is_letter_ci(s[0], 'n') && is_letter_ci(s[1], 'u') && is_letter_ci(s[2], 'l')))
    ||| (s.len() == 4 || (s.len() > 4 && s[4] == '.')) && is_ascii_digit(s[3]) && (
        (is_letter_ci(s[0], 'c') && is_letter_ci(s[1], 'o') && is_letter_ci(s[2], 'm'))
        || (is_letter_ci(s[0], 'l') && is_letter_ci(s[1], 'p') && is_letter_ci(s[2], 't')))
}

/// Whether sanitize-filename leaves a name as it is on every platform: no
/// character that it removes, not a name of dots only, at most 255 bytes,
/// not a name that Windows reserves, and not ending in '.' or ' '.
pub open spec fn is_clean_file_name(s: Seq<char>) -> bool {
    &&& forall|i: int| 0 <= i < s.len() ==> !removed_from_file_names(#[trigger] s[i])
    &&& !(s.len() > 0 && forall|i: int| 0 <= i < s.len() ==> #[trigger] s[i] == '.')
    &&& utf8_len(s) <= 255
    &&& !is_windows_reserved(s)
    &&& !(s.len() > 0 && (s.last() == '.' || s.last() == ' '))
}

/// What holds of a name that sanitize-filename made of `s`: characters of
/// `s` in order, none that it removes, at most 255 bytes of UTF-8, and `s`
/// itself where `s` is clean.
pub open spec fn sanitized(r: Seq<char>, s: Seq<char>) -> bool {
    &&& is_subsequence(r, s)
    &&& forall|i: int| 0 <= i < r.len() ==> !removed_from_file_names(#[trigger] r[i])
    &&& utf8_len(r) <= 255
    &&& is_clean_file_name(s) ==> r == s
}

/// sanitize-filename's `sanitize`. Claimed, from its source: the result only
/// leaves characters out of the name (illegal and control characters, a name
/// of dots, and on Windows reserved names and trailing dots and spaces) and
/// cuts it to at most 255 bytes; a name with none of these is left as it is.
/// Which characters go from other names depends on the platform
/// (`cfg!(windows)`) and is not stated.
#[verifier::external_body]
pub(crate) fn sanitize_file_name(name: &str) -> (r: String)
    ensures
        sanitized(r@, name@),
{
    sanitize_filename::sanitize(name)
}

// ---------------------------------------------------------------- random identifiers

/// A character of nanoid's URL-safe alphabet: `_`, `-`, a digit or an ASCII
/// letter.
pub open spec fn is_nanoid_char(c: char) -> bool {
    ||| c == '_'
    ||| c == '-'
    ||| ('0' as u32 <= (c as u32) && (c as u32) <= '9' as u32)
    ||| ('a' as u32 <= (c as u32) && (c as u32) <= 'z' as u32)
    ||| ('A' as u32 <= (c as u32) && (c as u32) <= 'Z' as u32)
}

/// nanoid's `format` with the operating system's random bytes
/// (`rngs::default`) and the URL-safe alphabet, as `nanoid!(size)` calls it.
/// Claimed, from its source: exactly `size` characters, each of the
/// alphabet. Which ones is chance.
#[verifier::external_body]
pub(crate) fn nanoid_text(size: usize) -> (r: String)
    ensures
        r@.len() == size,
        forall|i: int| 0 <= i < r@.len() ==> is_nanoid_char(#[trigger] r@[i]),
{
    nanoid::format(nanoid::rngs::default, &nanoid::alphabet::SAFE, size)
}

// ---------------------------------------------------------------- UUIDs

/// A lowercase hexadecimal digit.
pub open spec fn is_lower_hex(c: char) -> bool {
    ||| ('0' as u32 <= (c as u32) && (c as u32) <= '9' as u32)
    ||| ('a' as u32 <= (c as u32) && (c as u32) <= 'f' as u32)
}

/// The value of a lowercase hexadecimal digit.
pub open spec fn hex_digit_value(c: char) -> nat {
    if '0' as u32 <= (c as u32) && (c as u32) <= '9' as u32 {
        ((c as u32) - ('0' as u32)) as nat
    } else {
        ((c as u32) - ('a' as u32) + 10) as nat
    }
}

/// The number that lowercase hexadecimal digits denote.
pub open spec fn hex_number(s: Seq<char>) -> nat
    decreases s.len(),
{
    if s.len() == 0 {
        0
    } else {
        hex_number(s.drop_last()) * 16 + hex_digit_value(s.last())
    }
}

/// The millisecond that the uuid crate puts into a version 7 UUID made from
/// these seconds and nanoseconds: saturated at the largest `u64`.
pub open spec fn uuid_millis(secs: u64, nanos: u32) -> nat {
    let m = secs * 1000 + nanos / 1_000_000;
    if m > u64::MAX {
        u64::MAX as nat
    } else {
        m as nat
    }
}

/// Whether a text is the hyphenated lowercase form of a version 7 UUID
/// (RFC 9562) that carries the low 48 bits of `millis` in its first twelve
/// digits.
pub open spec fn is_uuid_v7_text(t: Seq<char>, millis: nat) -> bool {
    &&& t.len() == 36
    &&& t[8] == '-' && t[13] == '-' && t[18] == '-' && t[23] == '-'
    &&& t[14] == '7'
    &&& (t[19] == '8' || t[19] == '9' || t[19] == 'a' || t[19] == 'b')
    &&& forall|i: int|
        0 <= i < 36 && i != 8 && i != 13 && i != 18 && i != 23 ==> is_lower_hex(#[trigger] t[i])
    &&& hex_number(t.subrange(0, 8) + t.subrange(9, 13)) == millis % 0x1_0000_0000_0000
}

/// uuid's `Uuid::new_v7` on `Timestamp::from_unix(NoContext, secs, nanos)`,
/// written with `to_string`. Claimed, from its source: the hyphenated
/// lowercase text of a version 7 UUID whose time field holds the low 48
/// bits of the saturated millisecond; the remaining bits are random.
#[verifier::external_body]
fn uuid_v7_text(secs: u64, nanos: u32) -> (r: String)
    ensures
        is_uuid_v7_text(r@, uuid_millis(secs, nanos)),
{
    uuid::Uuid::new_v7(uuid::Timestamp::from_unix(uuid::NoContext, secs, nanos)).to_string()
}

/// The seconds of an instant as the uuid crate takes them: the `i64` cast to
/// `u64`.
pub open spec fn uuid_secs(t: Timestamp) -> u64 {
    t.secs as u64
}

/// A version 7 UUID for a record that starts at the instant, as text.
pub fn uuidv7_from_datetime(t: &Timestamp) -> (r: String)
    ensures
        is_uuid_v7_text(r@, uuid_millis(uuid_secs(*t), t.nanos)),
{
    uuid_v7_text(t.secs as u64, t.nanos)
}

} // verus!
