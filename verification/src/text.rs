//! Text decoding: bytes to characters, trimming and case folding.

use vstd::prelude::*;

verus! {

/// The characters that lossy UTF-8 decoding makes of a run of bytes: valid
/// sequences decode to their character, each invalid one to U+FFFD.
pub uninterp spec fn lossy_text(bytes: Seq<u8>) -> Seq<char>;

/// Every byte is below 128.
pub open spec fn all_ascii(bytes: Seq<u8>) -> bool {
    forall|i: int| 0 <= i < bytes.len() ==> bytes[i] < 128
}

/// Each byte taken as the character of that code.
pub open spec fn ascii_text(bytes: Seq<u8>) -> Seq<char> {
    Seq::new(bytes.len(), |i: int| bytes[i] as char)
}

/// The characters that a run of bytes is read as: of bytes that are all
/// ASCII, each byte is its own character; any other run is decoded
/// lossily.
pub open spec fn decoded_text(bytes: Seq<u8>) -> Seq<char> {
    if all_ascii(bytes) {
        ascii_text(bytes)
    } else {
        lossy_text(bytes)
    }
}

/// The characters with the Unicode property White_Space.
pub open spec fn is_white_space(c: char) -> bool {
    let u = c as u32;
    (0x09 <= u <= 0x0D) || u == 0x20 || u == 0x85 || u == 0xA0 || u == 0x1680 || (0x2000 <= u
        <= 0x200A) || u == 0x2028 || u == 0x2029 || u == 0x202F || u == 0x205F || u == 0x3000
}

/// The set of white space characters.
pub open spec fn white_space() -> Set<char> {
    Set::new(|c: char| is_white_space(c))
}

/// The set that holds only the NUL character.
pub open spec fn nul() -> Set<char> {
    Set::new(|c: char| c as u32 == 0)
}

/// `s` without its longest prefix of characters in `drop`.
pub open spec fn strip_start(s: Seq<char>, drop: Set<char>) -> Seq<char>
    decreases s.len(),
{
    if s.len() > 0 && drop.contains(s[0]) {
        strip_start(s.drop_first(), drop)
    } else {
        s
    }
}

/// `s` without its longest suffix of characters in `drop`.
pub open spec fn strip_end(s: Seq<char>, drop: Set<char>) -> Seq<char>
    decreases s.len(),
{
    if s.len() > 0 && drop.contains(s.last()) {
        strip_end(s.drop_last(), drop)
    } else {
        s
    }
}

/// `s` with the characters in `drop` removed from both ends.
pub open spec fn trimmed(s: Seq<char>, drop: Set<char>) -> Seq<char> {
    strip_end(strip_start(s, drop), drop)
}

/// An ASCII capital letter becomes its small letter; any other character
/// stays.
pub open spec fn lower_char(c: char) -> char {
    if 0x41 <= c as u32 <= 0x5A {
        ((c as u32 + 0x20) as u32) as char
    } else {
        c
    }
}

/// `s` with every ASCII capital letter made small.
pub open spec fn fold_case(s: Seq<char>) -> Seq<char> {
    Seq::new(s.len(), |i: int| lower_char(s[i]))
}

/// `pat` occurs in `s` as a run of consecutive characters.
pub open spec fn has_substring(s: Seq<char>, pat: Seq<char>) -> bool {
    exists|i: int| 0 <= i <= s.len() - pat.len() && #[trigger] s.subrange(i, i + pat.len()) == pat
}

/// What a text field of a container holds: the bytes decoded, NUL padding
/// removed from both ends, then white space.
pub open spec fn field_text(bytes: Seq<u8>) -> Seq<char> {
    trimmed(trimmed(decoded_text(bytes), nul()), white_space())
}

/// What a four-character tag names: the bytes decoded, in small letters,
/// white space removed from both ends.
pub open spec fn tag_text(bytes: Seq<u8>) -> Seq<char> {
    trimmed(fold_case(decoded_text(bytes)), white_space())
}

/// Calls `String::from_utf8_lossy`. The result is named `lossy_text` of the
/// bytes; of bytes that are all ASCII, which are valid UTF-8, each byte is
/// its own character.
#[verifier::external_body]
pub(crate) fn decode_lossy(bytes: &[u8]) -> (r: String)
    ensures
        r@ == lossy_text(bytes@),
        all_ascii(bytes@) ==> r@ == ascii_text(bytes@),
{
    String::from_utf8_lossy(bytes).into_owned()
}

/// Calls `str::trim_matches` with the NUL character: every leading and
/// every trailing NUL is removed.
#[verifier::external_body]
pub(crate) fn trim_nul<'a>(s: &'a str) -> (r: &'a str)
    ensures
        r@ == trimmed(s@, nul()),
{
    s.trim_matches('\0')
}

/// Calls `str::trim`: leading and trailing white space, as the Unicode
/// property White_Space defines it, is removed.
#[verifier::external_body]
pub(crate) fn trim_space<'a>(s: &'a str) -> (r: &'a str)
    ensures
        r@ == trimmed(s@, white_space()),
{
    s.trim()
}

/// Calls `str::to_ascii_lowercase`: the letters 'A' to 'Z' become 'a' to
/// 'z', every other character is kept.
#[verifier::external_body]
pub(crate) fn ascii_lowercase(s: &str) -> (r: String)
    ensures
        r@ == fold_case(s@),
{
    s.to_ascii_lowercase()
}

/// Calls `str::contains` with a string pattern: whether the pattern occurs
/// in `s` as a substring.
#[verifier::external_body]
pub(crate) fn contains_text(s: &str, pat: &str) -> (r: bool)
    ensures
        r == has_substring(s@, pat@),
{
    s.contains(pat)
}

/// Decodes a byte range as text, trimmed of NUL padding and of surrounding
/// white space.
pub fn read_utf8(bytes: &[u8]) -> (r: String)
    ensures
        r@ == field_text(bytes@),
{
    let raw = decode_lossy(bytes);
    let unpadded = trim_nul(raw.as_str());
    trim_space(unpadded).to_owned()
}

/// Decodes a tag as text in small letters.
pub fn read_lowercase(bytes: &[u8]) -> (r: String)
    ensures
        r@ == fold_case(decoded_text(bytes@)),
{
    let raw = decode_lossy(bytes);
    ascii_lowercase(raw.as_str())
}

} // verus!
