//! The calls into other crates, and into parts of the standard library that carry no
//! specification. Each is believed, not proved: its doc comment says what is claimed of it.
use crate::clock;
use crate::server;
use crate::text;
use vstd::prelude::*;

verus! {

// ── Standard library ────────────────────────────────────────────────────────
/// What `char::is_alphanumeric` says of a character.
pub uninterp spec fn alphanumeric(c: char) -> bool;

/// The ASCII digits and letters.
pub open spec fn ascii_alphanumeric(c: char) -> bool {
    ('0' <= c <= '9') || ('a' <= c <= 'z') || ('A' <= c <= 'Z')
}

/// `char::is_alphanumeric`: a function of the character alone, which on ASCII holds of the digits
/// and the letters and of nothing else.
#[verifier::external_body]
pub(crate) fn is_alphanumeric(c: char) -> (r: bool)
    ensures
        r == alphanumeric(c),
        c <= '\u{7f}' ==> r == ascii_alphanumeric(c),
{
    c.is_alphanumeric()
}

/// What `str::to_lowercase` gives for a string.
pub uninterp spec fn lowercase(s: Seq<char>) -> Seq<char>;

/// A character with ASCII capitals turned into small letters.
pub open spec fn ascii_lower(c: char) -> char {
    if 'A' <= c <= 'Z' {
        (c as u32 + 32) as char
    } else {
        c
    }
}

/// `str::to_lowercase`: a function of the characters alone, which on ASCII turns each capital into
/// its small letter and changes nothing else.
#[verifier::external_body]
pub(crate) fn to_lowercase(s: &str) -> (r: String)
    ensures
        r@ == lowercase(s@),
        vstd::utf8::is_ascii_chars(s@) ==> r@ == Seq::new(s@.len(), |i: int| ascii_lower(s@[i])),
{
    s.to_lowercase()
}

/// A string as `{:?}` writes it, with quotes around it and escapes in it.
pub uninterp spec fn debug_quoted(s: Seq<char>) -> Seq<char>;

/// The `Debug` form of a `str`, which `format!` gives for `{:?}`: a function of the characters
/// alone.
#[verifier::external_body]
pub(crate) fn debug_quote(s: &str) -> (r: String)
    ensures
        r@ == debug_quoted(s@),
{
    format!("{:?}", s)
}

// ── regex ───────────────────────────────────────────────────────────────────
/// Whether a pattern matches somewhere in a text; nothing for a pattern that is not valid.
pub uninterp spec fn regex_matches(pattern: Seq<char>, hay: Seq<char>) -> Option<bool>;

/// `regex::Regex::is_match` on the expression that `regex::Regex::new` compiles: a function of
/// the pattern and the text, `None` where the pattern does not compile.
#[verifier::external_body]
pub(crate) fn regex_is_match(pattern: &str, hay: &str) -> (r: Option<bool>)
    ensures
        r == regex_matches(pattern@, hay@),
{
    regex::Regex::new(pattern).ok().map(|re| re.is_match(hay))
}

/// The model of a list of optional strings.
pub open spec fn opt_texts(v: Seq<Option<String>>) -> Seq<Option<Seq<char>>> {
    Seq::new(v.len(), |i: int| text::opt_text(v[i]))
}

/// For each match of a pattern in a text, in order, what its first group captured.
pub uninterp spec fn regex_first_groups(
    pattern: Seq<char>,
    hay: Seq<char>,
) -> Option<Seq<Option<Seq<char>>>>;

/// `regex::Regex::captures_iter` on the expression that `regex::Regex::new` compiles, with group 1
/// of each match: a function of the pattern and the text, `None` where the pattern does not
/// compile.
#[verifier::external_body]
pub(crate) fn regex_captures(pattern: &str, hay: &str) -> (r: Option<Vec<Option<String>>>)
    ensures
        match r {
            Some(v) => regex_first_groups(pattern@, hay@) == Some(opt_texts(v@)),
            None => regex_first_groups(pattern@, hay@) is None,
        },
{
    regex::Regex::new(pattern).ok().map(
        |re| re.captures_iter(hay).map(|c| c.get(1).map(|m| m.as_str().to_string())).collect(),
    )
}

// ── shlex ───────────────────────────────────────────────────────────────────
/// The words that a POSIX shell would split a line into; nothing for a line that is not well
/// quoted.
pub uninterp spec fn shell_words(line: Seq<char>) -> Option<Seq<Seq<char>>>;

/// `shlex::split`: a function of the line alone, `None` where a quote is left open.
#[verifier::external_body]
pub(crate) fn shell_split(line: &str) -> (r: Option<Vec<String>>)
    ensures
        match r {
            Some(v) => shell_words(line@) == Some(text::texts(v@)),
            None => shell_words(line@) is None,
        },
{
    shlex::split(line)
}

// ── serde_json ──────────────────────────────────────────────────────────────
/// Whether a text is one JSON value.
pub uninterp spec fn json_parses(doc: Seq<char>) -> bool;

/// `serde_json::from_str::<serde_json::Value>`: whether it succeeds is a function of the text.
#[verifier::external_body]
pub(crate) fn json_is_valid(doc: &str) -> (r: bool)
    ensures
        r == json_parses(doc@),
{
    serde_json::from_str::<serde_json::Value>(doc).is_ok()
}

/// The string that a JSON pointer leads to in a text.
pub uninterp spec fn json_string(doc: Seq<char>, pointer: Seq<char>) -> Option<Seq<char>>;

/// `serde_json::Value::pointer` and `as_str` on the parsed text: a function of the text and the
/// pointer, `None` where the text is no JSON or no string stands there.
#[verifier::external_body]
pub(crate) fn json_str_at(doc: &str, pointer: &str) -> (r: Option<String>)
    ensures
        text::opt_text(r) == json_string(doc@, pointer@),
{
    let value = serde_json::from_str::<serde_json::Value>(doc).ok()?;
    value.pointer(pointer)?.as_str().map(|s| s.to_string())
}

/// The unsigned number that a JSON pointer leads to in a text.
pub uninterp spec fn json_number(doc: Seq<char>, pointer: Seq<char>) -> Option<u64>;

/// `serde_json::Value::pointer` and `as_u64` on the parsed text: a function of the text and the
/// pointer, `None` where the text is no JSON or no unsigned number stands there.
#[verifier::external_body]
pub(crate) fn json_u64_at(doc: &str, pointer: &str) -> (r: Option<u64>)
    ensures
        r == json_number(doc@, pointer@),
{
    let value = serde_json::from_str::<serde_json::Value>(doc).ok()?;
    value.pointer(pointer)?.as_u64()
}

/// A character as it stands in a JSON string.
pub open spec fn json_char(c: char) -> Seq<char> {
    match c {
        '"' => seq!['\\', '"'],
        '\\' => seq!['\\', '\\'],
        '\u{8}' => seq!['\\', 'b'],
        '\t' => seq!['\\', 't'],
        '\n' => seq!['\\', 'n'],
        '\u{c}' => seq!['\\', 'f'],
        '\r' => seq!['\\', 'r'],
        _ => if ' ' > c {
            seq!['\\', 'u', '0', '0'].push(server::hex_digit(c as int / 16)).push(
                server::hex_digit(c as int % 16),
            )
        } else {
            seq![c]
        },
    }
}

/// The characters as they stand in a JSON string.
pub open spec fn json_chars(s: Seq<char>) -> Seq<char>
    decreases s.len(),
{
    if s.len() == 0 {
        Seq::empty()
    } else {
        json_chars(s.drop_last()) + json_char(s.last())
    }
}

/// A string as JSON writes it, with quotes around it.
pub open spec fn json_quoted(s: Seq<char>) -> Seq<char> {
    seq!['"'] + json_chars(s) + seq!['"']
}

/// `serde_json::to_string` on a string, which does not fail there: quotes, backslashes and control
/// characters are escaped, everything else stands as it is.
#[verifier::external_body]
pub(crate) fn json_quote(s: &str) -> (r: String)
    ensures
        r@ == json_quoted(s@),
{
    serde_json::to_string(s).unwrap_or_default()
}

// ── chrono ──────────────────────────────────────────────────────────────────
/// A time as RFC 3339 writes it in UTC.
pub uninterp spec fn rfc3339_text(secs: int, nanos: int) -> Seq<char>;

/// `chrono::DateTime::from_timestamp` and `to_rfc3339`: for a time with a year of four digits the
/// text is a function of the time, and reading it gives the time back.
#[verifier::external_body]
pub(crate) fn to_rfc3339(secs: i64, nanos: u32) -> (r: String)
    requires
        clock::writable(secs as int, nanos as int),
    ensures
        r@ == rfc3339_text(secs as int, nanos as int),
        rfc3339_value(r@) == Some((secs, nanos)),
{
    chrono::DateTime::from_timestamp(secs, nanos).map(|t| t.to_rfc3339()).unwrap_or_default()
}

/// The time that a text in RFC 3339 stands for: seconds since the epoch and nanoseconds.
pub uninterp spec fn rfc3339_value(s: Seq<char>) -> Option<(i64, u32)>;

/// `chrono::DateTime::parse_from_rfc3339`: a function of the text, `None` where it is refused.
#[verifier::external_body]
pub(crate) fn parse_rfc3339(s: &str) -> (r: Option<(i64, u32)>)
    ensures
        r == rfc3339_value(s@),
{
    let parsed = chrono::DateTime::parse_from_rfc3339(s).ok()?;
    Some((parsed.timestamp(), parsed.timestamp_subsec_nanos()))
}

/// A time in UTC under a pattern of `strftime`; nothing for a time that no calendar holds.
pub uninterp spec fn time_shown(secs: i64, nanos: u32, pattern: Seq<char>) -> Option<Seq<char>>;

/// The patterns that times are shown under: date and time, date and minute, and time alone with
/// and without the zone.
pub open spec fn known_pattern(pattern: Seq<char>) -> bool {
    pattern == "%Y-%m-%d %H:%M:%S UTC"@ || pattern == "%Y-%m-%d %H:%M UTC"@ || pattern
        == "%H:%M:%S UTC"@ || pattern == "%H:%M:%S"@
}

/// `chrono::DateTime::from_timestamp` and `format`: a function of the time and the pattern, `None`
/// where the time is out of range. The patterns are valid ones, on which `format` does not fail.
#[verifier::external_body]
pub(crate) fn format_time(secs: i64, nanos: u32, pattern: &str) -> (r: Option<String>)
    requires
        known_pattern(pattern@),
    ensures
        text::opt_text(r) == time_shown(secs, nanos, pattern@),
{
    chrono::DateTime::from_timestamp(secs, nanos).map(|t| t.format(pattern).to_string())
}

// ── sha1, sha2 ──────────────────────────────────────────────────────────────
/// The SHA-1 digest of a byte string.
pub uninterp spec fn sha1_of(data: Seq<u8>) -> Seq<u8>;

/// `sha1::Sha1::digest`: a function of the bytes, twenty bytes long.
#[verifier::external_body]
pub(crate) fn sha1_digest(data: &[u8]) -> (r: Vec<u8>)
    ensures
        r@ == sha1_of(data@),
        r@.len() == 20,
{
    <sha1::Sha1 as sha1::Digest>::digest(data).to_vec()
}

/// The SHA-256 digest of a byte string.
pub uninterp spec fn sha256_of(data: Seq<u8>) -> Seq<u8>;

/// `sha2::Sha256::digest`: a function of the bytes, thirty-two bytes long.
#[verifier::external_body]
pub(crate) fn sha256_digest(data: &[u8]) -> (r: Vec<u8>)
    ensures
        r@ == sha256_of(data@),
        r@.len() == 32,
{
    <sha2::Sha256 as sha2::Digest>::digest(data).to_vec()
}

// ── uuid ────────────────────────────────────────────────────────────────────
/// `uuid::Uuid::new_v4`: sixteen bytes from the system's source of randomness, which carry the
/// marks of a random identifier. Nothing else is claimed of them.
#[verifier::external_body]
pub(crate) fn random_id() -> (r: Vec<u8>)
    ensures
        r@.len() == 16,
        0x40 <= r@[6] < 0x50,
        0x80 <= r@[8] < 0xc0,
{
    uuid::Uuid::new_v4().as_bytes().to_vec()
}

} // verus!
