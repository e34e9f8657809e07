//! What is used of the standard library and of outside crates beyond what Verus
//! knows already: the types, the names of results, and the contracts that
//! calls are held to without proof.
use regex::Regex;
use sha2::{Digest, Sha256};
use std::time::{Duration, Instant, SystemTime};
use vstd::prelude::*;

use crate::text;

verus! {

// ---------------------------------------------------------------------------
// Time
// ---------------------------------------------------------------------------

/// A moment read from the clock.
#[verifier::external_type_specification]
#[verifier::external_body]
pub struct ExInstant(Instant);

/// A moment on the system's calendar clock.
#[verifier::external_type_specification]
#[verifier::external_body]
pub struct ExSystemTime(SystemTime);

/// The length of a duration in nanoseconds, as `Duration::as_nanos` gives it.
pub uninterp spec fn nanos(d: Duration) -> nat;

/// `Duration::as_nanos` gives the whole length of the duration.
pub assume_specification[ Duration::as_nanos ](d: &Duration) -> (r: u128)
    ensures
        r == nanos(*d),
;

/// `Duration::from_millis` makes a duration of that many milliseconds.
pub assume_specification[ Duration::from_millis ](millis: u64) -> (r: Duration)
    ensures
        nanos(r) == millis * 1_000_000,
;

/// `Duration::saturating_sub` gives the difference, or no time where it would
/// be negative.
pub assume_specification[ Duration::saturating_sub ](d: Duration, rhs: Duration) -> (r: Duration)
    ensures
        nanos(r) == (if nanos(d) >= nanos(rhs) {
            (nanos(d) - nanos(rhs)) as nat
        } else {
            0
        }),
;

/// `Duration::as_secs` gives the whole seconds of the duration.
pub assume_specification[ Duration::as_secs ](d: &Duration) -> (r: u64)
    ensures
        r == nanos(*d) / 1_000_000_000,
;

/// Why no duration lies between two moments.
#[verifier::external_type_specification]
#[verifier::external_body]
pub struct ExSystemTimeError(std::time::SystemTimeError);

/// The time from the start of 1970 to a moment, as `SystemTime::duration_since`
/// gives it.
pub uninterp spec fn since_epoch(
    moment: SystemTime,
) -> Result<Duration, std::time::SystemTimeError>;

/// `SystemTime::duration_since` goes by the two moments alone; the earlier one is
/// the start of 1970.
#[verifier::external_body]
pub(crate) fn time_since_epoch(moment: SystemTime) -> (r: Result<
    Duration,
    std::time::SystemTimeError,
>)
    ensures
        r == since_epoch(moment),
{
    moment.duration_since(SystemTime::UNIX_EPOCH)
}

/// `SystemTime::now` reads the clock; nothing is known of what it shows.
pub assume_specification[ SystemTime::now ]() -> (r: SystemTime);

/// `Instant::now` reads the clock; nothing is known of what it shows.
pub assume_specification[ Instant::now ]() -> (r: Instant);

/// `Instant::elapsed` reads the clock again; nothing is known of the difference.
pub assume_specification[ Instant::elapsed ](earlier: &Instant) -> (r: Duration);

// ---------------------------------------------------------------------------
// Bytes and text
// ---------------------------------------------------------------------------

/// The text that `String::from_utf8_lossy` makes of bytes.
pub uninterp spec fn lossy(bytes: Seq<u8>) -> Seq<char>;

/// `String::from_utf8_lossy`: bytes that are valid UTF-8 keep their text, and what is
/// invalid is replaced by U+FFFD. So bytes give no empty text, and an ASCII character
/// comes only from its own byte. How many replacements stand for invalid bytes is not
/// stated.
#[verifier::external_body]
pub(crate) fn lossy_text(bytes: &[u8]) -> (r: String)
    ensures
        r@ == lossy(bytes@),
        vstd::utf8::valid_utf8(bytes@) ==> r@ == vstd::utf8::decode_utf8(bytes@),
        bytes@.len() > 0 ==> r@.len() > 0,
        forall|i: int|
            0 <= i < r@.len() && (#[trigger] r@[i]) as u32 <= 127 ==> bytes@.contains(
                r@[i] as u8,
            ),
{
    String::from_utf8_lossy(bytes).into_owned()
}

/// The text that `str::to_lowercase` makes of a text.
pub uninterp spec fn lowercase(text: Seq<char>) -> Seq<char>;

/// `str::to_lowercase` goes by the text alone.
pub assume_specification[ str::to_lowercase ](s: &str) -> (r: String)
    ensures
        r@ == lowercase(s@),
;

// ---------------------------------------------------------------------------
// Regular expressions
// ---------------------------------------------------------------------------

/// A compiled regular expression.
#[verifier::external_type_specification]
#[verifier::external_body]
pub struct ExRegex(Regex);

/// Why a pattern was refused.
#[verifier::external_type_specification]
#[verifier::external_body]
pub struct ExRegexError(regex::Error);

/// What `Regex::new` makes of a pattern.
pub uninterp spec fn compiled(pattern: Seq<char>) -> Result<Regex, regex::Error>;

/// Whether an expression matches somewhere in a text, as `Regex::is_match`
/// answers it.
pub uninterp spec fn regex_matches(re: Regex, text: Seq<char>) -> bool;

/// The text of a named group in the leftmost match, as `Regex::captures` finds
/// it.
pub uninterp spec fn named_group(re: Regex, text: Seq<char>, name: Seq<char>) -> Option<Seq<char>>;

/// `Regex::new` goes by the pattern alone.
pub assume_specification[ Regex::new ](re: &str) -> (r: Result<Regex, regex::Error>)
    ensures
        r == compiled(re@),
;

/// `Regex::is_match` goes by the expression and the text alone.
pub assume_specification[ Regex::is_match ](re: &Regex, haystack: &str) -> (r: bool)
    ensures
        r == regex_matches(*re, haystack@),
;

/// A clone of a `Regex` is the same expression.
pub assume_specification[ <Regex as Clone>::clone ](re: &Regex) -> (r: Regex)
    ensures
        r == *re,
;

/// `Regex::captures` and `Captures::name`: a group has a text only where the
/// expression matches, and that text is a part of the text searched.
#[verifier::external_body]
pub(crate) fn captured_text(re: &Regex, text: &str, name: &str) -> (r: Option<String>)
    ensures
        match r {
            Some(group) => {
                &&& named_group(*re, text@, name@) == Some(group@)
                &&& regex_matches(*re, text@)
                &&& text::contains(text@, group@)
            },
            None => named_group(*re, text@, name@) is None,
        },
{
    let captures = re.captures(text)?;
    captures.name(name).map(|m| m.as_str().to_string())
}

// ---------------------------------------------------------------------------
// TOML
// ---------------------------------------------------------------------------

/// The keys at the top of a TOML document, as parsing it into a `toml::Table`
/// gives them.
pub uninterp spec fn toml_keys(content: Seq<char>) -> Option<Seq<Seq<char>>>;

/// Parsing into a `toml::Table` and `Map::keys` go by the text alone; there are
/// no keys where the text is not TOML.
#[verifier::external_body]
pub(crate) fn top_keys(content: &str) -> (r: Option<Vec<String>>)
    ensures
        match r {
            Some(keys) => toml_keys(content@) == Some(text::views(keys@)),
            None => toml_keys(content@) is None,
        },
{
    let table = content.parse::<toml::Table>().ok()?;
    Some(table.keys().cloned().collect())
}

// ---------------------------------------------------------------------------
// JSON
// ---------------------------------------------------------------------------

/// A JSON value.
#[verifier::external_type_specification]
#[verifier::external_body]
pub struct ExJsonValue(serde_json::Value);

/// The JSON string that `Value::from` makes of a text.
pub uninterp spec fn json_string(text: Seq<char>) -> serde_json::Value;

/// The JSON number that `Value::from` makes of a signed integer.
pub uninterp spec fn json_integer(n: i64) -> serde_json::Value;

/// The JSON number that `Value::from` makes of an unsigned integer.
pub uninterp spec fn json_natural(n: u64) -> serde_json::Value;

/// The JSON array that `Value::from` makes of a list of values.
pub uninterp spec fn json_array(items: Seq<serde_json::Value>) -> serde_json::Value;

/// The JSON object that collecting keys and values into a `Value` makes.
pub uninterp spec fn json_object(
    fields: Seq<(Seq<char>, serde_json::Value)>,
) -> serde_json::Value;

/// The text that `serde_json::to_string_pretty` writes for a value.
pub uninterp spec fn json_pretty(value: serde_json::Value) -> Seq<char>;

/// Keys by their characters, beside their values.
pub open spec fn json_fields(fields: Seq<(String, serde_json::Value)>) -> Seq<
    (Seq<char>, serde_json::Value),
> {
    Seq::new(fields.len(), |i: int| (fields[i].0@, fields[i].1))
}

/// `Value::from(&str)` goes by the text alone.
#[verifier::external_body]
pub(crate) fn string_value(text: &str) -> (r: serde_json::Value)
    ensures
        r == json_string(text@),
{
    serde_json::Value::from(text)
}

/// `Value::from(i64)` goes by the number alone.
#[verifier::external_body]
pub(crate) fn integer_value(n: i64) -> (r: serde_json::Value)
    ensures
        r == json_integer(n),
{
    serde_json::Value::from(n)
}

/// `Value::from(u64)` goes by the number alone.
#[verifier::external_body]
pub(crate) fn natural_value(n: u64) -> (r: serde_json::Value)
    ensures
        r == json_natural(n),
{
    serde_json::Value::from(n)
}

/// `Value::from(Vec<Value>)` goes by the values and their order alone.
#[verifier::external_body]
pub(crate) fn array_value(items: Vec<serde_json::Value>) -> (r: serde_json::Value)
    ensures
        r == json_array(items@),
{
    serde_json::Value::from(items)
}

/// `Value::from_iter` makes an object of keys and values in their order; it goes
/// by them alone.
#[verifier::external_body]
pub(crate) fn object_value(fields: Vec<(String, serde_json::Value)>) -> (r: serde_json::Value)
    ensures
        r == json_object(json_fields(fields@)),
{
    serde_json::Value::from_iter(fields)
}

/// `serde_json::to_string_pretty` writes a text for every value and goes by the
/// value alone.
#[verifier::external_body]
pub(crate) fn pretty_json(value: &serde_json::Value) -> (r: Option<String>)
    ensures
        r is Some,
        r->0@ == json_pretty(*value),
{
    serde_json::to_string_pretty(value).ok()
}

/// The text that `serde_json::to_string` writes for a value.
pub uninterp spec fn json_compact(value: serde_json::Value) -> Seq<char>;

/// A value made of texts, whole numbers and nulls, in arrays and objects at most
/// `depth` deep.
pub open spec fn json_exact(value: serde_json::Value, depth: nat) -> bool
    decreases depth,
{
    ||| exists|text: Seq<char>| value == #[trigger] json_string(text)
    ||| exists|n: i64| value == #[trigger] json_integer(n)
    ||| exists|n: u64| value == #[trigger] json_natural(n)
    ||| exists|text: Option<Seq<char>>| value == #[trigger] json_opt_string(text)
    ||| exists|n: Option<i64>| value == #[trigger] json_opt_integer(n)
    ||| depth > 0 && exists|items: Seq<serde_json::Value>|
        value == #[trigger] json_array(items) && (forall|i: int|
            0 <= i < items.len() ==> json_exact(#[trigger] items[i], (depth - 1) as nat))
    ||| depth > 0 && exists|fields: Seq<(Seq<char>, serde_json::Value)>|
        value == #[trigger] json_object(fields) && (forall|i: int|
            0 <= i < fields.len() ==> json_exact((#[trigger] fields[i]).1, (depth - 1) as nat))
}

/// `serde_json::to_string` writes a text for every value and goes by the value
/// alone. The text is not empty, holds no line feed, and neither starts nor ends
/// with white space. `serde_json::from_str` gives the value back from it where the
/// value holds no fractions and is not nested deeper than that function reads; of
/// fractions, which it may round, nothing is stated.
#[verifier::external_body]
pub(crate) fn compact_json(value: &serde_json::Value) -> (r: Option<String>)
    ensures
        r is Some,
        r->0@ == json_compact(*value),
        r->0@.len() > 0,
        !r->0@.contains('\n'),
        !text::is_space(r->0@[0]),
        !text::is_space(r->0@.last()),
        json_exact(*value, 100) ==> json_parsed(r->0@) == Some(*value),
{
    serde_json::to_string(value).ok()
}

/// The value that `serde_json::from_str` reads from a text, where it reads one.
pub uninterp spec fn json_parsed(text: Seq<char>) -> Option<serde_json::Value>;

/// `serde_json::from_str` goes by the text alone.
#[verifier::external_body]
pub(crate) fn parse_json(text: &str) -> (r: Option<serde_json::Value>)
    ensures
        r == json_parsed(text@),
{
    serde_json::from_str(text).ok()
}

/// The JSON string or null that `Value::from` makes of an optional text.
pub uninterp spec fn json_opt_string(text: Option<Seq<char>>) -> serde_json::Value;

/// `Value::from(Option<&str>)` goes by the optional text alone.
#[verifier::external_body]
pub(crate) fn opt_string_value(text: Option<&str>) -> (r: serde_json::Value)
    ensures
        r == json_opt_string(match text {
            Some(text) => Some(text@),
            None => None,
        }),
{
    serde_json::Value::from(text)
}

/// The JSON number or null that `Value::from` makes of an optional integer.
pub uninterp spec fn json_opt_integer(n: Option<i64>) -> serde_json::Value;

/// `Value::from(Option<i64>)` goes by the optional number alone.
#[verifier::external_body]
pub(crate) fn opt_integer_value(n: Option<i64>) -> (r: serde_json::Value)
    ensures
        r == json_opt_integer(n),
{
    serde_json::Value::from(n)
}

/// A clone of a JSON value is the same value.
pub assume_specification[ <serde_json::Value as Clone>::clone ](value: &serde_json::Value) -> (r:
    serde_json::Value)
    ensures
        r == *value,
;

// ---------------------------------------------------------------------------
// Paths
// ---------------------------------------------------------------------------

/// The path that `Path::parent` gives for a path on Unix.
pub uninterp spec fn parent(path: Seq<char>) -> Option<Seq<char>>;

/// Two paths in one, on Unix: a part that starts at the root stands alone; any other
/// comes behind the base, with a slash between them unless the base is empty or ends
/// in one.
pub open spec fn joined(base: Seq<char>, part: Seq<char>) -> Seq<char> {
    if part.len() > 0 && part[0] == '/' {
        part
    } else if base.len() == 0 || base.last() == '/' {
        base + part
    } else {
        base + "/"@ + part
    }
}

/// `Path::parent` goes by the path alone on Unix, for which the library is made. It
/// gives the path without its final component: a start of the path that is shorter.
#[verifier::external_body]
pub(crate) fn parent_path(path: &str) -> (r: Option<String>)
    ensures
        match r {
            Some(dir) => {
                &&& parent(path@) == Some(dir@)
                &&& dir@.is_prefix_of(path@)
                &&& dir@.len() < path@.len()
            },
            None => parent(path@) is None,
        },
{
    let dir = std::path::Path::new(path).parent()?;
    Some(dir.to_string_lossy().into_owned())
}

/// `Path::join` on Unix, for which the library is made: an absolute part replaces the
/// base, and any other is put behind it with a separator where one is needed.
#[verifier::external_body]
pub(crate) fn join_paths(base: &str, part: &str) -> (r: String)
    ensures
        r@ == joined(base@, part@),
{
    std::path::Path::new(base).join(part).to_string_lossy().into_owned()
}

// ---------------------------------------------------------------------------
// Digests and compression
// ---------------------------------------------------------------------------

/// The SHA-256 digest of bytes in hexadecimal digits, as `sha2::Sha256` computes
/// it.
pub uninterp spec fn sha256(bytes: Seq<u8>) -> Seq<char>;

/// What `zstd::encode_all` makes of bytes at a level.
pub uninterp spec fn zstd_encoded(bytes: Seq<u8>, level: i32) -> Seq<u8>;

/// What `zstd::decode_all` makes of bytes, where it can decode them.
pub uninterp spec fn zstd_decoded(bytes: Seq<u8>) -> Option<Seq<u8>>;

/// `Sha256::new`, `update` and `finalize`, written in hexadecimal digits: the
/// digest goes by the bytes alone and has two digits for each of its 32 bytes.
#[verifier::external_body]
pub(crate) fn sha256_hex(bytes: &[u8]) -> (r: String)
    ensures
        r@ == sha256(bytes@),
        r@.len() == 64,
{
    let mut hasher = Sha256::new();
    hasher.update(bytes);
    format!("{:x}", hasher.finalize())
}

/// What `zstd::encode_all` writes goes by the bytes and the level alone, and
/// `zstd::decode_all` gives the bytes back. When it fails is not stated.
#[verifier::external_body]
pub(crate) fn compress(bytes: &[u8], level: i32) -> (r: Result<Vec<u8>, std::io::Error>)
    ensures
        r matches Ok(encoded) ==> encoded@ == zstd_encoded(bytes@, level) && zstd_decoded(encoded@)
            == Some(bytes@),
{
    zstd::encode_all(bytes, level)
}

/// What `zstd::decode_all` gives goes by the bytes alone. When it fails is not stated.
#[verifier::external_body]
pub(crate) fn decompress(bytes: &[u8]) -> (r: Result<Vec<u8>, std::io::Error>)
    ensures
        r matches Ok(decoded) ==> zstd_decoded(bytes@) == Some(decoded@),
{
    zstd::decode_all(bytes)
}

// ---------------------------------------------------------------------------
// Errors
// ---------------------------------------------------------------------------

/// An error of input or output.
#[verifier::external_type_specification]
#[verifier::external_body]
pub struct ExIoError(std::io::Error);

/// The number of a failed system call's error.
#[verifier::external_type_specification]
#[verifier::external_body]
pub struct ExErrno(nix::errno::Errno);

/// Why a text is not TOML of the expected shape.
#[verifier::external_type_specification]
#[verifier::external_body]
pub struct ExTomlError(toml::de::Error);

} // verus!
