//! Calls into other crates and into the standard library whose results the rest
//! of the library takes as they come.

use crate::json::{plain_text, Json, JsonView};
use crate::text::holds_text;
use base64::engine::general_purpose::STANDARD;
use base64::Engine;
use chrono::{DateTime, Datelike, NaiveDate, SecondsFormat, Utc};
use regex::Regex;
use serde_json::{Number, Value};
use sha2::{Digest, Sha256};
use unicode_normalization::UnicodeNormalization;
use url::{Host, Url};
use uuid::Uuid;
use vstd::prelude::*;
use vstd::utf8::is_ascii_chars;

verus! {

/// What `UnicodeNormalization::nfkd` yields for a text.
pub uninterp spec fn compatibility_decomposition(s: Seq<char>) -> Seq<char>;

/// `UnicodeNormalization::nfkd`: the characters of the compatibility
/// decomposition of `value`. Claimed: they depend on the text alone.
#[verifier::external_body]
pub(crate) fn decompose(value: &str) -> (r: String)
    ensures
        r@ == compatibility_decomposition(value@),
{
    value.nfkd().collect::<String>()
}

/// What `char::to_lowercase` yields for a character.
pub uninterp spec fn char_lowercase(c: char) -> Seq<char>;

/// `char::to_lowercase`: the characters of the lowercase mapping of `c`.
/// Claimed: they depend on the character alone.
#[verifier::external_body]
pub(crate) fn lowercase_of_char(c: char) -> (r: String)
    ensures
        r@ == char_lowercase(c),
{
    c.to_lowercase().collect::<String>()
}

/// What `char::is_alphanumeric` answers for a character.
pub uninterp spec fn char_alphanumeric(c: char) -> bool;

/// `char::is_alphanumeric`: whether Unicode counts `c` as a letter or a number.
/// Claimed: the answer depends on the character alone.
#[verifier::external_body]
pub(crate) fn is_char_alphanumeric(c: char) -> (r: bool)
    ensures
        r == char_alphanumeric(c),
{
    c.is_alphanumeric()
}

/// What `char::is_alphabetic` answers for a character.
pub uninterp spec fn char_alphabetic(c: char) -> bool;

/// `char::is_alphabetic`: whether Unicode counts `c` as a letter. Claimed: the
/// answer depends on the character alone.
#[verifier::external_body]
pub(crate) fn is_char_alphabetic(c: char) -> (r: bool)
    ensures
        r == char_alphabetic(c),
{
    c.is_alphabetic()
}

/// Whether the class `\d` of a regular expression holds a character.
pub uninterp spec fn regex_digit(c: char) -> bool;

/// `Regex::is_match` with the pattern `^\d$` on the text of one character:
/// whether the class `\d`, Unicode's category `Nd`, holds it. Claimed: the answer
/// depends on the character alone.
#[verifier::external_body]
pub(crate) fn is_regex_digit(c: char) -> (r: bool)
    ensures
        r == regex_digit(c),
{
    let pattern = Regex::new(r"^\d$").expect("static digit regex");
    pattern.is_match(c.to_string().as_str())
}

/// The SHA-256 digest of some bytes.
pub uninterp spec fn sha256(bytes: Seq<u8>) -> Seq<u8>;

/// `Sha256::digest`: the SHA-256 digest of `bytes`. Claimed: it depends on the
/// bytes alone and is 32 bytes long.
#[verifier::external_body]
pub(crate) fn sha256_digest(bytes: &[u8]) -> (r: Vec<u8>)
    ensures
        r@ == sha256(bytes@),
        r@.len() == 32,
{
    Sha256::digest(bytes).to_vec()
}

/// A SHA-256 digest in the making: a `sha2::Sha256`, whose own type has parameters
/// bounded by traits of other crates.
#[verifier::external_body]
#[derive(Debug)]
pub struct Hasher {
    state: Sha256,
}

/// The bytes that a digest in the making has taken in, in order.
pub uninterp spec fn absorbed(hasher: Hasher) -> Seq<u8>;

/// `Digest::new` of `Sha256`: a digest that has taken nothing in. Claimed: that.
#[verifier::external_body]
pub(crate) fn new_hasher() -> (r: Hasher)
    ensures
        absorbed(r) == Seq::<u8>::empty(),
{
    Hasher { state: Sha256::new() }
}

/// `Digest::update` of `Sha256`: takes `bytes` in behind those before. Claimed: that.
/// The digest counts bits in 64 bits, so less than 2^61 bytes may come together.
#[verifier::external_body]
pub(crate) fn update_hasher(hasher: &mut Hasher, bytes: &[u8])
    requires
        absorbed(*old(hasher)).len() + bytes@.len() < 0x2000_0000_0000_0000,
    ensures
        absorbed(*final(hasher)) == absorbed(*old(hasher)) + bytes@,
{
    hasher.state.update(bytes);
}

/// `Digest::finalize` of `Sha256`: the digest of all the bytes taken in. Claimed: it
/// is the digest that they have at once, 32 bytes long.
#[verifier::external_body]
pub(crate) fn finish_hasher(hasher: Hasher) -> (r: Vec<u8>)
    requires
        absorbed(hasher).len() < 0x2000_0000_0000_0000,
    ensures
        r@ == sha256(absorbed(hasher)),
        r@.len() == 32,
{
    hasher.state.finalize().to_vec()
}

/// A URL taken apart: its scheme, the text of its host, and the host's octets or
/// segments where it is an IPv4 or IPv6 address.
#[derive(Debug)]
pub struct UrlParts {
    pub scheme: String,
    pub host: Option<String>,
    pub ipv4: Option<(u8, u8, u8, u8)>,
    pub ipv6: Option<[u16; 8]>,
}

/// Scheme, host text, IPv4 octets and IPv6 segments of the URL that a text denotes, if
/// it denotes one.
pub uninterp spec fn url_parts(s: Seq<char>) -> Option<
    (Seq<char>, Option<Seq<char>>, Option<(u8, u8, u8, u8)>, Option<Seq<u16>>),
>;

/// What the segments of an IPv6 address are, where there is one.
pub open spec fn segments_view(ipv6: Option<[u16; 8]>) -> Option<Seq<u16>> {
    match ipv6 {
        Some(segments) => Some(segments@),
        None => None,
    }
}

/// `Url::parse`, and of its result `scheme`, `host_str`, the octets of an IPv4 `host`
/// and the segments of an IPv6 one. Claimed: whether the text is a URL, and those
/// parts, depend on the text alone. The host text of an IPv6 address is in square
/// brackets.
#[verifier::external_body]
pub(crate) fn parse_url(value: &str) -> (r: Option<UrlParts>)
    ensures
        r is Some <==> url_parts(value@) is Some,
        r matches Some(parts) ==> url_parts(value@) == Some(
            (
                parts.scheme@,
                crate::text::opt_text(parts.host),
                parts.ipv4,
                segments_view(parts.ipv6),
            ),
        ),
{
    let url = Url::parse(value).ok()?;
    let (ipv4, ipv6) = match url.host() {
        Some(Host::Ipv4(address)) => (Some(address.octets().into()), None),
        Some(Host::Ipv6(address)) => (None, Some(address.segments())),
        Some(Host::Domain(_)) | None => (None, None),
    };
    let host = url.host_str().map(str::to_owned);
    Some(UrlParts { scheme: url.scheme().to_owned(), host, ipv4, ipv6 })
}

/// How many characters a URL may be made of: written in it, each takes twelve bytes at
/// most, and all of them less than 2^32 bytes.
pub const LONGEST_URL: usize = 0x1555_5500;

/// A URL with one more query pair, if the base is a URL.
pub uninterp spec fn url_with_pair(base: Seq<char>, name: Seq<char>, value: Seq<char>) -> Option<
    Seq<char>,
>;

/// `Url::parse`, then `query_pairs_mut().append_pair`: the URL `base` with the
/// pair `name`, `value` at the end of its query. Claimed: the result depends on
/// the three texts alone. The query has to begin within the first 2^32 bytes of the
/// URL, and a fragment after it has to as well, so there may be none.
#[verifier::external_body]
pub(crate) fn append_query_pair(base: &str, name: &str, value: &str) -> (r: Option<String>)
    requires
        is_ascii_chars(base@),
        base@.len() <= LONGEST_URL,
        !base@.contains('#'),
    ensures
        crate::text::opt_text(r) == url_with_pair(base@, name@, value@),
{
    let mut url = Url::parse(base).ok()?;
    url.query_pairs_mut().append_pair(name, value);
    Some(url.into())
}

/// A URL with one more path segment, if the base is a URL that can have one.
pub uninterp spec fn url_with_segment(base: Seq<char>, segment: Seq<char>) -> Option<Seq<char>>;

/// `Url::parse`, then `path_segments_mut` and `push`: the URL `base` with `segment`
/// at the end of its path. Claimed: the result depends on the two texts alone. The
/// path has to end within the first 2^32 bytes of the URL.
#[verifier::external_body]
pub(crate) fn append_path_segment(base: &str, segment: &str) -> (r: Option<String>)
    requires
        is_ascii_chars(base@),
        base@.len() + segment@.len() <= LONGEST_URL,
    ensures
        crate::text::opt_text(r) == url_with_segment(base@, segment@),
{
    let mut url = Url::parse(base).ok()?;
    url.path_segments_mut().ok()?.push(segment);
    Some(url.into())
}

/// The calendar date, as year, month and day, that a text denotes in the form
/// `%Y-%m-%d`.
pub uninterp spec fn calendar_date(s: Seq<char>) -> Option<(i32, u32, u32)>;

/// `NaiveDate::parse_from_str` with the format `%Y-%m-%d`: the date that `value`
/// denotes. Claimed: it depends on the text alone.
#[verifier::external_body]
pub(crate) fn parse_date(value: &str) -> (r: Option<(i32, u32, u32)>)
    ensures
        r == calendar_date(value@),
{
    let date = NaiveDate::parse_from_str(value, "%Y-%m-%d").ok()?;
    Some((date.year(), date.month(), date.day()))
}

/// Whether a text denotes an instant in the form of RFC 3339.
pub uninterp spec fn rfc3339_instant(s: Seq<char>) -> bool;

/// `DateTime::parse_from_rfc3339`: whether it accepts `value`. Claimed: the answer
/// depends on the text alone.
#[verifier::external_body]
pub(crate) fn is_rfc3339(value: &str) -> (r: bool)
    ensures
        r == rfc3339_instant(value@),
{
    DateTime::parse_from_rfc3339(value).is_ok()
}

/// `Utc::now` in the form of RFC 3339, to the second. The instant is the clock's,
/// so nothing is claimed of the text.
#[verifier::external_body]
pub fn now() -> (r: String) {
    Utc::now().to_rfc3339_opts(SecondsFormat::Secs, true)
}

/// The name-based UUID, version 5, of a name in a namespace.
pub uninterp spec fn uuid_v5(namespace: u128, name: Seq<char>) -> Seq<char>;

/// `Uuid::new_v5` on the UTF-8 bytes of `name`: the name-based UUID as text.
/// Claimed: it depends on the namespace and the name alone.
#[verifier::external_body]
pub(crate) fn name_uuid(namespace: u128, name: &str) -> (r: String)
    ensures
        r@ == uuid_v5(namespace, name@),
{
    Uuid::new_v5(&Uuid::from_u128(namespace), name.as_bytes()).to_string()
}

/// The base64 form of some bytes, standard alphabet, padded.
pub uninterp spec fn base64_form(bytes: Seq<u8>) -> Seq<char>;

/// `Engine::encode` of the standard engine: the base64 form of `bytes`. Claimed:
/// it depends on the bytes alone.
#[verifier::external_body]
pub(crate) fn base64_text(bytes: &[u8]) -> (r: String)
    ensures
        r@ == base64_form(bytes@),
{
    STANDARD.encode(bytes)
}

/// A JSON value as `serde_json` holds it.
#[verifier::external_type_specification]
#[verifier::external_body]
pub struct ExValue(serde_json::Value);

/// What `Value::to_string` writes of a value.
pub uninterp spec fn value_text(value: Value) -> Seq<char>;

/// The JSON text without white space that `serde_json` writes of a value.
pub uninterp spec fn json_text(value: JsonView) -> Seq<char>;

/// The value as a `Value` of `serde_json`, member by member, each number as the kind
/// that it fits. Claimed: what is written of it depends on what the value holds alone.
/// It is ASCII where every string and every key in the value is, and it holds every
/// string in the value that is made of plain characters.
#[verifier::external_body]
pub(crate) fn value_of(json: &Json) -> (r: Value)
    ensures
        value_text(r) == json_text(json@),
        json@.ascii() ==> is_ascii_chars(value_text(r)),
        forall|text: Seq<char>| #[trigger]
            json@.holds_string(text) && plain_text(text) ==> holds_text(value_text(r), text),
{
    match json {
        Json::Null => Value::Null,
        Json::Bool(flag) => Value::Bool(*flag),
        Json::Number(number) => None
            .or(number.unsigned.map(Value::from))
            .or(number.signed.map(Value::from))
            .or(number.text.parse().ok().and_then(Number::from_f64).map(Value::Number))
            .unwrap_or_default(),
        Json::Text(text) => Value::String(text.clone()),
        Json::List(items) => Value::Array(items.iter().map(value_of).collect()),
        Json::Object(members) => {
            Value::Object(members.iter().map(|(k, v)| (k.clone(), value_of(v))).collect())
        },
    }
}

/// `Value::to_string`: the JSON text of the value, without white space. Claimed: it
/// depends on the value alone.
#[verifier::external_body]
pub(crate) fn write_value(value: &Value) -> (r: String)
    ensures
        r@ == value_text(*value),
{
    value.to_string()
}

} // verus!
