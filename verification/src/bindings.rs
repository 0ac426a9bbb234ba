//! The calls this library makes into other crates and into std where vstd
//! gives no specification. Each item's contract is believed, not proved; its
//! doc comment says what the contract claims.
use vstd::prelude::*;

use crate::text::{is_digit, occurs_at};

verus! {

// ---------------------------------------------------------------------------
// Clock
// ---------------------------------------------------------------------------

/// Seconds since the Unix epoch by the system clock
/// (`SystemTime::now().duration_since(UNIX_EPOCH)`, 0 for a clock set before
/// the epoch). Nothing is claimed of the value: it depends on the clock.
#[verifier::external_body]
pub(crate) fn now_epoch_s() -> u64 {
    std::time::SystemTime::now().duration_since(std::time::UNIX_EPOCH).unwrap_or_default().as_secs()
}

// ---------------------------------------------------------------------------
// regex
// ---------------------------------------------------------------------------

#[verifier::external_type_specification]
#[verifier::external_body]
pub struct ExRegexError(regex::Error);

/// What `regex` finds: `None` when `pattern` does not compile
/// (`Regex::new` fails), else the text of capture group 1 of the leftmost
/// match of `pattern` in `haystack` (`Regex::captures`, then `get(1)`), if
/// there is a match and the group took part in it.
pub uninterp spec fn regex_group1(pattern: Seq<char>, haystack: Seq<char>) -> Option<
    Option<Seq<char>>,
>;

/// The pattern that finds a video id in a Twitch URL: the literal
/// `twitch.tv/videos/`, then a captured run of digits.
pub open spec fn video_id_pattern() -> Seq<char> {
    "twitch\\.tv/videos/(\\d+)"@
}

/// The text `twitch.tv/videos/` of a Twitch video URL.
pub open spec fn video_path_marker() -> Seq<char> {
    "twitch.tv/videos/"@
}

/// In `url`, the first occurrence of `twitch.tv/videos/` starts at `i`, and
/// it is followed by the ASCII digits `url[i + 17 .. e]`, at least one, which
/// run to the end of `url` or to an ASCII character that is not a digit.
pub open spec fn video_id_span(url: Seq<char>, i: int, e: int) -> bool {
    &&& occurs_at(url, video_path_marker(), i)
    &&& forall|j: int| 0 <= j < i ==> !#[trigger] occurs_at(url, video_path_marker(), j)
    &&& i + 17 < e <= url.len()
    &&& forall|k: int| i + 17 <= k < e ==> is_digit(#[trigger] url[k])
    &&& (e == url.len() || ((url[e] as u32) < 128 && !is_digit(url[e])))
}

/// The video id of a URL whose first `twitch.tv/videos/` is followed by a run
/// of ASCII digits as `video_id_span` says: those digits.
pub open spec fn video_id_in(url: Seq<char>) -> Option<Seq<char>> {
    if exists|i: int, e: int| video_id_span(url, i, e) {
        let (i, e) = choose|i: int, e: int| video_id_span(url, i, e);
        Some(url.subrange(i + 17, e))
    } else {
        None
    }
}

/// Compiles `pattern` with `regex::Regex::new` and returns capture group 1 of
/// its leftmost match in `haystack`. The contract claims that the result is
/// `regex_group1` of the two arguments, and one fact of the regex crate's
/// leftmost-first, greedy matching: for the pattern `twitch\.tv/videos/(\d+)`,
/// when the first `twitch.tv/videos/` of the text is followed by a run of
/// ASCII digits that ends the text or meets an ASCII non-digit, group 1 is
/// that whole run (no match can start before the literal's first occurrence,
/// ASCII digits are `\d`, ASCII non-digits are not). Which texts a pattern
/// matches otherwise is left to the regex crate.
#[verifier::external_body]
pub(crate) fn capture_group1(pattern: &str, haystack: &str) -> (r: Result<
    Option<String>,
    regex::Error,
>)
    ensures
        match r {
            Ok(g) => regex_group1(pattern@, haystack@) == Some(
                match g {
                    Some(s) => Some(s@),
                    None => None::<Seq<char>>,
                },
            ),
            Err(_) => regex_group1(pattern@, haystack@) is None,
        },
        match r {
            Ok(Some(g)) => pattern@ == video_id_pattern() && video_id_in(haystack@) is Some
                ==> video_id_in(haystack@) == Some(g@),
            _ => !(pattern@ == video_id_pattern() && video_id_in(haystack@) is Some),
        },
{
    let re = regex::Regex::new(pattern)?;
    Ok(re.captures(haystack).and_then(|caps| caps.get(1)).map(|m| m.as_str().to_string()))
}

// ---------------------------------------------------------------------------
// url
// ---------------------------------------------------------------------------

#[verifier::external_type_specification]
#[verifier::external_body]
pub struct ExUrlParseError(url::ParseError);

/// The serialization of the URL that `url::Url::parse` makes of `input`, or
/// `None` when it rejects `input`.
pub uninterp spec fn url_parse(input: Seq<char>) -> Option<Seq<char>>;

/// `url::Url::parse`, returning the parsed URL's serialization. The contract
/// claims only that the result is `url_parse` of the argument; the parse
/// error's kind is not stated.
#[verifier::external_body]
pub(crate) fn parse_url(input: &str) -> (r: Result<String, url::ParseError>)
    ensures
        r is Ok <==> url_parse(input@) is Some,
        r matches Ok(u) ==> url_parse(input@) == Some(u@),
{
    url::Url::parse(input).map(|u| u.to_string())
}

/// The serialization of `input` resolved against the URL `base`
/// (`url::Url::parse(base)` then `Url::join(input)`), or `None` when either
/// step fails.
pub uninterp spec fn url_join(base: Seq<char>, input: Seq<char>) -> Option<Seq<char>>;

/// `url::Url::join` of `input` onto the URL that `base` parses to, returned
/// as its serialization. The contract claims only that the result is
/// `url_join` of the arguments; the error's kind is not stated.
#[verifier::external_body]
pub(crate) fn join_url(base: &str, input: &str) -> (r: Result<String, url::ParseError>)
    ensures
        r is Ok <==> url_join(base@, input@) is Some,
        r matches Ok(u) ==> url_join(base@, input@) == Some(u@),
{
    url::Url::parse(base).and_then(|b| b.join(input)).map(|u| u.to_string())
}

// ---------------------------------------------------------------------------
// urlencoding
// ---------------------------------------------------------------------------

/// The bytes that `urlencoding` leaves as they are: ASCII letters, digits and
/// `-`, `.`, `_`, `~`.
pub open spec fn is_unreserved(b: u8) -> bool {
    ||| 48 <= b <= 57
    ||| 65 <= b <= 90
    ||| 97 <= b <= 122
    ||| b == 45
    ||| b == 46
    ||| b == 95
    ||| b == 126
}

/// An upper-case hexadecimal digit.
pub open spec fn hex_digit(d: u8) -> char {
    if d < 10 {
        (48 + d) as char
    } else {
        (55 + d) as char
    }
}

/// Percent-encoding of a byte string: unreserved bytes as themselves, any
/// other byte as `%` and two upper-case hex digits.
pub open spec fn percent_encode(bytes: Seq<u8>) -> Seq<char>
    decreases bytes.len(),
{
    if bytes.len() == 0 {
        seq![]
    } else {
        let b = bytes[0];
        (if is_unreserved(b) {
            seq![b as char]
        } else {
            seq!['%', hex_digit(b / 16), hex_digit(b % 16)]
        }) + percent_encode(bytes.drop_first())
    }
}

/// `urlencoding::encode`: claims that the result is the percent-encoding of
/// the UTF-8 bytes of `s`, as that crate's `encode_into` writes it.
#[verifier::external_body]
pub(crate) fn url_encode(s: &str) -> (r: String)
    ensures
        r@ == percent_encode(vstd::utf8::encode_utf8(s@)),
{
    urlencoding::encode(s).into_owned()
}

} // verus!
