//! Twitch identifiers and request texts: video ids from URLs, the playlist URL
//! of a VOD, the GraphQL query for a playback token, and queue entries made
//! from a channel's archive listing.
use vstd::prelude::*;

use crate::bindings::{capture_group1, percent_encode, regex_group1, url_encode, video_id_in};
use crate::text::{decimal, lower_seq, push_decimal, push_str, string_from, to_ascii_lowercase};

verus! {

/// Why a Twitch step failed. `Http` carries the HTTP client's message.
#[derive(Debug)]
pub enum TwitchError {
    InvalidUrl,
    VideoIdNotFound,
    AccessToken(String),
    Http(String),
    Parse(String),
}

/// One VOD of a channel's queue.
#[derive(Debug, Clone)]
pub struct VodEntry {
    pub channel: String,
    pub title: String,
    pub url: String,
    pub video_id: String,
    pub uploaded_at: String,
    pub duration: String,
}

impl VodEntry {
    /// A field-by-field copy.
    pub fn duplicate(&self) -> (r: VodEntry)
        ensures
            r == *self,
    {
        VodEntry {
            channel: self.channel.clone(),
            title: self.title.clone(),
            url: self.url.clone(),
            video_id: self.video_id.clone(),
            uploaded_at: self.uploaded_at.clone(),
            duration: self.duration.clone(),
        }
    }
}

/// The pattern that finds a video id in a Twitch URL
/// (`https://www.twitch.tv/videos/123456789`, `https://m.twitch.tv/videos/…`).
pub open spec fn video_url_pattern() -> Seq<char> {
    "twitch\\.tv/videos/(\\d+)"@
}

/// The result of looking for a video id, given what the pattern search gave.
pub open spec fn video_id_result(found: Option<Option<Seq<char>>>, r: Result<String, TwitchError>) -> bool {
    match found {
        None => r == Err::<String, TwitchError>(TwitchError::InvalidUrl),
        Some(None) => r == Err::<String, TwitchError>(TwitchError::VideoIdNotFound),
        Some(Some(id)) => r matches Ok(s) && s@ == id,
    }
}

/// Turns the outcome of the pattern search into a video id: an invalid
/// pattern is `InvalidUrl`, no match is `VideoIdNotFound`, a match gives the
/// captured digits.
pub fn video_id_from_capture(found: Result<Option<String>, regex::Error>) -> (r: Result<
    String,
    TwitchError,
>)
    ensures
        match found {
            Err(_) => r == Err::<String, TwitchError>(TwitchError::InvalidUrl),
            Ok(None) => r == Err::<String, TwitchError>(TwitchError::VideoIdNotFound),
            Ok(Some(id)) => r == Ok::<String, TwitchError>(id),
        },
{
    match found {
        Err(_) => Err(TwitchError::InvalidUrl),
        Ok(None) => Err(TwitchError::VideoIdNotFound),
        Ok(Some(id)) => Ok(id),
    }
}

/// Extracts the video id from a Twitch video URL.
pub fn extract_video_id(url: &str) -> (r: Result<String, TwitchError>)
    ensures
        video_id_result(regex_group1(video_url_pattern(), url@), r),
        video_id_in(url@) matches Some(d) ==> (r matches Ok(id) && id@ == d),
{
    video_id_from_capture(capture_group1("twitch\\.tv/videos/(\\d+)", url))
}

/// The HLS master playlist URL of a VOD, given its playback token and
/// signature; the token is percent-encoded.
pub fn get_m3u8_url_with_token_sig(video_id: &str, token: &str, sig: &str) -> (r: String)
    ensures
        r@ == "https://usher.ttvnw.net/vod/"@ + video_id@ + ".m3u8?nauth="@ + percent_encode(
            vstd::utf8::encode_utf8(token@),
        ) + "&nauthsig="@ + sig@ + "&allow_source=true&allow_audio_only=true"@,
{
    let mut r = string_from("https://usher.ttvnw.net/vod/");
    push_str(&mut r, video_id);
    push_str(&mut r, ".m3u8?nauth=");
    let enc = url_encode(token);
    push_str(&mut r, enc.as_str());
    push_str(&mut r, "&nauthsig=");
    push_str(&mut r, sig);
    push_str(&mut r, "&allow_source=true&allow_audio_only=true");
    r
}

/// The GraphQL query that asks for a VOD's playback access token.
pub fn access_token_query(video_id: &str) -> (r: String)
    ensures
        r@ == "{\n  videoPlaybackAccessToken(\n    id: \""@ + video_id@
            + "\",\n    params: {\n      platform: \"web\",\n      playerBackend: \"mediaplayer\",\n      playerType: \"site\"\n    }\n  ) {\n    signature\n    value\n  }\n}"@,
{
    let mut r = string_from("{\n  videoPlaybackAccessToken(\n    id: \"");
    push_str(&mut r, video_id);
    push_str(
        &mut r,
        "\",\n    params: {\n      platform: \"web\",\n      playerBackend: \"mediaplayer\",\n      playerType: \"site\"\n    }\n  ) {\n    signature\n    value\n  }\n}",
    );
    r
}

/// How many archive VODs one listing request asks for: the limit, at most 100.
pub fn archive_request_limit(limit: usize) -> (r: usize)
    ensures
        r == if limit < 100 {
            limit
        } else {
            100
        },
{
    if limit < 100 {
        limit
    } else {
        100
    }
}

/// The queue entry for one VOD of a channel's archive listing: the channel in
/// lower case, the VOD's page URL, and its length as `PT<seconds>S`.
pub fn vod_entry_from_archive(
    channel: &str,
    id: String,
    title: String,
    published_at: String,
    length_seconds: u64,
) -> (r: VodEntry)
    ensures
        r.channel@ == lower_seq(channel@),
        r.title == title,
        r.url@ == "https://www.twitch.tv/videos/"@ + id@,
        r.video_id == id,
        r.uploaded_at == published_at,
        r.duration@ == "PT"@ + decimal(length_seconds as nat) + "S"@,
{
    let mut url = string_from("https://www.twitch.tv/videos/");
    push_str(&mut url, id.as_str());
    let mut duration = string_from("PT");
    push_decimal(&mut duration, length_seconds);
    push_str(&mut duration, "S");
    VodEntry {
        channel: to_ascii_lowercase(channel),
        title,
        url,
        video_id: id,
        uploaded_at: published_at,
        duration,
    }
}

} // verus!
