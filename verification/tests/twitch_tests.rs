use vod_pipeline::pipeline::parse_duration_seconds;
use vod_pipeline::twitch::{
    access_token_query, archive_request_limit, extract_video_id, get_m3u8_url_with_token_sig,
    video_id_from_capture, vod_entry_from_archive, TwitchError,
};

#[test]
fn video_id_from_desktop_and_mobile_urls() {
    assert_eq!(extract_video_id("https://www.twitch.tv/videos/123456789").unwrap(), "123456789");
    assert_eq!(extract_video_id("https://m.twitch.tv/videos/42?t=1h").unwrap(), "42");
}

#[test]
fn video_id_missing() {
    assert!(matches!(
        extract_video_id("https://www.twitch.tv/somechannel"),
        Err(TwitchError::VideoIdNotFound)
    ));
    assert!(matches!(extract_video_id("twitch.tv/videos/"), Err(TwitchError::VideoIdNotFound)));
}

#[test]
fn video_id_outcomes_map_to_errors() {
    let bad = regex::Regex::new("(").unwrap_err();
    assert!(matches!(video_id_from_capture(Err(bad)), Err(TwitchError::InvalidUrl)));
    assert!(matches!(video_id_from_capture(Ok(None)), Err(TwitchError::VideoIdNotFound)));
    assert_eq!(video_id_from_capture(Ok(Some("77".to_string()))).unwrap(), "77");
}

#[test]
fn playlist_url_encodes_token() {
    let url = get_m3u8_url_with_token_sig("123", "{\"a\":1} é", "sig");
    assert_eq!(
        url,
        "https://usher.ttvnw.net/vod/123.m3u8?nauth=%7B%22a%22%3A1%7D%20%C3%A9&nauthsig=sig&allow_source=true&allow_audio_only=true"
    );
    let plain = get_m3u8_url_with_token_sig("9", "abc-._~", "s");
    assert_eq!(
        plain,
        "https://usher.ttvnw.net/vod/9.m3u8?nauth=abc-._~&nauthsig=s&allow_source=true&allow_audio_only=true"
    );
}

#[test]
fn access_token_query_text() {
    let q = access_token_query("555");
    assert_eq!(
        q,
        "{\n  videoPlaybackAccessToken(\n    id: \"555\",\n    params: {\n      platform: \"web\",\n      playerBackend: \"mediaplayer\",\n      playerType: \"site\"\n    }\n  ) {\n    signature\n    value\n  }\n}"
    );
}

#[test]
fn archive_limit_is_capped() {
    assert_eq!(archive_request_limit(25), 25);
    assert_eq!(archive_request_limit(100), 100);
    assert_eq!(archive_request_limit(500), 100);
}

#[test]
fn archive_entry_and_duration_roundtrip() {
    let e = vod_entry_from_archive(
        "TheChan",
        "987".to_string(),
        "A title".to_string(),
        "2026-01-01T00:00:00Z".to_string(),
        3600,
    );
    assert_eq!(e.channel, "thechan");
    assert_eq!(e.url, "https://www.twitch.tv/videos/987");
    assert_eq!(e.video_id, "987");
    assert_eq!(e.duration, "PT3600S");
    assert_eq!(parse_duration_seconds(&e.duration), Some(3600));
    let z = vod_entry_from_archive("c", "1".to_string(), String::new(), String::new(), 0);
    assert_eq!(parse_duration_seconds(&z.duration), Some(0));
    let m = vod_entry_from_archive("c", "1".to_string(), String::new(), String::new(), u64::MAX);
    assert_eq!(parse_duration_seconds(&m.duration), Some(u64::MAX));
}

#[test]
fn durations_that_do_not_read() {
    assert_eq!(parse_duration_seconds("PT600S"), Some(600));
    assert_eq!(parse_duration_seconds("PT+5S"), Some(5));
    assert_eq!(parse_duration_seconds("PTS"), None);
    assert_eq!(parse_duration_seconds("PT"), None);
    assert_eq!(parse_duration_seconds("P5S"), None);
    assert_eq!(parse_duration_seconds("PT-5S"), None);
    assert_eq!(parse_duration_seconds("PT18446744073709551616S"), None);
    assert_eq!(parse_duration_seconds("1h"), None);
}
