use vod_pipeline::cli::QualityPreference;
use vod_pipeline::downloader::{
    choose_stream, describe_stream, media_file_name, parse_master_playlist, preferred_variant,
    resolve_stream_from_playlist, variant_from_captures, DownloadError, StreamInfo,
};

const PLAYLIST: &str = "#EXTM3U\n\
#EXT-X-TWITCH-INFO:ORIGIN=\"s3\"\n\
#EXT-X-MEDIA:TYPE=VIDEO,GROUP-ID=\"chunked\",NAME=\"1080p60\"\n\
#EXT-X-STREAM-INF:BANDWIDTH=6000000,RESOLUTION=1920x1080,CODECS=\"avc1.64002A,mp4a.40.2\",VIDEO=\"chunked\"\n\
chunked/index-dvr.m3u8\n\
#EXT-X-STREAM-INF:BANDWIDTH=1400000,RESOLUTION=852x480,CODECS=\"avc1.4D401F,mp4a.40.2\",NAME=\"480p\"\n\
480p30/index-dvr.m3u8\n\
#EXT-X-STREAM-INF:BANDWIDTH=160000,CODECS=\"mp4a.40.2\",NAME=\"Audio Only\"\n\
audio_only/index-dvr.m3u8\n";

const MASTER: &str = "https://usher.ttvnw.net/vod/123.m3u8?nauth=x&nauthsig=y";

fn stream(bandwidth: Option<u64>, audio: bool) -> StreamInfo {
    StreamInfo {
        playlist_url: "u".to_string(),
        bandwidth,
        resolution: None,
        codecs: None,
        name: None,
        is_audio_only: audio,
    }
}

#[test]
fn playlist_variants_are_read() {
    let v = parse_master_playlist(MASTER, PLAYLIST).unwrap();
    assert_eq!(v.len(), 3);
    assert_eq!(v[0].playlist_url, "https://usher.ttvnw.net/vod/chunked/index-dvr.m3u8");
    assert_eq!(v[0].bandwidth, Some(6000000));
    assert_eq!(v[0].resolution.as_deref(), Some("1920x1080"));
    assert_eq!(v[0].codecs.as_deref(), Some("avc1.64002A,mp4a.40.2"));
    assert_eq!(v[0].name, None);
    assert!(!v[0].is_audio_only);
    assert_eq!(v[1].name.as_deref(), Some("480p"));
    assert!(!v[1].is_audio_only);
    assert!(v[2].is_audio_only);
    assert_eq!(v[2].resolution, None);
}

#[test]
fn quality_preferences_pick_variants() {
    let audio = resolve_stream_from_playlist(MASTER, PLAYLIST, QualityPreference::AudioOnly).unwrap();
    assert_eq!(audio.playlist_url, "https://usher.ttvnw.net/vod/audio_only/index-dvr.m3u8");
    let low = resolve_stream_from_playlist(MASTER, PLAYLIST, QualityPreference::Lowest).unwrap();
    assert_eq!(low.bandwidth, Some(160000));
    let high = resolve_stream_from_playlist(MASTER, PLAYLIST, QualityPreference::Highest).unwrap();
    assert_eq!(high.bandwidth, Some(6000000));
}

#[test]
fn empty_playlist_falls_back_to_master() {
    let s = resolve_stream_from_playlist(MASTER, "#EXTM3U\n", QualityPreference::Highest).unwrap();
    assert_eq!(s.playlist_url, MASTER);
    assert!(!s.is_audio_only);
    assert_eq!(s.bandwidth, None);
}

#[test]
fn bad_master_url_is_an_error() {
    assert!(matches!(
        resolve_stream_from_playlist("not a url", PLAYLIST, QualityPreference::Lowest),
        Err(DownloadError::Url(_))
    ));
}

#[test]
fn uri_without_stream_info_is_ignored_and_info_is_replaced() {
    let p = "lonely.m3u8\n#EXT-X-STREAM-INF:BANDWIDTH=1\n#EXT-X-STREAM-INF:BANDWIDTH=2,RESOLUTION=10x10\n  \n  b.m3u8  \n";
    let v = parse_master_playlist(MASTER, p).unwrap();
    assert_eq!(v.len(), 1);
    assert_eq!(v[0].bandwidth, Some(2));
    assert_eq!(v[0].playlist_url, "https://usher.ttvnw.net/vod/b.m3u8");
}

#[test]
fn ties_pick_first_lowest_and_last_highest() {
    let vs = vec![stream(Some(5), false), stream(Some(5), false), stream(None, false)];
    assert_eq!(preferred_variant(&vs, QualityPreference::Lowest), Some(0));
    assert_eq!(preferred_variant(&vs, QualityPreference::Highest), Some(1));
    assert_eq!(preferred_variant(&vs, QualityPreference::AudioOnly), Some(0));
    let audio = vec![stream(Some(1), false), stream(None, true), stream(Some(9), true)];
    assert_eq!(preferred_variant(&audio, QualityPreference::AudioOnly), Some(2));
    assert_eq!(preferred_variant(&Vec::new(), QualityPreference::Lowest), None);
    let chosen = choose_stream(MASTER, audio, QualityPreference::AudioOnly);
    assert_eq!(chosen.bandwidth, Some(9));
}

#[test]
fn stream_descriptions() {
    let mut s = stream(None, true);
    assert_eq!(describe_stream(&s), "audio-only");
    s.name = Some("Audio Only".to_string());
    assert_eq!(describe_stream(&s), "Audio Only");
    let mut v = stream(None, false);
    assert_eq!(describe_stream(&v), "video");
    v.name = Some("720p".to_string());
    assert_eq!(describe_stream(&v), "720p");
    v.resolution = Some("1280x720".to_string());
    assert_eq!(describe_stream(&v), "1280x720");
    assert_eq!(media_file_name(true), "audio.m4a");
    assert_eq!(media_file_name(false), "video.mp4");
}

#[test]
fn quality_values() {
    assert_eq!(QualityPreference::parse("lowest"), QualityPreference::Lowest);
    assert_eq!(QualityPreference::parse("highest"), QualityPreference::Highest);
    assert_eq!(QualityPreference::parse("audio-only"), QualityPreference::AudioOnly);
    assert_eq!(QualityPreference::parse("best"), QualityPreference::AudioOnly);
}

#[test]
fn variants_from_captured_attributes() {
    let audio = variant_from_captures(
        "https://host/vod/audio_only/index-dvr.m3u8".to_string(),
        Some("160000".to_string()),
        Some("1x1".to_string()),
        Some("mp4a.40.2".to_string()),
        None,
    );
    assert!(audio.is_audio_only);
    assert_eq!(audio.bandwidth, Some(160000));
    let named = variant_from_captures(
        "https://host/vod/a/index.m3u8".to_string(),
        None,
        Some("1x1".to_string()),
        None,
        Some("AUDIO track".to_string()),
    );
    assert!(named.is_audio_only);
    assert_eq!(named.bandwidth, None);
    let no_resolution = variant_from_captures("https://host/v.m3u8".to_string(), None, None, None, None);
    assert!(no_resolution.is_audio_only);
    let video = variant_from_captures(
        "https://host/vod/chunked/index-dvr.m3u8".to_string(),
        Some("6000000".to_string()),
        Some("1920x1080".to_string()),
        Some("avc1.64002A,mp4a.40.2".to_string()),
        Some("1080p60".to_string()),
    );
    assert!(!video.is_audio_only);
    assert_eq!(video.bandwidth, Some(6000000));
    assert_eq!(video.resolution.as_deref(), Some("1920x1080"));
    assert_eq!(video.codecs.as_deref(), Some("avc1.64002A,mp4a.40.2"));
    assert_eq!(video.name.as_deref(), Some("1080p60"));
    assert_eq!(video.playlist_url, "https://host/vod/chunked/index-dvr.m3u8");
}
