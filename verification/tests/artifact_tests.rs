use vod_pipeline::artifact::{
    artifact_entries, build_queue_file, collect_queued_entries, existing_artifact_ids, find_media_file,
    is_json_file_name, queue_file_name, scan_artifact_statuses, source_url_line, ArtifactMetadata,
    ProcessStatus, QueueFile,
};
use vod_pipeline::downloader::StreamInfo;
use vod_pipeline::transcribe::TranscriptionOutcome;
use vod_pipeline::twitch::VodEntry;

fn vod(channel: &str, id: &str) -> VodEntry {
    VodEntry {
        channel: channel.to_string(),
        title: format!("VOD {}", id),
        url: format!("https://www.twitch.tv/videos/{}", id),
        video_id: id.to_string(),
        uploaded_at: "2026-01-01T00:00:00Z".to_string(),
        duration: "PT3600S".to_string(),
    }
}

fn queue(channel: &str, ids: &[&str]) -> QueueFile {
    let queued: Vec<VodEntry> = ids.iter().map(|id| vod(channel, id)).collect();
    build_queue_file(channel, false, 600, queued, vec![])
}

#[test]
fn test_scan_artifact_statuses_empty() {
    let results = scan_artifact_statuses(vec![]);
    assert!(results.is_empty());
}

#[test]
fn new_status_is_blank() {
    let s = ProcessStatus::new("123456", "https://www.twitch.tv/videos/123456");
    assert_eq!(s.schema_version, 1);
    assert_eq!(s.video_id, "123456");
    assert_eq!(s.source_url, "https://www.twitch.tv/videos/123456");
    assert!(!s.downloaded && !s.transcribed && !s.ready_for_notes);
    assert_eq!(s.media_file, None);
    assert_eq!(s.transcript_file, None);
    assert_eq!(s.last_error, None);
    assert_eq!(s.transcription_outcome, None);
    assert_eq!(s.transcription_reason, None);
    assert_eq!(s.transcript_word_count, None);
}

#[test]
fn download_marks_and_clears_error() {
    let mut s = ProcessStatus::new("1", "u");
    s.last_error = Some("boom".to_string());
    s.mark_media(Some("audio.m4a".to_string()));
    assert!(s.downloaded);
    assert_eq!(s.media_file.as_deref(), Some("audio.m4a"));
    assert_eq!(s.last_error.as_deref(), Some("boom"));
    s.record_download(Some("video.mp4".to_string()), 77);
    assert!(s.downloaded);
    assert_eq!(s.media_file.as_deref(), Some("video.mp4"));
    assert_eq!(s.last_error, None);
    assert_eq!(s.updated_at_epoch_s, 77);
}

#[test]
fn transcription_outcomes_are_recorded() {
    let mut s = ProcessStatus::new("1", "u");
    s.downloaded = true;
    let done = TranscriptionOutcome::Completed {
        srt_path: "transcript.srt".to_string(),
        vtt_path: "transcript.vtt".to_string(),
        word_count: 1234,
    };
    assert_eq!(s.record_transcription(&done, Some("transcript.srt".to_string()), 5), Ok(()));
    assert!(s.transcribed && s.ready_for_notes);
    assert_eq!(s.transcription_outcome.as_deref(), Some("completed"));
    assert_eq!(s.transcript_word_count, Some(1234));
    assert_eq!(s.transcript_file.as_deref(), Some("transcript.srt"));
    assert_eq!(s.updated_at_epoch_s, 5);

    let mut t = ProcessStatus::new("2", "u");
    t.downloaded = true;
    let suspect = TranscriptionOutcome::Suspect {
        srt_path: "transcript.srt".to_string(),
        vtt_path: "transcript.vtt".to_string(),
        word_count: 10,
        reason: "word count 10 below threshold".to_string(),
    };
    assert_eq!(t.record_transcription(&suspect, Some("transcript.srt".to_string()), 6), Ok(()));
    assert!(!t.transcribed && !t.ready_for_notes);
    assert_eq!(t.transcription_outcome.as_deref(), Some("suspect"));
    assert_eq!(t.transcription_reason.as_deref(), Some("word count 10 below threshold"));
    assert_eq!(t.transcript_word_count, Some(10));

    let mut f = ProcessStatus::new("3", "u");
    f.downloaded = true;
    let failed = TranscriptionOutcome::Failed { reason: "hear exited".to_string() };
    assert_eq!(
        f.record_transcription(&failed, None, 7),
        Err("hear exited".to_string())
    );
    assert!(!f.transcribed);
    assert_eq!(f.transcription_outcome.as_deref(), Some("failed"));
    assert_eq!(f.transcription_reason.as_deref(), Some("hear exited"));
    assert_eq!(f.last_error.as_deref(), Some("hear exited"));
    assert_eq!(f.updated_at_epoch_s, 7);
}

#[test]
fn media_file_prefers_audio() {
    assert_eq!(find_media_file(true, true).as_deref(), Some("audio.m4a"));
    assert_eq!(find_media_file(true, false).as_deref(), Some("audio.m4a"));
    assert_eq!(find_media_file(false, true).as_deref(), Some("video.mp4"));
    assert_eq!(find_media_file(false, false), None);
}

#[test]
fn queue_files_are_named_by_lowercase_channel() {
    assert_eq!(queue_file_name("TestChan"), "testchan.json");
    assert_eq!(queue_file_name("chan1"), "chan1.json");
    let q = build_queue_file("TestChan", true, 600, vec![vod("testchan", "123")], vec!["9".to_string()]);
    assert_eq!(q.schema_version, 1);
    assert_eq!(q.channel, "testchan");
    assert!(q.past_broadcasts_only);
    assert_eq!(q.min_seconds, 600);
    assert_eq!(q.queued_count, 1);
    assert_eq!(q.queued[0].video_id, "123");
    assert_eq!(q.skipped_existing_ids, vec!["9".to_string()]);
}

#[test]
fn json_file_names() {
    assert!(is_json_file_name("chan1.json"));
    assert!(is_json_file_name("a.b.json"));
    assert!(!is_json_file_name(".json"));
    assert!(!is_json_file_name("chan1.json.bak"));
    assert!(!is_json_file_name("chan1.JSON"));
    assert!(!is_json_file_name("json"));
    assert!(!is_json_file_name("chan1."));
}

#[test]
fn queued_entries_of_several_files_skip_unreadable() {
    let files = vec![Some(queue("chan1", &["aaa", "bbb"])), None, Some(queue("chan2", &["ccc"]))];
    let all = collect_queued_entries(files);
    let ids: Vec<&str> = all.iter().map(|e| e.video_id.as_str()).collect();
    assert_eq!(ids, vec!["aaa", "bbb", "ccc"]);

    let good_and_bad = vec![None, Some(queue("good", &["zzz"]))];
    let one = collect_queued_entries(good_and_bad);
    assert_eq!(one.len(), 1);
    assert_eq!(one[0].video_id, "zzz");

    assert!(collect_queued_entries(vec![]).is_empty());
}

#[test]
fn artifact_directories_are_numeric_and_sorted() {
    let entries = vec![
        ("300".to_string(), 3),
        ("queues".to_string(), 0),
        ("100".to_string(), 1),
        ("12a".to_string(), 9),
        ("1000".to_string(), 4),
    ];
    let kept = artifact_entries(entries);
    let names: Vec<&str> = kept.iter().map(|(n, _)| n.as_str()).collect();
    assert_eq!(names, vec!["100", "1000", "300"]);
    let tags: Vec<i32> = kept.iter().map(|(_, t)| *t).collect();
    assert_eq!(tags, vec![1, 4, 3]);
}

#[test]
fn statuses_follow_their_directories() {
    let mut s100 = ProcessStatus::new("100", "https://www.twitch.tv/videos/100");
    s100.downloaded = true;
    let entries = vec![
        ("300".to_string(), None),
        ("queues".to_string(), None),
        ("100".to_string(), Some(s100)),
    ];
    let results = scan_artifact_statuses(entries);
    assert_eq!(results.len(), 2);
    assert_eq!(results[0].0, "100");
    assert!(results[0].1.as_ref().unwrap().downloaded);
    assert_eq!(results[1].0, "300");
    assert!(results[1].1.is_none());
}

#[test]
fn metadata_of_a_download() {
    let stream = StreamInfo {
        playlist_url: "https://example.com/playlist.m3u8".to_string(),
        name: Some("test_stream".to_string()),
        bandwidth: Some(5000000),
        resolution: Some("1920x1080".to_string()),
        codecs: Some("avc1.640028,mp4a.40.2".to_string()),
        is_audio_only: false,
    };
    let m = ArtifactMetadata::from_download(
        "123456",
        "https://www.twitch.tv/videos/123456",
        "video.mp4",
        19,
        &stream,
        false,
        Some(("Test VOD", "testchan", "2026-01-01T00:00:00Z")),
    );
    assert_eq!(m.schema_version, 1);
    assert_eq!(m.video_id, "123456");
    assert_eq!(m.output_file, "video.mp4");
    assert_eq!(m.output_size_bytes, 19);
    assert_eq!(m.stream_name.as_deref(), Some("test_stream"));
    assert_eq!(m.selected_bandwidth, Some(5000000));
    assert_eq!(m.selected_resolution.as_deref(), Some("1920x1080"));
    assert_eq!(m.selected_codecs.as_deref(), Some("avc1.640028,mp4a.40.2"));
    assert!(!m.is_audio_only && !m.used_auth_token);
    assert_eq!(m.title.as_deref(), Some("Test VOD"));
    assert_eq!(m.channel.as_deref(), Some("testchan"));
    assert_eq!(m.uploaded_at.as_deref(), Some("2026-01-01T00:00:00Z"));

    let bare = ArtifactMetadata::from_download("1", "u", "audio.m4a", 0, &stream, true, None);
    assert!(bare.used_auth_token);
    assert_eq!(bare.title, None);
    assert_eq!(bare.channel, None);
    assert_eq!(bare.uploaded_at, None);
}

#[test]
fn source_url_file_text() {
    assert_eq!(
        source_url_line("https://www.twitch.tv/videos/1"),
        "https://www.twitch.tv/videos/1\n"
    );
}

#[test]
fn scan_and_existing_ids_agree() {
    let listing: Vec<String> = ["300", "queues", "100", "12a", "1000"].iter().map(|s| s.to_string()).collect();
    let ids = existing_artifact_ids(&listing);
    assert_eq!(ids, vec!["100".to_string(), "1000".to_string(), "300".to_string()]);
    let mut s100 = ProcessStatus::new("100", "https://www.twitch.tv/videos/100");
    s100.downloaded = true;
    let entries: Vec<(String, Option<ProcessStatus>)> = listing
        .iter()
        .map(|n| (n.clone(), if n == "100" { Some(s100.duplicate()) } else { None }))
        .collect();
    let scanned = scan_artifact_statuses(entries);
    let scanned_ids: Vec<String> = scanned.iter().map(|(n, _)| n.clone()).collect();
    assert_eq!(scanned_ids, ids);
    assert!(scanned[0].1.as_ref().unwrap().downloaded);
    assert!(scanned[1].1.is_none() && scanned[2].1.is_none());
    assert!(existing_artifact_ids(&vec![]).is_empty());
}
