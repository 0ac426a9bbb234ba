use vod_pipeline::artifact::ProcessStatus;
use vod_pipeline::pipeline::needs_transcription;
use vod_pipeline::transcribe::{
    assess_transcript, check_repetition_heuristic, extract_words_from_srt, srt_to_vtt,
    transcribe_to_txt, IoErrorKind, TranscriptionOutcome,
};

fn status(
    video_id: &str,
    source_url: &str,
    transcript_file: Option<&str>,
    transcribed: bool,
    outcome: Option<&str>,
    reason: Option<&str>,
    word_count: Option<u64>,
    ready_for_notes: bool,
) -> ProcessStatus {
    ProcessStatus {
        schema_version: 1,
        video_id: video_id.to_string(),
        source_url: source_url.to_string(),
        media_file: Some("audio.m4a".to_string()),
        transcript_file: transcript_file.map(|s| s.to_string()),
        downloaded: true,
        transcribed,
        last_error: None,
        updated_at_epoch_s: 0,
        transcription_outcome: outcome.map(|s| s.to_string()),
        transcription_reason: reason.map(|s| s.to_string()),
        transcript_word_count: word_count,
        ready_for_notes,
    }
}

#[test]
fn test_force_suspect_filter_predicate() {
    let normal_pending = status("vid_normal", "http://example.com/normal", None, false, None, None, None, false);
    let suspect_item = status(
        "vid_suspect",
        "http://example.com/suspect",
        Some("transcript.srt"),
        false,
        Some("suspect"),
        Some("low_confidence"),
        Some(100),
        false,
    );
    let completed_item = status(
        "vid_completed",
        "http://example.com/completed",
        Some("transcript.srt"),
        true,
        Some("completed"),
        None,
        Some(500),
        true,
    );

    {
        let force_suspect = false;
        let mut included = vec![];
        for (vid, s) in [("normal", &normal_pending), ("suspect", &suspect_item), ("completed", &completed_item)] {
            if needs_transcription(s, force_suspect) {
                included.push(vid);
            }
        }
        assert_eq!(included, vec!["normal"]);
    }
    {
        let force_suspect = true;
        let mut included = vec![];
        for (vid, s) in [("normal", &normal_pending), ("suspect", &suspect_item), ("completed", &completed_item)] {
            if needs_transcription(s, force_suspect) {
                included.push(vid);
            }
        }
        assert_eq!(included, vec!["normal", "suspect"]);
    }
}

#[test]
fn test_srt_to_vtt_basic() {
    let srt = "1\n00:00:00,000 --> 00:00:05,000\nHello world\n\n2\n00:00:05,000 --> 00:00:10,000\nSecond line";
    let vtt = srt_to_vtt(srt);
    assert!(vtt.starts_with("WEBVTT\n\n"));
    assert!(vtt.contains("00:00:00.000 --> 00:00:05.000"));
    assert!(vtt.contains("Hello world"));
    assert!(vtt.contains("Second line"));
    assert!(!vtt.contains("1\n"));
    assert!(!vtt.contains("2\n"));
}

#[test]
fn test_srt_to_vtt_resetting_sequence() {
    let srt = "1\n00:00:00,000 --> 00:00:05,000\nText one\n\n1\n00:00:05,000 --> 00:00:10,000\nText two";
    let vtt = srt_to_vtt(srt);
    let line_count = vtt.lines().filter(|l| l.trim() == "1").count();
    assert_eq!(line_count, 0);
    assert!(vtt.contains("Text one"));
    assert!(vtt.contains("Text two"));
}

#[test]
fn test_repetition_heuristic_flags_suspect() {
    let mut words = vec!["a".to_string(), "b".to_string(), "c".to_string()];
    for _ in 0..11 {
        words.push("repeat".to_string());
        words.push("trigram".to_string());
        words.push("here".to_string());
    }
    for i in 0..(200 - words.len()) {
        words.push(format!("word{}", i));
    }
    let reason = check_repetition_heuristic(&words);
    assert!(reason.is_some());
    assert!(reason.unwrap().contains("repeated trigram"));
}

#[test]
fn test_repetition_heuristic_clean_input() {
    let mut words = Vec::new();
    for i in 0..200 {
        words.push(format!("unique_word_{}", i));
    }
    let reason = check_repetition_heuristic(&words);
    assert!(reason.is_none());
}

#[test]
fn test_extract_words_from_srt() {
    let srt = "1\n00:00:00,000 --> 00:00:05,000\nHello world test\n\n2\n00:00:05,000 --> 00:00:10,000\nSecond line here";
    let words = extract_words_from_srt(srt);
    assert_eq!(words.len(), 6);
    assert_eq!(words[0], "Hello");
    assert_eq!(words[1], "world");
}

#[test]
fn vtt_exact_output_keeps_blank_lines() {
    let srt = "1\r\n00:00:00,000 --> 00:00:05,000\r\nHello, world\r\n\r\n2\n00:00:05,000 --> 00:00:10,000\nBye";
    let vtt = srt_to_vtt(srt);
    assert_eq!(
        vtt,
        "WEBVTT\n\n00:00:00.000 --> 00:00:05.000\nHello, world\n\n00:00:05.000 --> 00:00:10.000\nBye\n"
    );
}

#[test]
fn vtt_of_empty_transcript_is_header_only() {
    assert_eq!(srt_to_vtt(""), "WEBVTT\n\n");
}

#[test]
fn words_skip_numbers_timings_and_split_on_unicode_space() {
    let srt = "12\n00:00:01,000 --> 00:00:02,000\n  tab\there\u{3000}wide  \n\n 7 \nlast";
    let words = extract_words_from_srt(srt);
    assert_eq!(words, vec!["tab", "here", "wide", "last"]);
}

#[test]
fn repetition_needs_eleven_in_one_window() {
    // exactly ten repeats: not flagged
    let mut words: Vec<String> = Vec::new();
    for _ in 0..10 {
        words.extend(["x", "y", "z"].iter().map(|s| s.to_string()));
    }
    assert!(check_repetition_heuristic(&words).is_none());
    // eleven repeats spread over more than one window: not flagged
    let mut spread: Vec<String> = Vec::new();
    for i in 0..11 {
        spread.extend(["x", "y", "z"].iter().map(|s| s.to_string()));
        for j in 0..20 {
            spread.push(format!("f{}_{}", i, j));
        }
    }
    assert!(spread.len() > 200);
    assert!(check_repetition_heuristic(&spread).is_none());
    // eleven repeats close together: flagged
    let mut close: Vec<String> = Vec::new();
    for j in 0..300 {
        close.push(format!("pad{}", j));
    }
    for _ in 0..11 {
        close.extend(["x", "y", "z"].iter().map(|s| s.to_string()));
    }
    assert_eq!(
        check_repetition_heuristic(&close).as_deref(),
        Some("repeated trigram detected in 200-word window")
    );
}

#[test]
fn repetition_short_lists_are_clean() {
    let words: Vec<String> = vec!["a".to_string(), "a".to_string()];
    assert!(check_repetition_heuristic(&words).is_none());
}

#[test]
fn assess_orders_the_checks() {
    let words: Vec<String> = (0..5).map(|i| format!("w{}", i)).collect();
    match assess_transcript("a.srt".to_string(), "a.vtt".to_string(), &words, Some("too few".to_string())) {
        TranscriptionOutcome::Suspect { word_count, reason, .. } => {
            assert_eq!(word_count, 5);
            assert_eq!(reason, "too few");
        }
        other => panic!("unexpected {:?}", other),
    }
    match assess_transcript("a.srt".to_string(), "a.vtt".to_string(), &words, None) {
        TranscriptionOutcome::Completed { srt_path, vtt_path, word_count } => {
            assert_eq!(srt_path, "a.srt");
            assert_eq!(vtt_path, "a.vtt");
            assert_eq!(word_count, 5);
        }
        other => panic!("unexpected {:?}", other),
    }
    let mut rep: Vec<String> = Vec::new();
    for _ in 0..11 {
        rep.extend(["x", "y", "z"].iter().map(|s| s.to_string()));
    }
    match assess_transcript("a.srt".to_string(), "a.vtt".to_string(), &rep, None) {
        TranscriptionOutcome::Suspect { reason, word_count, .. } => {
            assert_eq!(reason, "repeated trigram detected in 200-word window");
            assert_eq!(word_count, 33);
        }
        other => panic!("unexpected {:?}", other),
    }
}

#[test]
fn text_transcription_is_retired() {
    let e = transcribe_to_txt("a.m4a", "dir").unwrap_err();
    assert_eq!(e.kind, IoErrorKind::Other);
    assert_eq!(e.message, "transcribe_to_txt is deprecated; use transcribe_to_srt_and_vtt instead");
    let io: std::io::Error = std::io::Error::new(std::io::ErrorKind::Other, e.message);
    assert_eq!(io.kind(), std::io::ErrorKind::Other);
}
