use vod_pipeline::artifact::ProcessStatus;
use vod_pipeline::is_valid_filter_stage;
use vod_pipeline::pipeline::{
    artifact_row, cleanup_args_error, cleanup_candidates, contains_id, deletion_targets,
    derive_stage, downloaded_ids, enqueue_video, needs_transcription, pending_transcriptions,
    plan_process, plan_queue, queued_row, queued_video_entry, select_artifact,
    select_queued_video, total_size, transcript_reusable, without_ids,
};
use vod_pipeline::artifact::ArtifactMetadata;
use vod_pipeline::transcribe::TranscriptionOutcome;
use vod_pipeline::twitch::VodEntry;

fn vod(id: &str, duration: &str) -> VodEntry {
    VodEntry {
        channel: "chan1".to_string(),
        title: format!("VOD {}", id),
        url: format!("https://www.twitch.tv/videos/{}", id),
        video_id: id.to_string(),
        uploaded_at: "2026-01-01T00:00:00Z".to_string(),
        duration: duration.to_string(),
    }
}

fn ids(v: &[VodEntry]) -> Vec<&str> {
    v.iter().map(|e| e.video_id.as_str()).collect()
}

fn strings(v: &[&str]) -> Vec<String> {
    v.iter().map(|s| s.to_string()).collect()
}

fn status(id: &str, downloaded: bool, transcribed: bool, outcome: Option<&str>, ready: bool) -> ProcessStatus {
    let mut s = ProcessStatus::new(id, &format!("https://www.twitch.tv/videos/{}", id));
    s.downloaded = downloaded;
    s.transcribed = transcribed;
    s.transcription_outcome = outcome.map(|o| o.to_string());
    s.ready_for_notes = ready;
    s
}

#[test]
fn queue_plan_filters_length_and_existing() {
    let vods = vec![
        vod("1", "PT3600S"),
        vod("2", "PT599S"),
        vod("3", "PT600S"),
        vod("4", "garbage"),
        vod("5", "PT7200S"),
    ];
    let existing = strings(&["5", "77"]);
    let (queued, skipped) = plan_queue(&vods, &existing, 600);
    assert_eq!(ids(&queued), vec!["1", "3"]);
    assert_eq!(skipped, strings(&["5", "77"]));

    let (all, none) = plan_queue(&vods, &vec![], 0);
    assert_eq!(ids(&all), vec!["1", "2", "3", "4", "5"]);
    assert!(none.is_empty());
}

#[test]
fn process_plan_takes_existing_with_media() {
    let vods = vec![vod("1", "PT3600S"), vod("2", "PT3600S"), vod("3", "PT10S")];
    let existing = strings(&["1", "2", "3"]);
    let with_media = strings(&["2", "3"]);
    let (queued, skipped) = plan_process(&vods, &existing, &with_media, 600);
    assert_eq!(ids(&queued), vec!["2"]);
    assert_eq!(skipped, strings(&["1", "3"]));
}

#[test]
fn queueing_one_video_is_idempotent() {
    let first = queued_video_entry(
        "testchan".to_string(),
        "Test VOD 1".to_string(),
        "https://www.twitch.tv/videos/111",
        "111".to_string(),
        "2026-01-01T00:00:00Z".to_string(),
    );
    assert_eq!(first.duration, "PT0S");
    assert_eq!(first.url, "https://www.twitch.tv/videos/111");
    let q = enqueue_video(vec![], first.clone()).unwrap();
    assert_eq!(ids(&q), vec!["111"]);
    assert!(enqueue_video(q.clone(), first).is_none());
    let second = queued_video_entry(
        "testchan".to_string(),
        "Test VOD 2".to_string(),
        "https://www.twitch.tv/videos/222",
        "222".to_string(),
        "2026-01-02T00:00:00Z".to_string(),
    );
    let q2 = enqueue_video(q, second).unwrap();
    assert_eq!(ids(&q2), vec!["111", "222"]);
}

#[test]
fn pending_downloads_skip_downloaded_artifacts() {
    let queued = vec![vod("111", "PT3600S"), vod("222", "PT3600S"), vod("333", "PT3600S")];
    let items = vec![
        ("222".to_string(), Some(status("222", true, false, None, false))),
        ("333".to_string(), Some(status("333", false, false, None, false))),
        ("444".to_string(), None),
    ];
    let done = downloaded_ids(&items);
    assert_eq!(done, strings(&["222"]));
    let pending = without_ids(&queued, &done);
    assert_eq!(ids(&pending), vec!["111", "333"]);
}

#[test]
fn queue_entries_without_artifacts() {
    let queued = vec![vod("100", "PT3600S"), vod("200", "PT3600S")];
    let artifact_ids = strings(&["100", "300"]);
    assert!(contains_id(&artifact_ids, &"300".to_string()));
    assert!(!contains_id(&artifact_ids, &"200".to_string()));
    assert_eq!(ids(&without_ids(&queued, &artifact_ids)), vec!["200"]);
}

#[test]
fn video_id_filter_for_downloads() {
    let pending = vec![vod("111111", "PT3600S"), vod("222222", "PT3600S")];
    let one = select_queued_video(pending.clone(), Some("111111")).unwrap();
    assert_eq!(ids(&one), vec!["111111"]);
    let all = select_queued_video(pending.clone(), None).unwrap();
    assert_eq!(all.len(), 2);
    assert_eq!(
        select_queued_video(pending, Some("999999")).unwrap_err(),
        "video ID 999999 not found in any queue"
    );
}

#[test]
fn video_id_filter_for_transcriptions() {
    let items = vec![
        ("111111".to_string(), Some(status("111111", true, false, None, false))),
        ("222222".to_string(), Some(status("222222", true, false, None, false))),
        ("333333".to_string(), Some(status("333333", true, false, Some("suspect"), false))),
        ("444444".to_string(), None),
    ];
    let pending = pending_transcriptions(&items, false);
    let names: Vec<&str> = pending.iter().map(|(v, _)| v.as_str()).collect();
    assert_eq!(names, vec!["111111", "222222"]);
    let forced = pending_transcriptions(&items, true);
    assert_eq!(forced.len(), 3);
    let one = select_artifact(pending, Some("111111")).unwrap();
    assert_eq!(one.len(), 1);
    assert_eq!(one[0].0, "111111");
    let again = pending_transcriptions(&items, false);
    assert_eq!(
        select_artifact(again, Some("999999")).unwrap_err(),
        "video ID 999999 not found in any artifact"
    );
}

#[test]
fn transcription_predicate_cases() {
    assert!(needs_transcription(&status("1", true, false, None, false), false));
    assert!(!needs_transcription(&status("1", false, false, None, false), true));
    assert!(!needs_transcription(&status("1", true, true, Some("completed"), true), true));
    assert!(needs_transcription(&status("1", true, false, Some("failed"), false), false));
    assert!(!needs_transcription(&status("1", true, false, Some("suspect"), false), false));
    assert!(needs_transcription(&status("1", true, false, Some("suspect"), false), true));
}

#[test]
fn cleanup_candidates_need_ready_and_completed() {
    let items = vec![
        ("111111".to_string(), Some(status("111111", true, true, Some("completed"), true))),
        ("222222".to_string(), Some(status("222222", true, true, Some("suspect"), true))),
        ("333333".to_string(), Some(status("333333", true, true, Some("completed"), false))),
        ("444444".to_string(), None),
    ];
    let c = cleanup_candidates(&items);
    assert_eq!(c, strings(&["111111"]));
}

#[test]
fn cleanup_arguments() {
    assert_eq!(cleanup_args_error(false, false, &None), None);
    assert_eq!(
        cleanup_args_error(true, false, &None).unwrap(),
        "Error: --delete requires either --all or --video-id <video_id>"
    );
    assert_eq!(
        cleanup_args_error(true, true, &Some("1".to_string())).unwrap(),
        "Error: Cannot use both --all and --video-id together"
    );
    assert_eq!(cleanup_args_error(true, true, &None), None);
    assert_eq!(cleanup_args_error(true, false, &Some("1".to_string())), None);
}

#[test]
fn deletion_targets_by_mode() {
    let c = strings(&["1", "2", "3"]);
    assert_eq!(deletion_targets(&c, true, &None).unwrap(), c);
    assert_eq!(deletion_targets(&c, false, &Some("2".to_string())).unwrap(), strings(&["2"]));
    assert!(deletion_targets(&c, false, &Some("9".to_string())).unwrap().is_empty());
    assert_eq!(
        deletion_targets(&c, false, &None).unwrap_err(),
        "Internal error: delete mode not properly validated"
    );
}

#[test]
fn freed_space_sums_known_sizes() {
    assert_eq!(total_size(&vec![]), Some(0));
    assert_eq!(total_size(&vec![Some(100), None, Some(23)]), Some(123));
    assert_eq!(total_size(&vec![Some(u64::MAX), Some(0)]), Some(u64::MAX));
    assert_eq!(total_size(&vec![Some(u64::MAX), Some(1)]), None);
}

#[test]
fn stages_of_artifacts() {
    assert_eq!(derive_stage(&None, false), "queued");
    assert_eq!(derive_stage(&None, true), "downloaded");
    assert_eq!(derive_stage(&Some(status("1", false, false, None, false)), true), "queued");
    assert_eq!(derive_stage(&Some(status("1", true, false, Some("failed"), false)), true), "failed");
    assert_eq!(derive_stage(&Some(status("1", true, false, Some("suspect"), false)), true), "suspect");
    assert_eq!(derive_stage(&Some(status("1", true, true, Some("completed"), true)), false), "ready");
    assert_eq!(derive_stage(&Some(status("1", true, true, None, false)), false), "ready");
    assert_eq!(derive_stage(&Some(status("1", true, false, None, false)), false), "downloaded");
    for stage in ["queued", "downloaded", "suspect", "failed", "ready"] {
        assert!(is_valid_filter_stage(stage));
    }
    assert!(!is_valid_filter_stage("done"));
    assert!(!is_valid_filter_stage("Ready"));
    assert!(!is_valid_filter_stage(""));
}

#[test]
fn status_rows() {
    let mut v = vod("1", "PT3600S");
    v.title = "An extremely long title that will not fit in the column".to_string();
    let row = queued_row(&v);
    assert_eq!(row.stage, "queued");
    assert_eq!(row.title, "An extremely long title that will not f\u{2026}");
    assert_eq!(row.channel, "chan1");
    assert_eq!(row.date, "2026-01-01");
    assert_eq!(row.outcome, "\u{2014}");
    assert_eq!(row.reason, "\u{2014}");

    let mut short = vod("2", "PT1S");
    short.uploaded_at = "2026".to_string();
    assert_eq!(queued_row(&short).date, "\u{2014}");

    let mut s = status("3", true, false, Some("suspect"), false);
    s.transcription_reason = Some("repeated trigram detected in 200-word window".to_string());
    let meta = ArtifactMetadata {
        schema_version: 1,
        video_id: "3".to_string(),
        source_url: "u".to_string(),
        downloaded_at_epoch_s: 0,
        used_auth_token: false,
        output_file: "audio.m4a".to_string(),
        output_size_bytes: 1,
        stream_name: None,
        selected_bandwidth: None,
        selected_resolution: None,
        selected_codecs: None,
        title: Some("Short".to_string()),
        channel: None,
        uploaded_at: Some("2026-02-03T04:05:06Z".to_string()),
        is_audio_only: true,
    };
    let row = artifact_row(&Some(meta), &Some(s), true);
    assert_eq!(row.stage, "suspect");
    assert_eq!(row.title, "Short");
    assert_eq!(row.channel, "\u{2014}");
    assert_eq!(row.date, "2026-02-03");
    assert_eq!(row.outcome, "suspect");
    assert_eq!(row.reason, "repeated trigram detected in 200-w\u{2026}");

    let mut failed = status("4", true, false, Some("failed"), false);
    failed.last_error = Some("boom".to_string());
    let bare = artifact_row(&None, &Some(failed), false);
    assert_eq!(bare.stage, "failed");
    assert_eq!(bare.title, "\u{2014}");
    assert_eq!(bare.date, "\u{2014}");
    assert_eq!(bare.reason, "boom");

    let none = artifact_row(&None, &None, true);
    assert_eq!(none.stage, "downloaded");
    assert_eq!(none.outcome, "\u{2014}");
    assert_eq!(none.reason, "\u{2014}");
}

#[test]
fn a_vod_moves_through_the_stages() {
    let mut s = ProcessStatus::new("5", "https://www.twitch.tv/videos/5");
    assert_eq!(derive_stage(&Some(s.duplicate()), false), "queued");
    s.record_download(Some("audio.m4a".to_string()), 1);
    assert_eq!(derive_stage(&Some(s.duplicate()), true), "downloaded");
    assert!(needs_transcription(&s, false));

    let mut failed = s.duplicate();
    let _ = failed.record_transcription(&TranscriptionOutcome::Failed { reason: "x".to_string() }, None, 2);
    assert_eq!(derive_stage(&Some(failed.duplicate()), true), "failed");
    assert!(needs_transcription(&failed, false));

    let mut suspect = s.duplicate();
    let _ = suspect.record_transcription(
        &TranscriptionOutcome::Suspect {
            srt_path: "a".to_string(),
            vtt_path: "b".to_string(),
            word_count: 3,
            reason: "r".to_string(),
        },
        Some("transcript.srt".to_string()),
        2,
    );
    assert_eq!(derive_stage(&Some(suspect.duplicate()), true), "suspect");
    assert!(!needs_transcription(&suspect, false));
    assert!(needs_transcription(&suspect, true));

    let mut done = s.duplicate();
    let _ = done.record_transcription(
        &TranscriptionOutcome::Completed { srt_path: "a".to_string(), vtt_path: "b".to_string(), word_count: 900 },
        Some("transcript.srt".to_string()),
        3,
    );
    assert_eq!(derive_stage(&Some(done.duplicate()), true), "ready");
    assert!(!needs_transcription(&done, true));
    let items = vec![
        ("5".to_string(), Some(done)),
        ("6".to_string(), Some(suspect)),
        ("7".to_string(), Some(failed)),
    ];
    assert_eq!(cleanup_candidates(&items), strings(&["5"]));
}

#[test]
fn transcripts_are_reused_only_when_complete() {
    let done = status("1", true, true, Some("completed"), true);
    let pending = status("2", true, false, None, false);
    assert!(transcript_reusable(true, true, &done));
    assert!(!transcript_reusable(true, false, &done));
    assert!(!transcript_reusable(false, true, &done));
    assert!(!transcript_reusable(true, true, &pending));
}
