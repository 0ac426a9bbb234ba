//! The pipeline's decisions: which VODs a queue takes, which queued VODs
//! still need a download, which artifacts still need a transcript, which may
//! be cleaned up, and how each artifact's stage is shown.
use vstd::prelude::*;

use crate::artifact::{ArtifactMetadata, ProcessStatus};
use crate::downloader::opt_view;
use crate::text::{
    chars_of, date_cuttable, date_prefix, date_text, parse_u64, parse_u64_range, push_str,
    string_from, truncatable, truncate, truncated,
};
use crate::twitch::VodEntry;

verus! {

// ---------------------------------------------------------------------------
// Durations
// ---------------------------------------------------------------------------

/// The seconds of an ISO-8601 duration of the form `PT<seconds>S`.
pub open spec fn duration_seconds(d: Seq<char>) -> Option<u64> {
    if d.len() >= 3 && d[0] == 'P' && d[1] == 'T' && d.last() == 'S' {
        parse_u64(d.subrange(2, d.len() - 1))
    } else {
        None
    }
}

/// A duration's seconds, zero when it does not read.
pub open spec fn duration_or_zero(d: Seq<char>) -> u64 {
    match duration_seconds(d) {
        Some(n) => n,
        None => 0,
    }
}

/// Reads a duration written `PT<seconds>S`.
pub fn parse_duration_seconds(duration: &str) -> (r: Option<u64>)
    ensures
        r == duration_seconds(duration@),
{
    let v = chars_of(duration);
    let n = v.len();
    if n >= 3 && v[0] == 'P' && v[1] == 'T' && v[n - 1] == 'S' {
        parse_u64_range(&v, 2, n - 1)
    } else {
        None
    }
}

// ---------------------------------------------------------------------------
// Video id sets
// ---------------------------------------------------------------------------

/// `id` is one of `ids`.
pub open spec fn has_id(ids: Seq<String>, id: Seq<char>) -> bool {
    exists|i: int| 0 <= i < ids.len() && (#[trigger] ids[i])@ == id
}

/// Whether `id` is one of `ids`.
pub fn contains_id(ids: &Vec<String>, id: &String) -> (r: bool)
    ensures
        r == has_id(ids@, id@),
{
    let mut i: usize = 0;
    while i < ids.len()
        invariant
            i <= ids@.len(),
            forall|j: int| 0 <= j < i ==> (#[trigger] ids@[j])@ != id@,
        decreases ids@.len() - i,
    {
        if ids[i] == *id {
            return true;
        }
        i += 1;
    }
    false
}

/// Some entry of `vods` has the video id `id`.
pub open spec fn has_vod(vods: Seq<VodEntry>, id: Seq<char>) -> bool {
    exists|i: int| 0 <= i < vods.len() && (#[trigger] vods[i]).video_id@ == id
}

fn contains_vod(vods: &Vec<VodEntry>, id: &String) -> (r: bool)
    ensures
        r == has_vod(vods@, id@),
{
    let mut i: usize = 0;
    while i < vods.len()
        invariant
            i <= vods@.len(),
            forall|j: int| 0 <= j < i ==> (#[trigger] vods@[j]).video_id@ != id@,
        decreases vods@.len() - i,
    {
        if vods[i].video_id == *id {
            return true;
        }
        i += 1;
    }
    false
}

// ---------------------------------------------------------------------------
// Building queues
// ---------------------------------------------------------------------------

/// A VOD that a queue takes: long enough, and not already an artifact.
pub open spec fn queue_keeps(existing: Seq<String>, min_seconds: u64) -> spec_fn(VodEntry) -> bool {
    |v: VodEntry| duration_or_zero(v.duration@) >= min_seconds && !has_id(existing, v.video_id@)
}

/// A VOD that processing takes: long enough, and either not an artifact yet
/// or an artifact whose media is on disk.
pub open spec fn process_keeps(existing: Seq<String>, with_media: Seq<String>, min_seconds: u64) -> spec_fn(VodEntry) -> bool {
    |v: VodEntry|
        duration_or_zero(v.duration@) >= min_seconds && (!has_id(existing, v.video_id@) || has_id(
            with_media,
            v.video_id@,
        ))
}

/// An existing artifact id that the queue does not hold.
pub open spec fn not_queued(queued: Seq<VodEntry>) -> spec_fn(String) -> bool {
    |id: String| !has_vod(queued, id@)
}

fn keep_for_queue(v: &VodEntry, existing: &Vec<String>, with_media: Option<&Vec<String>>, min_seconds: u64) -> (r: bool)
    ensures
        r == match with_media {
            None => queue_keeps(existing@, min_seconds)(*v),
            Some(m) => process_keeps(existing@, m@, min_seconds)(*v),
        },
{
    let secs = match parse_duration_seconds(v.duration.as_str()) {
        Some(n) => n,
        None => 0,
    };
    if secs < min_seconds {
        return false;
    }
    if !contains_id(existing, &v.video_id) {
        return true;
    }
    match with_media {
        None => false,
        Some(m) => contains_id(m, &v.video_id),
    }
}

/// The existing ids that the queue does not hold, in their order.
fn skipped_ids(existing: &Vec<String>, queued: &Vec<VodEntry>) -> (r: Vec<String>)
    ensures
        r@ == existing@.filter(not_queued(queued@)),
{
    let mut out: Vec<String> = Vec::new();
    let mut i: usize = 0;
    while i < existing.len()
        invariant
            i <= existing@.len(),
            out@ == existing@.take(i as int).filter(not_queued(queued@)),
        decreases existing@.len() - i,
    {
        proof {
            assert(existing@.take(i + 1) == existing@.take(i as int).push(existing@[i as int]));
            existing@.take(i as int).lemma_filter_push(existing@[i as int], not_queued(queued@));
        }
        if !contains_vod(queued, &existing[i]) {
            out.push(existing[i].clone());
        }
        i += 1;
    }
    assert(existing@.take(i as int) == existing@);
    out
}

fn select_vods(vods: &Vec<VodEntry>, existing: &Vec<String>, with_media: Option<&Vec<String>>, min_seconds: u64) -> (r: Vec<VodEntry>)
    ensures
        r@ == match with_media {
            None => vods@.filter(queue_keeps(existing@, min_seconds)),
            Some(m) => vods@.filter(process_keeps(existing@, m@, min_seconds)),
        },
{
    let ghost pred = match with_media {
        None => queue_keeps(existing@, min_seconds),
        Some(m) => process_keeps(existing@, m@, min_seconds),
    };
    let mut out: Vec<VodEntry> = Vec::new();
    let mut i: usize = 0;
    while i < vods.len()
        invariant
            i <= vods@.len(),
            pred == match with_media {
                None => queue_keeps(existing@, min_seconds),
                Some(m) => process_keeps(existing@, m@, min_seconds),
            },
            out@ == vods@.take(i as int).filter(pred),
        decreases vods@.len() - i,
    {
        proof {
            assert(vods@.take(i + 1) == vods@.take(i as int).push(vods@[i as int]));
            vods@.take(i as int).lemma_filter_push(vods@[i as int], pred);
        }
        if keep_for_queue(&vods[i], existing, with_media, min_seconds) {
            out.push(vods[i].duplicate());
        }
        i += 1;
    }
    assert(vods@.take(i as int) == vods@);
    out
}

/// What building a channel's queue decides: the archive VODs to queue (long
/// enough, not already artifacts, in listing order) and the existing artifact
/// ids the queue skips.
pub fn plan_queue(vods: &Vec<VodEntry>, existing_ids: &Vec<String>, min_seconds: u64) -> (r: (
    Vec<VodEntry>,
    Vec<String>,
))
    ensures
        r.0@ == vods@.filter(queue_keeps(existing_ids@, min_seconds)),
        r.1@ == existing_ids@.filter(not_queued(r.0@)),
{
    let queued = select_vods(vods, existing_ids, None, min_seconds);
    let skipped = skipped_ids(existing_ids, &queued);
    (queued, skipped)
}

/// What processing a channel decides: the archive VODs to process (long
/// enough, and new or with their media on disk, in listing order) and the
/// existing artifact ids it skips. `with_media` are the ids whose artifact
/// directory holds a media file.
pub fn plan_process(
    vods: &Vec<VodEntry>,
    existing_ids: &Vec<String>,
    with_media: &Vec<String>,
    min_seconds: u64,
) -> (r: (Vec<VodEntry>, Vec<String>))
    ensures
        r.0@ == vods@.filter(process_keeps(existing_ids@, with_media@, min_seconds)),
        r.1@ == existing_ids@.filter(not_queued(r.0@)),
{
    let queued = select_vods(vods, existing_ids, Some(with_media), min_seconds);
    let skipped = skipped_ids(existing_ids, &queued);
    (queued, skipped)
}

/// The entry that queues one VOD by URL: its length is not known yet, so it
/// is `PT0S`.
pub fn queued_video_entry(
    channel: String,
    title: String,
    url: &str,
    video_id: String,
    uploaded_at: String,
) -> (r: VodEntry)
    ensures
        r.channel == channel,
        r.title == title,
        r.url@ == url@,
        r.video_id == video_id,
        r.uploaded_at == uploaded_at,
        r.duration@ == "PT0S"@,
{
    VodEntry {
        channel,
        title,
        url: string_from(url),
        video_id,
        uploaded_at,
        duration: string_from("PT0S"),
    }
}

/// Adds one VOD to a channel's queue: `None` when a queued entry already has
/// its video id, else the queue with the entry at its end.
pub fn enqueue_video(existing: Vec<VodEntry>, entry: VodEntry) -> (r: Option<Vec<VodEntry>>)
    ensures
        has_vod(existing@, entry.video_id@) ==> r is None,
        !has_vod(existing@, entry.video_id@) ==> (r matches Some(q) && q@ == existing@.push(entry)),
{
    if contains_vod(&existing, &entry.video_id) {
        None
    } else {
        let mut q = existing;
        q.push(entry);
        Some(q)
    }
}


// ---------------------------------------------------------------------------
// Downloads
// ---------------------------------------------------------------------------

/// The ids whose status says the media was downloaded, in order.
pub open spec fn downloaded_ids_of(items: Seq<(String, Option<ProcessStatus>)>) -> Seq<String>
    decreases items.len(),
{
    if items.len() == 0 {
        seq![]
    } else {
        downloaded_ids_of(items.drop_last()) + match items.last().1 {
            Some(s) => if s.downloaded {
                seq![items.last().0]
            } else {
                seq![]
            },
            None => seq![],
        }
    }
}

/// The ids of the artifacts whose status records a download.
pub fn downloaded_ids(items: &Vec<(String, Option<ProcessStatus>)>) -> (r: Vec<String>)
    ensures
        r@ == downloaded_ids_of(items@),
{
    let mut out: Vec<String> = Vec::new();
    let mut i: usize = 0;
    while i < items.len()
        invariant
            i <= items@.len(),
            out@ == downloaded_ids_of(items@.take(i as int)),
        decreases items@.len() - i,
    {
        assert(items@.take(i + 1).drop_last() == items@.take(i as int));
        assert(items@.take(i + 1).last() == items@[i as int]);
        match &items[i].1 {
            Some(s) => {
                if s.downloaded {
                    out.push(items[i].0.clone());
                }
            },
            None => {},
        }
        i += 1;
    }
    assert(items@.take(i as int) == items@);
    out
}

/// A VOD whose id is not among `ids`.
pub open spec fn not_in(ids: Seq<String>) -> spec_fn(VodEntry) -> bool {
    |v: VodEntry| !has_id(ids, v.video_id@)
}

/// The VODs whose id is not among `ids`, in order: the queued VODs still to
/// download (with `ids` the downloaded ones), or the queued VODs without an
/// artifact directory (with `ids` the artifact ids).
pub fn without_ids(vods: &Vec<VodEntry>, ids: &Vec<String>) -> (r: Vec<VodEntry>)
    ensures
        r@ == vods@.filter(not_in(ids@)),
{
    let mut out: Vec<VodEntry> = Vec::new();
    let mut i: usize = 0;
    while i < vods.len()
        invariant
            i <= vods@.len(),
            out@ == vods@.take(i as int).filter(not_in(ids@)),
        decreases vods@.len() - i,
    {
        proof {
            assert(vods@.take(i + 1) == vods@.take(i as int).push(vods@[i as int]));
            vods@.take(i as int).lemma_filter_push(vods@[i as int], not_in(ids@));
        }
        if !contains_id(ids, &vods[i].video_id) {
            out.push(vods[i].duplicate());
        }
        i += 1;
    }
    assert(vods@.take(i as int) == vods@);
    out
}

/// A VOD with the video id `id`.
pub open spec fn vod_with_id(id: Seq<char>) -> spec_fn(VodEntry) -> bool {
    |v: VodEntry| v.video_id@ == id
}

/// Narrows the pending downloads to one video id when one is asked for: the
/// entries with that id, or an error when there is none.
pub fn select_queued_video(pending: Vec<VodEntry>, video_id: Option<&str>) -> (r: Result<
    Vec<VodEntry>,
    String,
>)
    ensures
        match video_id {
            None => r == Ok::<Vec<VodEntry>, String>(pending),
            Some(id) => if pending@.filter(vod_with_id(id@)).len() == 0 {
                r matches Err(m) && m@ == "video ID "@ + id@ + " not found in any queue"@
            } else {
                r matches Ok(v) && v@ == pending@.filter(vod_with_id(id@))
            },
        },
{
    match video_id {
        None => Ok(pending),
        Some(id) => {
            let wanted = string_from(id);
            let mut out: Vec<VodEntry> = Vec::new();
            let mut i: usize = 0;
            while i < pending.len()
                invariant
                    i <= pending@.len(),
                    wanted@ == id@,
                    out@ == pending@.take(i as int).filter(vod_with_id(id@)),
                decreases pending@.len() - i,
            {
                proof {
                    assert(pending@.take(i + 1) == pending@.take(i as int).push(pending@[i as int]));
                    pending@.take(i as int).lemma_filter_push(pending@[i as int], vod_with_id(id@));
                }
                if pending[i].video_id == wanted {
                    out.push(pending[i].duplicate());
                }
                i += 1;
            }
            assert(pending@.take(i as int) == pending@);
            if out.len() == 0 {
                let mut m = string_from("video ID ");
                push_str(&mut m, id);
                push_str(&mut m, " not found in any queue");
                Err(m)
            } else {
                Ok(out)
            }
        },
    }
}

// ---------------------------------------------------------------------------
// Transcriptions
// ---------------------------------------------------------------------------

/// The status records a suspect transcript.
pub open spec fn is_suspect(s: ProcessStatus) -> bool {
    s.transcription_outcome matches Some(o) && o@ == "suspect"@
}

/// An artifact waits for transcription when its media is downloaded and it
/// has no transcript yet and none under suspicion; with `force_suspect`,
/// suspect transcripts are redone too.
pub open spec fn waits_for_transcript(s: ProcessStatus, force_suspect: bool) -> bool {
    s.downloaded && ((!s.transcribed && !is_suspect(s)) || (force_suspect && is_suspect(s)))
}

fn outcome_is(o: &Option<String>, text: &str) -> (r: bool)
    ensures
        r == (o matches Some(x) && x@ == text@),
{
    match o {
        Some(x) => *x == string_from(text),
        None => false,
    }
}

/// Whether an artifact waits for transcription.
pub fn needs_transcription(s: &ProcessStatus, force_suspect: bool) -> (r: bool)
    ensures
        r == waits_for_transcript(*s, force_suspect),
{
    let suspect = outcome_is(&s.transcription_outcome, "suspect");
    s.downloaded && ((!s.transcribed && !suspect) || (force_suspect && suspect))
}

/// The artifacts waiting for transcription, with their statuses, in order.
pub open spec fn transcription_queue(items: Seq<(String, Option<ProcessStatus>)>, force_suspect: bool) -> Seq<(String, ProcessStatus)>
    decreases items.len(),
{
    if items.len() == 0 {
        seq![]
    } else {
        transcription_queue(items.drop_last(), force_suspect) + match items.last().1 {
            Some(s) => if waits_for_transcript(s, force_suspect) {
                seq![(items.last().0, s)]
            } else {
                seq![]
            },
            None => seq![],
        }
    }
}

/// The artifacts that `transcribe-all` works on.
pub fn pending_transcriptions(items: &Vec<(String, Option<ProcessStatus>)>, force_suspect: bool) -> (r: Vec<(String, ProcessStatus)>)
    ensures
        r@ == transcription_queue(items@, force_suspect),
{
    let mut out: Vec<(String, ProcessStatus)> = Vec::new();
    let mut i: usize = 0;
    while i < items.len()
        invariant
            i <= items@.len(),
            out@ == transcription_queue(items@.take(i as int), force_suspect),
        decreases items@.len() - i,
    {
        assert(items@.take(i + 1).drop_last() == items@.take(i as int));
        assert(items@.take(i + 1).last() == items@[i as int]);
        match &items[i].1 {
            Some(s) => {
                if needs_transcription(s, force_suspect) {
                    out.push((items[i].0.clone(), s.duplicate()));
                }
            },
            None => {},
        }
        i += 1;
    }
    assert(items@.take(i as int) == items@);
    out
}

/// A transcription is skipped when both transcript files are on disk and the
/// status says the artifact was transcribed.
pub fn transcript_reusable(srt_exists: bool, vtt_exists: bool, status: &ProcessStatus) -> (r: bool)
    ensures
        r == (srt_exists && vtt_exists && status.transcribed),
{
    srt_exists && vtt_exists && status.transcribed
}

/// An artifact with the video id `id`.
pub open spec fn artifact_with_id(id: Seq<char>) -> spec_fn((String, ProcessStatus)) -> bool {
    |e: (String, ProcessStatus)| e.0@ == id
}

/// Narrows the pending transcriptions to one video id when one is asked for:
/// the artifacts with that id, or an error when there is none.
pub fn select_artifact(pending: Vec<(String, ProcessStatus)>, video_id: Option<&str>) -> (r: Result<
    Vec<(String, ProcessStatus)>,
    String,
>)
    ensures
        match video_id {
            None => r == Ok::<Vec<(String, ProcessStatus)>, String>(pending),
            Some(id) => if pending@.filter(artifact_with_id(id@)).len() == 0 {
                r matches Err(m) && m@ == "video ID "@ + id@ + " not found in any artifact"@
            } else {
                r matches Ok(v) && v@ == pending@.filter(artifact_with_id(id@))
            },
        },
{
    match video_id {
        None => Ok(pending),
        Some(id) => {
            let wanted = string_from(id);
            let mut out: Vec<(String, ProcessStatus)> = Vec::new();
            let mut i: usize = 0;
            while i < pending.len()
                invariant
                    i <= pending@.len(),
                    wanted@ == id@,
                    out@ == pending@.take(i as int).filter(artifact_with_id(id@)),
                decreases pending@.len() - i,
            {
                proof {
                    assert(pending@.take(i + 1) == pending@.take(i as int).push(pending@[i as int]));
                    pending@.take(i as int).lemma_filter_push(pending@[i as int], artifact_with_id(id@));
                }
                if pending[i].0 == wanted {
                    out.push((pending[i].0.clone(), pending[i].1.duplicate()));
                }
                i += 1;
            }
            assert(pending@.take(i as int) == pending@);
            if out.len() == 0 {
                let mut m = string_from("video ID ");
                push_str(&mut m, id);
                push_str(&mut m, " not found in any artifact");
                Err(m)
            } else {
                Ok(out)
            }
        },
    }
}


// ---------------------------------------------------------------------------
// Cleanup
// ---------------------------------------------------------------------------

/// Why the cleanup arguments are refused, if they are: deleting needs either
/// `--all` or `--video-id`, and not both.
pub fn cleanup_args_error(delete: bool, delete_all: bool, video_id: &Option<String>) -> (r: Option<
    String,
>)
    ensures
        (delete && !delete_all && video_id is None) ==> (r matches Some(m) && m@
            == "Error: --delete requires either --all or --video-id <video_id>"@),
        (delete && delete_all && video_id is Some) ==> (r matches Some(m) && m@
            == "Error: Cannot use both --all and --video-id together"@),
        !(delete && (delete_all == video_id is Some)) ==> r is None,
{
    if delete {
        if !delete_all && video_id.is_none() {
            return Some(string_from("Error: --delete requires either --all or --video-id <video_id>"));
        }
        if delete_all && video_id.is_some() {
            return Some(string_from("Error: Cannot use both --all and --video-id together"));
        }
    }
    None
}

/// An artifact may be cleaned up when it is ready for notes and its
/// transcript completed (not suspect, not failed).
pub open spec fn cleanable(s: ProcessStatus) -> bool {
    s.ready_for_notes && (s.transcription_outcome matches Some(o) && o@ == "completed"@)
}

/// The ids of the cleanable artifacts, in order.
pub open spec fn cleanup_candidates_of(items: Seq<(String, Option<ProcessStatus>)>) -> Seq<String>
    decreases items.len(),
{
    if items.len() == 0 {
        seq![]
    } else {
        cleanup_candidates_of(items.drop_last()) + match items.last().1 {
            Some(s) => if cleanable(s) {
                seq![items.last().0]
            } else {
                seq![]
            },
            None => seq![],
        }
    }
}

/// The artifacts whose media and transcript may be deleted.
pub fn cleanup_candidates(items: &Vec<(String, Option<ProcessStatus>)>) -> (r: Vec<String>)
    ensures
        r@ == cleanup_candidates_of(items@),
{
    let mut out: Vec<String> = Vec::new();
    let mut i: usize = 0;
    while i < items.len()
        invariant
            i <= items@.len(),
            out@ == cleanup_candidates_of(items@.take(i as int)),
        decreases items@.len() - i,
    {
        assert(items@.take(i + 1).drop_last() == items@.take(i as int));
        assert(items@.take(i + 1).last() == items@[i as int]);
        match &items[i].1 {
            Some(s) => {
                if s.ready_for_notes && outcome_is(&s.transcription_outcome, "completed") {
                    out.push(items[i].0.clone());
                }
            },
            None => {},
        }
        i += 1;
    }
    assert(items@.take(i as int) == items@);
    out
}

/// An id equal to `id`.
pub open spec fn id_is(id: Seq<char>) -> spec_fn(String) -> bool {
    |s: String| s@ == id
}

/// The candidates a deletion removes: all with `--all`, else those with the
/// given video id; with neither the deletion mode was not validated.
pub fn deletion_targets(candidates: &Vec<String>, delete_all: bool, video_id: &Option<String>) -> (r:
    Result<Vec<String>, String>)
    ensures
        delete_all ==> (r matches Ok(v) && v@ == candidates@),
        !delete_all ==> match video_id {
            Some(id) => r matches Ok(v) && v@ == candidates@.filter(id_is(id@)),
            None => r matches Err(m) && m@ == "Internal error: delete mode not properly validated"@,
        },
{
    if delete_all {
        let mut all: Vec<String> = Vec::new();
        let mut i: usize = 0;
        while i < candidates.len()
            invariant
                i <= candidates@.len(),
                all@ == candidates@.take(i as int),
            decreases candidates@.len() - i,
        {
            all.push(candidates[i].clone());
            assert(candidates@.take(i + 1) == candidates@.take(i as int).push(candidates@[i as int]));
            i += 1;
        }
        assert(candidates@.take(i as int) == candidates@);
        return Ok(all);
    }
    match video_id {
        None => Err(string_from("Internal error: delete mode not properly validated")),
        Some(id) => {
            let mut out: Vec<String> = Vec::new();
            let mut i: usize = 0;
            while i < candidates.len()
                invariant
                    i <= candidates@.len(),
                    out@ == candidates@.take(i as int).filter(id_is(id@)),
                decreases candidates@.len() - i,
            {
                proof {
                    assert(candidates@.take(i + 1) == candidates@.take(i as int).push(candidates@[i as int]));
                    candidates@.take(i as int).lemma_filter_push(candidates@[i as int], id_is(id@));
                }
                if candidates[i] == *id {
                    out.push(candidates[i].clone());
                }
                i += 1;
            }
            assert(candidates@.take(i as int) == candidates@);
            Ok(out)
        },
    }
}

/// The sum of the known sizes.
pub open spec fn size_sum(sizes: Seq<Option<u64>>) -> nat
    decreases sizes.len(),
{
    if sizes.len() == 0 {
        0
    } else {
        size_sum(sizes.drop_last()) + match sizes.last() {
            Some(n) => n as nat,
            None => 0,
        }
    }
}

proof fn lemma_size_sum_grows(sizes: Seq<Option<u64>>, k: int)
    requires
        0 <= k <= sizes.len(),
    ensures
        size_sum(sizes.take(k)) <= size_sum(sizes),
    decreases sizes.len() - k,
{
    if k < sizes.len() {
        lemma_size_sum_grows(sizes, k + 1);
        assert(sizes.take(k + 1).drop_last() == sizes.take(k));
    } else {
        assert(sizes.take(k) == sizes);
    }
}

/// The space that deleting files of these sizes frees (missing files count
/// nothing); `None` when the total does not fit in a `u64`.
pub fn total_size(sizes: &Vec<Option<u64>>) -> (r: Option<u64>)
    ensures
        size_sum(sizes@) <= u64::MAX ==> r == Some(size_sum(sizes@) as u64),
        size_sum(sizes@) > u64::MAX ==> r is None,
{
    let mut total: u64 = 0;
    let mut i: usize = 0;
    while i < sizes.len()
        invariant
            i <= sizes@.len(),
            total == size_sum(sizes@.take(i as int)),
        decreases sizes@.len() - i,
    {
        assert(sizes@.take(i + 1).drop_last() == sizes@.take(i as int));
        assert(sizes@.take(i + 1).last() == sizes@[i as int]);
        match sizes[i] {
            Some(n) => {
                match total.checked_add(n) {
                    Some(t) => {
                        total = t;
                    },
                    None => {
                        proof {
                            lemma_size_sum_grows(sizes@, i + 1);
                        }
                        return None;
                    },
                }
            },
            None => {},
        }
        i += 1;
    }
    assert(sizes@.take(i as int) == sizes@);
    Some(total)
}


// ---------------------------------------------------------------------------
// Status view
// ---------------------------------------------------------------------------

/// The stage an artifact is shown in. Without a status record it is
/// `downloaded` when its media is on disk, else `queued`; with one, in order:
/// not downloaded is `queued`, a failed or suspect transcript is `failed` or
/// `suspect`, ready for notes or transcribed is `ready`, else `downloaded`.
pub open spec fn stage_of(status: Option<ProcessStatus>, has_media: bool) -> Seq<char> {
    match status {
        None => if has_media {
            "downloaded"@
        } else {
            "queued"@
        },
        Some(s) => if !s.downloaded {
            "queued"@
        } else if s.transcription_outcome matches Some(o) && o@ == "failed"@ {
            "failed"@
        } else if s.transcription_outcome matches Some(o) && o@ == "suspect"@ {
            "suspect"@
        } else if s.ready_for_notes || s.transcribed {
            "ready"@
        } else {
            "downloaded"@
        },
    }
}

/// The stage of an artifact, given its status record and whether its media
/// file is on disk.
pub fn derive_stage(status: &Option<ProcessStatus>, has_media: bool) -> (r: &'static str)
    ensures
        r@ == stage_of(*status, has_media),
{
    match status {
        None => if has_media {
            "downloaded"
        } else {
            "queued"
        },
        Some(s) => {
            if !s.downloaded {
                "queued"
            } else if outcome_is(&s.transcription_outcome, "failed") {
                "failed"
            } else if outcome_is(&s.transcription_outcome, "suspect") {
                "suspect"
            } else if s.ready_for_notes {
                "ready"
            } else if s.transcribed {
                "ready"
            } else {
                "downloaded"
            }
        },
    }
}

/// One row of the status table.
pub struct StatusRow {
    pub stage: String,
    pub title: String,
    pub channel: String,
    pub date: String,
    pub outcome: String,
    pub reason: String,
}

/// The row of a VOD that is queued but has no artifact directory.
pub fn queued_row(vod: &VodEntry) -> (r: StatusRow)
    requires
        truncatable(vod.title@, 40),
        truncatable(vod.channel@, 14),
        date_cuttable(vod.uploaded_at@),
    ensures
        r.stage@ == "queued"@,
        r.title@ == truncated(vod.title@, 40),
        r.channel@ == truncated(vod.channel@, 14),
        r.date@ == date_text(vod.uploaded_at@),
        r.outcome@ == "\u{2014}"@,
        r.reason@ == "\u{2014}"@,
{
    StatusRow {
        stage: string_from("queued"),
        title: truncate(vod.title.as_str(), 40),
        channel: truncate(vod.channel.as_str(), 14),
        date: date_prefix(vod.uploaded_at.as_str()),
        outcome: string_from("\u{2014}"),
        reason: string_from("\u{2014}"),
    }
}

/// A text, or a dash when there is none.
pub open spec fn or_dash(o: Option<Seq<char>>) -> Seq<char> {
    match o {
        Some(s) => s,
        None => "\u{2014}"@,
    }
}

pub open spec fn meta_title(m: Option<ArtifactMetadata>) -> Option<Seq<char>> {
    match m {
        Some(md) => opt_view(md.title),
        None => None,
    }
}

pub open spec fn meta_channel(m: Option<ArtifactMetadata>) -> Option<Seq<char>> {
    match m {
        Some(md) => opt_view(md.channel),
        None => None,
    }
}

pub open spec fn meta_uploaded(m: Option<ArtifactMetadata>) -> Seq<char> {
    match m {
        Some(md) => match md.uploaded_at {
            Some(u) => u@,
            None => seq![],
        },
        None => seq![],
    }
}

pub open spec fn status_outcome(s: Option<ProcessStatus>) -> Option<Seq<char>> {
    match s {
        Some(st) => opt_view(st.transcription_outcome),
        None => None,
    }
}

/// Why an artifact is where it is: the transcription's reason, else the
/// last error.
pub open spec fn status_reason(s: Option<ProcessStatus>) -> Option<Seq<char>> {
    match s {
        Some(st) => match st.transcription_reason {
            Some(r) => Some(r@),
            None => opt_view(st.last_error),
        },
        None => None,
    }
}

/// The texts of an artifact's row can be cut to their columns.
pub open spec fn row_cuttable(metadata: Option<ArtifactMetadata>, status: Option<ProcessStatus>) -> bool {
    &&& truncatable(or_dash(meta_title(metadata)), 40)
    &&& truncatable(or_dash(meta_channel(metadata)), 14)
    &&& date_cuttable(meta_uploaded(metadata))
    &&& truncatable(or_dash(status_reason(status)), 35)
}

fn text_or_dash(o: &Option<String>) -> (r: String)
    ensures
        r@ == or_dash(opt_view(*o)),
{
    match o {
        Some(s) => s.clone(),
        None => string_from("\u{2014}"),
    }
}

/// The row of an artifact directory, from its metadata and status records
/// (when they could be read) and whether its media file is on disk.
pub fn artifact_row(metadata: &Option<ArtifactMetadata>, status: &Option<ProcessStatus>, has_media: bool) -> (r: StatusRow)
    requires
        row_cuttable(*metadata, *status),
    ensures
        r.stage@ == stage_of(*status, has_media),
        r.title@ == truncated(or_dash(meta_title(*metadata)), 40),
        r.channel@ == truncated(or_dash(meta_channel(*metadata)), 14),
        r.date@ == date_text(meta_uploaded(*metadata)),
        r.outcome@ == or_dash(status_outcome(*status)),
        r.reason@ == truncated(or_dash(status_reason(*status)), 35),
{
    let (title, channel, uploaded) = match metadata {
        Some(m) => (text_or_dash(&m.title), text_or_dash(&m.channel), match &m.uploaded_at {
            Some(u) => u.clone(),
            None => String::new(),
        }),
        None => (string_from("\u{2014}"), string_from("\u{2014}"), String::new()),
    };
    let outcome = match status {
        Some(s) => text_or_dash(&s.transcription_outcome),
        None => string_from("\u{2014}"),
    };
    let reason = match status {
        Some(s) => match &s.transcription_reason {
            Some(x) => x.clone(),
            None => text_or_dash(&s.last_error),
        },
        None => string_from("\u{2014}"),
    };
    let stage = derive_stage(status, has_media);
    StatusRow {
        stage: string_from(stage),
        title: truncate(title.as_str(), 40),
        channel: truncate(channel.as_str(), 14),
        date: date_prefix(uploaded.as_str()),
        outcome,
        reason: truncate(reason.as_str(), 35),
    }
}

} // verus!
