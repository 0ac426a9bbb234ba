//! Properties that hold across the library's operations.
use vstd::prelude::*;

use crate::artifact::{
    after_transcription, entry_names, insert_by_name_spec, insert_id_spec, sorted_artifacts,
    sorted_ids, ProcessStatus,
};
use crate::cli::QualityPreference;
use crate::downloader::{has_audio_only, high_key, is_preferred, low_key, StreamView};
use crate::pipeline::{
    cleanable, cleanup_candidates_of, downloaded_ids_of, duration_or_zero, duration_seconds, has_id,
    has_vod, id_is,
    not_in, not_queued, process_keeps, queue_keeps, stage_of, transcription_queue,
    waits_for_transcript,
};
use crate::bindings::{video_id_in, video_id_span};
use crate::text::{all_digits, decimal, is_digit, lemma_parse_decimal, occurs_at, seq_lt, trim};
use crate::transcribe::{vtt_line, vtt_lines};
use crate::transcribe::TranscriptionOutcome;
use crate::twitch::VodEntry;
use crate::valid_filter_stage;

verus! {

proof fn lemma_outcome_words_differ()
    ensures
        "completed"@ != "suspect"@,
        "completed"@ != "failed"@,
        "suspect"@ != "failed"@,
{
    reveal_strlit("completed");
    reveal_strlit("suspect");
    reveal_strlit("failed");
    assert("completed"@.len() != "suspect"@.len());
    assert("completed"@.len() != "failed"@.len());
    assert("suspect"@.len() != "failed"@.len());
}

/// Every stage the status view shows is one a status filter accepts.
pub proof fn law_stage_is_filterable(status: Option<ProcessStatus>, has_media: bool)
    ensures
        valid_filter_stage(stage_of(status, has_media)),
{
}

/// A VOD's stage follows its status through the pipeline: a fresh status is
/// `queued`; once its media is recorded (and nothing else happened) it is
/// `downloaded`.
pub proof fn law_fresh_and_downloaded_stages(fresh: ProcessStatus, downloaded: ProcessStatus, has_media: bool)
    requires
        !fresh.downloaded,
        downloaded.downloaded,
        downloaded.transcription_outcome is None,
        !downloaded.ready_for_notes,
        !downloaded.transcribed,
    ensures
        stage_of(Some(fresh), has_media) == "queued"@,
        stage_of(Some(downloaded), has_media) == "downloaded"@,
{
}

/// What a transcription attempt leaves behind, for a downloaded VOD: a
/// completed transcript makes it `ready`, a cleanup candidate, and not
/// transcribed again (even when suspects are forced); a suspect one shows as
/// `suspect`, is no cleanup candidate, and is redone only when forced; a
/// failed one shows as `failed`, is no cleanup candidate, and is retried.
pub proof fn law_transcription_outcome_stage(
    old: ProcessStatus,
    new: ProcessStatus,
    outcome: TranscriptionOutcome,
    transcript_file: Option<String>,
    has_media: bool,
)
    requires
        old.downloaded,
        after_transcription(old, new, outcome, transcript_file),
    ensures
        outcome is Completed ==> {
            &&& stage_of(Some(new), has_media) == "ready"@
            &&& cleanable(new)
            &&& !waits_for_transcript(new, false)
            &&& !waits_for_transcript(new, true)
        },
        outcome is Suspect ==> {
            &&& stage_of(Some(new), has_media) == "suspect"@
            &&& !cleanable(new)
            &&& !waits_for_transcript(new, false)
            &&& waits_for_transcript(new, true)
        },
        outcome is Failed ==> {
            &&& stage_of(Some(new), has_media) == "failed"@
            &&& !cleanable(new)
            &&& waits_for_transcript(new, false)
        },
{
    lemma_outcome_words_differ();
}

/// A queue holds only VODs that are long enough and are not artifacts yet,
/// so every existing artifact id is recorded as skipped.
pub proof fn law_queue_excludes_existing(vods: Seq<VodEntry>, existing: Seq<String>, min_seconds: u64)
    ensures
        forall|i: int|
            0 <= i < vods.filter(queue_keeps(existing, min_seconds)).len() ==> {
                let v = #[trigger] vods.filter(queue_keeps(existing, min_seconds))[i];
                &&& !has_id(existing, v.video_id@)
                &&& duration_or_zero(v.duration@) >= min_seconds
            },
        existing.filter(not_queued(vods.filter(queue_keeps(existing, min_seconds)))) == existing,
{
    let q = vods.filter(queue_keeps(existing, min_seconds));
    broadcast use vstd::seq_lib::group_filter_ensures;

    assert forall|i: int| 0 <= i < q.len() implies {
        let v = #[trigger] q[i];
        &&& !has_id(existing, v.video_id@)
        &&& duration_or_zero(v.duration@) >= min_seconds
    } by {
        vods.lemma_filter_pred(queue_keeps(existing, min_seconds), i);
    }
    assert forall|k: int| 0 <= k < existing.len() implies #[trigger] not_queued(q)(existing[k]) by {
        if has_vod(q, existing[k]@) {
            let j = choose|j: int| 0 <= j < q.len() && (#[trigger] q[j]).video_id@ == existing[k]@;
            vods.lemma_filter_pred(queue_keeps(existing, min_seconds), j);
        }
    }
    lemma_filter_keeps_all(existing, not_queued(q));
}

proof fn lemma_filter_keeps_all<A>(s: Seq<A>, pred: spec_fn(A) -> bool)
    requires
        forall|k: int| 0 <= k < s.len() ==> #[trigger] pred(s[k]),
    ensures
        s.filter(pred) == s,
    decreases s.len(),
{
    reveal(Seq::filter);
    if s.len() > 0 {
        lemma_filter_keeps_all(s.drop_last(), pred);
        assert(s.drop_last().push(s.last()) == s);
    }
}

/// Queueing one VOD is idempotent: once an entry is queued, queueing an
/// entry with the same video id finds it there.
pub proof fn law_enqueue_idempotent(queue: Seq<VodEntry>, entry: VodEntry, again: VodEntry)
    requires
        again.video_id@ == entry.video_id@,
    ensures
        has_vod(queue.push(entry), again.video_id@),
{
    assert(queue.push(entry)[queue.len() as int] == entry);
}

/// The durations that archive listings are written with read back to their
/// seconds.
pub proof fn law_duration_roundtrip(seconds: u64)
    ensures
        duration_seconds("PT"@ + decimal(seconds as nat) + "S"@) == Some(seconds),
{
    reveal_strlit("PT");
    reveal_strlit("S");
    let d = "PT"@ + decimal(seconds as nat) + "S"@;
    crate::text::lemma_decimal_digits(seconds as nat);
    assert(d.subrange(2, d.len() - 1) == decimal(seconds as nat));
    lemma_parse_decimal(seconds);
}

/// An id counts as downloaded exactly when some status record with that id
/// says the media was downloaded.
pub proof fn law_downloaded_ids(items: Seq<(String, Option<ProcessStatus>)>, id: Seq<char>)
    ensures
        has_id(downloaded_ids_of(items), id) <==> exists|j: int|
            0 <= j < items.len() && (#[trigger] items[j]).0@ == id && (items[j].1 matches Some(s)
                && s.downloaded),
    decreases items.len(),
{
    if items.len() > 0 {
        let init = items.drop_last();
        law_downloaded_ids(init, id);
        let ids = downloaded_ids_of(items);
        let prev = downloaded_ids_of(init);
        if has_id(prev, id) {
            let k = choose|k: int| 0 <= k < prev.len() && (#[trigger] prev[k])@ == id;
            assert(ids[k] == prev[k]);
            let j = choose|j: int|
                0 <= j < init.len() && (#[trigger] init[j]).0@ == id && (init[j].1 matches Some(s)
                    && s.downloaded);
            assert(items[j] == init[j]);
        }
        if exists|j: int|
            0 <= j < items.len() && (#[trigger] items[j]).0@ == id && (items[j].1 matches Some(s)
                && s.downloaded) {
            let j = choose|j: int|
                0 <= j < items.len() && (#[trigger] items[j]).0@ == id && (items[j].1 matches Some(
                    s,
                ) && s.downloaded);
            if j < init.len() {
                assert(init[j] == items[j]);
                let k = choose|k: int| 0 <= k < prev.len() && (#[trigger] prev[k])@ == id;
                assert(ids[k] == prev[k]);
            } else {
                assert(ids[ids.len() - 1] == items.last().0);
            }
        }
        if has_id(ids, id) {
            let k = choose|k: int| 0 <= k < ids.len() && (#[trigger] ids[k])@ == id;
            if k < prev.len() {
                assert(ids[k] == prev[k]);
            } else {
                assert(items[items.len() - 1] == items.last());
            }
        }
    }
}

/// The VODs still to download are exactly the queued VODs, in order, whose
/// ids no status record marks as downloaded.
pub proof fn law_pending_downloads(queued: Seq<VodEntry>, items: Seq<(String, Option<ProcessStatus>)>, i: int)
    requires
        0 <= i < queued.filter(not_in(downloaded_ids_of(items))).len(),
    ensures
        ({
            let v = queued.filter(not_in(downloaded_ids_of(items)))[i];
            &&& queued.contains(v)
            &&& !exists|j: int|
                0 <= j < items.len() && (#[trigger] items[j]).0@ == v.video_id@ && (
                items[j].1 matches Some(s) && s.downloaded)
        }),
{
    broadcast use vstd::seq_lib::group_filter_ensures;

    let f = queued.filter(not_in(downloaded_ids_of(items)));
    queued.lemma_filter_pred(not_in(downloaded_ids_of(items)), i);
    law_downloaded_ids(items, f[i].video_id@);
    lemma_filter_subset(queued, not_in(downloaded_ids_of(items)), i);
}

proof fn lemma_filter_subset<A>(s: Seq<A>, pred: spec_fn(A) -> bool, i: int)
    requires
        0 <= i < s.filter(pred).len(),
    ensures
        s.contains(s.filter(pred)[i]),
    decreases s.len(),
{
    reveal(Seq::filter);
    if s.len() > 0 {
        let init = s.drop_last();
        if i < init.filter(pred).len() {
            lemma_filter_subset(init, pred, i);
            let k = choose|k: int| 0 <= k < init.len() && init[k] == init.filter(pred)[i];
            assert(s[k] == init[k]);
        } else {
            assert(s[s.len() - 1] == s.last());
        }
    }
}

/// Deletion only ever touches cleanup candidates, and every candidate is
/// ready for notes with a completed transcript.
pub proof fn law_cleanup_deletes_candidates(items: Seq<(String, Option<ProcessStatus>)>, id: Seq<char>, i: int)
    requires
        0 <= i < cleanup_candidates_of(items).filter(id_is(id)).len(),
    ensures
        ({
            let target = cleanup_candidates_of(items).filter(id_is(id))[i];
            &&& target@ == id
            &&& exists|j: int|
                0 <= j < items.len() && (#[trigger] items[j]).0 == target && (items[j].1 matches Some(
                    s,
                ) && cleanable(s))
        }),
{
    broadcast use vstd::seq_lib::group_filter_ensures;

    let c = cleanup_candidates_of(items);
    c.lemma_filter_pred(id_is(id), i);
    lemma_filter_subset(c, id_is(id), i);
    let k = choose|k: int| 0 <= k < c.len() && c[k] == c.filter(id_is(id))[i];
    lemma_candidate_is_cleanable(items, k);
}

proof fn lemma_candidate_is_cleanable(items: Seq<(String, Option<ProcessStatus>)>, k: int)
    requires
        0 <= k < cleanup_candidates_of(items).len(),
    ensures
        exists|j: int|
            0 <= j < items.len() && (#[trigger] items[j]).0 == cleanup_candidates_of(items)[k] && (
            items[j].1 matches Some(s) && cleanable(s)),
    decreases items.len(),
{
    let init = items.drop_last();
    let prev = cleanup_candidates_of(init);
    if k < prev.len() {
        lemma_candidate_is_cleanable(init, k);
        let j = choose|j: int|
            0 <= j < init.len() && (#[trigger] init[j]).0 == prev[k] && (init[j].1 matches Some(s)
                && cleanable(s));
        assert(items[j] == init[j]);
        assert(cleanup_candidates_of(items)[k] == prev[k]);
    } else {
        assert(items[items.len() - 1] == items.last());
    }
}

/// The preference picks a single variant.
pub proof fn law_preferred_variant_unique(vs: Seq<StreamView>, i: int, j: int, pref: QualityPreference)
    requires
        is_preferred(vs, i, pref),
        is_preferred(vs, j, pref),
    ensures
        i == j,
{
    match pref {
        QualityPreference::Highest => {
            assert(high_key(vs[i]) <= high_key(vs[j]));
            assert(high_key(vs[j]) <= high_key(vs[i]));
        },
        _ => {
            assert(low_key(vs[i]) <= low_key(vs[j]));
            assert(low_key(vs[j]) <= low_key(vs[i]));
        },
    }
}

/// With the audio-only preference, the chosen variant is audio-only whenever
/// any variant is.
pub proof fn law_audio_only_preferred(vs: Seq<StreamView>, i: int)
    requires
        is_preferred(vs, i, QualityPreference::AudioOnly),
        has_audio_only(vs),
    ensures
        vs[i].is_audio_only,
{
}

proof fn lemma_names_of_insert<T>(s: Seq<(String, T)>, x: (String, T))
    ensures
        entry_names(insert_by_name_spec(s, x)) == insert_id_spec(entry_names(s), x.0),
    decreases s.len(),
{
    let n = entry_names(s);
    if s.len() == 0 {
        assert(entry_names(seq![x]) =~= seq![x.0]);
    } else {
        assert(n[0] == s[0].0);
        assert(n.drop_first() =~= entry_names(s.drop_first()));
        if seq_lt(x.0@, s[0].0@) {
            assert(entry_names(seq![x] + s) =~= seq![x.0] + n);
        } else {
            lemma_names_of_insert(s.drop_first(), x);
            let rest = insert_by_name_spec(s.drop_first(), x);
            assert(entry_names(seq![s[0]] + rest) =~= seq![s[0].0] + entry_names(rest));
        }
    }
}

/// The artifact scan and the list of existing artifact ids agree: over the
/// same directory listing, the scan's entries carry exactly the existing ids,
/// in the same order, whatever status each entry carries.
pub proof fn law_scan_ids_are_existing_ids<T>(entries: Seq<(String, T)>)
    ensures
        entry_names(sorted_artifacts(entries)) == sorted_ids(entry_names(entries)),
    decreases entries.len(),
{
    if entries.len() > 0 {
        let n = entry_names(entries);
        assert(n[0] == entries[0].0);
        assert(n.drop_first() =~= entry_names(entries.drop_first()));
        law_scan_ids_are_existing_ids(entries.drop_first());
        if all_digits(entries[0].0@) {
            lemma_names_of_insert(sorted_artifacts(entries.drop_first()), entries[0]);
        }
    }
}

/// The video id of a Twitch URL is every digit after its first
/// `twitch.tv/videos/`: when those are the ASCII digits `url[i + 17 .. e]`,
/// running to the end or to an ASCII non-digit, the id is exactly them,
/// however many there are (and `extract_video_id` returns it).
pub proof fn law_video_id_is_whole_digit_run(url: Seq<char>, i: int, e: int)
    requires
        video_id_span(url, i, e),
    ensures
        video_id_in(url) == Some(url.subrange(i + 17, e)),
        forall|k: int| 0 <= k < e - i - 17 ==> is_digit(#[trigger] video_id_in(url)->0[k]),
{
    let (i2, e2) = choose|i2: int, e2: int| video_id_span(url, i2, e2);
    assert(video_id_span(url, i2, e2));
    if i2 < i {
        assert(occurs_at(url, crate::bindings::video_path_marker(), i2));
    }
    if i < i2 {
        assert(occurs_at(url, crate::bindings::video_path_marker(), i));
    }
    assert(i2 == i);
    if e2 < e {
        assert(is_digit(url[e2]));
    }
    if e < e2 {
        assert(is_digit(url[e]));
    }
    assert(e2 == e);
    assert forall|k: int| 0 <= k < e - i - 17 implies is_digit(
        #[trigger] video_id_in(url)->0[k],
    ) by {
        assert(video_id_in(url)->0[k] == url[i + 17 + k]);
    }
}

/// Processing a channel takes exactly the archive VODs that are long enough
/// and either have no artifact yet or have their media on disk: each such
/// VOD is in the plan, and the plan holds no other.
pub proof fn law_process_plan_exact(
    vods: Seq<VodEntry>,
    existing: Seq<String>,
    with_media: Seq<String>,
    min_seconds: u64,
    i: int,
)
    requires
        0 <= i < vods.len(),
    ensures
        (duration_or_zero(vods[i].duration@) >= min_seconds && (!has_id(existing, vods[i].video_id@)
            || has_id(with_media, vods[i].video_id@))) ==> vods.filter(
            process_keeps(existing, with_media, min_seconds),
        ).contains(vods[i]),
        forall|k: int|
            0 <= k < vods.filter(process_keeps(existing, with_media, min_seconds)).len() ==> {
                let v = #[trigger] vods.filter(process_keeps(existing, with_media, min_seconds))[k];
                &&& vods.contains(v)
                &&& duration_or_zero(v.duration@) >= min_seconds
                &&& (!has_id(existing, v.video_id@) || has_id(with_media, v.video_id@))
            },
{
    let p = process_keeps(existing, with_media, min_seconds);
    if duration_or_zero(vods[i].duration@) >= min_seconds && (!has_id(existing, vods[i].video_id@)
        || has_id(with_media, vods[i].video_id@)) {
        vods.lemma_filter_contains(p, i);
    }
    assert forall|k: int| 0 <= k < vods.filter(p).len() implies {
        let v = #[trigger] vods.filter(p)[k];
        &&& vods.contains(v)
        &&& duration_or_zero(v.duration@) >= min_seconds
        &&& (!has_id(existing, v.video_id@) || has_id(with_media, v.video_id@))
    } by {
        vods.lemma_filter_pred(p, k);
        lemma_filter_subset(vods, p, k);
    }
}

/// A channel's queue takes every archive VOD that is long enough and has no
/// artifact yet.
pub proof fn law_queue_takes_new_vods(vods: Seq<VodEntry>, existing: Seq<String>, min_seconds: u64, i: int)
    requires
        0 <= i < vods.len(),
        duration_or_zero(vods[i].duration@) >= min_seconds,
        !has_id(existing, vods[i].video_id@),
    ensures
        vods.filter(queue_keeps(existing, min_seconds)).contains(vods[i]),
{
    vods.lemma_filter_contains(queue_keeps(existing, min_seconds), i);
}

/// The VODs left after removing some ids are exactly the VODs whose id is not
/// among them, whatever else they hold (a VOD queued by URL with length
/// `PT0S` included): each such VOD stays, and no other.
pub proof fn law_without_ids_exact(vods: Seq<VodEntry>, ids: Seq<String>, i: int)
    requires
        0 <= i < vods.len(),
    ensures
        !has_id(ids, vods[i].video_id@) ==> vods.filter(not_in(ids)).contains(vods[i]),
        forall|k: int|
            0 <= k < vods.filter(not_in(ids)).len() ==> {
                let v = #[trigger] vods.filter(not_in(ids))[k];
                &&& vods.contains(v)
                &&& !has_id(ids, v.video_id@)
            },
{
    if !has_id(ids, vods[i].video_id@) {
        vods.lemma_filter_contains(not_in(ids), i);
    }
    assert forall|k: int| 0 <= k < vods.filter(not_in(ids)).len() implies {
        let v = #[trigger] vods.filter(not_in(ids))[k];
        &&& vods.contains(v)
        &&& !has_id(ids, v.video_id@)
    } by {
        vods.lemma_filter_pred(not_in(ids), k);
        lemma_filter_subset(vods, not_in(ids), k);
    }
}

/// A status that `transcribe-all` works on: downloaded, not transcribed and
/// not suspect; with `force_suspect`, a downloaded suspect one too.
pub open spec fn retranscribable(s: ProcessStatus, force_suspect: bool) -> bool {
    let suspect = s.transcription_outcome matches Some(o) && o@ == "suspect"@;
    s.downloaded && ((!s.transcribed && !suspect) || (force_suspect && suspect))
}

/// The artifacts waiting for transcription are exactly those whose status is
/// downloaded, not transcribed and not suspect (a failed transcription is
/// retried), or, when suspects are forced, suspect: each such artifact is in
/// the list with its status, and the list holds no other.
pub proof fn law_pending_transcriptions_exact(
    items: Seq<(String, Option<ProcessStatus>)>,
    force_suspect: bool,
    j: int,
)
    requires
        0 <= j < items.len(),
    ensures
        (items[j].1 matches Some(s) && retranscribable(s, force_suspect)) ==> transcription_queue(
            items,
            force_suspect,
        ).contains((items[j].0, items[j].1->0)),
        forall|k: int|
            0 <= k < transcription_queue(items, force_suspect).len() ==> {
                let e = #[trigger] transcription_queue(items, force_suspect)[k];
                &&& items.contains((e.0, Some(e.1)))
                &&& retranscribable(e.1, force_suspect)
            },
    decreases items.len(),
{
    let init = items.drop_last();
    let q = transcription_queue(items, force_suspect);
    let qi = transcription_queue(init, force_suspect);
    assert(items.len() > 0);
    if j < init.len() {
        assert(init[j] == items[j]);
        law_pending_transcriptions_exact(init, force_suspect, j);
        if items[j].1 is Some && retranscribable(items[j].1->0, force_suspect) {
            let x = (items[j].0, items[j].1->0);
            let m = choose|m: int| 0 <= m < qi.len() && qi[m] == x;
            assert(q[m] == qi[m]);
        }
    } else {
        if items[j].1 is Some && retranscribable(items[j].1->0, force_suspect) {
            assert(waits_for_transcript(items[j].1->0, force_suspect));
            assert(q[q.len() - 1] == (items[j].0, items[j].1->0));
        }
    }
    if init.len() > 0 {
        law_pending_transcriptions_exact(init, force_suspect, 0);
    }
    assert forall|k: int| 0 <= k < q.len() implies {
        let e = #[trigger] q[k];
        &&& items.contains((e.0, Some(e.1)))
        &&& retranscribable(e.1, force_suspect)
    } by {
        if k < qi.len() {
            assert(q[k] == qi[k]);
            let e = qi[k];
            let m = choose|m: int| 0 <= m < init.len() && init[m] == (e.0, Some(e.1));
            assert(items[m] == init[m]);
        } else {
            assert(items[items.len() - 1] == items.last());
        }
    }
}

/// A cue number (a line that, trimmed, is one or more ASCII digits, however
/// many) adds nothing to the WebVTT text.
pub proof fn law_cue_number_dropped(line: Seq<char>)
    requires
        trim(line).len() > 0,
        all_digits(trim(line)),
    ensures
        vtt_line(line) == Seq::<char>::empty(),
{
}

proof fn lemma_vtt_lines_concat(a: Seq<Seq<char>>, b: Seq<Seq<char>>)
    ensures
        vtt_lines(a + b) == vtt_lines(a) + vtt_lines(b),
    decreases b.len(),
{
    if b.len() == 0 {
        assert(a + b == a);
        assert(vtt_lines(a) + vtt_lines(b) == vtt_lines(a));
    } else {
        assert((a + b).drop_last() == a + b.drop_last());
        assert((a + b).last() == b.last());
        lemma_vtt_lines_concat(a, b.drop_last());
        assert(vtt_lines(a) + vtt_lines(b.drop_last()) + vtt_line(b.last()) == vtt_lines(a) + (
        vtt_lines(b.drop_last()) + vtt_line(b.last())));
    }
}

/// Removing a cue-number line anywhere in a transcript leaves its WebVTT text
/// unchanged: cue numbers, whatever their number of digits, never reach it.
pub proof fn law_cue_numbers_never_reach_vtt(before: Seq<Seq<char>>, cue: Seq<char>, after: Seq<Seq<char>>)
    requires
        trim(cue).len() > 0,
        all_digits(trim(cue)),
    ensures
        vtt_lines(before + seq![cue] + after) == vtt_lines(before + after),
{
    lemma_vtt_lines_concat(before + seq![cue], after);
    lemma_vtt_lines_concat(before, seq![cue]);
    lemma_vtt_lines_concat(before, after);
    assert(seq![cue].drop_last() == Seq::<Seq<char>>::empty());
    assert(vtt_lines(Seq::<Seq<char>>::empty()) == Seq::<char>::empty());
    assert(vtt_line(cue) == Seq::<char>::empty());
    assert(vtt_lines(seq![cue]) == vtt_lines(Seq::<Seq<char>>::empty()) + vtt_line(cue));
    assert(vtt_lines(before) + vtt_lines(seq![cue]) == vtt_lines(before));
}

} // verus!
