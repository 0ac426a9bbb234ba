//! The per-VOD artifact records: download metadata, queue files and the
//! processing status, with the transitions the pipeline makes on a status and
//! the choices it makes among artifact directories.
use vstd::prelude::*;

use crate::bindings::now_epoch_s;
use crate::downloader::{clone_opt_string, opt_view, StreamInfo};
use crate::text::{
    all_digits, all_digits_in_range, chars_of, lemma_seq_lt_total, lemma_seq_lt_trans,
    lower_seq, push_char, push_str, seq_le, seq_lt, string_from, string_lt, to_ascii_lowercase,
};
use crate::transcribe::TranscriptionOutcome;
use crate::twitch::VodEntry;

verus! {

broadcast use vstd::seq_lib::to_multiset_insert, vstd::seq_lib::to_multiset_build;

/// What a download leaves behind, written as `metadata.json`.
#[derive(Debug)]
pub struct ArtifactMetadata {
    pub schema_version: u32,
    pub video_id: String,
    pub source_url: String,
    pub downloaded_at_epoch_s: u64,
    pub used_auth_token: bool,
    pub output_file: String,
    pub output_size_bytes: u64,
    pub stream_name: Option<String>,
    pub selected_bandwidth: Option<u64>,
    pub selected_resolution: Option<String>,
    pub selected_codecs: Option<String>,
    pub title: Option<String>,
    pub channel: Option<String>,
    pub uploaded_at: Option<String>,
    pub is_audio_only: bool,
}

impl ArtifactMetadata {
    /// The metadata of a finished download: the stream's details, the
    /// VOD's title, channel and upload time when known, and the clock's time.
    pub fn from_download(
        video_id: &str,
        source_url: &str,
        output_file: &str,
        output_size_bytes: u64,
        stream: &StreamInfo,
        used_auth_token: bool,
        vod_context: Option<(&str, &str, &str)>,
    ) -> (r: Self)
        ensures
            r.schema_version == 1,
            r.video_id@ == video_id@,
            r.source_url@ == source_url@,
            r.used_auth_token == used_auth_token,
            r.output_file@ == output_file@,
            r.output_size_bytes == output_size_bytes,
            r.stream_name == stream.name,
            r.selected_bandwidth == stream.bandwidth,
            r.selected_resolution == stream.resolution,
            r.selected_codecs == stream.codecs,
            r.is_audio_only == stream.is_audio_only,
            match vod_context {
                Some((t, c, u)) => opt_view(r.title) == Some(t@) && opt_view(r.channel) == Some(
                    c@,
                ) && opt_view(r.uploaded_at) == Some(u@),
                None => r.title is None && r.channel is None && r.uploaded_at is None,
            },
    {
        let downloaded_at_epoch_s = now_epoch_s();
        let (title, channel, uploaded_at) = match vod_context {
            Some((t, c, u)) => (Some(string_from(t)), Some(string_from(c)), Some(string_from(u))),
            None => (None, None, None),
        };
        ArtifactMetadata {
            schema_version: 1,
            video_id: string_from(video_id),
            source_url: string_from(source_url),
            downloaded_at_epoch_s,
            used_auth_token,
            output_file: string_from(output_file),
            output_size_bytes,
            stream_name: clone_opt_string(&stream.name),
            selected_bandwidth: stream.bandwidth,
            selected_resolution: clone_opt_string(&stream.resolution),
            selected_codecs: clone_opt_string(&stream.codecs),
            title,
            channel,
            uploaded_at,
            is_audio_only: stream.is_audio_only,
        }
    }
}

/// The text of `source_url.txt`: the URL and a line break.
pub fn source_url_line(source_url: &str) -> (r: String)
    ensures
        r@ == source_url@.push('\n'),
{
    let mut r = string_from(source_url);
    push_char(&mut r, '\n');
    r
}

/// A channel's queue, written as `queues/<channel>.json`.
#[derive(Debug)]
pub struct QueueFile {
    pub schema_version: u32,
    pub channel: String,
    pub generated_at_epoch_s: u64,
    pub past_broadcasts_only: bool,
    pub min_seconds: u64,
    pub queued_count: usize,
    pub queued: Vec<VodEntry>,
    pub skipped_existing_ids: Vec<String>,
}

/// The file name of a channel's queue: the channel in lower case, `.json`.
pub fn queue_file_name(channel: &str) -> (r: String)
    ensures
        r@ == lower_seq(channel@) + ".json"@,
{
    let mut r = to_ascii_lowercase(channel);
    push_str(&mut r, ".json");
    r
}

/// The queue record for a channel, stamped with the clock's time: the channel
/// in lower case, the count of queued entries, the settings it was built with.
pub fn build_queue_file(
    channel: &str,
    past_broadcasts_only: bool,
    min_seconds: u64,
    queued: Vec<VodEntry>,
    skipped_existing_ids: Vec<String>,
) -> (r: QueueFile)
    ensures
        r.schema_version == 1,
        r.channel@ == lower_seq(channel@),
        r.past_broadcasts_only == past_broadcasts_only,
        r.min_seconds == min_seconds,
        r.queued_count == queued@.len(),
        r.queued == queued,
        r.skipped_existing_ids == skipped_existing_ids,
{
    let queued_count = queued.len();
    QueueFile {
        schema_version: 1,
        channel: to_ascii_lowercase(channel),
        generated_at_epoch_s: now_epoch_s(),
        past_broadcasts_only,
        min_seconds,
        queued_count,
        queued,
        skipped_existing_ids,
    }
}

/// A file name with the extension `json` (`Path::extension`: the text after
/// the last `.`, when that `.` is not the name's first character).
pub open spec fn has_json_extension(name: Seq<char>) -> bool {
    exists|i: int|
        0 < i < name.len() && name[i] == '.' && (forall|j: int| i < j < name.len() ==> name[j]
            != '.') && name.subrange(i + 1, name.len() as int) == "json"@
}

/// Whether a directory entry's file name marks a queue file.
pub fn is_json_file_name(name: &str) -> (r: bool)
    ensures
        r == has_json_extension(name@),
{
    let v = chars_of(name);
    let json = chars_of("json");
    let mut i = v.len();
    while i > 0 && v[i - 1] != '.'
        invariant
            i <= v@.len(),
            v@ == name@,
            forall|j: int| i <= j < v@.len() ==> v@[j] != '.',
        decreases i,
    {
        i -= 1;
    }
    if i <= 1 {
        proof {
            if has_json_extension(name@) {
                let k = choose|k: int|
                    0 < k < v@.len() && v@[k] == '.' && (forall|j: int|
                        k < j < v@.len() ==> v@[j] != '.') && v@.subrange(k + 1, v@.len() as int)
                        == "json"@;
                if i == 1 {
                    assert(v@[0] == '.');
                }
            }
        }
        return false;
    }
    let dot = i - 1;
    let mut same = v.len() - i == json.len();
    let mut k: usize = 0;
    while same && k < json.len()
        invariant
            dot + 1 == i,
            1 <= dot < v@.len(),
            i <= v@.len(),
            v@ == name@,
            json@ == "json"@,
            same ==> v@.len() - i == json@.len(),
            k <= json@.len(),
            same ==> forall|j: int| 0 <= j < k ==> v@[i + j] == json@[j],
            !same ==> v@.subrange(i as int, v@.len() as int) != json@,
        decreases json@.len() - k,
    {
        let n = v.len();
        assert(i + k < n);
        if v[i + k] != json[k] {
            assert(v@.subrange(i as int, v@.len() as int)[k as int] == v@[i + k]);
            same = false;
        }
        k += 1;
    }
    if same {
        assert(v@.subrange(i as int, v@.len() as int) == json@);
    }
    proof {
        if has_json_extension(name@) {
            let m = choose|m: int|
                0 < m < v@.len() && v@[m] == '.' && (forall|j: int| m < j < v@.len() ==> v@[j]
                    != '.') && v@.subrange(m + 1, v@.len() as int) == "json"@;
            assert(m == dot);
        }
    }
    same
}

/// The entries of every queue file that parsed, in the order of the files.
pub open spec fn queued_of_files(files: Seq<Option<QueueFile>>) -> Seq<VodEntry>
    decreases files.len(),
{
    if files.len() == 0 {
        seq![]
    } else {
        queued_of_files(files.drop_last()) + match files.last() {
            Some(f) => f.queued@,
            None => seq![],
        }
    }
}

/// Gathers the queued entries of all queue files; files that did not parse
/// (`None`) add nothing.
pub fn collect_queued_entries(files: Vec<Option<QueueFile>>) -> (r: Vec<VodEntry>)
    ensures
        r@ == queued_of_files(files@),
{
    let ghost all = files@;
    let mut files = files;
    let mut rest: Vec<Option<QueueFile>> = Vec::new();
    while files.len() > 0
        invariant
            all == files@ + rest@.reverse(),
        decreases files@.len(),
    {
        let f = files.pop().unwrap();
        let ghost before = rest@;
        rest.push(f);
        assert(rest@.reverse() == seq![f] + before.reverse()) by {
            assert(rest@ == before.push(f));
        }
    }
    let mut out: Vec<VodEntry> = Vec::new();
    let ghost done: Seq<Option<QueueFile>> = seq![];
    while rest.len() > 0
        invariant
            all == done + rest@.reverse(),
            out@ == queued_of_files(done),
        decreases rest@.len(),
    {
        let ghost before = rest@;
        let f = rest.pop().unwrap();
        assert(before.reverse() == seq![f] + rest@.reverse()) by {
            assert(before == rest@.push(f));
        }
        let ghost prev_done = done;
        proof {
            done = done.push(f);
            assert(done.drop_last() == prev_done);
        }
        match f {
            Some(qf) => {
                let mut q = qf.queued;
                out.append(&mut q);
            },
            None => {},
        }
    }
    assert(all == done);
    out
}

// ---------------------------------------------------------------------------
// Processing status
// ---------------------------------------------------------------------------

/// The durable per-VOD stage record, written as `status.json`.
#[derive(Debug)]
pub struct ProcessStatus {
    pub schema_version: u32,
    pub video_id: String,
    pub source_url: String,
    pub media_file: Option<String>,
    pub transcript_file: Option<String>,
    pub downloaded: bool,
    pub transcribed: bool,
    pub last_error: Option<String>,
    pub updated_at_epoch_s: u64,
    pub transcription_outcome: Option<String>,
    pub transcription_reason: Option<String>,
    pub transcript_word_count: Option<u64>,
    pub ready_for_notes: bool,
}

impl ProcessStatus {
    /// The status of a VOD that nothing has been done for yet, stamped with
    /// the clock's time.
    pub fn new(video_id: &str, source_url: &str) -> (r: Self)
        ensures
            r.schema_version == 1,
            r.video_id@ == video_id@,
            r.source_url@ == source_url@,
            r.media_file is None,
            r.transcript_file is None,
            !r.downloaded,
            !r.transcribed,
            r.last_error is None,
            r.transcription_outcome is None,
            r.transcription_reason is None,
            r.transcript_word_count is None,
            !r.ready_for_notes,
    {
        ProcessStatus {
            schema_version: 1,
            video_id: string_from(video_id),
            source_url: string_from(source_url),
            media_file: None,
            transcript_file: None,
            downloaded: false,
            transcribed: false,
            last_error: None,
            updated_at_epoch_s: now_epoch_s(),
            transcription_outcome: None,
            transcription_reason: None,
            transcript_word_count: None,
            ready_for_notes: false,
        }
    }

    /// A field-by-field copy.
    pub fn duplicate(&self) -> (r: ProcessStatus)
        ensures
            r == *self,
    {
        ProcessStatus {
            schema_version: self.schema_version,
            video_id: self.video_id.clone(),
            source_url: self.source_url.clone(),
            media_file: clone_opt_string(&self.media_file),
            transcript_file: clone_opt_string(&self.transcript_file),
            downloaded: self.downloaded,
            transcribed: self.transcribed,
            last_error: clone_opt_string(&self.last_error),
            updated_at_epoch_s: self.updated_at_epoch_s,
            transcription_outcome: clone_opt_string(&self.transcription_outcome),
            transcription_reason: clone_opt_string(&self.transcription_reason),
            transcript_word_count: self.transcript_word_count,
            ready_for_notes: self.ready_for_notes,
        }
    }

    /// Records that the VOD's media is on disk as `media_file`.
    pub fn mark_media(&mut self, media_file: Option<String>)
        ensures
            *final(self) == (ProcessStatus { downloaded: true, media_file, ..*old(self) }),
    {
        self.downloaded = true;
        self.media_file = media_file;
    }

    /// Records a finished download at time `now`: the media file, no error.
    pub fn record_download(&mut self, media_file: Option<String>, now: u64)
        ensures
            *final(self) == (ProcessStatus {
                downloaded: true,
                media_file,
                last_error: None,
                updated_at_epoch_s: now,
                ..*old(self)
            }),
    {
        self.downloaded = true;
        self.media_file = media_file;
        self.last_error = None;
        self.updated_at_epoch_s = now;
    }
}


/// The status after a transcription attempt finished with `outcome` at time
/// `now`; `transcript_file` is the file name of the SRT transcript.
pub open spec fn after_transcription(
    old: ProcessStatus,
    new: ProcessStatus,
    outcome: TranscriptionOutcome,
    transcript_file: Option<String>,
) -> bool {
    match outcome {
        TranscriptionOutcome::Completed { word_count, .. } => {
            &&& new.transcribed
            &&& new.ready_for_notes
            &&& new.transcription_outcome matches Some(o) && o@ == "completed"@
            &&& new.transcription_reason is None
            &&& new.transcript_word_count == Some(word_count)
            &&& new.transcript_file == transcript_file
            &&& new.last_error is None
            &&& new == (ProcessStatus {
                transcribed: true,
                ready_for_notes: true,
                transcription_outcome: new.transcription_outcome,
                transcription_reason: None,
                transcript_word_count: Some(word_count),
                transcript_file,
                last_error: None,
                updated_at_epoch_s: new.updated_at_epoch_s,
                ..old
            })
        },
        TranscriptionOutcome::Suspect { word_count, reason, .. } => {
            &&& !new.transcribed
            &&& new.transcription_outcome matches Some(o) && o@ == "suspect"@
            &&& new.transcription_reason == Some(reason)
            &&& new.transcript_word_count == Some(word_count)
            &&& new.transcript_file == transcript_file
            &&& new.last_error is None
            &&& new == (ProcessStatus {
                transcribed: false,
                transcription_outcome: new.transcription_outcome,
                transcription_reason: Some(reason),
                transcript_word_count: Some(word_count),
                transcript_file,
                last_error: None,
                updated_at_epoch_s: new.updated_at_epoch_s,
                ..old
            })
        },
        TranscriptionOutcome::Failed { reason } => {
            &&& !new.transcribed
            &&& new.transcription_outcome matches Some(o) && o@ == "failed"@
            &&& new.transcription_reason == Some(reason)
            &&& new.last_error == Some(reason)
            &&& new == (ProcessStatus {
                transcribed: false,
                transcription_outcome: new.transcription_outcome,
                transcription_reason: Some(reason),
                last_error: Some(reason),
                updated_at_epoch_s: new.updated_at_epoch_s,
                ..old
            })
        },
    }
}

impl ProcessStatus {
    /// Records the outcome of a transcription attempt at time `now`. A
    /// completed transcript makes the VOD ready for notes; a suspect one is
    /// kept but not trusted; a failure is recorded and returned as the error.
    pub fn record_transcription(
        &mut self,
        outcome: &TranscriptionOutcome,
        transcript_file: Option<String>,
        now: u64,
    ) -> (r: Result<(), String>)
        ensures
            after_transcription(*old(self), *final(self), *outcome, transcript_file),
            final(self).updated_at_epoch_s == now,
            match *outcome {
                TranscriptionOutcome::Failed { reason } => r == Err::<(), String>(reason),
                _ => r is Ok,
            },
    {
        match outcome {
            TranscriptionOutcome::Completed { word_count, .. } => {
                self.transcribed = true;
                self.ready_for_notes = true;
                self.transcription_outcome = Some(string_from("completed"));
                self.transcription_reason = None;
                self.transcript_word_count = Some(*word_count);
                self.transcript_file = transcript_file;
                self.last_error = None;
                self.updated_at_epoch_s = now;
                Ok(())
            },
            TranscriptionOutcome::Suspect { word_count, reason, .. } => {
                self.transcribed = false;
                self.transcription_outcome = Some(string_from("suspect"));
                self.transcription_reason = Some(reason.clone());
                self.transcript_word_count = Some(*word_count);
                self.transcript_file = transcript_file;
                self.last_error = None;
                self.updated_at_epoch_s = now;
                Ok(())
            },
            TranscriptionOutcome::Failed { reason } => {
                self.transcribed = false;
                self.transcription_outcome = Some(string_from("failed"));
                self.transcription_reason = Some(reason.clone());
                self.last_error = Some(reason.clone());
                self.updated_at_epoch_s = now;
                Err(reason.clone())
            },
        }
    }
}

/// The media file of an artifact directory, given which candidates exist:
/// `audio.m4a` first, then `video.mp4`.
pub fn find_media_file(audio_exists: bool, video_exists: bool) -> (r: Option<String>)
    ensures
        opt_view(r) == (if audio_exists {
            Some("audio.m4a"@)
        } else if video_exists {
            Some("video.mp4"@)
        } else {
            None
        }),
{
    if audio_exists {
        Some(string_from("audio.m4a"))
    } else if video_exists {
        Some(string_from("video.mp4"))
    } else {
        None
    }
}

// ---------------------------------------------------------------------------
// Artifact directories
// ---------------------------------------------------------------------------

/// An artifact directory is named by a video id: digits only.
pub open spec fn is_artifact_entry<T>() -> spec_fn((String, T)) -> bool {
    |e: (String, T)| all_digits(e.0@)
}

/// Entries in ascending order of name.
pub open spec fn sorted_by_name<T>(s: Seq<(String, T)>) -> bool {
    forall|i: int, j: int| 0 <= i < j < s.len() ==> seq_le(#[trigger] s[i].0@, #[trigger] s[j].0@)
}

/// `s` with `x` put before the first entry whose name `x`'s name precedes, or
/// at the end.
pub open spec fn insert_by_name_spec<T>(s: Seq<(String, T)>, x: (String, T)) -> Seq<(String, T)>
    decreases s.len(),
{
    if s.len() == 0 {
        seq![x]
    } else if seq_lt(x.0@, s[0].0@) {
        seq![x] + s
    } else {
        seq![s[0]] + insert_by_name_spec(s.drop_first(), x)
    }
}

/// The artifact entries of a directory listing (all-digit names), in the
/// order the scan puts them: each entry, from the last to the first, put
/// into the entries after it by `insert_by_name_spec`.
pub open spec fn sorted_artifacts<T>(s: Seq<(String, T)>) -> Seq<(String, T)>
    decreases s.len(),
{
    if s.len() == 0 {
        seq![]
    } else if all_digits(s[0].0@) {
        insert_by_name_spec(sorted_artifacts(s.drop_first()), s[0])
    } else {
        sorted_artifacts(s.drop_first())
    }
}

/// The names of a list of entries.
pub open spec fn entry_names<T>(s: Seq<(String, T)>) -> Seq<String> {
    s.map_values(|e: (String, T)| e.0)
}

/// `ids` with `x` put before the first id that `x` precedes, or at the end.
pub open spec fn insert_id_spec(ids: Seq<String>, x: String) -> Seq<String>
    decreases ids.len(),
{
    if ids.len() == 0 {
        seq![x]
    } else if seq_lt(x@, ids[0]@) {
        seq![x] + ids
    } else {
        seq![ids[0]] + insert_id_spec(ids.drop_first(), x)
    }
}

/// The artifact ids among the directory names `names` (all-digit names), in
/// the order that `sorted_artifacts` gives their entries.
pub open spec fn sorted_ids(names: Seq<String>) -> Seq<String>
    decreases names.len(),
{
    if names.len() == 0 {
        seq![]
    } else if all_digits(names[0]@) {
        insert_id_spec(sorted_ids(names.drop_first()), names[0])
    } else {
        sorted_ids(names.drop_first())
    }
}

proof fn lemma_insert_at<T>(s: Seq<(String, T)>, x: (String, T), p: int)
    requires
        0 <= p <= s.len(),
        forall|j: int| 0 <= j < p ==> !seq_lt(x.0@, #[trigger] s[j].0@),
        p == s.len() || seq_lt(x.0@, s[p].0@),
    ensures
        insert_by_name_spec(s, x) == s.take(p) + seq![x] + s.skip(p),
    decreases p,
{
    if p == 0 {
        assert(s.take(0) + seq![x] + s.skip(0) =~= seq![x] + s);
        if s.len() == 0 {
            assert(seq![x] + s =~= seq![x]);
        }
    } else {
        let t = s.drop_first();
        assert forall|j: int| 0 <= j < p - 1 implies !seq_lt(x.0@, #[trigger] t[j].0@) by {
            assert(t[j] == s[j + 1]);
        }
        if p < s.len() {
            assert(t[p - 1] == s[p]);
        }
        assert(!seq_lt(x.0@, s[0].0@));
        lemma_insert_at(t, x, p - 1);
        assert(seq![s[0]] + (t.take(p - 1) + seq![x] + t.skip(p - 1)) =~= s.take(p) + seq![x]
            + s.skip(p));
    }
}

proof fn lemma_le_trans(a: Seq<char>, b: Seq<char>, c: Seq<char>)
    requires
        seq_le(a, b),
        seq_le(b, c),
    ensures
        seq_le(a, c),
{
    if seq_lt(a, b) && seq_lt(b, c) {
        lemma_seq_lt_trans(a, b, c);
    }
}

/// Inserts `x` into the sorted `out` after the entries not greater than it.
fn insert_by_name<T>(out: &mut Vec<(String, T)>, x: (String, T))
    requires
        sorted_by_name(old(out)@),
    ensures
        sorted_by_name(final(out)@),
        final(out)@ == insert_by_name_spec(old(out)@, x),
        final(out)@.to_multiset() == old(out)@.to_multiset().insert(x),
{
    let ghost o = out@;
    let mut p: usize = 0;
    while p < out.len() && !string_lt(&x.0, &out[p].0)
        invariant
            p <= out@.len(),
            out@ == o,
            forall|j: int| 0 <= j < p ==> !seq_lt(x.0@, #[trigger] o[j].0@),
        decreases out@.len() - p,
    {
        p += 1;
    }
    let ghost xk = x.0@;
    let ghost xv = x;
    proof {
        lemma_insert_at(o, x, p as int);
    }
    out.insert(p, x);
    let ghost n = out@;
    assert(n =~= o.take(p as int) + seq![xv] + o.skip(p as int));
    assert forall|i: int, j: int| 0 <= i < j < n.len() implies seq_le(
        #[trigger] n[i].0@,
        #[trigger] n[j].0@,
    ) by {
        if j < p {
            assert(n[i] == o[i] && n[j] == o[j]);
        } else if j == p {
            assert(n[i] == o[i]);
            lemma_seq_lt_total(xk, o[i].0@);
        } else if i == p {
            assert(n[j] == o[j - 1]);
            assert(seq_lt(xk, o[p as int].0@));
            if j - 1 > p {
                lemma_le_trans(xk, o[p as int].0@, o[j - 1].0@);
            }
        } else if i < p {
            assert(n[i] == o[i] && n[j] == o[j - 1]);
        } else {
            assert(n[i] == o[i - 1] && n[j] == o[j - 1]);
        }
    }
}

/// The artifact directories among named entries, in ascending order of name:
/// the entries whose name is all digits, sorted.
pub fn artifact_entries<T>(entries: Vec<(String, T)>) -> (r: Vec<(String, T)>)
    ensures
        r@ == sorted_artifacts(entries@),
        sorted_by_name(r@),
        r@.to_multiset() == entries@.filter(is_artifact_entry()).to_multiset(),
{
    let ghost all = entries@;
    let mut entries = entries;
    let mut out: Vec<(String, T)> = Vec::new();
    proof {
        broadcast use vstd::seq_lib::to_multiset_len, vstd::multiset::lemma_multiset_empty_len;
        broadcast use vstd::multiset::group_multiset_axioms;

        assert(out@.to_multiset().len() == 0);
        assert(out@.to_multiset() =~= vstd::multiset::Multiset::empty());
        assert(entries@.filter(is_artifact_entry()).to_multiset().add(out@.to_multiset())
            =~= entries@.filter(is_artifact_entry()).to_multiset());
    }
    assert(all.skip(all.len() as int) =~= Seq::<(String, T)>::empty());
    while entries.len() > 0
        invariant
            entries@ == all.take(entries@.len() as int),
            entries@.len() <= all.len(),
            out@ == sorted_artifacts(all.skip(entries@.len() as int)),
            sorted_by_name(out@),
            all.filter(is_artifact_entry()).to_multiset() == entries@.filter(
                is_artifact_entry(),
            ).to_multiset().add(out@.to_multiset()),
        decreases entries@.len(),
    {
        let ghost before = entries@;
        let e = entries.pop().unwrap();
        proof {
            assert(before == entries@.push(e));
            let k = entries@.len() as int;
            assert(entries@ =~= all.take(k));
            assert(all[k] == e);
            assert(all.skip(k).drop_first() =~= all.skip(k + 1));
            assert(all.skip(k)[0] == e);
            entries@.lemma_filter_push(e, is_artifact_entry());
        }
        let name = chars_of(e.0.as_str());
        assert(name@.subrange(0, name@.len() as int) == e.0@);
        if all_digits_in_range(&name, 0, name.len()) {
            insert_by_name(&mut out, e);
            assert(entries@.filter(is_artifact_entry()).push(e).to_multiset() == entries@.filter(
                is_artifact_entry(),
            ).to_multiset().insert(e));
            assert(all.filter(is_artifact_entry()).to_multiset() == entries@.filter(
                is_artifact_entry(),
            ).to_multiset().add(out@.to_multiset())) by {
                broadcast use vstd::multiset::group_multiset_axioms;

            }
        }
    }
    assert(entries@.filter(is_artifact_entry()).len() == 0) by {
        entries@.lemma_filter_len(is_artifact_entry());
    }
    assert(entries@.filter(is_artifact_entry()).to_multiset() =~= vstd::multiset::Multiset::empty()) by {
        broadcast use vstd::seq_lib::to_multiset_len, vstd::multiset::lemma_multiset_empty_len;

        assert(entries@.filter(is_artifact_entry()).to_multiset().len() == 0);
        broadcast use vstd::multiset::group_multiset_axioms;

    }
    assert(all.filter(is_artifact_entry()).to_multiset() == out@.to_multiset()) by {
        broadcast use vstd::multiset::group_multiset_axioms;

    }
    out
}

/// The artifact directories with their statuses (`None` where no status
/// could be read), in ascending order of video id.
pub fn scan_artifact_statuses(entries: Vec<(String, Option<ProcessStatus>)>) -> (r: Vec<
    (String, Option<ProcessStatus>),
>)
    ensures
        r@ == sorted_artifacts(entries@),
        sorted_by_name(r@),
        r@.to_multiset() == entries@.filter(is_artifact_entry()).to_multiset(),
{
    artifact_entries(entries)
}

/// The video ids that have an artifact directory, given the names of the
/// directories under the output root: the all-digit names, sorted.
pub fn existing_artifact_ids(dir_names: &Vec<String>) -> (r: Vec<String>)
    ensures
        r@ == sorted_ids(dir_names@),
{
    let mut pairs: Vec<(String, ())> = Vec::new();
    let mut i: usize = 0;
    while i < dir_names.len()
        invariant
            i <= dir_names@.len(),
            entry_names(pairs@) == dir_names@.take(i as int),
        decreases dir_names@.len() - i,
    {
        let ghost before = pairs@;
        pairs.push((dir_names[i].clone(), ()));
        assert(entry_names(pairs@) =~= entry_names(before).push(dir_names@[i as int]));
        assert(dir_names@.take(i + 1) =~= dir_names@.take(i as int).push(dir_names@[i as int]));
        i += 1;
    }
    assert(dir_names@.take(i as int) =~= dir_names@);
    let ghost listed = pairs@;
    let sorted = artifact_entries(pairs);
    proof {
        crate::laws::law_scan_ids_are_existing_ids(listed);
    }
    let mut out: Vec<String> = Vec::new();
    let mut k: usize = 0;
    while k < sorted.len()
        invariant
            k <= sorted@.len(),
            out@ == entry_names(sorted@).take(k as int),
        decreases sorted@.len() - k,
    {
        out.push(sorted[k].0.clone());
        assert(entry_names(sorted@).take(k + 1) =~= entry_names(sorted@).take(k as int).push(
            sorted@[k as int].0,
        ));
        k += 1;
    }
    assert(entry_names(sorted@).take(k as int) =~= entry_names(sorted@));
    out
}

} // verus!
