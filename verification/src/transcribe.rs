//! Transcript handling: SRT to WebVTT conversion, word extraction, and the
//! quality heuristics that decide whether a transcript can be trusted.
use vstd::prelude::*;

use crate::text::{
    all_digits, all_digits_in_range, chars_of, contains, contains_in_range, line_spans, lines,
    push_char, push_range, push_words, spans_in, spans_view, string_from, strings_view, trim,
    trim_bounds, words,
};

verus! {

/// What a transcription attempt produced. Paths are the files' paths as text.
#[derive(Debug)]
pub enum TranscriptionOutcome {
    Completed { srt_path: String, vtt_path: String, word_count: u64 },
    Suspect { srt_path: String, vtt_path: String, word_count: u64, reason: String },
    Failed { reason: String },
}

/// The kinds of I/O failure the library reports, as `std::io::ErrorKind`
/// names them.
#[derive(Debug, Clone, Copy, PartialEq, Eq, Structural)]
pub enum IoErrorKind {
    Other,
}

/// An I/O failure: its kind and its message, as `std::io::Error::new` takes
/// them.
#[derive(Debug)]
pub struct IoFailure {
    pub kind: IoErrorKind,
    pub message: String,
}

/// The text-only transcription path was retired: it always fails, with an
/// I/O error of kind `Other` and this message.
pub fn transcribe_to_txt(_media_path: &str, _artifact_dir: &str) -> (r: Result<String, IoFailure>)
    ensures
        r matches Err(e) && e.kind == IoErrorKind::Other && e.message@
            == "transcribe_to_txt is deprecated; use transcribe_to_srt_and_vtt instead"@,
{
    Err(
        IoFailure {
            kind: IoErrorKind::Other,
            message: string_from(
                "transcribe_to_txt is deprecated; use transcribe_to_srt_and_vtt instead",
            ),
        },
    )
}

// ---------------------------------------------------------------------------
// SRT to WebVTT
// ---------------------------------------------------------------------------

/// A cue number: a line that, trimmed, is one or more ASCII digits.
pub open spec fn is_cue_number(line: Seq<char>) -> bool {
    trim(line).len() > 0 && all_digits(trim(line))
}

/// A timing line: it holds `" --> "`.
pub open spec fn is_timing(line: Seq<char>) -> bool {
    contains(trim(line), " --> "@)
}

pub open spec fn comma_to_period(c: char) -> char {
    if c == ',' {
        '.'
    } else {
        c
    }
}

/// The WebVTT text that one SRT line becomes: cue numbers are dropped, the
/// decimal commas of timing lines become periods, other lines (text and blank
/// lines) are kept as they are; each kept line ends with `'\n'`.
pub open spec fn vtt_line(line: Seq<char>) -> Seq<char> {
    if is_cue_number(line) {
        seq![]
    } else if is_timing(line) {
        line.map_values(|c: char| comma_to_period(c)).push('\n')
    } else {
        line.push('\n')
    }
}

pub open spec fn vtt_lines(ls: Seq<Seq<char>>) -> Seq<char>
    decreases ls.len(),
{
    if ls.len() == 0 {
        seq![]
    } else {
        vtt_lines(ls.drop_last()) + vtt_line(ls.last())
    }
}

/// The WebVTT document for an SRT document.
pub open spec fn vtt_of(srt: Seq<char>) -> Seq<char> {
    "WEBVTT\n\n"@ + vtt_lines(lines(srt))
}

fn push_periods(out: &mut String, v: &Vec<char>, lo: usize, hi: usize)
    requires
        lo <= hi <= v@.len(),
    ensures
        final(out)@ == old(out)@ + v@.subrange(lo as int, hi as int).map_values(
            |c: char| comma_to_period(c),
        ),
{
    let mut i = lo;
    while i < hi
        invariant
            lo <= i <= hi <= v@.len(),
            out@ == old(out)@ + v@.subrange(lo as int, i as int).map_values(
                |c: char| comma_to_period(c),
            ),
        decreases hi - i,
    {
        let c = if v[i] == ',' {
            '.'
        } else {
            v[i]
        };
        push_char(out, c);
        assert(v@.subrange(lo as int, i + 1).map_values(|c: char| comma_to_period(c))
            == v@.subrange(lo as int, i as int).map_values(|c: char| comma_to_period(c)).push(c));
        i += 1;
    }
}

/// Converts an SRT transcript to WebVTT: a `WEBVTT` header and a blank line,
/// then each SRT line as `vtt_line` says.
pub fn srt_to_vtt(srt: &str) -> (r: String)
    ensures
        r@ == vtt_of(srt@),
{
    let v = chars_of(srt);
    let arrow = chars_of(" --> ");
    let spans = line_spans(&v);
    let mut out = string_from("WEBVTT\n\n");
    let mut k: usize = 0;
    while k < spans.len()
        invariant
            k <= spans@.len(),
            v@ == srt@,
            arrow@ == " --> "@,
            spans_in(v@, spans@),
            spans_view(v@, spans@) == lines(v@),
            out@ == "WEBVTT\n\n"@ + vtt_lines(spans_view(v@, spans@.take(k as int))),
        decreases spans@.len() - k,
    {
        let lo = spans[k].lo;
        let hi = spans[k].hi;
        let ghost line = v@.subrange(lo as int, hi as int);
        assert(spans_view(v@, spans@)[k as int] == line);
        let (a, b) = trim_bounds(&v, lo, hi);
        if a < b && all_digits_in_range(&v, a, b) {
        } else if contains_in_range(&v, a, b, &arrow) {
            push_periods(&mut out, &v, lo, hi);
            push_char(&mut out, '\n');
        } else {
            push_range(&mut out, &v, lo, hi);
            push_char(&mut out, '\n');
        }
        assert(spans_view(v@, spans@.take(k + 1)).drop_last() == spans_view(v@, spans@.take(k as int)));
        assert(spans_view(v@, spans@.take(k + 1)).last() == line);
        k += 1;
    }
    assert(spans@.take(k as int) == spans@);
    out
}

// ---------------------------------------------------------------------------
// Words
// ---------------------------------------------------------------------------

/// The words that one SRT line contributes: none for blank lines, cue numbers
/// and timing lines; the white-space separated words of any other line.
pub open spec fn line_words(line: Seq<char>) -> Seq<Seq<char>> {
    let t = trim(line);
    if t.len() == 0 || all_digits(t) || contains(t, " --> "@) {
        seq![]
    } else {
        words(t)
    }
}

pub open spec fn words_of_lines(ls: Seq<Seq<char>>) -> Seq<Seq<char>>
    decreases ls.len(),
{
    if ls.len() == 0 {
        seq![]
    } else {
        words_of_lines(ls.drop_last()) + line_words(ls.last())
    }
}

/// The words of an SRT transcript's text, in order.
pub open spec fn srt_words(srt: Seq<char>) -> Seq<Seq<char>> {
    words_of_lines(lines(srt))
}

/// Extracts the spoken words of an SRT transcript (timing lines and cue
/// numbers excluded).
pub fn extract_words_from_srt(srt: &str) -> (r: Vec<String>)
    ensures
        strings_view(r@) == srt_words(srt@),
{
    let v = chars_of(srt);
    let arrow = chars_of(" --> ");
    let spans = line_spans(&v);
    let mut out: Vec<String> = Vec::new();
    let mut k: usize = 0;
    while k < spans.len()
        invariant
            k <= spans@.len(),
            v@ == srt@,
            arrow@ == " --> "@,
            spans_in(v@, spans@),
            spans_view(v@, spans@) == lines(v@),
            strings_view(out@) == words_of_lines(spans_view(v@, spans@.take(k as int))),
        decreases spans@.len() - k,
    {
        let lo = spans[k].lo;
        let hi = spans[k].hi;
        let ghost line = v@.subrange(lo as int, hi as int);
        assert(spans_view(v@, spans@)[k as int] == line);
        let (a, b) = trim_bounds(&v, lo, hi);
        let ghost before = strings_view(out@);
        if a == b || all_digits_in_range(&v, a, b) || contains_in_range(&v, a, b, &arrow) {
            assert(line_words(line) == Seq::<Seq<char>>::empty());
            assert(before + line_words(line) == before);
        } else {
            push_words(&mut out, &v, a, b);
        }
        assert(spans_view(v@, spans@.take(k + 1)).drop_last() == spans_view(v@, spans@.take(k as int)));
        assert(spans_view(v@, spans@.take(k + 1)).last() == line);
        k += 1;
    }
    assert(spans@.take(k as int) == spans@);
    out
}


// ---------------------------------------------------------------------------
// Repetition heuristic
// ---------------------------------------------------------------------------

/// The trigrams starting at `i` and at `j` are the same three words.
pub open spec fn same_trigram(w: Seq<Seq<char>>, i: int, j: int) -> bool {
    w[i] == w[j] && w[i + 1] == w[j + 1] && w[i + 2] == w[j + 2]
}

/// How many of the trigrams starting in `[lo, hi)` equal the one at `i`.
pub open spec fn trigram_count(w: Seq<Seq<char>>, i: int, lo: int, hi: int) -> nat
    decreases hi - lo,
{
    if hi <= lo {
        0
    } else {
        trigram_count(w, i, lo, hi - 1) + if same_trigram(w, i, hi - 1) {
            1nat
        } else {
            0nat
        }
    }
}

/// The end of the 200-word window that starts at `s`.
pub open spec fn window_end(len: int, s: int) -> int {
    if s + 200 <= len {
        s + 200
    } else {
        len
    }
}

/// The last window start: the windows start at `0 ..= len - 200` (only `0`
/// when there are fewer than 200 words).
pub open spec fn last_window_start(len: int) -> int {
    if len >= 200 {
        len - 200
    } else {
        0
    }
}

/// Some trigram occurs more than ten times among the trigrams of the window
/// that starts at `s`.
pub open spec fn window_repeats(w: Seq<Seq<char>>, s: int) -> bool {
    exists|i: int|
        s <= i < window_end(w.len() as int, s) - 2 && #[trigger] trigram_count(
            w,
            i,
            s,
            window_end(w.len() as int, s) - 2,
        ) > 10
}

/// A transcript is repetitive when some 200-word window holds a trigram more
/// than ten times.
pub open spec fn repetitive(w: Seq<Seq<char>>) -> bool {
    w.len() >= 3 && exists|s: int|
        0 <= s <= last_window_start(w.len() as int) && #[trigger] window_repeats(w, s)
}

proof fn lemma_count_split(w: Seq<Seq<char>>, i: int, lo: int, mid: int, hi: int)
    requires
        lo <= mid <= hi,
    ensures
        trigram_count(w, i, lo, hi) == trigram_count(w, i, lo, mid) + trigram_count(w, i, mid, hi),
    decreases hi - mid,
{
    if hi > mid {
        lemma_count_split(w, i, lo, mid, hi - 1);
    }
}

proof fn lemma_count_same(w: Seq<Seq<char>>, i: int, p: int, lo: int, hi: int)
    requires
        same_trigram(w, i, p),
    ensures
        trigram_count(w, i, lo, hi) == trigram_count(w, p, lo, hi),
    decreases hi - lo,
{
    if hi > lo {
        lemma_count_same(w, i, p, lo, hi - 1);
    }
}

proof fn lemma_first_match(w: Seq<Seq<char>>, i: int, lo: int, hi: int) -> (p: int)
    requires
        trigram_count(w, i, lo, hi) > 0,
    ensures
        lo <= p < hi,
        same_trigram(w, i, p),
        trigram_count(w, i, lo, p) == 0,
    decreases hi - lo,
{
    if trigram_count(w, i, lo, hi - 1) > 0 {
        lemma_first_match(w, i, lo, hi - 1)
    } else {
        hi - 1
    }
}

/// The trigrams that start at `i` or later, up to 197 words on, repeat the one
/// at `i` more than ten times.
pub open spec fn repeats_ahead(w: Seq<Seq<char>>, i: int) -> bool {
    let hi = if i + 198 <= w.len() - 2 {
        i + 198
    } else {
        w.len() - 2
    };
    trigram_count(w, i, i, hi) > 10
}

proof fn lemma_repetitive_has_ahead(w: Seq<Seq<char>>)
    requires
        repetitive(w),
    ensures
        exists|p: int| 0 <= p < w.len() - 2 && #[trigger] repeats_ahead(w, p),
{
    let len = w.len() as int;
    let s = choose|s: int| 0 <= s <= last_window_start(len) && #[trigger] window_repeats(w, s);
    let hi = window_end(len, s) - 2;
    let i = choose|i: int| s <= i < hi && trigram_count(w, i, s, hi) > 10;
    let p = lemma_first_match(w, i, s, hi);
    lemma_count_split(w, i, s, p, hi);
    lemma_count_same(w, i, p, p, hi);
    let hp = if p + 198 <= len - 2 {
        p + 198
    } else {
        len - 2
    };
    lemma_count_split(w, p, p, hi, hp);
    assert(repeats_ahead(w, p));
}

proof fn lemma_ahead_is_repetitive(w: Seq<Seq<char>>, i: int)
    requires
        0 <= i < w.len() - 2,
        repeats_ahead(w, i),
    ensures
        repetitive(w),
{
    let len = w.len() as int;
    let s = if i <= last_window_start(len) {
        i
    } else {
        last_window_start(len)
    };
    let hi = window_end(len, s) - 2;
    let hi_i = if i + 198 <= len - 2 {
        i + 198
    } else {
        len - 2
    };
    lemma_count_split(w, i, s, i, hi);
    lemma_count_split(w, i, i, hi_i, hi);
    assert(window_repeats(w, s));
}

/// Flags a transcript in which some 200-word window repeats one trigram more
/// than ten times (a sign of a transcriber stuck in a loop).
pub fn check_repetition_heuristic(words: &[String]) -> (r: Option<String>)
    ensures
        r is Some <==> repetitive(strings_view(words@)),
        r matches Some(m) ==> m@ == "repeated trigram detected in 200-word window"@,
{
    let ghost w = strings_view(words@);
    let n = words.len();
    if n < 3 {
        return None;
    }
    let last = n - 2;
    let mut i: usize = 0;
    while i < last
        invariant
            n == words@.len(),
            n >= 3,
            last == n - 2,
            i <= last,
            w == strings_view(words@),
            forall|p: int| 0 <= p < i ==> !#[trigger] repeats_ahead(w, p),
        decreases last - i,
    {
        let hi = if 198 <= last - i {
            i + 198
        } else {
            last
        };
        let mut count: usize = 0;
        let mut j = i;
        while j < hi
            invariant
                n == words@.len(),
                i <= j <= hi <= last,
                last == n - 2,
                w == strings_view(words@),
                count == trigram_count(w, i as int, i as int, j as int),
                count <= j - i,
            decreases hi - j,
        {
            if words[i] == words[j] && words[i + 1] == words[j + 1] && words[i + 2] == words[j
                + 2] {
                assert(same_trigram(w, i as int, j as int));
                count += 1;
            } else {
                assert(!same_trigram(w, i as int, j as int));
            }
            j += 1;
        }
        if count > 10 {
            proof {
                assert(repeats_ahead(w, i as int));
                lemma_ahead_is_repetitive(w, i as int);
            }
            return Some(string_from("repeated trigram detected in 200-word window"));
        }
        i += 1;
    }
    proof {
        if repetitive(w) {
            lemma_repetitive_has_ahead(w);
        }
    }
    None
}


/// Classifies a finished transcript: the word-count check's finding (when
/// it raised one) makes it suspect first, then the repetition heuristic;
/// otherwise it is completed. The word count is the number of words.
pub fn assess_transcript(
    srt_path: String,
    vtt_path: String,
    words: &[String],
    low_word_count: Option<String>,
) -> (r: TranscriptionOutcome)
    ensures
        match low_word_count {
            Some(reason) => r == TranscriptionOutcome::Suspect {
                srt_path,
                vtt_path,
                word_count: words@.len() as u64,
                reason,
            },
            None => if repetitive(strings_view(words@)) {
                r matches TranscriptionOutcome::Suspect { srt_path: s, vtt_path: v, word_count, reason }
                    && s == srt_path && v == vtt_path && word_count == words@.len() as u64 && reason@
                    == "repeated trigram detected in 200-word window"@
            } else {
                r == TranscriptionOutcome::Completed {
                    srt_path,
                    vtt_path,
                    word_count: words@.len() as u64,
                }
            },
        },
{
    let word_count = words.len() as u64;
    if let Some(reason) = low_word_count {
        return TranscriptionOutcome::Suspect { srt_path, vtt_path, word_count, reason };
    }
    match check_repetition_heuristic(words) {
        Some(reason) => TranscriptionOutcome::Suspect { srt_path, vtt_path, word_count, reason },
        None => TranscriptionOutcome::Completed { srt_path, vtt_path, word_count },
    }
}

} // verus!
