//! HLS master playlists: the stream variants they list and the variant a
//! download takes.
use vstd::prelude::*;

use crate::bindings::{capture_group1, join_url, parse_url, regex_group1, url_join, url_parse};
use crate::cli::QualityPreference;
use crate::text::{
    chars_of, contains, contains_in_range, line_spans, lines, lower_seq, parse_u64,
    parse_u64_str, span_seq, spans_in, spans_view, starts_with, starts_with_in_range,
    string_from, string_of_range, to_ascii_lowercase, trim, trim_bounds,
};

verus! {

/// Why a stream could not be resolved. `Http` carries the HTTP client's
/// message.
#[derive(Debug)]
pub enum DownloadError {
    Http(String),
    Parse,
    Url(url::ParseError),
}

/// One stream variant of a master playlist.
#[derive(Debug, Clone)]
pub struct StreamInfo {
    pub playlist_url: String,
    pub bandwidth: Option<u64>,
    pub resolution: Option<String>,
    pub codecs: Option<String>,
    pub name: Option<String>,
    pub is_audio_only: bool,
}

/// A stream variant as values.
pub struct StreamView {
    pub playlist_url: Seq<char>,
    pub bandwidth: Option<u64>,
    pub resolution: Option<Seq<char>>,
    pub codecs: Option<Seq<char>>,
    pub name: Option<Seq<char>>,
    pub is_audio_only: bool,
}

pub open spec fn opt_view(o: Option<String>) -> Option<Seq<char>> {
    match o {
        Some(s) => Some(s@),
        None => None,
    }
}

impl View for StreamInfo {
    type V = StreamView;

    open spec fn view(&self) -> StreamView {
        StreamView {
            playlist_url: self.playlist_url@,
            bandwidth: self.bandwidth,
            resolution: opt_view(self.resolution),
            codecs: opt_view(self.codecs),
            name: opt_view(self.name),
            is_audio_only: self.is_audio_only,
        }
    }
}

pub open spec fn opt_chars(o: Option<Vec<char>>) -> Option<Seq<char>> {
    match o {
        Some(p) => Some(p@),
        None => None,
    }
}

pub fn clone_opt_string(o: &Option<String>) -> (r: Option<String>)
    ensures
        r == *o,
{
    match o {
        Some(s) => Some(s.clone()),
        None => None,
    }
}

impl StreamInfo {
    /// A field-by-field copy.
    pub fn duplicate(&self) -> (r: StreamInfo)
        ensures
            r == *self,
    {
        StreamInfo {
            playlist_url: self.playlist_url.clone(),
            bandwidth: self.bandwidth,
            resolution: clone_opt_string(&self.resolution),
            codecs: clone_opt_string(&self.codecs),
            name: clone_opt_string(&self.name),
            is_audio_only: self.is_audio_only,
        }
    }
}

/// The kinds of failure of playlist reading.
pub enum PlaylistFault {
    Parse,
    Url,
}

pub open spec fn bandwidth_pattern() -> Seq<char> {
    "BANDWIDTH=(\\d+)"@
}

pub open spec fn resolution_pattern() -> Seq<char> {
    "RESOLUTION=(\\d+x\\d+)"@
}

pub open spec fn codecs_pattern() -> Seq<char> {
    "CODECS=\"([^\"]+)\""@
}

pub open spec fn name_pattern() -> Seq<char> {
    "NAME=\"([^\"]+)\""@
}

/// A variant is audio-only when its URL says `audio_only`, its name holds
/// `audio` in any case, or it has no resolution.
pub open spec fn audio_only(url: Seq<char>, name: Option<Seq<char>>, resolution: Option<Seq<char>>) -> bool {
    ||| contains(url, "audio_only"@)
    ||| (name matches Some(n) && contains(lower_seq(n), "audio"@))
    ||| resolution is None
}

/// The variant that an `#EXT-X-STREAM-INF` line `inf` and the URI line `uri`
/// after it describe, the URI resolved against the master playlist's URL
/// `master`. A pattern that does not compile is a `Parse` fault, a URI that
/// does not resolve a `Url` fault.
pub open spec fn stream_variant(master: Seq<char>, inf: Seq<char>, uri: Seq<char>) -> Result<
    StreamView,
    PlaylistFault,
> {
    let bw = regex_group1(bandwidth_pattern(), inf);
    let res = regex_group1(resolution_pattern(), inf);
    let co = regex_group1(codecs_pattern(), inf);
    let nm = regex_group1(name_pattern(), inf);
    if bw is None || res is None || co is None || nm is None {
        Err(PlaylistFault::Parse)
    } else {
        match url_join(master, uri) {
            None => Err(PlaylistFault::Url),
            Some(u) => Ok(
                StreamView {
                    playlist_url: u,
                    bandwidth: match bw->0 {
                        Some(d) => parse_u64(d),
                        None => None,
                    },
                    resolution: res->0,
                    codecs: co->0,
                    name: nm->0,
                    is_audio_only: audio_only(u, nm->0, res->0),
                },
            ),
        }
    }
}

/// The variants listed by the lines `ls` of a master playlist, read in order
/// with `pending` the stream-info line not yet followed by its URI. Lines are
/// trimmed; blank lines and comments other than `#EXT-X-STREAM-INF:` are
/// skipped; a later stream-info line replaces a pending one; a URI line
/// without a pending stream-info line is skipped.
pub open spec fn variants_from(master: Seq<char>, pending: Option<Seq<char>>, ls: Seq<Seq<char>>) -> Result<
    Seq<StreamView>,
    PlaylistFault,
>
    decreases ls.len(),
{
    if ls.len() == 0 {
        Ok(seq![])
    } else {
        let l = trim(ls[0]);
        let rest = ls.drop_first();
        if l.len() == 0 {
            variants_from(master, pending, rest)
        } else if starts_with(l, "#EXT-X-STREAM-INF:"@) {
            variants_from(master, Some(l), rest)
        } else if l[0] == '#' {
            variants_from(master, pending, rest)
        } else {
            match pending {
                None => variants_from(master, None, rest),
                Some(inf) => match stream_variant(master, inf, l) {
                    Err(e) => Err(e),
                    Ok(v) => match variants_from(master, None, rest) {
                        Err(e) => Err(e),
                        Ok(vs) => Ok(seq![v] + vs),
                    },
                },
            }
        }
    }
}

/// The variants of a master playlist whose URL parses to `master`.
pub open spec fn playlist_variants(master: Seq<char>, playlist: Seq<char>) -> Result<
    Seq<StreamView>,
    PlaylistFault,
> {
    variants_from(master, None, lines(playlist))
}

pub open spec fn views_of(v: Seq<StreamInfo>) -> Seq<StreamView> {
    v.map_values(|s: StreamInfo| s@)
}

/// The result of playlist reading agrees with the fault or variants given.
pub open spec fn matches_fault<T>(r: Result<T, DownloadError>, f: PlaylistFault) -> bool {
    match f {
        PlaylistFault::Parse => r matches Err(DownloadError::Parse),
        PlaylistFault::Url => r matches Err(DownloadError::Url(_)),
    }
}

proof fn lemma_variants_step(master: Seq<char>, pending: Option<Seq<char>>, ls: Seq<Seq<char>>)
    requires
        ls.len() > 0,
    ensures
        variants_from(master, pending, ls) == ({
            let l = trim(ls[0]);
            let rest = ls.drop_first();
            if l.len() == 0 {
                variants_from(master, pending, rest)
            } else if starts_with(l, "#EXT-X-STREAM-INF:"@) {
                variants_from(master, Some(l), rest)
            } else if l[0] == '#' {
                variants_from(master, pending, rest)
            } else {
                match pending {
                    None => variants_from(master, None, rest),
                    Some(inf) => match stream_variant(master, inf, l) {
                        Err(e) => Err(e),
                        Ok(v) => match variants_from(master, None, rest) {
                            Err(e) => Err(e),
                            Ok(vs) => Ok(seq![v] + vs),
                        },
                    },
                }
            }
        }),
{
}

/// The variant that the stream-info line `inf` and URI line `uri` describe.
fn read_variant(master: &str, inf: &Vec<char>, v: &Vec<char>, lo: usize, hi: usize) -> (r: Result<
    StreamInfo,
    DownloadError,
>)
    requires
        lo <= hi <= v@.len(),
    ensures
        match stream_variant(master@, inf@, v@.subrange(lo as int, hi as int)) {
            Ok(sv) => r matches Ok(s) && s@ == sv,
            Err(f) => matches_fault(r, f),
        },
{
    let inf_text = string_of_range(inf, 0, inf.len());
    assert(inf@.subrange(0, inf@.len() as int) == inf@);
    let uri = string_of_range(v, lo, hi);
    let bw = match capture_group1("BANDWIDTH=(\\d+)", inf_text.as_str()) {
        Ok(g) => g,
        Err(_) => {
            return Err(DownloadError::Parse);
        },
    };
    let res = match capture_group1("RESOLUTION=(\\d+x\\d+)", inf_text.as_str()) {
        Ok(g) => g,
        Err(_) => {
            return Err(DownloadError::Parse);
        },
    };
    let co = match capture_group1("CODECS=\"([^\"]+)\"", inf_text.as_str()) {
        Ok(g) => g,
        Err(_) => {
            return Err(DownloadError::Parse);
        },
    };
    let nm = match capture_group1("NAME=\"([^\"]+)\"", inf_text.as_str()) {
        Ok(g) => g,
        Err(_) => {
            return Err(DownloadError::Parse);
        },
    };
    let playlist_url = match join_url(master, uri.as_str()) {
        Ok(u) => u,
        Err(e) => {
            return Err(DownloadError::Url(e));
        },
    };
    Ok(variant_from_captures(playlist_url, bw, res, co, nm))
}

/// The variant that a stream-info line describes, given the texts its
/// attribute patterns captured (`BANDWIDTH`, `RESOLUTION`, `CODECS`, `NAME`)
/// and its resolved URL: the bandwidth read as a number, and audio-only as
/// `audio_only` says.
pub fn variant_from_captures(
    playlist_url: String,
    bandwidth: Option<String>,
    resolution: Option<String>,
    codecs: Option<String>,
    name: Option<String>,
) -> (r: StreamInfo)
    ensures
        r.playlist_url == playlist_url,
        r.bandwidth == match bandwidth {
            Some(d) => parse_u64(d@),
            None => None,
        },
        r.resolution == resolution,
        r.codecs == codecs,
        r.name == name,
        r.is_audio_only == audio_only(playlist_url@, opt_view(name), opt_view(resolution)),
{
    let bw = match &bandwidth {
        Some(d) => parse_u64_str(d.as_str()),
        None => None,
    };
    let url_chars = chars_of(playlist_url.as_str());
    let audio_pat = chars_of("audio_only");
    let by_url = contains_in_range(&url_chars, 0, url_chars.len(), &audio_pat);
    assert(url_chars@.subrange(0, url_chars@.len() as int) == playlist_url@);
    let by_name = match &name {
        Some(n) => {
            let lower = to_ascii_lowercase(n.as_str());
            let lc = chars_of(lower.as_str());
            let pat = chars_of("audio");
            assert(lc@.subrange(0, lc@.len() as int) == lc@);
            contains_in_range(&lc, 0, lc.len(), &pat)
        },
        None => false,
    };
    let is_audio_only = by_url || by_name || resolution.is_none();
    StreamInfo { playlist_url, bandwidth: bw, resolution, codecs, name, is_audio_only }
}

/// Reads the stream variants of a master playlist, each URI resolved against
/// `master`, the serialization of the playlist's own URL.
pub fn parse_master_playlist(master: &str, playlist: &str) -> (r: Result<
    Vec<StreamInfo>,
    DownloadError,
>)
    ensures
        match playlist_variants(master@, playlist@) {
            Ok(vs) => r matches Ok(v) && views_of(v@) == vs,
            Err(f) => matches_fault(r, f),
        },
{
    let v = chars_of(playlist);
    let spans = line_spans(&v);
    let marker = chars_of("#EXT-X-STREAM-INF:");
    let mut out: Vec<StreamInfo> = Vec::new();
    let mut pending: Option<Vec<char>> = None;
    let mut k: usize = 0;
    assert(spans@.skip(0) == spans@);
    while k < spans.len()
        invariant
            k <= spans@.len(),
            v@ == playlist@,
            marker@ == "#EXT-X-STREAM-INF:"@,
            spans_in(v@, spans@),
            spans_view(v@, spans@) == lines(v@),
            playlist_variants(master@, playlist@) == (match variants_from(
                master@,
                opt_chars(pending),
                spans_view(v@, spans@.skip(k as int)),
            ) {
                Err(e) => Err(e),
                Ok(vs) => Ok(views_of(out@) + vs),
            }),
        decreases spans@.len() - k,
    {
        let ghost ls = spans_view(v@, spans@.skip(k as int));
        let ghost pend = opt_chars(pending);
        proof {
            lemma_variants_step(master@, pend, ls);
            assert(ls[0] == span_seq(v@, spans@[k as int]));
            assert(ls.drop_first() == spans_view(v@, spans@.skip(k + 1)));
        }
        let lo = spans[k].lo;
        let hi = spans[k].hi;
        let (a, b) = trim_bounds(&v, lo, hi);
        if a == b {
        } else if starts_with_in_range(&v, a, b, &marker) {
            let mut inf: Vec<char> = Vec::new();
            let mut j = a;
            while j < b
                invariant
                    a <= j <= b <= v@.len(),
                    inf@ == v@.subrange(a as int, j as int),
                decreases b - j,
            {
                inf.push(v[j]);
                assert(v@.subrange(a as int, j + 1) == v@.subrange(a as int, j as int).push(v@[j as int]));
                j += 1;
            }
            pending = Some(inf);
        } else if v[a] == '#' {
            assert(v@.subrange(a as int, b as int)[0] == v@[a as int]);
        } else {
            assert(v@.subrange(a as int, b as int)[0] == v@[a as int]);
            match pending.take() {
                None => {},
                Some(inf) => {
                    let variant = read_variant(master, &inf, &v, a, b)?;
                    let ghost old_out = views_of(out@);
                    out.push(variant);
                    assert(views_of(out@) == old_out.push(variant@));
                    assert forall|vs: Seq<StreamView>| old_out + (seq![variant@] + vs) == views_of(
                        out@,
                    ) + vs by {
                        assert(old_out + (seq![variant@] + vs) == old_out.push(variant@) + vs);
                    }
                },
            }
        }
        k += 1;
    }
    proof {
        assert(spans@.skip(k as int).len() == 0);
        assert(spans_view(v@, spans@.skip(k as int)) == Seq::<Seq<char>>::empty());
        assert(views_of(out@) + Seq::<StreamView>::empty() == views_of(out@));
    }
    Ok(out)
}


// ---------------------------------------------------------------------------
// Choosing a variant
// ---------------------------------------------------------------------------

/// The key by which the lowest variant is chosen: the bandwidth, the largest
/// value when unknown.
pub open spec fn low_key(s: StreamView) -> u64 {
    match s.bandwidth {
        Some(b) => b,
        None => u64::MAX,
    }
}

/// The key by which the highest variant is chosen: the bandwidth, zero when
/// unknown.
pub open spec fn high_key(s: StreamView) -> u64 {
    match s.bandwidth {
        Some(b) => b,
        None => 0,
    }
}

pub open spec fn eligible(s: StreamView, audio_only_only: bool) -> bool {
    audio_only_only ==> s.is_audio_only
}

/// `i` is the first of the eligible variants with the least `low_key`
/// (what `min_by_key` picks).
pub open spec fn is_first_least(vs: Seq<StreamView>, i: int, audio_only_only: bool) -> bool {
    &&& 0 <= i < vs.len()
    &&& eligible(vs[i], audio_only_only)
    &&& forall|j: int|
        0 <= j < vs.len() && eligible(vs[j], audio_only_only) ==> low_key(vs[i]) <= low_key(
            #[trigger] vs[j],
        )
    &&& forall|j: int|
        0 <= j < i && eligible(vs[j], audio_only_only) ==> low_key(#[trigger] vs[j]) > low_key(
            vs[i],
        )
}

/// `i` is the last of the variants with the greatest `high_key` (what
/// `max_by_key` picks).
pub open spec fn is_last_greatest(vs: Seq<StreamView>, i: int) -> bool {
    &&& 0 <= i < vs.len()
    &&& forall|j: int| 0 <= j < vs.len() ==> high_key(#[trigger] vs[j]) <= high_key(vs[i])
    &&& forall|j: int| i < j < vs.len() ==> high_key(#[trigger] vs[j]) < high_key(vs[i])
}

pub open spec fn has_audio_only(vs: Seq<StreamView>) -> bool {
    exists|j: int| 0 <= j < vs.len() && (#[trigger] vs[j]).is_audio_only
}

/// `i` is the variant that the preference picks: for audio-only the cheapest
/// audio-only variant (the cheapest of all when there is none), for lowest the
/// cheapest, for highest the richest.
pub open spec fn is_preferred(vs: Seq<StreamView>, i: int, pref: QualityPreference) -> bool {
    match pref {
        QualityPreference::AudioOnly => if has_audio_only(vs) {
            is_first_least(vs, i, true)
        } else {
            is_first_least(vs, i, false)
        },
        QualityPreference::Lowest => is_first_least(vs, i, false),
        QualityPreference::Highest => is_last_greatest(vs, i),
    }
}

fn low_key_of(s: &StreamInfo) -> (r: u64)
    ensures
        r == low_key(s@),
{
    match s.bandwidth {
        Some(b) => b,
        None => u64::MAX,
    }
}

fn high_key_of(s: &StreamInfo) -> (r: u64)
    ensures
        r == high_key(s@),
{
    match s.bandwidth {
        Some(b) => b,
        None => 0,
    }
}

/// The first eligible variant with the least `low_key`, if any is eligible.
fn first_least(vs: &Vec<StreamInfo>, audio_only_only: bool) -> (r: Option<usize>)
    ensures
        match r {
            Some(i) => is_first_least(views_of(vs@), i as int, audio_only_only),
            None => forall|j: int|
                0 <= j < vs@.len() ==> !eligible(#[trigger] views_of(vs@)[j], audio_only_only),
        },
{
    let ghost w = views_of(vs@);
    let mut best: Option<usize> = None;
    let mut i: usize = 0;
    while i < vs.len()
        invariant
            i <= vs@.len(),
            w == views_of(vs@),
            match best {
                Some(b) => b < i && is_first_least(w.take(i as int), b as int, audio_only_only),
                None => forall|j: int| 0 <= j < i ==> !eligible(#[trigger] w[j], audio_only_only),
            },
        decreases vs@.len() - i,
    {
        assert(w[i as int] == vs@[i as int]@);
        let ok = !audio_only_only || vs[i].is_audio_only;
        let ghost prev = w.take(i as int);
        let ghost next = w.take(i + 1);
        assert forall|j: int| 0 <= j < i implies #[trigger] next[j] == prev[j] && prev[j] == w[j] by {}
        assert(next[i as int] == w[i as int]);
        if ok {
            match best {
                None => {
                    best = Some(i);
                },
                Some(b) => {
                    if low_key_of(&vs[i]) < low_key_of(&vs[b]) {
                        best = Some(i);
                    }
                },
            }
        }
        i += 1;
    }
    assert(w.take(i as int) == w);
    best
}

/// The last variant with the greatest `high_key`, if there is any variant.
fn last_greatest(vs: &Vec<StreamInfo>) -> (r: Option<usize>)
    ensures
        match r {
            Some(i) => is_last_greatest(views_of(vs@), i as int),
            None => vs@.len() == 0,
        },
{
    let ghost w = views_of(vs@);
    let mut best: Option<usize> = None;
    let mut i: usize = 0;
    while i < vs.len()
        invariant
            i <= vs@.len(),
            w == views_of(vs@),
            match best {
                Some(b) => b < i && is_last_greatest(w.take(i as int), b as int),
                None => i == 0,
            },
        decreases vs@.len() - i,
    {
        assert(w[i as int] == vs@[i as int]@);
        let ghost prev = w.take(i as int);
        let ghost next = w.take(i + 1);
        assert forall|j: int| 0 <= j < i implies #[trigger] next[j] == prev[j] && prev[j] == w[j] by {}
        assert(next[i as int] == w[i as int]);
        match best {
            None => {
                best = Some(i);
            },
            Some(b) => {
                if high_key_of(&vs[i]) >= high_key_of(&vs[b]) {
                    best = Some(i);
                }
            },
        }
        i += 1;
    }
    assert(w.take(i as int) == w);
    best
}

/// The index of the variant that the preference picks; `None` only when
/// there is no variant.
pub fn preferred_variant(vs: &Vec<StreamInfo>, pref: QualityPreference) -> (r: Option<usize>)
    ensures
        match r {
            Some(i) => is_preferred(views_of(vs@), i as int, pref),
            None => vs@.len() == 0,
        },
{
    let ghost w = views_of(vs@);
    match pref {
        QualityPreference::AudioOnly => {
            match first_least(vs, true) {
                Some(i) => Some(i),
                None => {
                    let r = first_least(vs, false);
                    proof {
                        if has_audio_only(w) {
                            let j = choose|j: int| 0 <= j < w.len() && (#[trigger] w[j]).is_audio_only;
                            assert(!eligible(w[j], true));
                        }
                        if r is None && vs@.len() > 0 {
                            assert(!eligible(w[0], false));
                        }
                    }
                    r
                },
            }
        },
        QualityPreference::Lowest => {
            let r = first_least(vs, false);
            proof {
                if r is None && vs@.len() > 0 {
                    assert(!eligible(w[0], false));
                }
            }
            r
        },
        QualityPreference::Highest => last_greatest(vs),
    }
}

/// The stream used when a playlist lists no variant: the master playlist
/// itself, nothing known of it, not audio-only.
pub open spec fn fallback_stream(master_url: Seq<char>) -> StreamView {
    StreamView {
        playlist_url: master_url,
        bandwidth: None,
        resolution: None,
        codecs: None,
        name: None,
        is_audio_only: false,
    }
}

/// Picks the stream to download among the variants of the playlist at
/// `master_url`: the preferred variant, or the playlist itself when it lists
/// none.
pub fn choose_stream(master_url: &str, variants: Vec<StreamInfo>, pref: QualityPreference) -> (r:
    StreamInfo)
    ensures
        variants@.len() == 0 ==> r@ == fallback_stream(master_url@),
        variants@.len() > 0 ==> exists|i: int|
            is_preferred(views_of(variants@), i, pref) && r@ == #[trigger] views_of(variants@)[i],
{
    match preferred_variant(&variants, pref) {
        None => StreamInfo {
            playlist_url: string_from(master_url),
            bandwidth: None,
            resolution: None,
            codecs: None,
            name: None,
            is_audio_only: false,
        },
        Some(i) => {
            let r = variants[i].duplicate();
            assert(r@ == views_of(variants@)[i as int]);
            r
        },
    }
}

/// Resolves the stream to download from the text of the master playlist at
/// `master_url`: that URL must parse, every variant must read, then
/// `choose_stream` picks.
pub fn resolve_stream_from_playlist(master_url: &str, playlist: &str, pref: QualityPreference) -> (r:
    Result<StreamInfo, DownloadError>)
    ensures
        match url_parse(master_url@) {
            None => r matches Err(DownloadError::Url(_)),
            Some(m) => match playlist_variants(m, playlist@) {
                Err(f) => matches_fault(r, f),
                Ok(vs) => r matches Ok(s) && (vs.len() == 0 ==> s@ == fallback_stream(master_url@))
                    && (vs.len() > 0 ==> exists|i: int|
                    is_preferred(vs, i, pref) && s@ == #[trigger] vs[i]),
            },
        },
{
    let master = match parse_url(master_url) {
        Ok(m) => m,
        Err(e) => {
            return Err(DownloadError::Url(e));
        },
    };
    let variants = parse_master_playlist(master.as_str(), playlist)?;
    Ok(choose_stream(master_url, variants, pref))
}

/// How a stream is named in progress messages: an audio-only stream by its
/// name (else `audio-only`), another by its resolution, else its name, else
/// `video`.
pub fn describe_stream(stream: &StreamInfo) -> (r: String)
    ensures
        r@ == (if stream.is_audio_only {
            match stream.name {
                Some(n) => n@,
                None => "audio-only"@,
            }
        } else {
            match (stream.resolution, stream.name) {
                (Some(res), _) => res@,
                (None, Some(n)) => n@,
                (None, None) => "video"@,
            }
        }),
{
    if stream.is_audio_only {
        return match &stream.name {
            Some(n) => n.clone(),
            None => string_from("audio-only"),
        };
    }
    match &stream.resolution {
        Some(res) => res.clone(),
        None => match &stream.name {
            Some(n) => n.clone(),
            None => string_from("video"),
        },
    }
}

/// The media file a downloaded stream is saved as.
pub fn media_file_name(is_audio_only: bool) -> (r: String)
    ensures
        r@ == (if is_audio_only {
            "audio.m4a"@
        } else {
            "video.mp4"@
        }),
{
    if is_audio_only {
        string_from("audio.m4a")
    } else {
        string_from("video.mp4")
    }
}

} // verus!
