//! Reading FFmpeg's diagnostic logs: per-frame signal statistics, silence intervals, loudness.
use vstd::prelude::*;
use crate::text::{
    chars_of, find_first, find_in, first_word, first_word_bounds, line_ranges, lines_of, range_texts,
    string_of, trim_bounds, trimmed,
};

verus! {

/// The text of `line` after the first occurrence of `marker`, if it has one.
pub open spec fn after_marker(line: Seq<char>, marker: Seq<char>) -> Option<Seq<char>> {
    match find_first(line, marker) {
        Some(p) => Some(line.skip((p + marker.len()) as int)),
        None => None,
    }
}

/// The first white-space separated word of the trimmed text (as `s.trim().split_whitespace().next()`).
pub open spec fn word_after_trim(s: Seq<char>) -> Option<Seq<char>> {
    first_word(trimmed(s))
}

/// An owned string's characters, when there is one.
pub open spec fn opt_text(o: Option<String>) -> Option<Seq<char>> {
    match o {
        Some(s) => Some(s@),
        None => None,
    }
}

/// Where the text after `marker` begins in `v[lo..hi]`, if the marker occurs there.
fn after_marker_at(v: &Vec<char>, lo: usize, hi: usize, marker: &Vec<char>) -> (r: Option<usize>)
    requires
        lo <= hi <= v.len(),
    ensures
        match r {
            Some(q) => lo <= q <= hi && after_marker(v@.subrange(lo as int, hi as int), marker@) == Some(
                v@.subrange(q as int, hi as int),
            ),
            None => after_marker(v@.subrange(lo as int, hi as int), marker@) is None,
        },
{
    match find_in(v, lo, hi, marker) {
        Some(p) => {
            let q = p + marker.len();
            assert(v@.subrange(lo as int, hi as int).skip((p - lo + marker@.len()) as int) =~= v@.subrange(q as int, hi as int));
            Some(q)
        },
        None => None,
    }
}

/// The first word of the trimmed text `v[lo..hi]`, as a string.
fn trimmed_word(v: &Vec<char>, lo: usize, hi: usize) -> (r: Option<String>)
    requires
        lo <= hi <= v.len(),
    ensures
        opt_text(r) == word_after_trim(v@.subrange(lo as int, hi as int)),
{
    let (a, b) = trim_bounds(v, lo, hi);
    match first_word_bounds(v, a, b) {
        Some((x, y)) => Some(string_of(v, x, y)),
        None => None,
    }
}

/// The first word of `v[lo..hi]`, as a string.
fn word(v: &Vec<char>, lo: usize, hi: usize) -> (r: Option<String>)
    requires
        lo <= hi <= v.len(),
    ensures
        opt_text(r) == first_word(v@.subrange(lo as int, hi as int)),
{
    match first_word_bounds(v, lo, hi) {
        Some((x, y)) => Some(string_of(v, x, y)),
        None => None,
    }
}

// ---------------------------------------------------------------------------------------------
// Loudness: `volumedetect` prints `mean_volume: -23.4 dB`.

/// The text after the first `marker` of `line`, up to the marker's next occurrence (the second
/// piece of `line.split(marker)`).
pub open spec fn marker_piece(line: Seq<char>, marker: Seq<char>) -> Option<Seq<char>> {
    match after_marker(line, marker) {
        Some(a) => Some(
            match find_first(a, marker) {
                Some(q) => a.take(q as int),
                None => a,
            },
        ),
        None => None,
    }
}

/// The marker piece of the first line of `ls` that holds the marker.
pub open spec fn first_marker_piece(ls: Seq<Seq<char>>, marker: Seq<char>) -> Option<Seq<char>>
    decreases ls.len(),
{
    if ls.len() == 0 {
        None
    } else {
        match marker_piece(ls[0], marker) {
            Some(p) => Some(p),
            None => first_marker_piece(ls.drop_first(), marker),
        }
    }
}

/// The mean-volume reading of a `volumedetect` log: the first word after `mean_volume:` on
/// the first line that mentions it.
pub open spec fn mean_volume_text(log: Seq<char>) -> Option<Seq<char>> {
    match first_marker_piece(lines_of(log), "mean_volume:"@) {
        Some(p) => word_after_trim(p),
        None => None,
    }
}

/// The mean-volume figure of a `volumedetect` log, as printed (for example `-23.4`).
pub fn mean_volume_token(log: &str) -> (r: Option<String>)
    ensures
        opt_text(r) == mean_volume_text(log@),
{
    let v = chars_of(log);
    let marker = chars_of("mean_volume:");
    let ranges = line_ranges(&v);
    let ghost ls = lines_of(v@);
    assert(ls.skip(0) =~= ls);
    let mut k: usize = 0;
    while k < ranges.len()
        invariant
            k <= ranges.len(),
            v@ == log@,
            marker@ == "mean_volume:"@,
            ls == range_texts(v@, ranges@),
            ls == lines_of(v@),
            forall|j: int| 0 <= j < ranges.len() ==> (#[trigger] ranges@[j]).0 <= ranges@[j].1 <= v.len(),
            first_marker_piece(ls.skip(k as int), marker@) == first_marker_piece(ls, marker@),
        decreases ranges.len() - k,
    {
        let (a, b) = ranges[k];
        assert(ls.skip(k as int).drop_first() =~= ls.skip(k + 1));
        assert(ls.skip(k as int)[0] == v@.subrange(a as int, b as int));
        match after_marker_at(&v, a, b, &marker) {
            Some(q) => {
                let end = match find_in(&v, q, b, &marker) {
                    Some(p) => p,
                    None => b,
                };
                assert(marker_piece(v@.subrange(a as int, b as int), marker@) == Some(v@.subrange(q as int, end as int))) by {
                    let after = v@.subrange(q as int, b as int);
                    if end < b {
                        assert(after.take(end - q) =~= v@.subrange(q as int, end as int));
                    } else {
                        assert(after =~= v@.subrange(q as int, end as int));
                    }
                }
                return trimmed_word(&v, q, end);
            },
            None => {},
        }
        k = k + 1;
    }
    assert(ls.skip(k as int) =~= Seq::<Seq<char>>::empty());
    None
}


// ---------------------------------------------------------------------------------------------
// Frame statistics: `signalstats` + `metadata=print` print, per frame, a line with
// `pts_time:<seconds>` followed by `lavfi.signalstats.YDIF=<x>` and `lavfi.signalstats.SATAVG=<x>`.

/// The raw readings of one frame: its time word, and the last motion (`YDIF`) and saturation
/// (`SATAVG`) values printed for it.
pub struct FrameTexts {
    pub time: Option<String>,
    pub motion: Option<String>,
    pub saturation: Option<String>,
}

/// The readings of a frame as character sequences.
pub type FrameText = (Option<Seq<char>>, Option<Seq<char>>, Option<Seq<char>>);

/// A frame's readings as character sequences.
pub open spec fn frame_text(f: FrameTexts) -> FrameText {
    (opt_text(f.time), opt_text(f.motion), opt_text(f.saturation))
}

/// Frames already closed, and the frame still being read.
pub type FrameScan = (Seq<FrameText>, Option<FrameText>);

/// What one log line does to the scan: a `pts_time:` closes the open frame and opens one with
/// the word that follows; a `YDIF=` or `SATAVG=` value (the trimmed rest of the line) replaces
/// the open frame's reading; readings before the first frame are dropped.
pub open spec fn signal_step(st: FrameScan, line: Seq<char>) -> FrameScan {
    let (frames, cur) = st;
    let (frames, cur) = match after_marker(line, "pts_time:"@) {
        Some(a) => (
            match cur {
                Some(f) => frames.push(f),
                None => frames,
            },
            Some((first_word(a), None, None)),
        ),
        None => (frames, cur),
    };
    let cur = match after_marker(line, "lavfi.signalstats.YDIF="@) {
        Some(a) => match cur {
            Some(f) => Some((f.0, Some(trimmed(a)), f.2)),
            None => None,
        },
        None => cur,
    };
    let cur = match after_marker(line, "lavfi.signalstats.SATAVG="@) {
        Some(a) => match cur {
            Some(f) => Some((f.0, f.1, Some(trimmed(a)))),
            None => None,
        },
        None => cur,
    };
    (frames, cur)
}

/// The scan after the first `k` lines.
pub open spec fn signal_scan(ls: Seq<Seq<char>>, k: nat) -> FrameScan
    decreases k,
{
    if k == 0 {
        (Seq::empty(), None)
    } else {
        signal_step(signal_scan(ls, (k - 1) as nat), ls[k - 1])
    }
}

/// Every frame of the log, the last one included.
pub open spec fn signal_frames_text(log: Seq<char>) -> Seq<FrameText> {
    let ls = lines_of(log);
    let (frames, cur) = signal_scan(ls, ls.len());
    match cur {
        Some(f) => frames.push(f),
        None => frames,
    }
}

/// The frames of a `signalstats` log, in order, with their raw readings.
pub fn signal_frames(log: &str) -> (r: Vec<FrameTexts>)
    ensures
        r@.map_values(|f: FrameTexts| frame_text(f)) == signal_frames_text(log@),
{
    let v = chars_of(log);
    let pts = chars_of("pts_time:");
    let ydif = chars_of("lavfi.signalstats.YDIF=");
    let sat = chars_of("lavfi.signalstats.SATAVG=");
    let ranges = line_ranges(&v);
    let ghost ls = lines_of(v@);
    let mut frames: Vec<FrameTexts> = Vec::new();
    let mut cur: Option<FrameTexts> = None;
    let mut k: usize = 0;
    while k < ranges.len()
        invariant
            k <= ranges.len(),
            v@ == log@,
            pts@ == "pts_time:"@,
            ydif@ == "lavfi.signalstats.YDIF="@,
            sat@ == "lavfi.signalstats.SATAVG="@,
            ls == range_texts(v@, ranges@),
            ls == lines_of(v@),
            forall|j: int| 0 <= j < ranges.len() ==> (#[trigger] ranges@[j]).0 <= ranges@[j].1 <= v.len(),
            signal_scan(ls, k as nat) == (
                frames@.map_values(|f: FrameTexts| frame_text(f)),
                match cur {
                    Some(f) => Some(frame_text(f)),
                    None => None,
                },
            ),
        decreases ranges.len() - k,
    {
        let (a, b) = ranges[k];
        let ghost line = v@.subrange(a as int, b as int);
        assert(ls[k as int] == line);
        let ghost before = signal_scan(ls, k as nat);
        match after_marker_at(&v, a, b, &pts) {
            Some(q) => {
                let ghost old_frames = frames@;
                match cur {
                    Some(f) => {
                        frames.push(f);
                        assert(frames@.map_values(|f: FrameTexts| frame_text(f)) =~= old_frames.map_values(
                            |f: FrameTexts| frame_text(f),
                        ).push(frame_text(f)));
                    },
                    None => {},
                }
                cur = Some(FrameTexts { time: word(&v, q, b), motion: None, saturation: None });
            },
            None => {},
        }
        match after_marker_at(&v, a, b, &ydif) {
            Some(q) => {
                let (x, y) = trim_bounds(&v, q, b);
                cur = match cur {
                    Some(f) => Some(
                        FrameTexts { time: f.time, motion: Some(string_of(&v, x, y)), saturation: f.saturation },
                    ),
                    None => None,
                };
            },
            None => {},
        }
        match after_marker_at(&v, a, b, &sat) {
            Some(q) => {
                let (x, y) = trim_bounds(&v, q, b);
                cur = match cur {
                    Some(f) => Some(
                        FrameTexts { time: f.time, motion: f.motion, saturation: Some(string_of(&v, x, y)) },
                    ),
                    None => None,
                };
            },
            None => {},
        }
        assert(signal_scan(ls, (k + 1) as nat) == signal_step(before, line));
        k = k + 1;
    }
    let ghost closed = frames@;
    match cur {
        Some(f) => {
            frames.push(f);
            assert(frames@.map_values(|f: FrameTexts| frame_text(f)) =~= closed.map_values(
                |f: FrameTexts| frame_text(f),
            ).push(frame_text(f)));
        },
        None => {},
    }
    frames
}


// ---------------------------------------------------------------------------------------------
// Silence: `silencedetect` prints `silence_start: <s>` and, later, `silence_end: <s> | ...`.

/// One silence marker of the log, with the word that follows it.
pub enum SilenceMark {
    Start(Option<String>),
    End(Option<String>),
}

/// A silence marker as `(is a start, word after it)`.
pub open spec fn mark_text(m: SilenceMark) -> (bool, Option<Seq<char>>) {
    match m {
        SilenceMark::Start(w) => (true, opt_text(w)),
        SilenceMark::End(w) => (false, opt_text(w)),
    }
}

/// The markers of one line: its `silence_start:` (if any) before its `silence_end:` (if any).
pub open spec fn line_marks(line: Seq<char>) -> Seq<(bool, Option<Seq<char>>)> {
    (match after_marker(line, "silence_start:"@) {
        Some(a) => seq![(true, word_after_trim(a))],
        None => Seq::empty(),
    }) + match after_marker(line, "silence_end:"@) {
        Some(a) => seq![(false, word_after_trim(a))],
        None => Seq::empty(),
    }
}

/// The markers of the first `k` lines.
pub open spec fn marks_of_lines(ls: Seq<Seq<char>>, k: nat) -> Seq<(bool, Option<Seq<char>>)>
    decreases k,
{
    if k == 0 {
        Seq::empty()
    } else {
        marks_of_lines(ls, (k - 1) as nat) + line_marks(ls[k - 1])
    }
}

/// Every silence marker of a `silencedetect` log, in order.
pub fn silence_marks(log: &str) -> (r: Vec<SilenceMark>)
    ensures
        r@.map_values(|m: SilenceMark| mark_text(m)) == ({
            let ls = lines_of(log@);
            marks_of_lines(ls, ls.len())
        }),
{
    let v = chars_of(log);
    let start = chars_of("silence_start:");
    let end = chars_of("silence_end:");
    let ranges = line_ranges(&v);
    let ghost ls = lines_of(v@);
    let mut marks: Vec<SilenceMark> = Vec::new();
    let mut k: usize = 0;
    while k < ranges.len()
        invariant
            k <= ranges.len(),
            v@ == log@,
            start@ == "silence_start:"@,
            end@ == "silence_end:"@,
            ls == range_texts(v@, ranges@),
            ls == lines_of(v@),
            forall|j: int| 0 <= j < ranges.len() ==> (#[trigger] ranges@[j]).0 <= ranges@[j].1 <= v.len(),
            marks@.map_values(|m: SilenceMark| mark_text(m)) == marks_of_lines(ls, k as nat),
        decreases ranges.len() - k,
    {
        let (a, b) = ranges[k];
        let ghost line = v@.subrange(a as int, b as int);
        assert(ls[k as int] == line);
        let ghost before = marks@;
        match after_marker_at(&v, a, b, &start) {
            Some(q) => {
                marks.push(SilenceMark::Start(trimmed_word(&v, q, b)));
            },
            None => {},
        }
        let ghost middle = marks@;
        match after_marker_at(&v, a, b, &end) {
            Some(q) => {
                marks.push(SilenceMark::End(trimmed_word(&v, q, b)));
            },
            None => {},
        }
        assert(marks@.map_values(|m: SilenceMark| mark_text(m)) =~= before.map_values(
            |m: SilenceMark| mark_text(m),
        ) + line_marks(line));
        k = k + 1;
    }
    marks
}

/// A silence marker after its value was read: whether it opens or closes an interval, and
/// whether its value was a readable number.
#[derive(Clone, Copy, PartialEq, Eq, Structural)]
pub struct SilenceReading {
    pub is_start: bool,
    pub parsed: bool,
}

/// A silence interval, as positions in the marker list: where it starts, and where it ends
/// (no end: the silence lasts to the end of the media).
#[derive(Clone, Copy, PartialEq, Eq, Structural, Debug)]
pub struct SilenceSpan {
    pub start: usize,
    pub end: Option<usize>,
}

/// Intervals closed so far, and the start of the open one.
pub type SilenceScan = (Seq<SilenceSpan>, Option<usize>);

/// What marker `i` does: a start opens an interval (none if its value is unreadable); an end
/// closes the open interval, which is kept only when the end's value is readable.
pub open spec fn silence_step(st: SilenceScan, i: nat, m: SilenceReading) -> SilenceScan {
    let (spans, open) = st;
    if m.is_start {
        (spans, if m.parsed { Some(i as usize) } else { None })
    } else {
        (
            match open {
                Some(s) => if m.parsed {
                    spans.push(SilenceSpan { start: s, end: Some(i as usize) })
                } else {
                    spans
                },
                None => spans,
            },
            None,
        )
    }
}

/// The scan after the first `k` markers.
pub open spec fn silence_scan(ms: Seq<SilenceReading>, k: nat) -> SilenceScan
    decreases k,
{
    if k == 0 {
        (Seq::empty(), None)
    } else {
        silence_step(silence_scan(ms, (k - 1) as nat), (k - 1) as nat, ms[k - 1])
    }
}

/// Every silence interval: the closed ones, then one still open at the end of the log.
pub open spec fn silence_spans_of(ms: Seq<SilenceReading>) -> Seq<SilenceSpan> {
    let (spans, open) = silence_scan(ms, ms.len());
    match open {
        Some(s) => spans.push(SilenceSpan { start: s, end: None }),
        None => spans,
    }
}

/// What every scan state keeps: intervals point at readable starts and ends, each ends after
/// it starts, and each starts after the previous one ended; the open start follows them all.
pub open spec fn spans_well_formed(ms: Seq<SilenceReading>, spans: Seq<SilenceSpan>, open: Option<usize>, k: int) -> bool {
    &&& forall|i: int|
        0 <= i < spans.len() ==> {
            let sp = #[trigger] spans[i];
            &&& sp.start < k
            &&& ms[sp.start as int].is_start && ms[sp.start as int].parsed
            &&& sp.end matches Some(e) && sp.start < e < k && !ms[e as int].is_start && ms[e as int].parsed
        }
    &&& forall|i: int, j: int|
        0 <= i < j < spans.len() ==> (#[trigger] spans[i]).end.unwrap() < (#[trigger] spans[j]).start
    &&& open matches Some(o) ==> {
        &&& o < k
        &&& ms[o as int].is_start && ms[o as int].parsed
        &&& forall|i: int| 0 <= i < spans.len() ==> (#[trigger] spans[i]).end.unwrap() < o
    }
}

proof fn lemma_silence_scan_well_formed(ms: Seq<SilenceReading>, k: nat)
    requires
        k <= ms.len() <= usize::MAX,
    ensures
        spans_well_formed(ms, silence_scan(ms, k).0, silence_scan(ms, k).1, k as int),
    decreases k,
{
    if k > 0 {
        lemma_silence_scan_well_formed(ms, (k - 1) as nat);
        let (spans, open) = silence_scan(ms, (k - 1) as nat);
        let m = ms[k - 1];
        let (now, now_open) = silence_scan(ms, k);
        if !m.is_start && open is Some && m.parsed {
            let o = open.unwrap();
            assert(now == spans.push(SilenceSpan { start: o, end: Some((k - 1) as usize) }));
            assert forall|i: int, j: int| 0 <= i < j < now.len() implies (#[trigger] now[i]).end.unwrap() < (#[trigger] now[j]).start by {
                assert(now[i] == spans[i]);
                if j < spans.len() {
                    assert(now[j] == spans[j]);
                }
            }
            assert forall|i: int| 0 <= i < now.len() implies {
                let sp = #[trigger] now[i];
                &&& sp.start < k
                &&& ms[sp.start as int].is_start && ms[sp.start as int].parsed
                &&& sp.end matches Some(e) && sp.start < e < k && !ms[e as int].is_start && ms[e as int].parsed
            } by {
                if i < spans.len() {
                    assert(now[i] == spans[i]);
                }
            }
        }
    }
}

/// The intervals found in a marker list are well formed: each runs from a readable start to a
/// readable end after it (only the last may run to the end of the media), and they follow one
/// another without overlapping.
pub proof fn lemma_silence_spans_ordered(ms: Seq<SilenceReading>)
    requires
        ms.len() <= usize::MAX,
    ensures
        forall|i: int|
            0 <= i < silence_spans_of(ms).len() ==> {
                let sp = #[trigger] silence_spans_of(ms)[i];
                &&& sp.start < ms.len()
                &&& ms[sp.start as int].is_start && ms[sp.start as int].parsed
                &&& (sp.end matches Some(e) ==> sp.start < e < ms.len() && !ms[e as int].is_start
                    && ms[e as int].parsed)
                &&& (sp.end is None ==> i == silence_spans_of(ms).len() - 1)
            },
        forall|i: int, j: int|
            0 <= i < j < silence_spans_of(ms).len() ==> (#[trigger] silence_spans_of(ms)[i]).end.unwrap()
                < (#[trigger] silence_spans_of(ms)[j]).start,
{
    lemma_silence_scan_well_formed(ms, ms.len());
    let (spans, open) = silence_scan(ms, ms.len());
    let all = silence_spans_of(ms);
    if open is Some {
        assert(all == spans.push(SilenceSpan { start: open.unwrap(), end: None }));
        assert forall|i: int, j: int| 0 <= i < j < all.len() implies (#[trigger] all[i]).end.unwrap() < (#[trigger] all[j]).start by {
            assert(all[i] == spans[i]);
            if j < spans.len() {
                assert(all[j] == spans[j]);
            }
        }
        assert forall|i: int| 0 <= i < all.len() implies {
            let sp = #[trigger] all[i];
            &&& sp.start < ms.len()
            &&& ms[sp.start as int].is_start && ms[sp.start as int].parsed
            &&& (sp.end matches Some(e) ==> sp.start < e < ms.len() && !ms[e as int].is_start && ms[e as int].parsed)
            &&& (sp.end is None ==> i == all.len() - 1)
        } by {
            if i < spans.len() {
                assert(all[i] == spans[i]);
            }
        }
    }
}

/// Pairs silence starts with their ends.
pub fn pair_silence_marks(marks: &Vec<SilenceReading>) -> (r: Vec<SilenceSpan>)
    ensures
        r@ == silence_spans_of(marks@),
{
    let mut spans: Vec<SilenceSpan> = Vec::new();
    let mut open: Option<usize> = None;
    let mut i: usize = 0;
    while i < marks.len()
        invariant
            i <= marks.len(),
            silence_scan(marks@, i as nat) == (spans@, open),
        decreases marks.len() - i,
    {
        let m = marks[i];
        if m.is_start {
            open = if m.parsed { Some(i) } else { None };
        } else {
            match open {
                Some(s) => {
                    if m.parsed {
                        spans.push(SilenceSpan { start: s, end: Some(i) });
                    }
                },
                None => {},
            }
            open = None;
        }
        i = i + 1;
    }
    match open {
        Some(s) => spans.push(SilenceSpan { start: s, end: None }),
        None => {},
    }
    spans
}

} // verus!
