//! FFmpeg filter-graph text: labels, escaping and the crop/scale stages of a vertical render.
use vstd::prelude::*;
use vstd::string::*;
use crate::text::{
    decimal, has_part, lemma_halves_are_parts, lemma_part_of_part, push_decimal,
    chars_of, join_with, line_ranges, lines_of, push_char, range_texts, string_of, trim_bounds, trimmed,
};
use crate::domain::CropMode;

verus! {

/// How a stream label is handed to `-map`: an input stream (`0:a`) is mapped as optional
/// (`0:a?`), a filter output (`acut0`) in brackets (`[acut0]`).
pub open spec fn audio_map_text(label: Seq<char>) -> Seq<char> {
    if label.contains(':') {
        label.push('?')
    } else {
        seq!['['] + label + seq![']']
    }
}

/// The `-map` argument for an audio stream label.
pub fn audio_map_spec(label: &str) -> (r: String)
    ensures
        r@ == audio_map_text(label@),
{
    let v = chars_of(label);
    let mut i: usize = 0;
    while i < v.len()
        invariant
            i <= v.len(),
            v@ == label@,
            forall|j: int| 0 <= j < i ==> v@[j] != ':',
        decreases v.len() - i,
    {
        if v[i] == ':' {
            assert(label@.contains(':')) by {
                assert(label@[i as int] == ':');
            }
            let mut r = label.to_owned();
            push_char(&mut r, '?');
            return r;
        }
        i = i + 1;
    }
    assert(!label@.contains(':'));
    let mut r = String::new();
    push_char(&mut r, '[');
    r.append(label);
    push_char(&mut r, ']');
    assert(r@ =~= seq!['['] + label@ + seq![']']);
    r
}

/// The escaped form of one character inside a quoted `drawtext` value.
pub open spec fn escape_char(c: char) -> Seq<char> {
    if c == '\\' {
        seq!['\\', '\\']
    } else if c == ':' {
        seq!['\\', ':']
    } else if c == '\'' {
        seq!['\u{2019}']
    } else if c == '%' {
        seq!['\\', '%']
    } else {
        seq![c]
    }
}

/// `s` with every character escaped for `drawtext`.
pub open spec fn escaped(s: Seq<char>) -> Seq<char>
    decreases s.len(),
{
    if s.len() == 0 {
        Seq::empty()
    } else {
        escaped(s.drop_last()) + escape_char(s.last())
    }
}

/// Escapes text for a `drawtext` filter: backslashes doubled, `:` and `%` escaped with a
/// backslash, straight apostrophes turned into typographic ones.
pub fn escape_drawtext(value: &str) -> (r: String)
    ensures
        r@ == escaped(value@),
{
    let v = chars_of(value);
    let mut r = String::new();
    let mut i: usize = 0;
    while i < v.len()
        invariant
            i <= v.len(),
            v@ == value@,
            r@ == escaped(v@.take(i as int)),
        decreases v.len() - i,
    {
        let c = v[i];
        if c == '\\' {
            push_char(&mut r, '\\');
            push_char(&mut r, '\\');
        } else if c == ':' {
            push_char(&mut r, '\\');
            push_char(&mut r, ':');
        } else if c == '\'' {
            push_char(&mut r, '\u{2019}');
        } else if c == '%' {
            push_char(&mut r, '\\');
            push_char(&mut r, '%');
        } else {
            push_char(&mut r, c);
        }
        assert(v@.take(i + 1).drop_last() =~= v@.take(i as int));
        assert(r@ =~= escaped(v@.take(i + 1)));
        i = i + 1;
    }
    assert(v@.take(v.len() as int) =~= v@);
    r
}

/// `s` without its leading `#` characters.
pub open spec fn strip_hashes(s: Seq<char>) -> Seq<char>
    decreases s.len(),
{
    if s.len() > 0 && s[0] == '#' {
        strip_hashes(s.drop_first())
    } else {
        s
    }
}

/// A colour value as FFmpeg takes it: trimmed, with leading `#` characters removed.
pub fn normalize_color(value: &str) -> (r: String)
    ensures
        r@ == strip_hashes(trimmed(value@)),
{
    let v = chars_of(value);
    let (a, b) = trim_bounds(&v, 0, v.len());
    assert(v@.subrange(0, v.len() as int) =~= value@);
    let mut i = a;
    while i < b && v[i] == '#'
        invariant
            a <= i <= b <= v.len(),
            strip_hashes(v@.subrange(i as int, b as int)) == strip_hashes(v@.subrange(a as int, b as int)),
        decreases b - i,
    {
        assert(v@.subrange(i as int, b as int).drop_first() =~= v@.subrange(i + 1, b as int));
        i = i + 1;
    }
    string_of(&v, i, b)
}

/// An ASCII letter or digit.
pub open spec fn is_ascii_alnum(c: char) -> bool {
    ('0' <= c && c <= '9') || ('A' <= c && c <= 'Z') || ('a' <= c && c <= 'z')
}

/// The ASCII letters and digits of `s`, in order.
pub open spec fn alnum_only(s: Seq<char>) -> Seq<char>
    decreases s.len(),
{
    if s.len() == 0 {
        Seq::empty()
    } else if is_ascii_alnum(s.last()) {
        alnum_only(s.drop_last()).push(s.last())
    } else {
        alnum_only(s.drop_last())
    }
}

/// The most characters a filter label keeps from an id.
pub const LABEL_LIMIT: usize = 12;

/// A filter-graph label made from an id: its ASCII letters and digits, at most twelve.
pub open spec fn label_text(s: Seq<char>) -> Seq<char> {
    let f = alnum_only(s);
    if f.len() <= LABEL_LIMIT {
        f
    } else {
        f.take(LABEL_LIMIT as int)
    }
}

/// Turns an id into a filter-graph label: ASCII letters and digits only, at most twelve.
pub fn sanitize_label(value: &str) -> (r: String)
    ensures
        r@ == label_text(value@),
{
    let v = chars_of(value);
    let mut r = String::new();
    let mut i: usize = 0;
    let mut n: usize = 0;
    while i < v.len() && n < LABEL_LIMIT
        invariant
            i <= v.len(),
            v@ == value@,
            n <= LABEL_LIMIT,
            r@ == alnum_only(v@.take(i as int)),
            n == r@.len(),
        decreases v.len() - i,
    {
        let c = v[i];
        assert(v@.take(i + 1).drop_last() =~= v@.take(i as int));
        if ('0' <= c && c <= '9') || ('A' <= c && c <= 'Z') || ('a' <= c && c <= 'z') {
            push_char(&mut r, c);
            n = n + 1;
        }
        i = i + 1;
    }
    proof {
        lemma_alnum_only_prefix(v@, i as int);
    }
    r
}

/// Filtering a prefix gives a prefix of the filtered sequence; once twelve characters are
/// kept, the rest of the input cannot change the first twelve.
proof fn lemma_alnum_only_prefix(s: Seq<char>, i: int)
    requires
        0 <= i <= s.len(),
        i < s.len() ==> alnum_only(s.take(i)).len() == LABEL_LIMIT,
        alnum_only(s.take(i)).len() <= LABEL_LIMIT,
    ensures
        label_text(s) == alnum_only(s.take(i)),
    decreases s.len(),
{
    if i == s.len() {
        assert(s.take(i) =~= s);
    } else {
        lemma_alnum_only_extends(s, i);
        let f = alnum_only(s);
        assert(f.take(LABEL_LIMIT as int) =~= alnum_only(s.take(i)));
    }
}

/// `alnum_only` of a prefix is a prefix of `alnum_only`.
proof fn lemma_alnum_only_extends(s: Seq<char>, i: int)
    requires
        0 <= i <= s.len(),
    ensures
        alnum_only(s.take(i)).len() <= alnum_only(s).len(),
        alnum_only(s.take(i)) == alnum_only(s).take(alnum_only(s.take(i)).len() as int),
    decreases s.len() - i,
{
    if i == s.len() {
        assert(s.take(i) =~= s);
        assert(alnum_only(s).take(alnum_only(s).len() as int) =~= alnum_only(s));
    } else {
        lemma_alnum_only_extends(s, i + 1);
        assert(s.take(i + 1).drop_last() =~= s.take(i));
        let a = alnum_only(s.take(i));
        let b = alnum_only(s.take(i + 1));
        let f = alnum_only(s);
        assert(b.take(a.len() as int) =~= a);
        assert(f.take(a.len() as int) =~= f.take(b.len() as int).take(a.len() as int));
    }
}

/// Every character `alnum_only` keeps is an ASCII letter or digit.
proof fn lemma_alnum_only_alnum(s: Seq<char>)
    ensures
        forall|i: int| 0 <= i < alnum_only(s).len() ==> is_ascii_alnum(#[trigger] alnum_only(s)[i]),
        alnum_only(s).len() <= s.len(),
    decreases s.len(),
{
    if s.len() > 0 {
        lemma_alnum_only_alnum(s.drop_last());
    }
}

/// `alnum_only` keeps a sequence of letters and digits as it is.
proof fn lemma_alnum_only_keeps(s: Seq<char>)
    requires
        forall|i: int| 0 <= i < s.len() ==> is_ascii_alnum(#[trigger] s[i]),
    ensures
        alnum_only(s) == s,
    decreases s.len(),
{
    if s.len() > 0 {
        lemma_alnum_only_keeps(s.drop_last());
        assert(s.drop_last().push(s.last()) =~= s);
    }
}

/// A label is safe in a filter graph: at most twelve characters, each an ASCII letter or digit.
pub proof fn lemma_label_is_safe(s: Seq<char>)
    ensures
        label_text(s).len() <= LABEL_LIMIT,
        forall|i: int| 0 <= i < label_text(s).len() ==> is_ascii_alnum(#[trigger] label_text(s)[i]),
{
    lemma_alnum_only_alnum(s);
    let f = alnum_only(s);
    if f.len() > LABEL_LIMIT {
        assert forall|i: int| 0 <= i < label_text(s).len() implies is_ascii_alnum(#[trigger] label_text(s)[i]) by {
            assert(label_text(s)[i] == f[i]);
        }
    }
}

/// Making a label out of a label changes nothing.
pub proof fn lemma_label_idempotent(s: Seq<char>)
    ensures
        label_text(label_text(s)) == label_text(s),
{
    lemma_label_is_safe(s);
    lemma_alnum_only_keeps(label_text(s));
}

/// Escaped `drawtext` text holds no straight apostrophe, so it cannot close the quoted value.
pub proof fn lemma_escaped_has_no_quote(s: Seq<char>)
    ensures
        forall|i: int| 0 <= i < escaped(s).len() ==> #[trigger] escaped(s)[i] != '\'',
    decreases s.len(),
{
    if s.len() > 0 {
        lemma_escaped_has_no_quote(s.drop_last());
        let a = escaped(s.drop_last());
        let b = escape_char(s.last());
        assert forall|i: int| 0 <= i < escaped(s).len() implies #[trigger] escaped(s)[i] != '\'' by {
            if i >= a.len() {
                assert(escaped(s)[i] == b[i - a.len()]);
            } else {
                assert(escaped(s)[i] == a[i]);
            }
        }
    }
}

/// The last `n` lines of a text, joined by line feeds (the tail of a tool's log).
pub open spec fn tail_text(s: Seq<char>, n: nat) -> Seq<char> {
    let ls = lines_of(s);
    let k = if n < ls.len() { n } else { ls.len() };
    join_with(ls.subrange(ls.len() - k, ls.len() as int), seq!['\n'])
}

/// Asking for at least as many lines as the text has gives the whole text's lines.
pub proof fn lemma_tail_keeps_every_line(s: Seq<char>, n: nat)
    requires
        n >= lines_of(s).len(),
    ensures
        tail_text(s, n) == join_with(lines_of(s), seq!['\n']),
{
    let ls = lines_of(s);
    assert(ls.subrange(0, ls.len() as int) =~= ls);
}

/// The last `lines` lines of `value`, joined by line feeds.
pub fn tail(value: &str, lines: usize) -> (r: String)
    ensures
        r@ == tail_text(value@, lines as nat),
{
    let v = chars_of(value);
    let ranges = line_ranges(&v);
    let total = ranges.len();
    let k = if lines < total { lines } else { total };
    let first = total - k;
    let ghost ls = lines_of(v@);
    let ghost picked = ls.subrange(first as int, total as int);
    assert(ls.len() == total) by {
        assert(range_texts(v@, ranges@).len() == total);
    }
    let mut r = String::new();
    let mut i = first;
    while i < total
        invariant
            first <= i <= total == ranges.len(),
            ls == lines_of(v@),
            ls == range_texts(v@, ranges@),
            picked == ls.subrange(first as int, total as int),
            forall|k: int| 0 <= k < ranges.len() ==> (#[trigger] ranges@[k]).0 <= ranges@[k].1 <= v.len(),
            r@ == join_with(picked.take(i - first), seq!['\n']),
        decreases total - i,
    {
        let (a, b) = ranges[i];
        let ghost before = r@;
        if i > first {
            push_char(&mut r, '\n');
        }
        let piece = string_of(&v, a, b);
        r.append(piece.as_str());
        let ghost next = picked.take(i + 1 - first);
        assert(next.drop_last() =~= picked.take(i - first));
        assert(next.last() == v@.subrange(a as int, b as int));
        if i > first {
            assert(r@ =~= join_with(next, seq!['\n']));
        } else {
            assert(r@ =~= join_with(next, seq!['\n']));
        }
        i = i + 1;
    }
    assert(picked.take(total - first) =~= picked);
    r
}


/// The crop/scale stage for a vertical frame of `w`×`h`: either a centred 9:16 crop zoomed by
/// `zoom`, or the whole frame over a blurred, cropped copy of itself.
pub open spec fn base_filter_text(input: Seq<char>, mode: CropMode, zoom: Seq<char>, w: nat, h: nat) -> Seq<char> {
    let size = decimal(w) + seq![':'] + decimal(h);
    match mode {
        CropMode::BlurredBackground => seq!['['] + input + "]split=2[bg][fg];[bg]scale="@ + size
            + ":force_original_aspect_ratio=increase,crop="@ + size + ",boxblur=24:2[blur];[fg]scale="@
            + size + ":force_original_aspect_ratio=decrease[front];[blur][front]overlay=(W-w)/2:(H-h)/2,setsar=1[base]"@,
        _ => seq!['['] + input + "]crop='min(iw,ih*9/16/"@ + zoom + ")':'min(ih,iw*16/9/"@ + zoom
            + ")':(iw-ow)/2:(ih-oh)/2,scale="@ + size + ":flags=lanczos,setsar=1[base]"@,
    }
}

fn push_size(s: &mut String, w: u32, h: u32)
    ensures
        final(s)@ == old(s)@ + decimal(w as nat) + seq![':'] + decimal(h as nat),
{
    push_decimal(s, w as u64);
    push_char(s, ':');
    push_decimal(s, h as u64);
}

/// The crop/scale stage of the filter graph, reading `input` and writing `[base]`; `zoom` is
/// the zoom factor as it is printed into the crop expression.
pub fn base_video_filter(input: &str, mode: &CropMode, zoom: &str, width: u32, height: u32) -> (r: String)
    ensures
        r@ == base_filter_text(input@, *mode, zoom@, width as nat, height as nat),
{
    let mut r = String::new();
    push_char(&mut r, '[');
    r.append(input);
    match mode {
        CropMode::BlurredBackground => {
            r.append("]split=2[bg][fg];[bg]scale=");
            push_size(&mut r, width, height);
            r.append(":force_original_aspect_ratio=increase,crop=");
            push_size(&mut r, width, height);
            r.append(",boxblur=24:2[blur];[fg]scale=");
            push_size(&mut r, width, height);
            r.append(":force_original_aspect_ratio=decrease[front];[blur][front]overlay=(W-w)/2:(H-h)/2,setsar=1[base]");
        },
        _ => {
            r.append("]crop='min(iw,ih*9/16/");
            r.append(zoom);
            r.append(")':'min(ih,iw*16/9/");
            r.append(zoom);
            r.append(")':(iw-ow)/2:(ih-oh)/2,scale=");
            push_size(&mut r, width, height);
            r.append(":flags=lanczos,setsar=1[base]");
        },
    }
    assert(r@ =~= base_filter_text(input@, *mode, zoom@, width as nat, height as nat));
    r
}


/// One kept stretch of the clip, its bounds already printed in seconds.
pub struct CutSegment {
    pub start: String,
    pub end: String,
}

/// `[` + `prefix` + `i` + `]`.
pub open spec fn bracket_label(prefix: Seq<char>, i: nat) -> Seq<char> {
    seq!['['] + prefix + decimal(i) + seq![']']
}

/// `[p0][p1]…[p(n-1)]` for the label prefix `p`.
pub open spec fn labels_text(prefix: Seq<char>, n: nat) -> Seq<char>
    decreases n,
{
    if n == 0 {
        Seq::empty()
    } else {
        labels_text(prefix, (n - 1) as nat) + bracket_label(prefix, (n - 1) as nat)
    }
}

/// The stage that copies the video (and audio) input once per segment.
pub open spec fn split_text(n: nat, audio: bool) -> Seq<char> {
    "[0:v]split="@ + decimal(n) + labels_text("vsrc"@, n) + if audio {
        ";[0:a]asplit="@ + decimal(n) + labels_text("asrc"@, n)
    } else {
        Seq::empty()
    }
}

/// The video input of segment `i` out of `n`: its own copy when the input was split.
pub open spec fn source_label(n: nat, i: nat, copy: Seq<char>, input: Seq<char>) -> Seq<char> {
    if n > 1 { copy + decimal(i) } else { input }
}

/// The video trim stage of segment `i` out of `n`.
pub open spec fn video_trim_text(n: nat, i: nat, start: Seq<char>, end: Seq<char>) -> Seq<char> {
    (if n > 1 { seq![';'] } else { Seq::empty() }) + seq!['['] + source_label(n, i, "vsrc"@, "0:v"@)
        + "]trim=start="@ + start + ":end="@ + end + ",setpts=PTS-STARTPTS[vcut"@ + decimal(i) + seq![']']
}

/// The audio trim stage of segment `i` out of `n`.
pub open spec fn audio_trim_text(n: nat, i: nat, start: Seq<char>, end: Seq<char>) -> Seq<char> {
    ";["@ + source_label(n, i, "asrc"@, "0:a"@) + "]atrim=start="@ + start + ":end="@ + end
        + ",asetpts=PTS-STARTPTS[acut"@ + decimal(i) + seq![']']
}

/// The trim stage of segment `i` out of `n`.
pub open spec fn trim_text(n: nat, i: nat, start: Seq<char>, end: Seq<char>, audio: bool) -> Seq<char> {
    video_trim_text(n, i, start, end) + if audio {
        audio_trim_text(n, i, start, end)
    } else {
        Seq::empty()
    }
}

/// The trim stages of the first `k` segments.
pub open spec fn trims_text(segs: Seq<CutSegment>, k: nat, audio: bool) -> Seq<char>
    decreases k,
{
    if k == 0 {
        Seq::empty()
    } else {
        trims_text(segs, (k - 1) as nat, audio) + trim_text(
            segs.len(),
            (k - 1) as nat,
            segs[k - 1].start@,
            segs[k - 1].end@,
            audio,
        )
    }
}

/// The concat inputs of the first `k` segments: `[vcut i]` (and `[acut i]`) for each.
pub open spec fn cut_inputs_text(k: nat, audio: bool) -> Seq<char>
    decreases k,
{
    if k == 0 {
        Seq::empty()
    } else {
        cut_inputs_text((k - 1) as nat, audio) + bracket_label("vcut"@, (k - 1) as nat) + if audio {
            bracket_label("acut"@, (k - 1) as nat)
        } else {
            Seq::empty()
        }
    }
}

/// The stage that joins `n` trimmed segments back into `[vcut]` (and `[acut]`).
pub open spec fn concat_text(n: nat, audio: bool) -> Seq<char> {
    seq![';'] + cut_inputs_text(n, audio) + "concat=n="@ + decimal(n) + ":v=1:a="@ + (if audio {
        seq!['1']
    } else {
        seq!['0']
    }) + "[vcut]"@ + if audio {
        "[acut]"@
    } else {
        Seq::empty()
    }
}

/// The whole cut graph for the segments `segs`.
pub open spec fn cut_graph_text(segs: Seq<CutSegment>, audio: bool) -> Seq<char> {
    let n = segs.len();
    (if n > 1 { split_text(n, audio) } else { Seq::empty() }) + trims_text(segs, n, audio) + if n > 1 {
        concat_text(n, audio)
    } else {
        Seq::empty()
    }
}

fn push_label(r: &mut String, prefix: &str, i: usize)
    ensures
        final(r)@ == old(r)@ + bracket_label(prefix@, i as nat),
{
    push_char(r, '[');
    r.append(prefix);
    push_decimal(r, i as u64);
    push_char(r, ']');
    assert(final(r)@ =~= old(r)@ + bracket_label(prefix@, i as nat));
}

fn push_labels(r: &mut String, prefix: &str, n: usize)
    ensures
        final(r)@ == old(r)@ + labels_text(prefix@, n as nat),
{
    let mut i: usize = 0;
    let ghost base = r@;
    while i < n
        invariant
            i <= n,
            r@ == base + labels_text(prefix@, i as nat),
        decreases n - i,
    {
        push_label(r, prefix, i);
        assert(r@ =~= base + labels_text(prefix@, (i + 1) as nat));
        i = i + 1;
    }
}

fn push_source(r: &mut String, n: usize, i: usize, copy: &str, input: &str)
    ensures
        final(r)@ == old(r)@ + source_label(n as nat, i as nat, copy@, input@),
{
    if n > 1 {
        r.append(copy);
        push_decimal(r, i as u64);
    } else {
        r.append(input);
    }
}

fn push_video_trim(r: &mut String, n: usize, i: usize, seg: &CutSegment)
    ensures
        final(r)@ == old(r)@ + video_trim_text(n as nat, i as nat, seg.start@, seg.end@),
{
    if n > 1 {
        push_char(r, ';');
    }
    let ghost sep = r@;
    push_char(r, '[');
    push_source(r, n, i, "vsrc", "0:v");
    r.append("]trim=start=");
    r.append(seg.start.as_str());
    r.append(":end=");
    r.append(seg.end.as_str());
    r.append(",setpts=PTS-STARTPTS[vcut");
    push_decimal(r, i as u64);
    push_char(r, ']');
    assert(sep =~= old(r)@ + (if n > 1 { seq![';'] } else { Seq::<char>::empty() }));
    assert(final(r)@ =~= old(r)@ + video_trim_text(n as nat, i as nat, seg.start@, seg.end@));
}

fn push_audio_trim(r: &mut String, n: usize, i: usize, seg: &CutSegment)
    ensures
        final(r)@ == old(r)@ + audio_trim_text(n as nat, i as nat, seg.start@, seg.end@),
{
    r.append(";[");
    push_source(r, n, i, "asrc", "0:a");
    r.append("]atrim=start=");
    r.append(seg.start.as_str());
    r.append(":end=");
    r.append(seg.end.as_str());
    r.append(",asetpts=PTS-STARTPTS[acut");
    push_decimal(r, i as u64);
    push_char(r, ']');
    assert(final(r)@ =~= old(r)@ + audio_trim_text(n as nat, i as nat, seg.start@, seg.end@));
}

fn push_trim(r: &mut String, n: usize, i: usize, seg: &CutSegment, audio: bool)
    ensures
        final(r)@ == old(r)@ + trim_text(n as nat, i as nat, seg.start@, seg.end@, audio),
{
    push_video_trim(r, n, i, seg);
    if audio {
        push_audio_trim(r, n, i, seg);
    }
    assert(final(r)@ =~= old(r)@ + trim_text(n as nat, i as nat, seg.start@, seg.end@, audio));
}

/// Builds the graph that keeps only `segments` of the clip. Returns the graph text, the label
/// of the resulting video stream and, when the source has audio, of the resulting audio
/// stream. A single segment that covers the whole clip (it starts at the clip's origin,
/// `first_at_origin`, and runs to its end, `reaches_end`) needs no graph: the input streams
/// are used as they are. Any other list of segments is trimmed.
pub fn cut_filter(segments: &Vec<CutSegment>, first_at_origin: bool, reaches_end: bool, has_audio: bool) -> (r: (
    String,
    String,
    Option<String>,
))
    ensures
        segments.len() == 1 && first_at_origin && reaches_end ==> {
            &&& r.0@ == Seq::<char>::empty()
            &&& r.1@ == "0:v"@
            &&& r.2 matches Some(a) ==> a@ == "0:a"@
            &&& (r.2 is Some) == has_audio
        },
        !(segments.len() == 1 && first_at_origin && reaches_end) ==> {
            &&& r.0@ == cut_graph_text(segments@, has_audio)
            &&& r.1@ == if segments.len() > 1 { "vcut"@ } else { "vcut0"@ }
            &&& r.2 matches Some(a) ==> a@ == if segments.len() > 1 { "acut"@ } else { "acut0"@ }
            &&& (r.2 is Some) == has_audio
        },
{
    let n = segments.len();
    if n == 1 && first_at_origin && reaches_end {
        let audio = if has_audio { Some("0:a".to_owned()) } else { None };
        return (String::new(), "0:v".to_owned(), audio);
    }
    let mut filter = String::new();
    if n > 1 {
        filter.append("[0:v]split=");
        push_decimal(&mut filter, n as u64);
        push_labels(&mut filter, "vsrc", n);
        if has_audio {
            filter.append(";[0:a]asplit=");
            push_decimal(&mut filter, n as u64);
            push_labels(&mut filter, "asrc", n);
        }
    }
    let ghost head = filter@;
    assert(head =~= if n > 1 { split_text(n as nat, has_audio) } else { Seq::empty() });
    let mut i: usize = 0;
    while i < n
        invariant
            i <= n == segments.len(),
            filter@ == head + trims_text(segments@, i as nat, has_audio),
        decreases n - i,
    {
        push_trim(&mut filter, n, i, &segments[i], has_audio);
        assert(filter@ =~= head + trims_text(segments@, (i + 1) as nat, has_audio));
        i = i + 1;
    }
    if n > 1 {
        let ghost body = filter@;
        push_char(&mut filter, ';');
        let mut k: usize = 0;
        while k < n
            invariant
                k <= n,
                filter@ == body + seq![';'] + cut_inputs_text(k as nat, has_audio),
            decreases n - k,
        {
            push_label(&mut filter, "vcut", k);
            if has_audio {
                push_label(&mut filter, "acut", k);
            }
            assert(filter@ =~= body + seq![';'] + cut_inputs_text((k + 1) as nat, has_audio));
            k = k + 1;
        }
        filter.append("concat=n=");
        push_decimal(&mut filter, n as u64);
        filter.append(":v=1:a=");
        if has_audio {
            push_char(&mut filter, '1');
        } else {
            push_char(&mut filter, '0');
        }
        filter.append("[vcut]");
        if has_audio {
            filter.append("[acut]");
        }
        assert(filter@ =~= cut_graph_text(segments@, has_audio));
        let audio = if has_audio { Some("acut".to_owned()) } else { None };
        (filter, "vcut".to_owned(), audio)
    } else {
        assert(filter@ =~= cut_graph_text(segments@, has_audio));
        let audio = if has_audio { Some("acut0".to_owned()) } else { None };
        (filter, "vcut0".to_owned(), audio)
    }
}

// ---------------------------------------------------------------------------------------------
// Laws of the cut graph and the crop/scale stage.

/// The concat stage joins every trimmed part back into one video stream, and into one audio
/// stream exactly when the source has audio: with several segments the graph ends in
/// `concat=n=<n>:v=1:a=1[vcut][acut]` when there is audio and in `concat=n=<n>:v=1:a=0[vcut]`
/// when there is none. It starts by splitting the input once per segment.
pub proof fn lemma_concat_matches_streams(segs: Seq<CutSegment>, audio: bool)
    requires
        segs.len() > 1,
    ensures
        exists|body: Seq<char>|
            cut_graph_text(segs, audio) == body + "concat=n="@ + decimal(segs.len()) + ":v=1:a="@ + seq![
                if audio { '1' } else { '0' },
            ] + "[vcut]"@ + (if audio { "[acut]"@ } else { Seq::<char>::empty() }),
        exists|rest: Seq<char>| cut_graph_text(segs, audio) == "[0:v]split="@ + decimal(segs.len()) + rest,
{
    let n = segs.len();
    let tail = "concat=n="@ + decimal(n) + ":v=1:a="@ + seq![if audio { '1' } else { '0' }] + "[vcut]"@ + (if audio {
        "[acut]"@
    } else {
        Seq::<char>::empty()
    });
    let body = split_text(n, audio) + trims_text(segs, n, audio) + seq![';'] + cut_inputs_text(n, audio);
    assert((if audio { seq!['1'] } else { seq!['0'] }) =~= seq![if audio { '1' } else { '0' }]);
    assert(cut_graph_text(segs, audio) =~= body + tail);
    assert(cut_graph_text(segs, audio) == body + "concat=n="@ + decimal(n) + ":v=1:a="@ + seq![
        if audio { '1' } else { '0' },
    ] + "[vcut]"@ + (if audio { "[acut]"@ } else { Seq::<char>::empty() }));
    let rest = labels_text("vsrc"@, n) + (if audio {
        ";[0:a]asplit="@ + decimal(n) + labels_text("asrc"@, n)
    } else {
        Seq::empty()
    }) + trims_text(segs, n, audio) + concat_text(n, audio);
    assert(cut_graph_text(segs, audio) =~= "[0:v]split="@ + decimal(n) + rest);
}

/// With several segments and audio, the audio is split once per segment too.
pub proof fn lemma_audio_is_split_per_segment(segs: Seq<CutSegment>)
    requires
        segs.len() > 1,
    ensures
        has_part(cut_graph_text(segs, true), ";[0:a]asplit="@ + decimal(segs.len())),
{
    let n = segs.len();
    let split = split_text(n, true);
    let g = cut_graph_text(segs, true);
    assert(g == split + trims_text(segs, n, true) + concat_text(n, true));
    lemma_halves_are_parts(split + trims_text(segs, n, true), concat_text(n, true));
    lemma_halves_are_parts(split, trims_text(segs, n, true));
    lemma_part_of_part(g, split + trims_text(segs, n, true), split);
    let part = ";[0:a]asplit="@ + decimal(n);
    let before = "[0:v]split="@ + decimal(n) + labels_text("vsrc"@, n);
    assert(split =~= before + part + labels_text("asrc"@, n));
    lemma_part_of_part(g, split, part);
}

/// A single kept segment is one trim of the input's video (and one of its audio, when there is
/// audio) from the segment's start to its end: no split and no concat.
pub proof fn lemma_single_segment_is_one_trim(segs: Seq<CutSegment>, audio: bool)
    requires
        segs.len() == 1,
    ensures
        cut_graph_text(segs, audio) == seq!['['] + "0:v"@ + "]trim=start="@ + segs[0].start@ + ":end="@
            + segs[0].end@ + ",setpts=PTS-STARTPTS[vcut"@ + seq!['0', ']'] + (if audio {
            ";["@ + "0:a"@ + "]atrim=start="@ + segs[0].start@ + ":end="@ + segs[0].end@
                + ",asetpts=PTS-STARTPTS[acut"@ + seq!['0', ']']
        } else {
            Seq::<char>::empty()
        }),
{
    assert(decimal(0) =~= seq!['0']);
    assert(trims_text(segs, 0, audio) =~= Seq::<char>::empty());
    assert(cut_graph_text(segs, audio) =~= seq!['['] + "0:v"@ + "]trim=start="@ + segs[0].start@ + ":end="@
        + segs[0].end@ + ",setpts=PTS-STARTPTS[vcut"@ + seq!['0', ']'] + (if audio {
        ";["@ + "0:a"@ + "]atrim=start="@ + segs[0].start@ + ":end="@ + segs[0].end@
            + ",asetpts=PTS-STARTPTS[acut"@ + seq!['0', ']']
    } else {
        Seq::<char>::empty()
    }));
}

proof fn lemma_trim_kept(segs: Seq<CutSegment>, audio: bool, i: nat, k: nat)
    requires
        i < k <= segs.len(),
    ensures
        has_part(
            trims_text(segs, k, audio),
            trim_text(segs.len(), i, segs[i as int].start@, segs[i as int].end@, audio),
        ),
    decreases k,
{
    let t = trim_text(segs.len(), i, segs[i as int].start@, segs[i as int].end@, audio);
    if k == i + 1 {
        assert(trims_text(segs, k, audio) =~= trims_text(segs, i, audio) + t + Seq::<char>::empty());
    } else {
        lemma_trim_kept(segs, audio, i, (k - 1) as nat);
        let (p, q) = choose|p: Seq<char>, q: Seq<char>| trims_text(segs, (k - 1) as nat, audio) == p + t + q;
        let q2 = q + trim_text(segs.len(), (k - 1) as nat, segs[k - 1].start@, segs[k - 1].end@, audio);
        assert(trims_text(segs, k, audio) =~= p + t + q2);
    }
}

/// With several segments, every segment `i` is cut from its own copy of the input: the video
/// copy `[vsrc<i>]` is trimmed from the segment's start to its end into `[vcut<i>]`, and, when
/// there is audio, the audio copy `[asrc<i>]` likewise into `[acut<i>]`.
pub proof fn lemma_every_segment_is_trimmed(segs: Seq<CutSegment>, audio: bool, i: int)
    requires
        segs.len() > 1,
        0 <= i < segs.len(),
    ensures
        has_part(
            cut_graph_text(segs, audio),
            seq![';', '['] + "vsrc"@ + decimal(i as nat) + "]trim=start="@ + segs[i].start@ + ":end="@ + segs[i].end@
                + ",setpts=PTS-STARTPTS[vcut"@ + decimal(i as nat) + seq![']'],
        ),
        audio ==> has_part(
            cut_graph_text(segs, audio),
            ";["@ + "asrc"@ + decimal(i as nat) + "]atrim=start="@ + segs[i].start@ + ":end="@ + segs[i].end@
                + ",asetpts=PTS-STARTPTS[acut"@ + decimal(i as nat) + seq![']'],
        ),
{
    let n = segs.len();
    lemma_trim_kept(segs, audio, i as nat, n);
    let trims = trims_text(segs, n, audio);
    let g = cut_graph_text(segs, audio);
    assert(g == split_text(n, audio) + trims + concat_text(n, audio));
    lemma_halves_are_parts(split_text(n, audio) + trims, concat_text(n, audio));
    lemma_halves_are_parts(split_text(n, audio), trims);
    lemma_part_of_part(g, split_text(n, audio) + trims, trims);
    let t = trim_text(n, i as nat, segs[i].start@, segs[i].end@, audio);
    lemma_part_of_part(g, trims, t);
    let v = seq![';', '['] + "vsrc"@ + decimal(i as nat) + "]trim=start="@ + segs[i].start@ + ":end="@ + segs[i].end@
        + ",setpts=PTS-STARTPTS[vcut"@ + decimal(i as nat) + seq![']'];
    let a = ";["@ + "asrc"@ + decimal(i as nat) + "]atrim=start="@ + segs[i].start@ + ":end="@ + segs[i].end@
        + ",asetpts=PTS-STARTPTS[acut"@ + decimal(i as nat) + seq![']'];
    assert(video_trim_text(n, i as nat, segs[i].start@, segs[i].end@) =~= v);
    if audio {
        assert(audio_trim_text(n, i as nat, segs[i].start@, segs[i].end@) =~= a);
        assert(t == v + a);
        lemma_halves_are_parts(v, a);
        lemma_part_of_part(g, t, a);
    } else {
        assert(t =~= v + Seq::<char>::empty());
        lemma_halves_are_parts(v, Seq::<char>::empty());
    }
    lemma_part_of_part(g, t, v);
}

/// The crop/scale stage always writes a frame of exactly `w`×`h` into `[base]`. Over a blurred
/// background the whole frame is fitted inside the output and laid at its centre, and the zoom
/// plays no part; otherwise the frame is cropped around its centre and scaled with Lanczos, the
/// same way for the dynamic and the centred crop.
pub proof fn lemma_base_stage_layout(input: Seq<char>, zoom: Seq<char>, other_zoom: Seq<char>, w: nat, h: nat)
    ensures
        exists|p: Seq<char>|
            base_filter_text(input, CropMode::BlurredBackground, zoom, w, h) == p + decimal(w) + seq![':']
                + decimal(h)
                + ":force_original_aspect_ratio=decrease[front];[blur][front]overlay=(W-w)/2:(H-h)/2,setsar=1[base]"@,
        base_filter_text(input, CropMode::BlurredBackground, zoom, w, h) == base_filter_text(
            input,
            CropMode::BlurredBackground,
            other_zoom,
            w,
            h,
        ),
        base_filter_text(input, CropMode::Dynamic, zoom, w, h) == base_filter_text(input, CropMode::Center, zoom, w, h),
        exists|p: Seq<char>|
            base_filter_text(input, CropMode::Center, zoom, w, h) == p + ")':(iw-ow)/2:(ih-oh)/2,scale="@
                + decimal(w) + seq![':'] + decimal(h) + ":flags=lanczos,setsar=1[base]"@,
        has_part(
            base_filter_text(input, CropMode::Center, zoom, w, h),
            "]crop='min(iw,ih*9/16/"@ + zoom + ")':'min(ih,iw*16/9/"@ + zoom,
        ),
        has_part(
            base_filter_text(input, CropMode::BlurredBackground, zoom, w, h),
            "]split=2[bg][fg];[bg]scale="@ + decimal(w) + seq![':'] + decimal(h)
                + ":force_original_aspect_ratio=increase,crop="@ + decimal(w) + seq![':'] + decimal(h)
                + ",boxblur=24:2[blur];[fg]scale="@,
        ),
{
    let size = decimal(w) + seq![':'] + decimal(h);
    let pb = seq!['['] + input + "]split=2[bg][fg];[bg]scale="@ + size + ":force_original_aspect_ratio=increase,crop="@
        + size + ",boxblur=24:2[blur];[fg]scale="@;
    assert(base_filter_text(input, CropMode::BlurredBackground, zoom, w, h) =~= pb + decimal(w) + seq![':']
        + decimal(h)
        + ":force_original_aspect_ratio=decrease[front];[blur][front]overlay=(W-w)/2:(H-h)/2,setsar=1[base]"@);
    let pc = seq!['['] + input + "]crop='min(iw,ih*9/16/"@ + zoom + ")':'min(ih,iw*16/9/"@ + zoom;
    assert(base_filter_text(input, CropMode::Center, zoom, w, h) =~= pc + ")':(iw-ow)/2:(ih-oh)/2,scale="@
        + decimal(w) + seq![':'] + decimal(h) + ":flags=lanczos,setsar=1[base]"@);
    let crop = "]crop='min(iw,ih*9/16/"@ + zoom + ")':'min(ih,iw*16/9/"@ + zoom;
    assert(base_filter_text(input, CropMode::Center, zoom, w, h) =~= (seq!['['] + input) + crop + (")':(iw-ow)/2:(ih-oh)/2,scale="@
        + size + ":flags=lanczos,setsar=1[base]"@));
    let bg = "]split=2[bg][fg];[bg]scale="@ + decimal(w) + seq![':'] + decimal(h)
        + ":force_original_aspect_ratio=increase,crop="@ + decimal(w) + seq![':'] + decimal(h)
        + ",boxblur=24:2[blur];[fg]scale="@;
    assert(base_filter_text(input, CropMode::BlurredBackground, zoom, w, h) =~= (seq!['['] + input) + bg + (size
        + ":force_original_aspect_ratio=decrease[front];[blur][front]overlay=(W-w)/2:(H-h)/2,setsar=1[base]"@));
}

} // verus!
