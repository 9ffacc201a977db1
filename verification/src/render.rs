//! The render command's graph beyond the cut: overlay inputs, text and picture overlays, the
//! audio mix and the encoder settings.
use vstd::prelude::*;
use vstd::string::*;
use crate::filters::{audio_map_spec, audio_map_text, escape_drawtext, escaped, label_text, normalize_color, sanitize_label, strip_hashes};
use crate::text::{chars_of, decimal, has_part, lemma_halves_are_parts, push_char, push_decimal, str_equal, trimmed};

verus! {

// ---------------------------------------------------------------------------------------------
// Extra inputs: each library resource that an overlay uses becomes one `-i` input.

/// A library resource that can be read: its id and its file path.
pub struct LibraryEntry {
    pub id: String,
    pub path: String,
}

/// An extra input of the render: the resource id and its path. The `k`-th input is FFmpeg
/// input number `k + 1` (input 0 is the source).
pub struct AssetInput {
    pub asset_id: String,
    pub path: String,
}

/// The path the library gives for `id`: the last entry with that id wins.
pub open spec fn library_path(lib: Seq<LibraryEntry>, id: Seq<char>) -> Option<Seq<char>>
    decreases lib.len(),
{
    if lib.len() == 0 {
        None
    } else if lib.last().id@ == id {
        Some(lib.last().path@)
    } else {
        library_path(lib.drop_last(), id)
    }
}

/// Whether `id` is among the inputs already assigned.
pub open spec fn has_input(acc: Seq<(Seq<char>, Seq<char>)>, id: Seq<char>) -> bool {
    exists|j: int| 0 <= j < acc.len() && (#[trigger] acc[j]).0 == id
}

/// The inputs assigned for the first `k` overlays: an overlay's resource is added when it is
/// not there yet and the library has it.
pub open spec fn assigned_inputs(
    overlays: Seq<Option<Seq<char>>>,
    lib: Seq<LibraryEntry>,
    k: nat,
) -> Seq<(Seq<char>, Seq<char>)>
    decreases k,
{
    if k == 0 {
        Seq::empty()
    } else {
        let acc = assigned_inputs(overlays, lib, (k - 1) as nat);
        match overlays[k - 1] {
            Some(id) => if !has_input(acc, id) && library_path(lib, id) is Some {
                acc.push((id, library_path(lib, id).unwrap()))
            } else {
                acc
            },
            None => acc,
        }
    }
}

/// Each resource becomes at most one input, and every input reads the path the library gives
/// for its resource.
pub proof fn lemma_inputs_distinct(overlays: Seq<Option<Seq<char>>>, lib: Seq<LibraryEntry>, k: nat)
    requires
        k <= overlays.len(),
    ensures
        forall|i: int, j: int|
            0 <= i < j < assigned_inputs(overlays, lib, k).len() ==> (#[trigger] assigned_inputs(overlays, lib, k)[i]).0
                != (#[trigger] assigned_inputs(overlays, lib, k)[j]).0,
        forall|i: int|
            0 <= i < assigned_inputs(overlays, lib, k).len() ==> library_path(
                lib,
                (#[trigger] assigned_inputs(overlays, lib, k)[i]).0,
            ) == Some(assigned_inputs(overlays, lib, k)[i].1),
    decreases k,
{
    if k > 0 {
        lemma_inputs_distinct(overlays, lib, (k - 1) as nat);
        let acc = assigned_inputs(overlays, lib, (k - 1) as nat);
        let now = assigned_inputs(overlays, lib, k);
        if now.len() > acc.len() {
            let id = overlays[k - 1].unwrap();
            assert(now == acc.push((id, library_path(lib, id).unwrap())));
            assert(!has_input(acc, id));
            assert forall|i: int, j: int| 0 <= i < j < now.len() implies (#[trigger] now[i]).0 != (#[trigger] now[j]).0 by {
                if j == acc.len() {
                    assert(now[i] == acc[i]);
                    if acc[i].0 == id {
                        assert(has_input(acc, id));
                    }
                } else {
                    assert(now[i] == acc[i] && now[j] == acc[j]);
                }
            }
            assert forall|i: int| 0 <= i < now.len() implies library_path(lib, (#[trigger] now[i]).0) == Some(now[i].1) by {
                if i < acc.len() {
                    assert(now[i] == acc[i]);
                }
            }
        }
    }
}

/// An input as `(id, path)`.
pub open spec fn input_text(a: AssetInput) -> (Seq<char>, Seq<char>) {
    (a.asset_id@, a.path@)
}

/// The path of `id` in the library, searching from the last entry.
fn library_lookup(lib: &Vec<LibraryEntry>, id: &str) -> (r: Option<String>)
    ensures
        match r {
            Some(p) => library_path(lib@, id@) == Some(p@),
            None => library_path(lib@, id@) is None,
        },
{
    let mut i = lib.len();
    assert(lib@.take(i as int) =~= lib@);
    while i > 0
        invariant
            i <= lib.len(),
            library_path(lib@.take(i as int), id@) == library_path(lib@, id@),
        decreases i,
    {
        assert(lib@.take(i as int).drop_last() =~= lib@.take(i - 1));
        assert(lib@.take(i as int).last() == lib@[i - 1]);
        if str_equal(lib[i - 1].id.as_str(), id) {
            return Some(lib[i - 1].path.clone());
        }
        i = i - 1;
    }
    assert(lib@.take(0) =~= Seq::<LibraryEntry>::empty());
    None
}

/// The extra inputs for the overlays, in order of first use: `overlays[k]` is the resource id
/// of overlay `k` (none for a text overlay). Resources the library lacks are left out.
pub fn asset_inputs(overlays: &Vec<Option<String>>, library: &Vec<LibraryEntry>) -> (r: Vec<AssetInput>)
    ensures
        r@.map_values(|a: AssetInput| input_text(a)) == assigned_inputs(
            overlays@.map_values(|o: Option<String>| match o { Some(s) => Some(s@), None => None }),
            library@,
            overlays.len() as nat,
        ),
{
    let ghost ov = overlays@.map_values(|o: Option<String>| match o { Some(s) => Some(s@), None => None });
    let mut r: Vec<AssetInput> = Vec::new();
    let mut k: usize = 0;
    while k < overlays.len()
        invariant
            k <= overlays.len(),
            ov == overlays@.map_values(|o: Option<String>| match o { Some(s) => Some(s@), None => None }),
            r@.map_values(|a: AssetInput| input_text(a)) == assigned_inputs(ov, library@, k as nat),
        decreases overlays.len() - k,
    {
        let ghost acc = r@.map_values(|a: AssetInput| input_text(a));
        match &overlays[k] {
            Some(id) => {
                let mut j: usize = 0;
                let mut seen = false;
                while j < r.len()
                    invariant
                        j <= r.len(),
                        acc == r@.map_values(|a: AssetInput| input_text(a)),
                        seen == exists|q: int| 0 <= q < j && (#[trigger] acc[q]).0 == id@,
                    decreases r.len() - j,
                {
                    if str_equal(r[j].asset_id.as_str(), id.as_str()) {
                        seen = true;
                    }
                    assert(acc[j as int].0 == r@[j as int].asset_id@);
                    j = j + 1;
                }
                assert(seen == has_input(acc, id@));
                if !seen {
                    match library_lookup(library, id.as_str()) {
                        Some(path) => {
                            r.push(AssetInput { asset_id: id.clone(), path });
                            assert(r@.map_values(|a: AssetInput| input_text(a)) =~= acc.push(
                                (id@, library_path(library@, id@).unwrap()),
                            ));
                        },
                        None => {},
                    }
                }
            },
            None => {},
        }
        assert(ov[k as int] == match overlays@[k as int] { Some(s) => Some(s@), None => None });
        k = k + 1;
    }
    r
}


// ---------------------------------------------------------------------------------------------
// Overlays: each text or picture overlay adds a stage that reads the current video label and
// writes `[v<label>]`, where `<label>` is the overlay id made safe for the graph.

/// A text overlay; the position, size and times are already printed as the graph wants them.
pub struct TextOverlay {
    pub id: String,
    pub text: String,
    pub color: String,
    pub size: u16,
    pub x: String,
    pub y: String,
    pub start: String,
    pub end: String,
}

/// The `drawtext` stage of a text overlay drawn over `current`.
pub open spec fn text_stage_text(current: Seq<char>, o: TextOverlay) -> Seq<char> {
    ";["@ + current + "]drawtext=text='"@ + escaped(o.text@) + "':fontcolor="@ + strip_hashes(trimmed(o.color@))
        + ":fontsize="@ + decimal(o.size as nat) + ":x=(w-text_w)*"@ + o.x@ + ":y=(h-text_h)*"@ + o.y@
        + ":borderw=2:bordercolor=black@0.6:enable='between(t,"@ + o.start@ + seq![','] + o.end@ + ")'["@
        + "v"@ + label_text(o.id@) + seq![']']
}

/// The stage for a text overlay and the label of the video it produces.
pub fn text_overlay_filter(current: &str, o: &TextOverlay) -> (r: (String, String))
    ensures
        r.0@ == text_stage_text(current@, *o),
        r.1@ == "v"@ + label_text(o.id@),
{
    let mut next = "v".to_owned();
    next.append(sanitize_label(o.id.as_str()).as_str());
    let mut r = ";[".to_owned();
    r.append(current);
    r.append("]drawtext=text='");
    r.append(escape_drawtext(o.text.as_str()).as_str());
    r.append("':fontcolor=");
    r.append(normalize_color(o.color.as_str()).as_str());
    r.append(":fontsize=");
    push_decimal(&mut r, o.size as u64);
    r.append(":x=(w-text_w)*");
    r.append(o.x.as_str());
    r.append(":y=(h-text_h)*");
    r.append(o.y.as_str());
    r.append(":borderw=2:bordercolor=black@0.6:enable='between(t,");
    r.append(o.start.as_str());
    push_char(&mut r, ',');
    r.append(o.end.as_str());
    r.append(")'[");
    r.append(next.as_str());
    push_char(&mut r, ']');
    assert(r@ =~= text_stage_text(current@, *o));
    (r, next)
}

/// Chroma-key settings of a picture overlay, printed as the graph wants them.
pub struct ChromaText {
    pub color: String,
    pub similarity: String,
    pub blend: String,
    pub spill: String,
}

/// A picture (video) overlay read from extra input `index`.
pub struct VideoOverlay {
    pub id: String,
    pub index: usize,
    pub start: String,
    pub end: String,
    pub x: String,
    pub y: String,
    pub scale: String,
    pub chroma: Option<ChromaText>,
}

/// The chroma-key (and despill) part of a picture overlay's preparation.
pub open spec fn chroma_text(c: Option<ChromaText>) -> Seq<char> {
    match c {
        Some(k) => ",chromakey="@ + strip_hashes(trimmed(k.color@)) + seq![':'] + k.similarity@ + seq![':']
            + k.blend@ + ",despill=type=green:mix="@ + k.spill@,
        None => Seq::empty(),
    }
}

/// The stages of a picture overlay over `current`: the overlay input is delayed to its start,
/// scaled and keyed into `[ov<label>]`, then laid over the video into `[v<label>]`.
pub open spec fn video_stage_text(current: Seq<char>, o: VideoOverlay) -> Seq<char> {
    let label = label_text(o.id@);
    ";["@ + decimal(o.index as nat) + ":v]setpts=PTS-STARTPTS+"@ + o.start@ + "/TB,scale=iw*"@ + o.scale@
        + ":-2"@ + chroma_text(o.chroma) + "[ov"@ + label + "];["@ + current + "][ov"@ + label
        + "]overlay=x=(W-w)*"@ + o.x@ + ":y=(H-h)*"@ + o.y@ + ":enable='between(t,"@ + o.start@ + seq![',']
        + o.end@ + ")'[v"@ + label + seq![']']
}

fn push_chroma(r: &mut String, c: &Option<ChromaText>)
    ensures
        final(r)@ == old(r)@ + chroma_text(*c),
{
    match c {
        Some(k) => {
            r.append(",chromakey=");
            r.append(normalize_color(k.color.as_str()).as_str());
            push_char(r, ':');
            r.append(k.similarity.as_str());
            push_char(r, ':');
            r.append(k.blend.as_str());
            r.append(",despill=type=green:mix=");
            r.append(k.spill.as_str());
        },
        None => {},
    }
    assert(final(r)@ =~= old(r)@ + chroma_text(*c));
}

/// The stages for a picture overlay and the label of the video it produces.
pub fn video_overlay_filter(current: &str, o: &VideoOverlay) -> (r: (String, String))
    ensures
        r.0@ == video_stage_text(current@, *o),
        r.1@ == "v"@ + label_text(o.id@),
{
    let label = sanitize_label(o.id.as_str());
    let mut r = ";[".to_owned();
    push_decimal(&mut r, o.index as u64);
    r.append(":v]setpts=PTS-STARTPTS+");
    r.append(o.start.as_str());
    r.append("/TB,scale=iw*");
    r.append(o.scale.as_str());
    r.append(":-2");
    push_chroma(&mut r, &o.chroma);
    r.append("[ov");
    r.append(label.as_str());
    r.append("];[");
    r.append(current);
    r.append("][ov");
    r.append(label.as_str());
    r.append("]overlay=x=(W-w)*");
    r.append(o.x.as_str());
    r.append(":y=(H-h)*");
    r.append(o.y.as_str());
    r.append(":enable='between(t,");
    r.append(o.start.as_str());
    push_char(&mut r, ',');
    r.append(o.end.as_str());
    r.append(")'[v");
    r.append(label.as_str());
    push_char(&mut r, ']');
    assert(r@ =~= video_stage_text(current@, *o));
    let mut next = "v".to_owned();
    next.append(label.as_str());
    (r, next)
}


// ---------------------------------------------------------------------------------------------
// Audio: the source's audio alone, or mixed with the audio overlays.

/// An audio overlay read from extra input `index`, its start and volume printed.
pub struct AudioOverlayInput {
    pub index: usize,
    pub start: String,
    pub volume: String,
}

/// The stages that delay and level the first `k` audio overlays into `[a1]`, `[a2]`, ….
pub open spec fn overlay_audio_text(ovs: Seq<AudioOverlayInput>, k: nat) -> Seq<char>
    decreases k,
{
    if k == 0 {
        Seq::empty()
    } else {
        let o = ovs[k - 1];
        overlay_audio_text(ovs, (k - 1) as nat) + ";["@ + decimal(o.index as nat)
            + ":a]atrim=start=0,asetpts=PTS-STARTPTS+"@ + o.start@ + "/TB,volume="@ + o.volume@ + "[a"@
            + decimal(k) + seq![']']
    }
}

/// `[a1][a2]…[ak]`.
pub open spec fn mix_labels_text(k: nat) -> Seq<char>
    decreases k,
{
    if k == 0 {
        Seq::empty()
    } else {
        mix_labels_text((k - 1) as nat) + "[a"@ + decimal(k) + seq![']']
    }
}

/// What the audio part adds to the graph, and what `-map` selects as the audio.
pub open spec fn audio_mix_text(source: Option<Seq<char>>, ovs: Seq<AudioOverlayInput>) -> (Seq<char>, Seq<char>) {
    if ovs.len() == 0 {
        (Seq::empty(), match source {
            Some(l) => audio_map_text(l),
            None => "0:a?"@,
        })
    } else {
        let n = ovs.len();
        let src = match source {
            Some(l) => ";["@ + l + "]asetpts=PTS-STARTPTS[a0]"@,
            None => Seq::empty(),
        };
        let src_label = if source is Some { "[a0]"@ } else { Seq::empty() };
        let count = if source is Some { n + 1 } else { n };
        (
            src + overlay_audio_text(ovs, n) + seq![';'] + src_label + mix_labels_text(n) + "amix=inputs="@
                + decimal(count as nat) + ":duration=first:dropout_transition=2[aout]"@,
            "[aout]"@,
        )
    }
}

/// Untouched source audio (the cut graph passes the input stream `0:a` through) is mapped as
/// that optional input stream, `0:a?`, never as a bracketed filter output.
pub proof fn lemma_untouched_audio_maps_input_stream()
    ensures
        audio_mix_text(Some("0:a"@), Seq::empty()) == (Seq::<char>::empty(), "0:a?"@),
{
    reveal_strlit("0:a");
    reveal_strlit("0:a?");
    assert("0:a"@[1] == ':');
    assert("0:a"@.push('?') =~= "0:a?"@);
}

/// `[a<lo>][a<lo+1>]…[a<hi-1>]`, listed from the front.
pub open spec fn numbered_audio_labels(lo: nat, hi: nat) -> Seq<char>
    decreases hi - lo,
{
    if lo >= hi {
        Seq::empty()
    } else {
        "[a"@ + decimal(lo) + seq![']'] + numbered_audio_labels(lo + 1, hi)
    }
}

proof fn lemma_numbered_labels_grow(lo: nat, hi: nat)
    requires
        lo <= hi,
    ensures
        numbered_audio_labels(lo, hi + 1) == numbered_audio_labels(lo, hi) + "[a"@ + decimal(hi) + seq![']'],
    decreases hi - lo,
{
    if lo < hi {
        lemma_numbered_labels_grow(lo + 1, hi);
        assert(numbered_audio_labels(lo, hi + 1) =~= numbered_audio_labels(lo, hi) + "[a"@ + decimal(hi) + seq![']']);
    } else {
        assert(numbered_audio_labels(hi + 1, hi + 1) =~= Seq::<char>::empty());
        assert(numbered_audio_labels(lo, hi + 1) =~= numbered_audio_labels(lo, hi) + "[a"@ + decimal(hi) + seq![']']);
    }
}

proof fn lemma_mix_labels_numbered(k: nat)
    ensures
        mix_labels_text(k) == numbered_audio_labels(1, k + 1),
    decreases k,
{
    if k > 0 {
        lemma_mix_labels_numbered((k - 1) as nat);
        lemma_numbered_labels_grow(1, k);
    }
}

/// The stage that delays overlay `k` to its start and sets its volume, into `[a<k+1>]`.
spec fn delayed_overlay(o: AudioOverlayInput, k: nat) -> Seq<char> {
    ";["@ + decimal(o.index as nat) + ":a]atrim=start=0,asetpts=PTS-STARTPTS+"@ + o.start@ + "/TB,volume="@
        + o.volume@ + "[a"@ + decimal(k + 1) + seq![']']
}

proof fn lemma_overlay_stage_kept(ovs: Seq<AudioOverlayInput>, k: nat, m: nat)
    requires
        k < m <= ovs.len(),
    ensures
        has_part(overlay_audio_text(ovs, m), delayed_overlay(ovs[k as int], k)),
    decreases m,
{
    let stage = delayed_overlay(ovs[k as int], k);
    if m == k + 1 {
        let p = overlay_audio_text(ovs, k);
        assert(overlay_audio_text(ovs, m) =~= p + stage + Seq::<char>::empty());
    } else {
        lemma_overlay_stage_kept(ovs, k, (m - 1) as nat);
        let (p, q) = choose|p: Seq<char>, q: Seq<char>| overlay_audio_text(ovs, (m - 1) as nat) == p + stage + q;
        let q2 = q + delayed_overlay(ovs[m - 1], (m - 1) as nat);
        assert(overlay_audio_text(ovs, m) =~= p + stage + q2);
    }
}

/// When audio overlays are mixed, `amix` is told exactly as many inputs as the labels listed
/// before it: `[a0]` for the source's audio when there is some, then `[a1]` … `[an]` for the `n`
/// overlays; the mix is written to `[aout]`, which is what gets mapped. Each overlay `k` is read
/// from its own input, delayed to its start and set to its volume, into `[a<k+1>]`. With no
/// overlay nothing is added to the graph, and a source without audio maps `0:a?`.
pub proof fn lemma_amix_counts_its_inputs(source: Option<Seq<char>>, ovs: Seq<AudioOverlayInput>)
    ensures
        ovs.len() > 0 ==> {
            let first: nat = if source is Some { 0 } else { 1 };
            &&& audio_mix_text(source, ovs).1 == "[aout]"@
            &&& exists|p: Seq<char>|
                audio_mix_text(source, ovs).0 == p + seq![';'] + numbered_audio_labels(first, ovs.len() + 1)
                    + "amix=inputs="@ + decimal((ovs.len() + 1 - first) as nat)
                    + ":duration=first:dropout_transition=2[aout]"@
        },
        forall|k: int|
            0 <= k < ovs.len() ==> has_part(
                audio_mix_text(source, ovs).0,
                ";["@ + decimal((#[trigger] ovs[k]).index as nat) + ":a]atrim=start=0,asetpts=PTS-STARTPTS+"@
                    + ovs[k].start@ + "/TB,volume="@ + ovs[k].volume@ + "[a"@ + decimal((k + 1) as nat) + seq![']'],
            ),
        ovs.len() > 0 && source is Some ==> has_part(
            audio_mix_text(source, ovs).0,
            ";["@ + source.unwrap() + "]asetpts=PTS-STARTPTS[a0]"@,
        ),
        ovs.len() == 0 ==> audio_mix_text(source, ovs).0 == Seq::<char>::empty(),
        ovs.len() == 0 && source is None ==> audio_mix_text(source, ovs).1 == "0:a?"@,
{
    let n = ovs.len();
    if n > 0 {
        let first: nat = if source is Some { 0 } else { 1 };
        let src = match source {
            Some(l) => ";["@ + l + "]asetpts=PTS-STARTPTS[a0]"@,
            None => Seq::empty(),
        };
        let src_label = if source is Some { "[a0]"@ } else { Seq::empty() };
        lemma_mix_labels_numbered(n);
        if source is Some {
            reveal_strlit("[a0]");
            reveal_strlit("[a");
            assert(decimal(0) =~= seq!['0']);
            assert(numbered_audio_labels(0, n + 1) =~= "[a"@ + decimal(0) + seq![']'] + numbered_audio_labels(1, n + 1));
            assert(src_label + mix_labels_text(n) =~= numbered_audio_labels(0, n + 1));
        } else {
            assert(src_label + mix_labels_text(n) =~= numbered_audio_labels(1, n + 1));
        }
        let count: nat = if source is Some { (n + 1) as nat } else { n };
        assert(count == (n + 1 - first) as nat);
        let p = src + overlay_audio_text(ovs, n);
        if source is Some {
            let rest = overlay_audio_text(ovs, n) + seq![';'] + src_label + mix_labels_text(n) + "amix=inputs="@
                + decimal(count) + ":duration=first:dropout_transition=2[aout]"@;
            assert(audio_mix_text(source, ovs).0 =~= src + rest);
            lemma_halves_are_parts(src, rest);
        }
        assert(audio_mix_text(source, ovs).0 =~= p + seq![';'] + numbered_audio_labels(first, n + 1)
            + "amix=inputs="@ + decimal((n + 1 - first) as nat) + ":duration=first:dropout_transition=2[aout]"@);
        assert forall|k: int| 0 <= k < ovs.len() implies has_part(
            audio_mix_text(source, ovs).0,
            ";["@ + decimal((#[trigger] ovs[k]).index as nat) + ":a]atrim=start=0,asetpts=PTS-STARTPTS+"@
                + ovs[k].start@ + "/TB,volume="@ + ovs[k].volume@ + "[a"@ + decimal((k + 1) as nat) + seq![']'],
        ) by {
            lemma_overlay_stage_kept(ovs, k as nat, n);
            let stage = delayed_overlay(ovs[k], k as nat);
            let (p0, q0) = choose|p: Seq<char>, q: Seq<char>| overlay_audio_text(ovs, n) == p + stage + q;
            let q1 = q0 + seq![';'] + src_label + mix_labels_text(n) + "amix=inputs="@ + decimal(count)
                + ":duration=first:dropout_transition=2[aout]"@;
            assert(audio_mix_text(source, ovs).0 =~= (src + p0) + stage + q1);
        }
    }
}

/// The audio part of the render: with no audio overlay, the source's audio label (or the
/// source's first audio stream, if there is one) is mapped as it is; otherwise the source's
/// audio and every overlay are mixed into `[aout]`.
pub fn audio_mix(source_audio: Option<String>, overlays: &Vec<AudioOverlayInput>) -> (r: (String, String))
    requires
        overlays.len() < usize::MAX,
    ensures
        (r.0@, r.1@) == audio_mix_text(
            match source_audio {
                Some(s) => Some(s@),
                None => None,
            },
            overlays@,
        ),
{
    if overlays.len() == 0 {
        let map = match &source_audio {
            Some(l) => audio_map_spec(l.as_str()),
            None => "0:a?".to_owned(),
        };
        return (String::new(), map);
    }
    let mut filter = String::new();
    let mut labels = String::new();
    let mut count: usize = 0;
    match &source_audio {
        Some(l) => {
            filter.append(";[");
            filter.append(l.as_str());
            filter.append("]asetpts=PTS-STARTPTS[a0]");
            labels.append("[a0]");
            count = 1;
        },
        None => {},
    }
    let ghost src = filter@;
    let ghost src_label = labels@;
    let mut k: usize = 0;
    while k < overlays.len()
        invariant
            k <= overlays.len() < usize::MAX,
            count <= 1,
            filter@ == src + overlay_audio_text(overlays@, k as nat),
            labels@ == src_label + mix_labels_text(k as nat),
        decreases overlays.len() - k,
    {
        let o = &overlays[k];
        filter.append(";[");
        push_decimal(&mut filter, o.index as u64);
        filter.append(":a]atrim=start=0,asetpts=PTS-STARTPTS+");
        filter.append(o.start.as_str());
        filter.append("/TB,volume=");
        filter.append(o.volume.as_str());
        filter.append("[a");
        push_decimal(&mut filter, (k + 1) as u64);
        push_char(&mut filter, ']');
        labels.append("[a");
        push_decimal(&mut labels, (k + 1) as u64);
        push_char(&mut labels, ']');
        assert(filter@ =~= src + overlay_audio_text(overlays@, (k + 1) as nat));
        assert(labels@ =~= src_label + mix_labels_text((k + 1) as nat));
        k = k + 1;
    }
    push_char(&mut filter, ';');
    filter.append(labels.as_str());
    filter.append("amix=inputs=");
    push_decimal(&mut filter, (overlays.len() + count) as u64);
    filter.append(":duration=first:dropout_transition=2[aout]");
    assert(filter@ =~= audio_mix_text(
        match source_audio {
            Some(s) => Some(s@),
            None => None,
        },
        overlays@,
    ).0);
    (filter, "[aout]".to_owned())
}

// ---------------------------------------------------------------------------------------------
// The whole graph: the cut, the crop/scale stage, the overlays in the edit's order and the audio.

/// A picture overlay as the edit lists it: the resource it shows and how it is laid out.
pub struct VideoStep {
    pub asset_id: String,
    pub id: String,
    pub start: String,
    pub end: String,
    pub x: String,
    pub y: String,
    pub scale: String,
    pub chroma: Option<ChromaText>,
}

/// An audio overlay as the edit lists it: the resource it plays, its start and volume.
pub struct AudioStep {
    pub asset_id: String,
    pub start: String,
    pub volume: String,
}

/// One overlay of the edit, in the edit's order.
pub enum OverlayStep {
    Text(TextOverlay),
    Video(VideoStep),
    Audio(AudioStep),
}

/// The FFmpeg input number of resource `id` among the extra inputs: the position of its entry
/// plus one (input 0 is the source); the last entry wins should `id` occur twice.
pub open spec fn input_number(inputs: Seq<AssetInput>, id: Seq<char>) -> Option<nat>
    decreases inputs.len(),
{
    if inputs.len() == 0 {
        None
    } else if inputs.last().asset_id@ == id {
        Some(inputs.len())
    } else {
        input_number(inputs.drop_last(), id)
    }
}

/// A picture overlay placed on extra input `index`.
pub open spec fn placed_video(s: VideoStep, index: nat) -> VideoOverlay {
    VideoOverlay {
        id: s.id,
        index: index as usize,
        start: s.start,
        end: s.end,
        x: s.x,
        y: s.y,
        scale: s.scale,
        chroma: s.chroma,
    }
}

/// The overlay stages of the first `k` steps over `[base]`, and the video label they end on.
/// A text overlay is always drawn; a picture overlay only when its resource has an input;
/// an audio overlay adds no video stage.
pub open spec fn video_chain(steps: Seq<OverlayStep>, inputs: Seq<AssetInput>, k: nat) -> (Seq<char>, Seq<char>)
    decreases k,
{
    if k == 0 {
        (Seq::empty(), "base"@)
    } else {
        let prev = video_chain(steps, inputs, (k - 1) as nat);
        match steps[k - 1] {
            OverlayStep::Text(o) => (prev.0 + text_stage_text(prev.1, o), "v"@ + label_text(o.id@)),
            OverlayStep::Video(s) => match input_number(inputs, s.asset_id@) {
                Some(n) => (prev.0 + video_stage_text(prev.1, placed_video(s, n)), "v"@ + label_text(s.id@)),
                None => prev,
            },
            OverlayStep::Audio(_) => prev,
        }
    }
}

/// The audio overlays among the first `k` steps whose resource has an input, in order.
pub open spec fn placed_audio(steps: Seq<OverlayStep>, inputs: Seq<AssetInput>, k: nat) -> Seq<AudioOverlayInput>
    decreases k,
{
    if k == 0 {
        Seq::empty()
    } else {
        let prev = placed_audio(steps, inputs, (k - 1) as nat);
        match steps[k - 1] {
            OverlayStep::Audio(a) => match input_number(inputs, a.asset_id@) {
                Some(n) => prev.push(AudioOverlayInput { index: n as usize, start: a.start, volume: a.volume }),
                None => prev,
            },
            _ => prev,
        }
    }
}

/// The render's graph, the video label it ends on and the audio `-map` argument: the cut
/// graph (when there is one) and the crop/scale stage joined by `;`, then the overlay stages,
/// then the audio part.
pub open spec fn render_graph_text(
    cut: Seq<char>,
    base: Seq<char>,
    steps: Seq<OverlayStep>,
    inputs: Seq<AssetInput>,
    source_audio: Option<Seq<char>>,
) -> (Seq<char>, Seq<char>, Seq<char>) {
    let chain = video_chain(steps, inputs, steps.len());
    let mix = audio_mix_text(source_audio, placed_audio(steps, inputs, steps.len()));
    let head = if cut.len() == 0 { base } else { cut + seq![';'] + base };
    (head + chain.0 + mix.0, chain.1, mix.1)
}

/// A picture or audio overlay whose resource has no input.
pub open spec fn unplaced(step: OverlayStep, inputs: Seq<AssetInput>) -> bool {
    match step {
        OverlayStep::Text(_) => false,
        OverlayStep::Video(s) => input_number(inputs, s.asset_id@) is None,
        OverlayStep::Audio(a) => input_number(inputs, a.asset_id@) is None,
    }
}

proof fn lemma_chain_without(steps: Seq<OverlayStep>, inputs: Seq<AssetInput>, i: int, k: nat)
    requires
        0 <= i < steps.len(),
        unplaced(steps[i], inputs),
        k <= steps.len(),
    ensures
        k <= i ==> video_chain(steps.remove(i), inputs, k) == video_chain(steps, inputs, k)
            && placed_audio(steps.remove(i), inputs, k) == placed_audio(steps, inputs, k),
        k > i ==> video_chain(steps.remove(i), inputs, (k - 1) as nat) == video_chain(steps, inputs, k)
            && placed_audio(steps.remove(i), inputs, (k - 1) as nat) == placed_audio(steps, inputs, k),
    decreases k,
{
    steps.remove_ensures(i);
    if k > 0 {
        lemma_chain_without(steps, inputs, i, (k - 1) as nat);
        if k - 1 > i {
            assert(steps.remove(i)[k - 2] == steps[k - 1]);
        } else if k - 1 < i {
            assert(steps.remove(i)[k - 1] == steps[k - 1]);
        }
    }
}

/// An overlay whose resource has no input adds nothing to the render: taking it out of the
/// edit leaves the graph, the final video label and the audio mapping as they are.
pub proof fn lemma_unplaced_overlay_adds_nothing(
    cut: Seq<char>,
    base: Seq<char>,
    steps: Seq<OverlayStep>,
    inputs: Seq<AssetInput>,
    source_audio: Option<Seq<char>>,
    i: int,
)
    requires
        0 <= i < steps.len(),
        unplaced(steps[i], inputs),
    ensures
        render_graph_text(cut, base, steps.remove(i), inputs, source_audio) == render_graph_text(
            cut,
            base,
            steps,
            inputs,
            source_audio,
        ),
{
    lemma_chain_without(steps, inputs, i, steps.len());
    steps.remove_ensures(i);
}

/// The input number of resource `id`, searching from the last input.
fn find_input(inputs: &Vec<AssetInput>, id: &str) -> (r: Option<usize>)
    ensures
        match r {
            Some(n) => input_number(inputs@, id@) == Some(n as nat),
            None => input_number(inputs@, id@) is None,
        },
{
    let mut i = inputs.len();
    assert(inputs@.take(i as int) =~= inputs@);
    while i > 0
        invariant
            i <= inputs.len(),
            input_number(inputs@.take(i as int), id@) == input_number(inputs@, id@),
        decreases i,
    {
        assert(inputs@.take(i as int).drop_last() =~= inputs@.take(i - 1));
        assert(inputs@.take(i as int).last() == inputs@[i - 1]);
        if str_equal(inputs[i - 1].asset_id.as_str(), id) {
            return Some(i);
        }
        i = i - 1;
    }
    assert(inputs@.take(0) =~= Seq::<AssetInput>::empty());
    None
}

fn copy_chroma(c: &Option<ChromaText>) -> (r: Option<ChromaText>)
    ensures
        r == *c,
{
    match c {
        Some(k) => Some(
            ChromaText {
                color: k.color.clone(),
                similarity: k.similarity.clone(),
                blend: k.blend.clone(),
                spill: k.spill.clone(),
            },
        ),
        None => None,
    }
}

/// Builds the render's graph from the cut graph `cut`, the crop/scale stage `base` (which
/// writes `[base]`), the edit's overlays and the extra inputs, and the source's audio label.
/// Returns the graph, the video label to map and the audio `-map` argument.
pub fn render_graph(
    cut: &str,
    base: &str,
    steps: &Vec<OverlayStep>,
    inputs: &Vec<AssetInput>,
    source_audio: Option<String>,
) -> (r: (String, String, String))
    requires
        steps.len() < usize::MAX,
    ensures
        (r.0@, r.1@, r.2@) == render_graph_text(
            cut@,
            base@,
            steps@,
            inputs@,
            match source_audio {
                Some(s) => Some(s@),
                None => None,
            },
        ),
{
    let mut filter = String::new();
    filter.append(cut);
    if !cut.is_empty() {
        push_char(&mut filter, ';');
    }
    filter.append(base);
    let ghost head = filter@;
    assert(head =~= if cut@.len() == 0 { base@ } else { cut@ + seq![';'] + base@ });
    let mut current = "base".to_owned();
    let mut audio: Vec<AudioOverlayInput> = Vec::new();
    let mut k: usize = 0;
    while k < steps.len()
        invariant
            k <= steps.len() < usize::MAX,
            filter@ == head + video_chain(steps@, inputs@, k as nat).0,
            current@ == video_chain(steps@, inputs@, k as nat).1,
            audio@ == placed_audio(steps@, inputs@, k as nat),
            audio.len() <= k,
        decreases steps.len() - k,
    {
        match &steps[k] {
            OverlayStep::Text(o) => {
                let (stage, next) = text_overlay_filter(current.as_str(), o);
                filter.append(stage.as_str());
                current = next;
            },
            OverlayStep::Video(s) => {
                match find_input(inputs, s.asset_id.as_str()) {
                    Some(n) => {
                        let placed = VideoOverlay {
                            id: s.id.clone(),
                            index: n,
                            start: s.start.clone(),
                            end: s.end.clone(),
                            x: s.x.clone(),
                            y: s.y.clone(),
                            scale: s.scale.clone(),
                            chroma: copy_chroma(&s.chroma),
                        };
                        assert(placed == placed_video(*s, n as nat));
                        let (stage, next) = video_overlay_filter(current.as_str(), &placed);
                        filter.append(stage.as_str());
                        current = next;
                    },
                    None => {},
                }
            },
            OverlayStep::Audio(a) => {
                match find_input(inputs, a.asset_id.as_str()) {
                    Some(n) => {
                        audio.push(AudioOverlayInput { index: n, start: a.start.clone(), volume: a.volume.clone() });
                    },
                    None => {},
                }
            },
        }
        assert(filter@ =~= head + video_chain(steps@, inputs@, (k + 1) as nat).0);
        assert(audio@ =~= placed_audio(steps@, inputs@, (k + 1) as nat));
        k = k + 1;
    }
    let (mix, map) = audio_mix(source_audio, &audio);
    filter.append(mix.as_str());
    (filter, current, map)
}

// ---------------------------------------------------------------------------------------------
// Encoder: the first hardware H.264 encoder that FFmpeg lists, else libx264.

/// The H.264 encoders in order of preference.
pub open spec fn encoder_preference(k: int) -> Seq<char> {
    if k == 0 {
        "h264_nvenc"@
    } else if k == 1 {
        "h264_qsv"@
    } else if k == 2 {
        "h264_amf"@
    } else if k == 3 {
        "h264_mf"@
    } else {
        "libx264"@
    }
}

/// The first preferred encoder that occurs in `listing` (the output of `ffmpeg -encoders`),
/// libx264 when none does.
pub open spec fn chosen_encoder(listing: Seq<char>) -> Seq<char> {
    if crate::text::find_first(listing, encoder_preference(0)) is Some {
        encoder_preference(0)
    } else if crate::text::find_first(listing, encoder_preference(1)) is Some {
        encoder_preference(1)
    } else if crate::text::find_first(listing, encoder_preference(2)) is Some {
        encoder_preference(2)
    } else if crate::text::find_first(listing, encoder_preference(3)) is Some {
        encoder_preference(3)
    } else {
        encoder_preference(4)
    }
}

fn mentions(v: &Vec<char>, name: &str) -> (b: bool)
    ensures
        b == (crate::text::find_first(v@, name@) is Some),
{
    let n = chars_of(name);
    let r = crate::text::find_in(v, 0, v.len(), &n);
    assert(v@.subrange(0, v.len() as int) =~= v@);
    match r {
        Some(_) => true,
        None => false,
    }
}

/// The encoder to use, given the encoder listing FFmpeg printed.
pub fn select_encoder(listing: &str) -> (r: String)
    ensures
        r@ == chosen_encoder(listing@),
{
    let v = chars_of(listing);
    if mentions(&v, "h264_nvenc") {
        "h264_nvenc".to_owned()
    } else if mentions(&v, "h264_qsv") {
        "h264_qsv".to_owned()
    } else if mentions(&v, "h264_amf") {
        "h264_amf".to_owned()
    } else if mentions(&v, "h264_mf") {
        "h264_mf".to_owned()
    } else {
        "libx264".to_owned()
    }
}

/// The encoder follows a fixed preference: NVIDIA's `h264_nvenc` whenever the listing mentions
/// it, else Intel's `h264_qsv`, else AMD's `h264_amf`, else Media Foundation's `h264_mf`, and
/// the software `libx264` when the listing mentions none of them.
pub proof fn lemma_encoder_preference_order(listing: Seq<char>)
    ensures
        crate::text::find_first(listing, "h264_nvenc"@) is Some ==> chosen_encoder(listing) == "h264_nvenc"@,
        crate::text::find_first(listing, "h264_nvenc"@) is None && crate::text::find_first(listing, "h264_qsv"@) is Some
            ==> chosen_encoder(listing) == "h264_qsv"@,
        crate::text::find_first(listing, "h264_nvenc"@) is None && crate::text::find_first(listing, "h264_qsv"@) is None
            && crate::text::find_first(listing, "h264_amf"@) is Some ==> chosen_encoder(listing) == "h264_amf"@,
        crate::text::find_first(listing, "h264_nvenc"@) is None && crate::text::find_first(listing, "h264_qsv"@) is None
            && crate::text::find_first(listing, "h264_amf"@) is None && crate::text::find_first(listing, "h264_mf"@)
            is Some ==> chosen_encoder(listing) == "h264_mf"@,
        crate::text::find_first(listing, "h264_nvenc"@) is None && crate::text::find_first(listing, "h264_qsv"@) is None
            && crate::text::find_first(listing, "h264_amf"@) is None && crate::text::find_first(listing, "h264_mf"@)
            is None ==> chosen_encoder(listing) == "libx264"@,
{
}

/// The quality options for `encoder`: constant quality for libx264 and NVENC, the preset's
/// bitrate (in Mbit/s) for any other encoder.
pub open spec fn encoder_options_text(encoder: Seq<char>, bitrate_mbps: nat) -> Seq<Seq<char>> {
    if encoder == "libx264"@ {
        seq!["-preset"@, "medium"@, "-crf"@, "18"@]
    } else if encoder == "h264_nvenc"@ {
        seq!["-preset"@, "p6"@, "-cq"@, "18"@, "-b:v"@, "0"@]
    } else {
        seq!["-b:v"@, decimal(bitrate_mbps).push('M')]
    }
}

/// libx264 and NVENC encode at constant quality 18 (`-crf 18`, `-cq 18` with no bitrate
/// cap); every other encoder is given the preset's bitrate, `-b:v <n>M`.
pub proof fn lemma_encoder_quality(encoder: Seq<char>, bitrate_mbps: nat)
    ensures
        encoder == "libx264"@ ==> encoder_options_text(encoder, bitrate_mbps) == seq![
            "-preset"@,
            "medium"@,
            "-crf"@,
            "18"@,
        ],
        encoder == "h264_nvenc"@ ==> encoder_options_text(encoder, bitrate_mbps) == seq![
            "-preset"@,
            "p6"@,
            "-cq"@,
            "18"@,
            "-b:v"@,
            "0"@,
        ],
        encoder != "libx264"@ && encoder != "h264_nvenc"@ ==> encoder_options_text(encoder, bitrate_mbps) == seq![
            "-b:v"@,
            decimal(bitrate_mbps) + seq!['M'],
        ],
{
    assert(decimal(bitrate_mbps).push('M') =~= decimal(bitrate_mbps) + seq!['M']);
    if encoder == "h264_nvenc"@ {
        reveal_strlit("libx264");
        reveal_strlit("h264_nvenc");
        assert("h264_nvenc"@[0] != "libx264"@[0]);
    }
}

/// The encoder-specific arguments of the render command.
pub fn encoder_options(encoder: &str, bitrate_mbps: u16) -> (r: Vec<String>)
    ensures
        r@.map_values(|s: String| s@) == encoder_options_text(encoder@, bitrate_mbps as nat),
{
    let mut r: Vec<String> = Vec::new();
    if str_equal(encoder, "libx264") {
        r.push("-preset".to_owned());
        r.push("medium".to_owned());
        r.push("-crf".to_owned());
        r.push("18".to_owned());
    } else if str_equal(encoder, "h264_nvenc") {
        r.push("-preset".to_owned());
        r.push("p6".to_owned());
        r.push("-cq".to_owned());
        r.push("18".to_owned());
        r.push("-b:v".to_owned());
        r.push("0".to_owned());
    } else {
        r.push("-b:v".to_owned());
        let mut rate = String::new();
        push_decimal(&mut rate, bitrate_mbps as u64);
        push_char(&mut rate, 'M');
        r.push(rate);
    }
    assert(r@.map_values(|s: String| s@) =~= encoder_options_text(encoder@, bitrate_mbps as nat));
    r
}

} // verus!
