use banshee::domain::CropMode;
use banshee::filters::{
    audio_map_spec, base_video_filter, cut_filter, escape_drawtext, normalize_color,
    sanitize_label, tail, CutSegment,
};
use banshee::logs::{
    mean_volume_token, pair_silence_marks, signal_frames, silence_marks, SilenceMark,
    SilenceReading, SilenceSpan,
};
use banshee::media::{first_stream, selection_limit, thumbnail_file_name};
use banshee::render::{
    asset_inputs, audio_mix, encoder_options, render_graph, select_encoder, text_overlay_filter,
    video_overlay_filter, AssetInput, AudioOverlayInput, AudioStep, ChromaText, LibraryEntry,
    OverlayStep, TextOverlay, VideoOverlay, VideoStep,
};

fn parse_silence(log: &str, duration: f64) -> Vec<(f64, f64)> {
    let marks = silence_marks(log);
    let values: Vec<(bool, Option<f64>)> = marks
        .iter()
        .map(|m| match m {
            SilenceMark::Start(w) => (true, w.as_deref().and_then(|v| v.parse().ok())),
            SilenceMark::End(w) => (false, w.as_deref().and_then(|v| v.parse().ok())),
        })
        .collect();
    let readings: Vec<SilenceReading> = values
        .iter()
        .map(|(is_start, v)| SilenceReading { is_start: *is_start, parsed: v.is_some() })
        .collect();
    pair_silence_marks(&readings)
        .iter()
        .map(|span| {
            let from = values[span.start].1.unwrap();
            let to = span.end.map(|e| values[e].1.unwrap()).unwrap_or(duration);
            (from, to)
        })
        .collect()
}

#[test]
fn creates_vertical_filter() {
    let filter = base_video_filter("0:v", &CropMode::Center, "1", 1080, 1920);
    assert!(filter.contains("scale=1080:1920"));
}

#[test]
fn maps_input_and_filtered_audio_correctly() {
    assert_eq!(audio_map_spec("0:a"), "0:a?");
    assert_eq!(audio_map_spec("acut0"), "[acut0]");
}

#[test]
fn blurred_background_filter_has_two_layers() {
    let filter = base_video_filter("0:v", &CropMode::BlurredBackground, "1", 1080, 1920);
    assert!(filter.contains("split=2[bg][fg]"));
    assert!(filter.contains("boxblur=24:2[blur]"));
    assert!(filter.contains("[blur][front]overlay="));
}

#[test]
fn scene_log_is_parsed() {
    let frames = signal_frames("x frame:0 pts_time:12.5 pos:0\nlavfi.signalstats.SATAVG=20\nlavfi.signalstats.YDIF=18\n");
    let events: Vec<f64> = frames
        .iter()
        .filter_map(|f| f.time.as_deref().and_then(|t| t.parse::<f64>().ok()))
        .collect();
    assert_eq!(events.len(), 1);
    assert!((events[0] - 12.5).abs() < 0.01);
    assert_eq!(frames[0].saturation.as_deref(), Some("20"));
    assert_eq!(frames[0].motion.as_deref(), Some("18"));
}

#[test]
fn parses_silence_intervals() {
    let ranges = parse_silence("silence_start: 3.2\nsilence_end: 8.4 | x\n", 20.0);
    assert_eq!(ranges, vec![(3.2, 8.4)]);
}

#[test]
fn open_silence_runs_to_the_end() {
    let ranges = parse_silence("silence_start: 1\nsilence_end: 2\nsilence_start: 7.5\n", 20.0);
    assert_eq!(ranges, vec![(1.0, 2.0), (7.5, 20.0)]);
}

#[test]
fn unreadable_silence_end_drops_the_interval() {
    let readings = vec![
        SilenceReading { is_start: true, parsed: true },
        SilenceReading { is_start: false, parsed: false },
        SilenceReading { is_start: false, parsed: true },
        SilenceReading { is_start: true, parsed: false },
        SilenceReading { is_start: true, parsed: true },
        SilenceReading { is_start: false, parsed: true },
    ];
    assert_eq!(pair_silence_marks(&readings), vec![SilenceSpan { start: 4, end: Some(5) }]);
}

#[test]
fn frames_before_the_first_timestamp_are_dropped() {
    let log = "lavfi.signalstats.YDIF=99\npts_time:1.0\nlavfi.signalstats.YDIF= 3 \npts_time:2.0 lavfi.signalstats.SATAVG=7\npts_time:\n";
    let frames = signal_frames(log);
    assert_eq!(frames.len(), 3);
    assert_eq!(frames[0].time.as_deref(), Some("1.0"));
    assert_eq!(frames[0].motion.as_deref(), Some("3"));
    assert_eq!(frames[1].saturation.as_deref(), Some("7"));
    assert_eq!(frames[1].motion, None);
    assert_eq!(frames[2].time, None);
}

#[test]
fn mean_volume_is_read_from_the_first_line_that_has_it() {
    let log = "[Parsed_volumedetect_0] n_samples: 10\n[Parsed_volumedetect_0] mean_volume: -23.4 dB\nmean_volume: -1 dB\n";
    assert_eq!(mean_volume_token(log).as_deref(), Some("-23.4"));
    assert_eq!(mean_volume_token("no reading\r\n"), None);
    assert_eq!(mean_volume_token("mean_volume:   \nmean_volume: -5 dB"), None);
}

#[test]
fn drawtext_escaping() {
    assert_eq!(escape_drawtext(r"a:b\c'd%e"), r"a\:b\\c’d\%e");
    assert!(!escape_drawtext("it's").contains('\''));
}

#[test]
fn colours_and_labels() {
    assert_eq!(normalize_color("  ##ff00aa \t"), "ff00aa");
    assert_eq!(sanitize_label("a-b_c.d/e:f?g h1234567890"), "abcdefgh1234");
    assert_eq!(sanitize_label(&sanitize_label("x-y-z")), sanitize_label("x-y-z"));
    assert_eq!(sanitize_label("—"), "");
}

#[test]
fn tail_keeps_the_last_lines() {
    assert_eq!(tail("a\nb\r\nc\nd\n", 2), "c\nd");
    assert_eq!(tail("one\ntwo", 10), "one\ntwo");
    assert_eq!(tail("", 3), "");
    assert_eq!(tail("x\n", 0), "");
}

#[test]
fn single_segment_from_origin_needs_no_graph() {
    let segs = vec![CutSegment { start: "0.000".into(), end: "10.000".into() }];
    let (filter, video, audio) = cut_filter(&segs, true, true, true);
    assert_eq!(filter, "");
    assert_eq!(video, "0:v");
    assert_eq!(audio.as_deref(), Some("0:a"));
}

#[test]
fn single_origin_segment_shorter_than_clip_is_trimmed() {
    // A 10 s clip whose last 5 s were removed keeps only 0–5 s.
    let segs = vec![CutSegment { start: "0.000".into(), end: "5.000".into() }];
    let (filter, video, audio) = cut_filter(&segs, true, false, true);
    assert_eq!(
        filter,
        "[0:v]trim=start=0.000:end=5.000,setpts=PTS-STARTPTS[vcut0];\
[0:a]atrim=start=0.000:end=5.000,asetpts=PTS-STARTPTS[acut0]"
    );
    assert_eq!(video, "vcut0");
    assert_eq!(audio.as_deref(), Some("acut0"));
}

#[test]
fn single_trimmed_segment() {
    let segs = vec![CutSegment { start: "2.000".into(), end: "10.000".into() }];
    let (filter, video, audio) = cut_filter(&segs, false, true, false);
    assert_eq!(filter, "[0:v]trim=start=2.000:end=10.000,setpts=PTS-STARTPTS[vcut0]");
    assert_eq!(video, "vcut0");
    assert_eq!(audio, None);
}

#[test]
fn two_segments_are_split_and_joined() {
    let segs = vec![
        CutSegment { start: "0.000".into(), end: "3.000".into() },
        CutSegment { start: "5.000".into(), end: "10.000".into() },
    ];
    let (filter, video, audio) = cut_filter(&segs, true, true, true);
    assert_eq!(
        filter,
        "[0:v]split=2[vsrc0][vsrc1];[0:a]asplit=2[asrc0][asrc1];\
[vsrc0]trim=start=0.000:end=3.000,setpts=PTS-STARTPTS[vcut0];\
[asrc0]atrim=start=0.000:end=3.000,asetpts=PTS-STARTPTS[acut0];\
[vsrc1]trim=start=5.000:end=10.000,setpts=PTS-STARTPTS[vcut1];\
[asrc1]atrim=start=5.000:end=10.000,asetpts=PTS-STARTPTS[acut1];\
[vcut0][acut0][vcut1][acut1]concat=n=2:v=1:a=1[vcut][acut]"
    );
    assert_eq!(video, "vcut");
    assert_eq!(audio.as_deref(), Some("acut"));
}

#[test]
fn zoomed_center_crop() {
    assert_eq!(
        base_video_filter("vcut", &CropMode::Dynamic, "1.5", 720, 1280),
        "[vcut]crop='min(iw,ih*9/16/1.5)':'min(ih,iw*16/9/1.5)':(iw-ow)/2:(ih-oh)/2,scale=720:1280:flags=lanczos,setsar=1[base]"
    );
}

#[test]
fn overlay_inputs_are_assigned_once_in_order() {
    let overlays = vec![None, Some("b".to_string()), Some("a".to_string()), Some("b".to_string()), Some("gone".to_string())];
    let library = vec![
        LibraryEntry { id: "a".into(), path: "/a1".into() },
        LibraryEntry { id: "b".into(), path: "/b".into() },
        LibraryEntry { id: "a".into(), path: "/a2".into() },
    ];
    let inputs = asset_inputs(&overlays, &library);
    let pairs: Vec<(&str, &str)> = inputs.iter().map(|i| (i.asset_id.as_str(), i.path.as_str())).collect();
    assert_eq!(pairs, vec![("b", "/b"), ("a", "/a2")]);
}

#[test]
fn text_and_picture_overlays() {
    let text = TextOverlay {
        id: "t-1".into(),
        text: "Hi: 100%".into(),
        color: "#ffffff".into(),
        size: 48,
        x: "0.5000".into(),
        y: "0.9000".into(),
        start: "0.000".into(),
        end: "2.000".into(),
    };
    let (stage, next) = text_overlay_filter("base", &text);
    assert_eq!(next, "vt1");
    assert_eq!(stage, ";[base]drawtext=text='Hi\\: 100\\%':fontcolor=ffffff:fontsize=48:x=(w-text_w)*0.5000:y=(h-text_h)*0.9000:borderw=2:bordercolor=black@0.6:enable='between(t,0.000,2.000)'[vt1]");
    let video = VideoOverlay {
        id: "v1".into(),
        index: 2,
        start: "1.000".into(),
        end: "3.000".into(),
        x: "0.0000".into(),
        y: "1.0000".into(),
        scale: "0.500".into(),
        chroma: Some(ChromaText { color: "#00ff00".into(), similarity: "0.1".into(), blend: "0".into(), spill: "0.5".into() }),
    };
    let (stage, next) = video_overlay_filter("vt1", &video);
    assert_eq!(next, "vv1");
    assert_eq!(stage, ";[2:v]setpts=PTS-STARTPTS+1.000/TB,scale=iw*0.500:-2,chromakey=00ff00:0.1:0,despill=type=green:mix=0.5[ovv1];[vt1][ovv1]overlay=x=(W-w)*0.0000:y=(H-h)*1.0000:enable='between(t,1.000,3.000)'[vv1]");
}

#[test]
fn audio_is_mapped_or_mixed() {
    assert_eq!(audio_mix(Some("acut".into()), &vec![]), (String::new(), "[acut]".to_string()));
    assert_eq!(audio_mix(Some("0:a".into()), &vec![]), (String::new(), "0:a?".to_string()));
    assert_eq!(audio_mix(None, &vec![]), (String::new(), "0:a?".to_string()));
    let (filter, map) = audio_mix(
        Some("acut".into()),
        &vec![AudioOverlayInput { index: 1, start: "0.500".into(), volume: "0.800".into() }],
    );
    assert_eq!(map, "[aout]");
    assert_eq!(filter, ";[acut]asetpts=PTS-STARTPTS[a0];[1:a]atrim=start=0,asetpts=PTS-STARTPTS+0.500/TB,volume=0.800[a1];[a0][a1]amix=inputs=2:duration=first:dropout_transition=2[aout]");
}

#[test]
fn encoder_choice_and_options() {
    assert_eq!(select_encoder(" V..... h264_qsv  x\n V..... libx264"), "h264_qsv");
    assert_eq!(select_encoder("nothing"), "libx264");
    assert_eq!(encoder_options("libx264", 8), vec!["-preset", "medium", "-crf", "18"]);
    assert_eq!(encoder_options("h264_nvenc", 8), vec!["-preset", "p6", "-cq", "18", "-b:v", "0"]);
    assert_eq!(encoder_options("h264_amf", 16), vec!["-b:v", "16M"]);
}

#[test]
fn thumbnails_and_selection() {
    assert_eq!(thumbnail_file_name(0), "candidate-01.jpg");
    assert_eq!(thumbnail_file_name(11), "candidate-12.jpg");
    assert_eq!(selection_limit(1), 4);
    assert_eq!(selection_limit(5), 10);
    assert_eq!(selection_limit(100), 16);
}

fn text_step(id: &str) -> OverlayStep {
    OverlayStep::Text(TextOverlay {
        id: id.into(),
        text: "Hi".into(),
        color: "#ffffff".into(),
        size: 48,
        x: "0.5000".into(),
        y: "0.9000".into(),
        start: "0.000".into(),
        end: "2.000".into(),
    })
}

fn picture_step(id: &str, asset: &str) -> OverlayStep {
    OverlayStep::Video(VideoStep {
        asset_id: asset.into(),
        id: id.into(),
        start: "1.000".into(),
        end: "3.000".into(),
        x: "0.0000".into(),
        y: "1.0000".into(),
        scale: "0.500".into(),
        chroma: None,
    })
}

fn sound_step(asset: &str) -> OverlayStep {
    OverlayStep::Audio(AudioStep { asset_id: asset.into(), start: "0.500".into(), volume: "0.800".into() })
}

fn render_inputs() -> Vec<AssetInput> {
    vec![
        AssetInput { asset_id: "logo".into(), path: "logo.png".into() },
        AssetInput { asset_id: "music".into(), path: "music.mp3".into() },
    ]
}

const CUT: &str = "[0:v]trim=start=0.000:end=5.000,setpts=PTS-STARTPTS[vcut0];[0:a]atrim=start=0.000:end=5.000,asetpts=PTS-STARTPTS[acut0]";
const BASE: &str = "[vcut0]scale=1080:1920[base]";

#[test]
fn render_graph_chains_overlays_in_order() {
    let steps = vec![
        text_step("t1"),
        picture_step("v1", "gone"),
        picture_step("v2", "logo"),
        sound_step("music"),
        sound_step("gone"),
    ];
    let (filter, video, audio) = render_graph(CUT, BASE, &steps, &render_inputs(), Some("acut0".into()));
    let expected = format!(
        "{CUT};{BASE}\
;[base]drawtext=text='Hi':fontcolor=ffffff:fontsize=48:x=(w-text_w)*0.5000:y=(h-text_h)*0.9000:borderw=2:bordercolor=black@0.6:enable='between(t,0.000,2.000)'[vt1]\
;[1:v]setpts=PTS-STARTPTS+1.000/TB,scale=iw*0.500:-2[ovv2];[vt1][ovv2]overlay=x=(W-w)*0.0000:y=(H-h)*1.0000:enable='between(t,1.000,3.000)'[vv2]\
;[acut0]asetpts=PTS-STARTPTS[a0];[2:a]atrim=start=0,asetpts=PTS-STARTPTS+0.500/TB,volume=0.800[a1];[a0][a1]amix=inputs=2:duration=first:dropout_transition=2[aout]"
    );
    assert_eq!(filter, expected);
    assert_eq!(video, "vv2");
    assert_eq!(audio, "[aout]");
}

#[test]
fn overlays_without_an_input_add_no_stage() {
    let with_missing = vec![
        picture_step("v1", "gone"),
        text_step("t1"),
        sound_step("gone"),
        sound_step("music"),
        picture_step("v3", "nowhere"),
    ];
    let without = vec![text_step("t1"), sound_step("music")];
    let inputs = render_inputs();
    assert_eq!(
        render_graph(CUT, BASE, &with_missing, &inputs, Some("acut0".into())),
        render_graph(CUT, BASE, &without, &inputs, Some("acut0".into()))
    );
}

#[test]
fn render_graph_without_cut_or_overlays() {
    let (filter, video, audio) = render_graph("", "[0:v]scale=1080:1920[base]", &vec![], &vec![], Some("0:a".into()));
    assert_eq!(filter, "[0:v]scale=1080:1920[base]");
    assert_eq!(video, "base");
    assert_eq!(audio, "0:a?");
}

#[test]
fn first_stream_of_a_kind() {
    let kinds: Vec<String> = vec!["audio".into(), "video".into(), "video".into(), "data".into()];
    assert_eq!(first_stream(&kinds, "video"), Some(1));
    assert_eq!(first_stream(&kinds, "audio"), Some(0));
    assert_eq!(first_stream(&kinds, "subtitle"), None);
    assert_eq!(first_stream(&vec![], "video"), None);
}
