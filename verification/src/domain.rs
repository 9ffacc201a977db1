//! The editor's domain vocabulary: project and job states, analysis settings, render presets.
use vstd::prelude::*;
use crate::text::str_equal;

verus! {

/// Where a project stands in its life cycle.
#[derive(Debug, Clone, Copy, PartialEq, Eq, Structural)]
pub enum ProjectStatus {
    Imported,
    Analyzing,
    Ready,
    Rendering,
    Completed,
    Failed,
}

/// The short-video platform a clip is cut for.
#[derive(Debug, Clone, Copy, PartialEq, Eq, Structural)]
pub enum SocialPlatform {
    TikTok,
    Reels,
    Shorts,
}

/// Which analysis produced a candidate's score.
#[derive(Debug, Clone, Copy, PartialEq, Eq, Structural)]
pub enum AnalysisSource {
    Local,
    OpenAi,
}

/// How the source frame is fitted into the vertical output.
#[derive(Debug, Clone, Copy, PartialEq, Eq, Structural)]
pub enum CropMode {
    Dynamic,
    Center,
    BlurredBackground,
}

/// Whether, and with which model, frames are upscaled before the render.
#[derive(Debug, Clone, Copy, PartialEq, Eq, Structural)]
pub enum UpscaleMode {
    Off,
    Auto,
    Anime,
    General,
}

/// The state of a render job.
#[derive(Debug, Clone, Copy, PartialEq, Eq, Structural)]
pub enum JobStatus {
    Queued,
    Running,
    Completed,
    Failed,
    Cancelled,
}

/// The kind of a library resource.
#[derive(Debug, Clone, Copy, PartialEq, Eq, Structural)]
pub enum AssetKind {
    Video,
    Audio,
    Image,
}

/// The instruction given to the ranking model unless the user writes another.
pub const DEFAULT_HIGHLIGHTS_PROMPT: &'static str = "Ти — монтажний асистент коротких вертикальних відео. Обирай лише найдинамічніші, візуально насичені й зрозумілі без контексту моменти. Оціни дію, несподіваність, емоційність, придатність для TikTok/Reels/Shorts та силу hook у перші 1–2 секунди. Не пропонуй довгі вступи, меню, завантаження, очікування, повтори або статичні сцени. Побудуй кожен кліп як hook → розвиток → кульмінація → коротке завершення. Поверни точні таймкоди, оцінку 0–100 і стислу причину вибору. Не вигадуй подій, яких немає на наданих кадрах і в транскрипції.";

/// The knobs of one highlight analysis.
#[derive(Debug, Clone)]
pub struct AnalysisSettings {
    pub platform: SocialPlatform,
    pub moment_count: Option<u8>,
    pub min_duration_seconds: u16,
    pub max_duration_seconds: u16,
    pub model: String,
    pub use_openai: bool,
    pub prompt: String,
}

impl Default for AnalysisSettings {
    /// TikTok, as many moments as the source length suggests, 15–45 s clips, the terra model
    /// with the default prompt, ranking by the model enabled.
    fn default() -> (r: Self)
        ensures
            r.platform == SocialPlatform::TikTok,
            r.moment_count is None,
            r.min_duration_seconds == 15,
            r.max_duration_seconds == 45,
            r.model@ == "gpt-5.6-terra"@,
            r.use_openai,
            r.prompt@ == DEFAULT_HIGHLIGHTS_PROMPT@,
    {
        AnalysisSettings {
            platform: SocialPlatform::TikTok,
            moment_count: None,
            min_duration_seconds: 15,
            max_duration_seconds: 45,
            model: "gpt-5.6-terra".to_owned(),
            use_openai: true,
            prompt: DEFAULT_HIGHLIGHTS_PROMPT.to_owned(),
        }
    }
}

/// An output profile: vertical frame size, frame-rate cap, bitrate and upscaling.
#[derive(Debug, Clone)]
pub struct RenderPreset {
    pub id: String,
    pub label: String,
    pub width: u32,
    pub height: u32,
    pub max_fps: u32,
    pub video_bitrate_mbps: u16,
    pub ai_upscale: UpscaleMode,
}

/// `p` is the preset with these fields.
pub open spec fn preset_is(
    p: RenderPreset,
    id: Seq<char>,
    label: Seq<char>,
    width: u32,
    height: u32,
    bitrate: u16,
    upscale: UpscaleMode,
) -> bool {
    &&& p.id@ == id
    &&& p.label@ == label
    &&& p.width == width
    &&& p.height == height
    &&& p.max_fps == 60
    &&& p.video_bitrate_mbps == bitrate
    &&& p.ai_upscale == upscale
}

/// `p` is the `k`-th built-in preset.
pub open spec fn builtin_preset(k: int, p: RenderPreset) -> bool {
    if k == 0 {
        preset_is(p, "balanced-720"@, "720p Balanced"@, 720, 1280, 8, UpscaleMode::Off)
    } else if k == 1 {
        preset_is(p, "high-1080"@, "1080p High"@, 1080, 1920, 16, UpscaleMode::Auto)
    } else {
        k == 2 && preset_is(p, "source-max"@, "Source-aware Maximum"@, 1080, 1920, 24, UpscaleMode::Auto)
    }
}

/// The id of the `k`-th built-in preset.
pub open spec fn builtin_preset_id(k: int) -> Seq<char> {
    if k == 0 {
        "balanced-720"@
    } else if k == 1 {
        "high-1080"@
    } else {
        "source-max"@
    }
}

/// The built-in presets have different ids, so an id names at most one of them.
pub proof fn lemma_preset_ids_distinct()
    ensures
        forall|i: int, j: int| 0 <= i < j < 3 ==> builtin_preset_id(i) != builtin_preset_id(j),
{
    reveal_strlit("balanced-720");
    reveal_strlit("high-1080");
    reveal_strlit("source-max");
    assert("balanced-720"@[0] != "high-1080"@[0]);
    assert("balanced-720"@[0] != "source-max"@[0]);
    assert("high-1080"@[0] != "source-max"@[0]);
}

/// The built-in presets, in the order they are offered.
pub open spec fn presets_are(ps: Seq<RenderPreset>) -> bool {
    &&& ps.len() == 3
    &&& forall|k: int| 0 <= k < 3 ==> builtin_preset(k, #[trigger] ps[k])
}

/// The three built-in render presets: 720p balanced, 1080p high, and source-aware maximum.
pub fn default_presets() -> (r: Vec<RenderPreset>)
    ensures
        presets_are(r@),
{
    let mut r: Vec<RenderPreset> = Vec::new();
    r.push(RenderPreset {
        id: "balanced-720".to_owned(),
        label: "720p Balanced".to_owned(),
        width: 720,
        height: 1280,
        max_fps: 60,
        video_bitrate_mbps: 8,
        ai_upscale: UpscaleMode::Off,
    });
    r.push(RenderPreset {
        id: "high-1080".to_owned(),
        label: "1080p High".to_owned(),
        width: 1080,
        height: 1920,
        max_fps: 60,
        video_bitrate_mbps: 16,
        ai_upscale: UpscaleMode::Auto,
    });
    r.push(RenderPreset {
        id: "source-max".to_owned(),
        label: "Source-aware Maximum".to_owned(),
        width: 1080,
        height: 1920,
        max_fps: 60,
        video_bitrate_mbps: 24,
        ai_upscale: UpscaleMode::Auto,
    });
    r
}

/// The built-in preset whose id is `id` (the first, should two share it).
pub fn preset_by_id(id: &str) -> (r: Option<RenderPreset>)
    ensures
        match r {
            Some(p) => exists|k: int|
                0 <= k < 3 && #[trigger] builtin_preset(k, p) && p.id@ == id@ && forall|j: int|
                    0 <= j < k ==> builtin_preset_id(j) != id@,
            None => forall|k: int| 0 <= k < 3 ==> #[trigger] builtin_preset_id(k) != id@,
        },
{
    let mut presets = default_presets();
    let mut i: usize = 0;
    while i < presets.len()
        invariant
            i <= presets.len(),
            presets_are(presets@),
            forall|j: int| 0 <= j < i ==> builtin_preset_id(j) != id@,
        decreases presets.len() - i,
    {
        assert(builtin_preset(i as int, presets@[i as int]));
        if str_equal(presets[i].id.as_str(), id) {
            let p = presets.remove(i);
            return Some(p);
        }
        i = i + 1;
    }
    None
}

} // verus!
