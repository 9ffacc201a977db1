use banshee::domain::{
    default_presets, preset_by_id, AnalysisSettings, CropMode, SocialPlatform, UpscaleMode,
    DEFAULT_HIGHLIGHTS_PROMPT,
};
use banshee::storage::AppSettings;
use banshee::upscaler::{upscale_warning, EsrganPlan, UpscaleError, UpscaleRoute, Upscaler};
use std::path::PathBuf;

#[test]
fn high_preset_is_present() {
    assert!(default_presets()
        .iter()
        .any(|p| p.id == "high-1080" && p.width == 1080));
}

#[test]
fn missing_binary_is_a_clean_state() {
    let upscaler = Upscaler::with_executable(None);
    assert!(!upscaler.available());
}

#[test]
fn presets_are_listed_in_order() {
    let presets = default_presets();
    let ids: Vec<&str> = presets.iter().map(|p| p.id.as_str()).collect();
    assert_eq!(ids, vec!["balanced-720", "high-1080", "source-max"]);
    assert_eq!(presets[0].height, 1280);
    assert_eq!(presets[2].video_bitrate_mbps, 24);
    assert_eq!(presets[0].ai_upscale, UpscaleMode::Off);
}

#[test]
fn preset_lookup_by_id() {
    let p = preset_by_id("source-max").unwrap();
    assert_eq!(p.label, "Source-aware Maximum");
    assert!(preset_by_id("missing").is_none());
}

#[test]
fn analysis_defaults() {
    let s = AnalysisSettings::default();
    assert_eq!(s.platform, SocialPlatform::TikTok);
    assert_eq!(s.moment_count, None);
    assert_eq!((s.min_duration_seconds, s.max_duration_seconds), (15, 45));
    assert_eq!(s.model, "gpt-5.6-terra");
    assert!(s.use_openai);
    assert_eq!(s.prompt, DEFAULT_HIGHLIGHTS_PROMPT);
    assert!(DEFAULT_HIGHLIGHTS_PROMPT.starts_with("Ти — монтажний асистент"));
}

#[test]
fn app_settings_defaults() {
    let s = AppSettings::default();
    assert_eq!(s.autosave_seconds, 15);
    assert_eq!(s.model, "gpt-5.6-terra");
    assert!(!s.admin_cost_sync);
}

#[test]
fn installed_upscaler_plans_a_run() {
    let upscaler = Upscaler::with_executable(Some(PathBuf::from("realesrgan")));
    assert!(upscaler.available());
    let plan: EsrganPlan = upscaler.plan(&UpscaleMode::General, 9).unwrap();
    assert_eq!(plan.model, "realesrgan-x4plus");
    assert_eq!(plan.scale, 4);
    let plan = upscaler.plan(&UpscaleMode::Auto, 0).unwrap();
    assert_eq!(plan.model, "realesr-animevideov3");
    assert_eq!(plan.scale, 2);
    assert_eq!(upscaler.plan(&UpscaleMode::Anime, 3).unwrap().scale, 3);
    let err = upscaler.plan(&UpscaleMode::Off, 2).unwrap_err();
    assert_eq!(err, UpscaleError::Disabled);
    assert_eq!(err.message(), "AI-upscale вимкнено");
}

#[test]
fn missing_upscaler_refuses_first() {
    let upscaler = Upscaler::with_executable(None);
    let err = upscaler.plan(&UpscaleMode::Off, 2).unwrap_err();
    assert_eq!(err, UpscaleError::NotInstalled);
    assert_eq!(err.message(), "Real-ESRGAN не встановлено");
    assert!(upscaler.executable().is_none());
}

#[test]
fn upscale_route_follows_preset_crop_and_installation() {
    let installed = Upscaler::with_executable(Some(PathBuf::from("realesrgan")));
    let missing = Upscaler::with_executable(None);
    assert_eq!(installed.route(&UpscaleMode::Auto, &CropMode::Center, true), UpscaleRoute::Enhance);
    assert_eq!(missing.route(&UpscaleMode::Auto, &CropMode::Center, true), UpscaleRoute::Lanczos);
    assert_eq!(installed.route(&UpscaleMode::Off, &CropMode::Center, true), UpscaleRoute::Direct);
    assert_eq!(installed.route(&UpscaleMode::General, &CropMode::BlurredBackground, true), UpscaleRoute::Direct);
    assert_eq!(missing.route(&UpscaleMode::Anime, &CropMode::Dynamic, false), UpscaleRoute::Direct);
}

#[test]
fn missing_or_failed_upscale_still_exports_with_a_warning() {
    assert_eq!(
        upscale_warning(UpscaleRoute::Lanczos, None).as_deref(),
        Some("Real-ESRGAN не встановлено — використано якісний Lanczos fallback.")
    );
    assert_eq!(
        upscale_warning(UpscaleRoute::Enhance, Some("exit 1")).as_deref(),
        Some("AI-upscale недоступний: exit 1. Використано якісний FFmpeg fallback.")
    );
    assert_eq!(upscale_warning(UpscaleRoute::Enhance, None), None);
    assert_eq!(upscale_warning(UpscaleRoute::Direct, Some("ignored")), None);
}
