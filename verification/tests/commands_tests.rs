use banshee::commands::{
    api_key_action, asset_kind_for_extension, export_file_name, retry_minutes,
    valid_folder_name, valid_name, validate_settings, KeyAction,
};
use banshee::domain::AssetKind;
use banshee::storage::AppSettings;

#[test]
fn names_are_trimmed_and_bounded() {
    assert_eq!(valid_name("  Мій проєкт \n", "проєкту"), Ok("Мій проєкт".to_string()));
    assert_eq!(valid_name("   ", "проєкту"), Err("Назва проєкту має містити 1–80 символів".to_string()));
    let eighty: String = std::iter::repeat('я').take(80).collect();
    assert_eq!(valid_name(&eighty, "x"), Ok(eighty.clone()));
    let long = format!("{eighty}я");
    assert!(valid_name(&long, "x").is_err());
    let once = valid_name(" a ", "x").unwrap();
    assert_eq!(valid_name(&once, "x"), Ok(once.clone()));
}

#[test]
fn folder_names_count_bytes() {
    assert_eq!(valid_folder_name(" Музика "), Ok("Музика".to_string()));
    let forty: String = std::iter::repeat('я').take(40).collect();
    assert!(valid_folder_name(&forty).is_ok());
    let forty_one = format!("{forty}я");
    assert_eq!(
        valid_folder_name(&forty_one),
        Err("Назва директорії має містити 1–80 символів".to_string())
    );
    assert!(valid_folder_name("").is_err());
}

#[test]
fn autosave_interval_bounds() {
    let mut settings = AppSettings::default();
    assert!(validate_settings(&settings).is_ok());
    settings.autosave_seconds = 4;
    assert_eq!(validate_settings(&settings), Err("Інтервал autosave має бути 5–300 секунд".to_string()));
    settings.autosave_seconds = 300;
    assert!(validate_settings(&settings).is_ok());
    settings.autosave_seconds = 301;
    assert!(validate_settings(&settings).is_err());
}

#[test]
fn api_keys_are_routed() {
    match api_key_action("openai", "  sk-abc ").unwrap() {
        KeyAction::Store { account, secret } => {
            assert_eq!(account, "openai-api-key");
            assert_eq!(secret, "sk-abc");
        }
        other => panic!("unexpected {other:?}"),
    }
    match api_key_action("admin", " ").unwrap() {
        KeyAction::Delete { account } => assert_eq!(account, "openai-admin-key"),
        other => panic!("unexpected {other:?}"),
    }
    assert_eq!(api_key_action("other", "x").unwrap_err(), "Невідомий тип ключа");
}

#[test]
fn resource_kinds_by_extension() {
    assert_eq!(asset_kind_for_extension("MP4"), Some(AssetKind::Video));
    assert_eq!(asset_kind_for_extension("Flac"), Some(AssetKind::Audio));
    assert_eq!(asset_kind_for_extension("jpeg"), Some(AssetKind::Image));
    assert_eq!(asset_kind_for_extension("exe"), None);
    assert_eq!(asset_kind_for_extension(""), None);
}

#[test]
fn retry_and_export_names() {
    assert_eq!(retry_minutes(0), 0);
    assert_eq!(retry_minutes(1), 1);
    assert_eq!(retry_minutes(60), 1);
    assert_eq!(retry_minutes(61), 2);
    assert_eq!(export_file_name("0123456789abcdef"), "banshee-01234567.mp4");
}
