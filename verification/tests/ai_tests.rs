use banshee::ai::{
    estimate_cost_units, find_ranking, first_output_text, image_data_url, model_options,
    price_for, ranking_instruction, recommended_models, transcript_message,
};

fn dollars(units: u128) -> f64 {
    units as f64 / 100_000_000.0
}

#[test]
fn calculates_known_model_cost() {
    let cost = dollars(estimate_cost_units("gpt-5.6-terra", 1_000_000, 0, 1_000_000));
    assert!((cost - 14.0).abs() < 0.0001);
}

#[test]
fn cached_tokens_get_cached_rate() {
    let cost = dollars(estimate_cost_units("gpt-5.6-luna", 1_000_000, 1_000_000, 0));
    assert!((cost - 0.02).abs() < 0.0001);
}

#[test]
fn unknown_models_cost_nothing_and_aliases_match() {
    assert_eq!(estimate_cost_units("other", 5, 0, 5), 0);
    assert_eq!(price_for("gpt-5.6"), price_for("gpt-5.6-sol"));
    assert_eq!(price_for("gpt-6-astra").unwrap().output_cents_per_million, 5000);
    assert!(price_for("GPT-5.6").is_none());
    assert_eq!(estimate_cost_units("gpt-6-astra", 10, 20, 0), 20 * 100);
    assert_eq!(estimate_cost_units("gpt-6-astra", u64::MAX, 0, u64::MAX), u64::MAX as u128 * 6000);
}

#[test]
fn models_without_a_key_are_the_recommended_ones() {
    let options = model_options(&vec![]);
    let ids: Vec<&str> = options.iter().map(|o| o.id.as_str()).collect();
    assert_eq!(ids, vec!["gpt-6-astra", "gpt-5.6-sol", "gpt-5.6-terra", "gpt-5.6-luna"]);
    assert!(options.iter().all(|o| !o.available && !o.experimental));
    assert_eq!(options.iter().filter(|o| o.recommended).count(), 1);
    assert!(options[2].recommended);
    assert_eq!(recommended_models().len(), 4);
}

#[test]
fn experimental_models_are_sorted_and_unique() {
    let available: Vec<String> = ["gpt-z", "whisper-1", "gpt-5.6-luna", "gpt-a", "gpt-z", "gpt-", "gp"]
        .iter()
        .map(|s| s.to_string())
        .collect();
    let options = model_options(&available);
    let ids: Vec<&str> = options.iter().map(|o| o.id.as_str()).collect();
    assert_eq!(
        ids,
        vec!["gpt-6-astra", "gpt-5.6-sol", "gpt-5.6-terra", "gpt-5.6-luna", "gpt-", "gpt-a", "gpt-z"]
    );
    assert!(options[3].available && !options[0].available);
    assert!(options[4..].iter().all(|o| o.available && o.experimental && !o.recommended));
}

#[test]
fn ranking_request_texts() {
    assert_eq!(
        ranking_instruction("P", 3),
        "P\nОціни 3 кандидатів. Збережи їхні id та не змінюй таймкоди."
    );
    assert_eq!(transcript_message(None), None);
    assert_eq!(transcript_message(Some(" \n\t")), None);
    assert_eq!(transcript_message(Some("привіт")).as_deref(), Some("Транскрипція джерела:\nпривіт"));
    let long: String = std::iter::repeat('ж').take(20_005).collect();
    let message = transcript_message(Some(&long)).unwrap();
    assert_eq!(message.chars().count(), "Транскрипція джерела:\n".chars().count() + 20_000);
}

#[test]
fn thumbnails_become_data_urls() {
    assert_eq!(image_data_url(b"Man"), "data:image/jpeg;base64,TWFu");
    assert_eq!(image_data_url(b"Ma"), "data:image/jpeg;base64,TWE=");
    assert_eq!(image_data_url(b"M"), "data:image/jpeg;base64,TQ==");
    assert_eq!(image_data_url(&[0xfb, 0xff]), "data:image/jpeg;base64,+/8=");
    assert_eq!(image_data_url(&[]), "data:image/jpeg;base64,");
}

#[test]
fn response_text_and_rankings() {
    let items = vec![vec![None], vec![None, Some("{\"rankings\":[]}".to_string()), Some("later".to_string())]];
    assert_eq!(first_output_text(&items).as_deref(), Some("{\"rankings\":[]}"));
    assert_eq!(first_output_text(&vec![vec![None]]), None);
    let ids = vec!["a".to_string(), "b".to_string(), "b".to_string()];
    assert_eq!(find_ranking(&ids, "b"), Some(1));
    assert_eq!(find_ranking(&ids, "c"), None);
}
