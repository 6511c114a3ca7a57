//! Engine behavior on small hand-built catalogs: tone resolution and
//! fallback, variant expansion, search filtering, the recents store,
//! the state-file round trip, and debounced search scheduling.

use windot::catalog::Catalog;
use windot::catalog::EmojiRecord;
use windot::catalog::Group;
use windot::catalog::SkinTone;
use windot::catalog::Variant;
use windot::catalog::group_display_name;
use windot::catalog::list_emojis;
use windot::config::Config;
use windot::config::StateError;
use windot::debounce::Debouncer;
use windot::search::filter;
use windot::search::record_matches;
use windot::session::PickerSession;
use windot::tone::every_emoji_and_variants;
use windot::tone::expand_with_variants;
use windot::tone::resolve;

fn var(tone: Option<SkinTone>, glyph: &str, name: &str) -> Variant {
    Variant { tone, glyph: glyph.to_string(), name: name.to_string() }
}

fn rec(
    glyph: &str,
    name: &str,
    shortcodes: &[&str],
    group: Group,
    version: (u32, u32),
    variants: Vec<Variant>,
) -> EmojiRecord {
    EmojiRecord {
        glyph: glyph.to_string(),
        name: name.to_string(),
        shortcodes: shortcodes.iter().map(|s| s.to_string()).collect(),
        group,
        version_major: version.0,
        version_minor: version.1,
        variants,
    }
}

fn thumbs_up() -> EmojiRecord {
    rec(
        "👍",
        "thumbs up",
        &["+1", "thumbsup"],
        Group::PeopleAndBody,
        (6, 0),
        vec![
            var(Some(SkinTone::Default), "👍", "thumbs up"),
            var(Some(SkinTone::Light), "👍🏻", "thumbs up: light skin tone"),
            var(Some(SkinTone::Medium), "👍🏽", "thumbs up: medium skin tone"),
            var(Some(SkinTone::Dark), "👍🏿", "thumbs up: dark skin tone"),
        ],
    )
}

fn grinning() -> EmojiRecord {
    rec("😀", "grinning face", &["grinning"], Group::SmileysAndEmotion, (6, 1), vec![])
}

fn dog() -> EmojiRecord {
    rec("🐶", "dog face", &["dog"], Group::AnimalsAndNature, (6, 0), vec![])
}

fn waving() -> EmojiRecord {
    rec(
        "👋",
        "waving hand",
        &["wave"],
        Group::SmileysAndEmotion,
        (13, 1),
        vec![
            var(Some(SkinTone::Default), "👋", "waving hand"),
            var(Some(SkinTone::Medium), "👋🏽", "waving hand: medium skin tone"),
        ],
    )
}

fn small_catalog() -> Catalog {
    Catalog::new(vec![grinning(), waving(), thumbs_up(), dog()]).expect("catalog is well formed")
}

#[test]
fn resolve_returns_family_entry() {
    let e = thumbs_up();
    let medium = resolve(&e, SkinTone::Medium);
    assert_eq!(medium.glyph, "👍🏽");
    assert_eq!(medium.name, "thumbs up: medium skin tone");
    assert_eq!(medium.shortcodes, vec!["+1".to_string(), "thumbsup".to_string()]);
}

#[test]
fn resolve_falls_back_to_base_without_entry() {
    let e = thumbs_up();
    let missing = resolve(&e, SkinTone::MediumDark);
    assert_eq!(missing.glyph, "👍");
    let plain = resolve(&grinning(), SkinTone::Medium);
    assert_eq!(plain.glyph, "😀");
    assert_eq!(plain.name, "grinning face");
}

#[test]
fn expand_with_variants_is_family_sized() {
    let e = thumbs_up();
    let all = expand_with_variants(&e);
    assert_eq!(all.len(), 4);
    assert_eq!(all[0].glyph, "👍");
    for later in &all[1..] {
        assert_ne!(later.glyph, "👍");
    }
    let glyphs: Vec<&str> = all.iter().map(|r| r.glyph.as_str()).collect();
    assert_eq!(glyphs, vec!["👍", "👍🏻", "👍🏽", "👍🏿"]);
}

#[test]
fn expand_without_family_is_the_record_alone() {
    let all = expand_with_variants(&grinning());
    assert_eq!(all.len(), 1);
    assert_eq!(all[0].glyph, "😀");
}

#[test]
fn record_pick_deduplicates_and_keeps_first_order() {
    let mut cfg = Config::default();
    cfg.record_pick(&thumbs_up());
    cfg.record_pick(&grinning());
    cfg.record_pick(&thumbs_up());
    let glyphs: Vec<&str> = cfg.recent_emojis.iter().map(|r| r.glyph.as_str()).collect();
    assert_eq!(glyphs, vec!["👍", "😀"]);
}

#[test]
fn clear_recents_empties_only_the_list() {
    let mut cfg = Config::default();
    cfg.set_preferred_tone(SkinTone::Dark);
    cfg.record_pick(&dog());
    cfg.clear_recents();
    assert!(cfg.recent_emojis.is_empty());
    assert_eq!(cfg.preferred_skin_tone, SkinTone::Dark);
}

#[test]
fn filter_with_empty_query_is_identity() {
    let source = vec![grinning(), waving(), thumbs_up(), dog()];
    let kept = filter(&source, "");
    let glyphs: Vec<&str> = kept.iter().map(|r| r.glyph.as_str()).collect();
    assert_eq!(glyphs, vec!["😀", "👋", "👍", "🐶"]);
}

#[test]
fn filter_keeps_only_matches_in_order() {
    let source = vec![grinning(), waving(), thumbs_up(), dog()];
    let kept = filter(&source, "ing");
    let glyphs: Vec<&str> = kept.iter().map(|r| r.glyph.as_str()).collect();
    assert_eq!(glyphs, vec!["😀", "👋"]);
    assert!(filter(&source, "zebra").is_empty());
}

#[test]
fn filter_is_case_insensitive_on_names() {
    let source = vec![dog()];
    assert_eq!(filter(&source, "DOG").len(), 1);
    assert_eq!(filter(&source, "Face").len(), 1);
}

#[test]
fn filter_matches_shortcodes_too() {
    let source = vec![thumbs_up(), dog()];
    let kept = filter(&source, "+1");
    assert_eq!(kept.len(), 1);
    assert_eq!(kept[0].glyph, "👍");
}

#[test]
fn record_matches_checks_name_and_shortcodes() {
    assert!(record_matches(&thumbs_up(), "thumbs"));
    assert!(record_matches(&thumbs_up(), "THUMBSUP"));
    assert!(!record_matches(&thumbs_up(), "dog"));
    assert!(record_matches(&thumbs_up(), ""));
}

#[test]
fn save_writes_the_exact_state_text() {
    let mut cfg = Config::default();
    cfg.set_preferred_tone(SkinTone::Medium);
    cfg.record_pick(&thumbs_up());
    cfg.record_pick(&grinning());
    assert_eq!(
        cfg.save(),
        "{\"preferred_skin_tone\":\"Medium\",\"recent_emojis\":[\"👍\",\"😀\"]}"
    );
}

#[test]
fn save_of_fresh_state_is_the_default_text() {
    let cfg = Config::default();
    assert_eq!(cfg.save(), "{\"preferred_skin_tone\":\"Default\",\"recent_emojis\":[]}");
}

#[test]
fn save_then_load_reproduces_the_state() {
    let catalog = small_catalog();
    let mut cfg = Config::default();
    cfg.set_preferred_tone(SkinTone::MediumLight);
    cfg.record_pick(&thumbs_up());
    cfg.record_pick(&dog());
    let text = cfg.save();
    let back = Config::load(&catalog, &text).expect("saved state loads");
    assert_eq!(back.preferred_skin_tone, SkinTone::MediumLight);
    let glyphs: Vec<&str> = back.recent_emojis.iter().map(|r| r.glyph.as_str()).collect();
    assert_eq!(glyphs, vec!["👍", "🐶"]);
    assert_eq!(back.recent_emojis[0].name, "thumbs up");
}

#[test]
fn load_rejects_garbage_as_corrupt() {
    let catalog = small_catalog();
    for bad in [
        "",
        "not json",
        "{\"preferred_skin_tone\":\"Mauve\",\"recent_emojis\":[]}",
        "{\"preferred_skin_tone\":\"Default\",\"recent_emojis\":[\"👍\"]",
        "{\"preferred_skin_tone\":\"Default\",\"recent_emojis\":[\"👍\",]}",
        "{\"preferred_skin_tone\":\"Default\",\"recent_emojis\":[]}trailing",
    ] {
        assert!(matches!(Config::load(&catalog, bad), Err(StateError::CorruptState)), "input: {bad}");
    }
}

#[test]
fn load_tells_prefixing_tone_tags_apart() {
    let catalog = small_catalog();
    let medium_light = "{\"preferred_skin_tone\":\"MediumLight\",\"recent_emojis\":[]}";
    let cfg = Config::load(&catalog, medium_light).expect("tag parses");
    assert_eq!(cfg.preferred_skin_tone, SkinTone::MediumLight);
    let medium = "{\"preferred_skin_tone\":\"Medium\",\"recent_emojis\":[]}";
    let cfg = Config::load(&catalog, medium).expect("tag parses");
    assert_eq!(cfg.preferred_skin_tone, SkinTone::Medium);
    let medium_dark = "{\"preferred_skin_tone\":\"MediumDark\",\"recent_emojis\":[]}";
    let cfg = Config::load(&catalog, medium_dark).expect("tag parses");
    assert_eq!(cfg.preferred_skin_tone, SkinTone::MediumDark);
}

#[test]
fn load_rejects_an_empty_stored_glyph() {
    let catalog = small_catalog();
    let text = "{\"preferred_skin_tone\":\"Default\",\"recent_emojis\":[\"\"]}";
    assert!(matches!(Config::load(&catalog, text), Err(StateError::CorruptState)));
}

#[test]
fn load_rejects_glyphs_the_catalog_lacks() {
    let catalog = small_catalog();
    let text = "{\"preferred_skin_tone\":\"Default\",\"recent_emojis\":[\"🦖\"]}";
    assert!(matches!(Config::load(&catalog, text), Err(StateError::CorruptState)));
}

#[test]
fn load_resolves_variant_glyphs_to_their_base() {
    let catalog = small_catalog();
    let text = "{\"preferred_skin_tone\":\"Light\",\"recent_emojis\":[\"👍🏽\"]}";
    let cfg = Config::load(&catalog, text).expect("variant glyph resolves");
    assert_eq!(cfg.recent_emojis.len(), 1);
    assert_eq!(cfg.recent_emojis[0].glyph, "👍");
}

#[test]
fn load_or_create_without_a_file_is_the_default_state() {
    let catalog = small_catalog();
    let cfg = Config::load_or_create(&catalog, None).expect("fresh install state");
    assert_eq!(cfg.preferred_skin_tone, SkinTone::Default);
    assert!(cfg.recent_emojis.is_empty());
    assert_eq!(cfg.save(), "{\"preferred_skin_tone\":\"Default\",\"recent_emojis\":[]}");
}

#[test]
fn load_or_create_with_a_file_reads_it() {
    let catalog = small_catalog();
    let text = "{\"preferred_skin_tone\":\"Dark\",\"recent_emojis\":[\"🐶\"]}";
    let cfg = Config::load_or_create(&catalog, Some(text)).expect("stored state loads");
    assert_eq!(cfg.preferred_skin_tone, SkinTone::Dark);
    assert_eq!(cfg.recent_emojis.len(), 1);
    assert_eq!(cfg.recent_emojis[0].glyph, "🐶");
}

#[test]
fn candidates_for_group_show_the_preferred_tone() {
    let catalog = small_catalog();
    let mut cfg = Config::default();
    cfg.set_preferred_tone(SkinTone::Medium);
    let session = PickerSession::new(catalog, cfg);
    let shown = session.candidates_for_group(Group::SmileysAndEmotion);
    let glyphs: Vec<&str> = shown.iter().map(|r| r.glyph.as_str()).collect();
    assert_eq!(glyphs, vec!["😀", "👋🏽"]);
}

#[test]
fn candidates_for_query_search_the_displayed_form() {
    let catalog = small_catalog();
    let mut cfg = Config::default();
    cfg.set_preferred_tone(SkinTone::Medium);
    let session = PickerSession::new(catalog, cfg);
    let shown = session.candidates_for_query("medium skin");
    let glyphs: Vec<&str> = shown.iter().map(|r| r.glyph.as_str()).collect();
    assert_eq!(glyphs, vec!["👋🏽", "👍🏽"]);
}

#[test]
fn variants_for_lists_tone_options_of_the_identity() {
    let catalog = small_catalog();
    let session = PickerSession::new(catalog, Config::default());
    let options = session.variants_for("👍🏿").expect("glyph maps to an identity");
    let glyphs: Vec<&str> = options.iter().map(|r| r.glyph.as_str()).collect();
    assert_eq!(glyphs, vec!["👍", "👍🏻", "👍🏽", "👍🏿"]);
    let none = session.variants_for("😀").expect("base glyph maps to itself");
    assert!(none.is_empty());
}

#[test]
fn variants_for_unknown_glyph_is_unresolved() {
    let catalog = small_catalog();
    let session = PickerSession::new(catalog, Config::default());
    assert!(matches!(session.variants_for("🦖"), Err(StateError::UnresolvedIdentity)));
}

#[test]
fn pick_records_the_canonical_identity() {
    let catalog = small_catalog();
    let mut session = PickerSession::new(catalog, Config::default());
    let picked = session.pick("👍🏽").expect("glyph maps to an identity");
    assert_eq!(picked.glyph, "👍");
    let glyphs: Vec<&str> = session.config.recent_emojis.iter().map(|r| r.glyph.as_str()).collect();
    assert_eq!(glyphs, vec!["👍"]);
    assert!(matches!(session.pick("🦖"), Err(StateError::UnresolvedIdentity)));
}

#[test]
fn debounce_evaluates_only_the_latest_query() {
    let mut deb = Debouncer::new();
    let dog_token = deb.input("dog".to_string());
    let dogs_token = deb.input("dogs".to_string());
    let mut evaluations: Vec<String> = Vec::new();
    if let Some(q) = deb.fire(dog_token) {
        evaluations.push(q);
    }
    if let Some(q) = deb.fire(dogs_token) {
        evaluations.push(q);
    }
    assert_eq!(evaluations, vec!["dogs".to_string()]);
    assert_eq!(deb.fire(dogs_token), None);
}

#[test]
fn list_emojis_keeps_versions_before_thirteen() {
    let catalog = small_catalog();
    let kept = list_emojis(&catalog);
    let glyphs: Vec<&str> = kept.iter().map(|r| r.glyph.as_str()).collect();
    assert_eq!(glyphs, vec!["😀", "👍", "🐶"]);
}

#[test]
fn group_display_name_labels_each_group() {
    assert_eq!(group_display_name(Group::SmileysAndEmotion), "😄 Smileys & Emotion");
    assert_eq!(group_display_name(Group::Flags), "🏳️‍⚧️ Flags");
}

#[test]
fn every_emoji_and_variants_spans_all_families() {
    let catalog = small_catalog();
    let space = every_emoji_and_variants(&catalog);
    assert_eq!(space.len(), 1 + 2 + 4 + 1);
    let glyphs: Vec<&str> = space.iter().map(|r| r.glyph.as_str()).collect();
    assert_eq!(glyphs, vec!["😀", "👋", "👋🏽", "👍", "👍🏻", "👍🏽", "👍🏿", "🐶"]);
}

#[test]
fn distinct_identities_detects_shared_glyphs() {
    let catalog = small_catalog();
    assert!(catalog.has_distinct_identities());
    let twin_a = rec("🌀", "cyclone", &[], Group::Symbols, (6, 0), vec![]);
    let twin_b = rec("🌀", "spiral", &[], Group::Symbols, (6, 0), vec![]);
    let doubled = Catalog::new(vec![twin_a, twin_b]).expect("each record alone is well formed");
    assert!(!doubled.has_distinct_identities());
}

#[test]
fn catalog_rejects_malformed_records() {
    let headless = rec(
        "🙂",
        "slightly smiling face",
        &[],
        Group::SmileysAndEmotion,
        (7, 0),
        vec![var(Some(SkinTone::Light), "🙂🏻", "nonsense")],
    );
    assert!(Catalog::new(vec![headless]).is_none());
    let doubled = rec(
        "✌",
        "victory hand",
        &[],
        Group::PeopleAndBody,
        (6, 0),
        vec![
            var(Some(SkinTone::Default), "✌", "victory hand"),
            var(Some(SkinTone::Light), "✌🏻", "victory hand: light skin tone"),
            var(Some(SkinTone::Light), "✌🏼", "victory hand: light again"),
        ],
    );
    assert!(Catalog::new(vec![doubled]).is_none());
}
