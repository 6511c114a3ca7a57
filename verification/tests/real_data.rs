//! Engine behavior on the real emoji tables: the catalog loads and is
//! accepted by its well-formedness check, tone resolution and identity
//! recovery work on real glyphs, and a pick of a toned glyph records
//! the base emoji.

use windot::catalog::Group;
use windot::catalog::SkinTone;
use windot::catalog::list_emojis;
use windot::config::Config;
use windot::session::PickerSession;
use windot::source::load_catalog;
use windot::tone::resolve;

#[test]
fn real_catalog_loads_and_is_well_formed() {
    let catalog = load_catalog().expect("the emoji tables form a well-formed catalog");
    assert!(catalog.len() > 1000);
    let grin = catalog.canonical_identity("😀").expect("grinning face is in the catalog");
    assert_eq!(grin.name, "grinning face");
    assert_eq!(grin.group, Group::SmileysAndEmotion);
    assert!(grin.variants.is_empty());
}

#[test]
fn real_variant_glyph_resolves_to_its_base() {
    let catalog = load_catalog().expect("catalog loads");
    let base = catalog.canonical_identity("🙌🏾").expect("toned glyph maps back");
    assert_eq!(base.glyph, "🙌");
    assert_eq!(base.name, "raising hands");
    assert_eq!(base.variants.len(), 6);
    assert_eq!(base.variants[0].glyph, "🙌");
}

#[test]
fn real_resolve_picks_the_requested_tone() {
    let catalog = load_catalog().expect("catalog loads");
    let hands = catalog.canonical_identity("🙌").expect("raising hands is in the catalog");
    let medium_dark = resolve(&hands, SkinTone::MediumDark);
    assert_eq!(medium_dark.glyph, "🙌🏾");
    let cool = catalog.canonical_identity("😎").expect("sunglasses face is in the catalog");
    let unchanged = resolve(&cool, SkinTone::MediumDark);
    assert_eq!(unchanged.glyph, "😎");
}

#[test]
fn real_pick_of_a_toned_thumbs_up_records_the_base() {
    let catalog = load_catalog().expect("catalog loads");
    let mut session = PickerSession::new(catalog, Config::default());
    let picked = session.pick("👍🏽").expect("medium thumbs up maps to an identity");
    assert_eq!(picked.glyph, "👍");
    let glyphs: Vec<&str> = session.config.recent_emojis.iter().map(|r| r.glyph.as_str()).collect();
    assert_eq!(glyphs, vec!["👍"]);
}

#[test]
fn real_state_round_trip_through_the_catalog() {
    let catalog = load_catalog().expect("catalog loads");
    let mut cfg = Config::default();
    cfg.set_preferred_tone(SkinTone::Medium);
    let rocket = catalog.canonical_identity("🚀").expect("rocket is in the catalog");
    let thumbs = catalog.canonical_identity("👍").expect("thumbs up is in the catalog");
    cfg.record_pick(&rocket);
    cfg.record_pick(&thumbs);
    let text = cfg.save();
    assert_eq!(text, "{\"preferred_skin_tone\":\"Medium\",\"recent_emojis\":[\"🚀\",\"👍\"]}");
    let back = Config::load(&catalog, &text).expect("saved state loads");
    assert_eq!(back.preferred_skin_tone, SkinTone::Medium);
    let glyphs: Vec<&str> = back.recent_emojis.iter().map(|r| r.glyph.as_str()).collect();
    assert_eq!(glyphs, vec!["🚀", "👍"]);
}

#[test]
fn real_search_finds_the_rocket() {
    let catalog = load_catalog().expect("catalog loads");
    let session = PickerSession::new(catalog, Config::default());
    let hits = session.candidates_for_query("rocket");
    assert!(hits.iter().any(|r| r.glyph == "🚀"));
}

#[test]
fn real_group_listing_keeps_catalog_order() {
    let catalog = load_catalog().expect("catalog loads");
    let session = PickerSession::new(catalog, Config::default());
    let flags = session.candidates_for_group(Group::Flags);
    assert!(!flags.is_empty());
    assert!(flags.iter().all(|r| r.group == Group::Flags));
}

#[test]
fn real_version_filter_drops_newer_emojis() {
    let catalog = load_catalog().expect("catalog loads");
    let older = list_emojis(&catalog);
    assert!(!older.is_empty());
    assert!(older.len() < catalog.len());
    assert!(older.iter().all(|r| r.version_major < 13));
}

#[test]
fn real_catalog_front_has_distinct_identities() {
    let catalog = load_catalog().expect("catalog loads");
    let mut front = Vec::new();
    for rec in catalog.all().iter().take(120) {
        front.push(rec.clone());
    }
    let small = windot::catalog::Catalog::new(front).expect("records stay well formed");
    assert!(small.has_distinct_identities());
}

#[test]
fn path_joins_are_fixed_given_a_base() {
    assert_eq!(windot::app_data_dir_of("BASE".to_string()), "BASE/org.sparklet.windot");
    assert_eq!(
        windot::state_file_of("BASE/org.sparklet.windot".to_string()),
        "BASE/org.sparklet.windot/state.json"
    );
    assert_eq!(
        windot::state_file_of(windot::app_data_dir_of("BASE".to_string())),
        "BASE/org.sparklet.windot/state.json"
    );
}

#[test]
fn data_dir_paths_carry_the_application_id() {
    if let Some(dir) = windot::user_data_dir() {
        assert!(dir.ends_with("/org.sparklet.windot"));
        assert_eq!(windot::state_file_of(dir.clone()), format!("{dir}/state.json"));
    }
    if let Some(path) = windot::config_file_path() {
        assert!(path.ends_with("/org.sparklet.windot/state.json"));
    }
}
