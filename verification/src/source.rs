//! The bridge to the compiled-in emoji data tables. Each function
//! here hands one piece of the emojis crate's data over as plain
//! values; [`load_catalog`] assembles and checks the verified catalog
//! from them. What the tables hold is only known at run time, so the
//! builder validates every record before the catalog is formed.

use vstd::prelude::*;

use crate::catalog::Catalog;
use crate::catalog::EmojiRecord;
use crate::catalog::Group;
use crate::catalog::SkinTone;
use crate::catalog::Variant;

verus! {

#[verifier::external_type_specification]
#[verifier::external_body]
pub struct ExEmoji(emojis::Emoji);

/// Relies on emojis::iter: every base emoji of the data table, in
/// Unicode CLDR order, non-default skin tones excluded.
#[verifier::external_body]
fn fetch_base_emojis() -> (r: Vec<&'static emojis::Emoji>) {
    emojis::iter().collect()
}

/// Relies on emojis::Emoji::as_str: the emoji's glyph string.
#[verifier::external_body]
fn glyph_of(e: &'static emojis::Emoji) -> (r: String) {
    e.as_str().to_string()
}

/// Relies on emojis::Emoji::name: the emoji's CLDR name.
#[verifier::external_body]
fn name_of(e: &'static emojis::Emoji) -> (r: String) {
    e.name().to_string()
}

/// Relies on emojis::Emoji::shortcodes: the emoji's gemoji
/// shortcodes, possibly none.
#[verifier::external_body]
fn shortcodes_of(e: &'static emojis::Emoji) -> (r: Vec<String>) {
    e.shortcodes().map(str::to_string).collect()
}

/// Relies on emojis::Emoji::group: the emoji's category, one arm per
/// variant of the crate's group enumeration.
#[verifier::external_body]
fn group_of(e: &'static emojis::Emoji) -> (r: Group) {
    match e.group() {
        emojis::Group::SmileysAndEmotion => Group::SmileysAndEmotion,
        emojis::Group::PeopleAndBody => Group::PeopleAndBody,
        emojis::Group::AnimalsAndNature => Group::AnimalsAndNature,
        emojis::Group::FoodAndDrink => Group::FoodAndDrink,
        emojis::Group::TravelAndPlaces => Group::TravelAndPlaces,
        emojis::Group::Activities => Group::Activities,
        emojis::Group::Objects => Group::Objects,
        emojis::Group::Symbols => Group::Symbols,
        emojis::Group::Flags => Group::Flags,
    }
}

/// Relies on emojis::Emoji::skin_tone: the emoji's own tone, with the
/// six single-person tones kept and the multi-person combinations,
/// which the single-tone picker cannot request, folded to `None`.
#[verifier::external_body]
fn tone_of(e: &'static emojis::Emoji) -> (r: Option<SkinTone>) {
    match e.skin_tone() {
        Some(emojis::SkinTone::Default) => Some(SkinTone::Default),
        Some(emojis::SkinTone::Light) => Some(SkinTone::Light),
        Some(emojis::SkinTone::MediumLight) => Some(SkinTone::MediumLight),
        Some(emojis::SkinTone::Medium) => Some(SkinTone::Medium),
        Some(emojis::SkinTone::MediumDark) => Some(SkinTone::MediumDark),
        Some(emojis::SkinTone::Dark) => Some(SkinTone::Dark),
        _ => None,
    }
}

/// Relies on emojis::Emoji::skin_tones: the emoji's whole variant
/// family, default tone first, or nothing when tones do not apply.
#[verifier::external_body]
fn family_of(e: &'static emojis::Emoji) -> (r: Option<Vec<&'static emojis::Emoji>>) {
    e.skin_tones().map(|tones| tones.collect())
}

/// Relies on emojis::Emoji::unicode_version: the major and minor
/// Unicode version that first encoded the emoji.
#[verifier::external_body]
fn version_of(e: &'static emojis::Emoji) -> (r: (u32, u32)) {
    let v = e.unicode_version();
    (v.major(), v.minor())
}

/// Reads one emoji and its variant family into a record of plain
/// values.
fn build_record(e: &'static emojis::Emoji) -> (r: EmojiRecord) {
    let (version_major, version_minor) = version_of(e);
    let mut variants: Vec<Variant> = Vec::new();
    match family_of(e) {
        None => {},
        Some(family) => {
            let n = family.len();
            let mut i: usize = 0;
            while i < n
                invariant
                    n == family@.len(),
                    0 <= i <= n,
                decreases n - i,
            {
                let v = family[i];
                variants.push(Variant { tone: tone_of(v), glyph: glyph_of(v), name: name_of(v) });
                i = i + 1;
            }
        },
    }
    EmojiRecord {
        glyph: glyph_of(e),
        name: name_of(e),
        shortcodes: shortcodes_of(e),
        group: group_of(e),
        version_major,
        version_minor,
        variants,
    }
}

/// Reads the whole emoji table into a catalog, checking every record;
/// `None` if the table held a record the catalog's well-formedness
/// refuses.
pub fn load_catalog() -> (r: Option<Catalog>)
    ensures
        r matches Some(c) ==> c.wf(),
{
    let base = fetch_base_emojis();
    let n = base.len();
    let mut records: Vec<EmojiRecord> = Vec::new();
    let mut i: usize = 0;
    while i < n
        invariant
            n == base@.len(),
            0 <= i <= n,
        decreases n - i,
    {
        records.push(build_record(base[i]));
        i = i + 1;
    }
    Catalog::new(records)
}

} // verus!
