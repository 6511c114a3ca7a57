//! The emoji catalog: records, groups, skin tones and variant families.
//!
//! A catalog is an ordered, immutable list of emoji records. Each record
//! may carry a variant family: the skin-tone renderings of the same
//! logical emoji, whose first entry is always the default tone and shows
//! the record's own glyph.

use vstd::prelude::*;

verus! {

/// A skin tone that the picker can select. Multi-person tone
/// combinations are not selectable one tone at a time; a variant that
/// carries one is recorded with no selectable tone.
#[derive(Clone, Copy, Debug, PartialEq, Eq, Structural)]
pub enum SkinTone {
    Default,
    Light,
    MediumLight,
    Medium,
    MediumDark,
    Dark,
}

/// The semantic category an emoji record belongs to.
#[derive(Clone, Copy, Debug, PartialEq, Eq, Structural)]
pub enum Group {
    SmileysAndEmotion,
    PeopleAndBody,
    AnimalsAndNature,
    FoodAndDrink,
    TravelAndPlaces,
    Activities,
    Objects,
    Symbols,
    Flags,
}

/// One member of a variant family: a concrete rendering of a record.
/// `tone` is `None` when the rendering is a multi-person tone
/// combination, which the single-tone picker cannot request.
#[derive(Debug)]
pub struct Variant {
    pub tone: Option<SkinTone>,
    pub glyph: String,
    pub name: String,
}

/// Mathematical model of a [`Variant`].
#[verifier::ext_equal]
pub struct VariantModel {
    pub tone: Option<SkinTone>,
    pub glyph: Seq<char>,
    pub name: Seq<char>,
}

impl View for Variant {
    type V = VariantModel;

    open spec fn view(&self) -> VariantModel {
        VariantModel { tone: self.tone, glyph: self.glyph@, name: self.name@ }
    }
}

impl DeepView for Variant {
    type V = VariantModel;

    open spec fn deep_view(&self) -> VariantModel {
        self.view()
    }
}

/// One emoji of the catalog: a stable glyph, a display name, search
/// shortcodes, a category, the Unicode version that introduced it, and
/// an optional variant family (empty when the emoji has no skin tones).
#[derive(Debug)]
pub struct EmojiRecord {
    pub glyph: String,
    pub name: String,
    pub shortcodes: Vec<String>,
    pub group: Group,
    pub version_major: u32,
    pub version_minor: u32,
    pub variants: Vec<Variant>,
}

/// Mathematical model of an [`EmojiRecord`].
#[verifier::ext_equal]
pub struct EmojiModel {
    pub glyph: Seq<char>,
    pub name: Seq<char>,
    pub shortcodes: Seq<Seq<char>>,
    pub group: Group,
    pub version_major: u32,
    pub version_minor: u32,
    pub variants: Seq<VariantModel>,
}

impl View for EmojiRecord {
    type V = EmojiModel;

    open spec fn view(&self) -> EmojiModel {
        EmojiModel {
            glyph: self.glyph@,
            name: self.name@,
            shortcodes: self.shortcodes.deep_view(),
            group: self.group,
            version_major: self.version_major,
            version_minor: self.version_minor,
            variants: self.variants.deep_view(),
        }
    }
}

impl DeepView for EmojiRecord {
    type V = EmojiModel;

    open spec fn deep_view(&self) -> EmojiModel {
        self.view()
    }
}

/// A glyph is storable when it is non-empty and none of its characters
/// needs an escape in the persisted state file: no quote, no backslash,
/// no control character.
pub open spec fn storable_char(c: char) -> bool {
    c != '"' && c != '\\' && c as u32 >= 32
}

/// All characters of `s` are storable.
pub open spec fn storable_text(s: Seq<char>) -> bool {
    forall|i: int| 0 <= i < s.len() ==> storable_char(#[trigger] s[i])
}

/// Well-formedness of a single record:
/// - the glyph is non-empty and storable;
/// - if the record has a variant family, its first entry is the default
///   tone and shows the record's own glyph;
/// - no selectable tone and no glyph appears twice in the family;
/// - every variant glyph is non-empty and storable.
pub open spec fn record_wf(r: EmojiModel) -> bool {
    &&& r.glyph.len() > 0
    &&& storable_text(r.glyph)
    &&& r.variants.len() > 0 ==> {
        &&& r.variants[0].tone == Some(SkinTone::Default)
        &&& r.variants[0].glyph == r.glyph
    }
    &&& forall|i: int, j: int|
        0 <= i < j < r.variants.len() && (#[trigger] r.variants[i]).tone is Some
            ==> r.variants[i].tone != (#[trigger] r.variants[j]).tone
    &&& forall|i: int, j: int|
        0 <= i < j < r.variants.len()
            ==> (#[trigger] r.variants[i]).glyph != (#[trigger] r.variants[j]).glyph
    &&& forall|i: int|
        0 <= i < r.variants.len() ==> {
            &&& (#[trigger] r.variants[i]).glyph.len() > 0
            &&& storable_text(r.variants[i].glyph)
        }
}

impl Clone for Variant {
    fn clone(&self) -> (r: Self)
        ensures
            r == *self,
    {
        Variant { tone: self.tone, glyph: self.glyph.clone(), name: self.name.clone() }
    }
}

impl Clone for EmojiRecord {
    fn clone(&self) -> (r: Self)
        ensures
            r@ == self@,
    {
        let shortcodes = self.shortcodes.clone();
        let variants = self.variants.clone();
        proof {
            assert(shortcodes.deep_view() =~= self.shortcodes.deep_view());
            assert(variants.deep_view() =~= self.variants.deep_view());
        }
        let r = EmojiRecord {
            glyph: self.glyph.clone(),
            name: self.name.clone(),
            shortcodes,
            group: self.group,
            version_major: self.version_major,
            version_minor: self.version_minor,
            variants,
        };
        proof {
            assert(r@ =~= self@);
        }
        r
    }
}

/// Checks that every character of `s` is storable.
pub fn is_storable_text(s: &str) -> (r: bool)
    ensures
        r == storable_text(s@),
{
    let len = s.unicode_len();
    let mut i: usize = 0;
    while i < len
        invariant
            len == s@.len(),
            0 <= i <= len,
            forall|k: int| 0 <= k < i ==> storable_char(#[trigger] s@[k]),
        decreases len - i,
    {
        let c = s.get_char(i);
        if c == '"' || c == '\\' || (c as u32) < 32 {
            return false;
        }
        i = i + 1;
    }
    true
}

/// The sidebar label of a group.
pub open spec fn group_label(g: Group) -> Seq<char> {
    match g {
        Group::SmileysAndEmotion => "😄 Smileys & Emotion"@,
        Group::PeopleAndBody => "🧑 People & Body"@,
        Group::AnimalsAndNature => "🐷 Animals & Nature"@,
        Group::Activities => "⚽ Activities"@,
        Group::FoodAndDrink => "🍕 Food & Drink"@,
        Group::Objects => "🧦 Objects"@,
        Group::TravelAndPlaces => "✈️ Travel & Places"@,
        Group::Symbols => "☢️ Symbols"@,
        Group::Flags => "🏳️‍⚧️ Flags"@,
    }
}

/// The label shown for a group, with a sample emoji in front.
pub fn group_display_name(group: Group) -> (r: &'static str)
    ensures
        r@ == group_label(group),
{
    match group {
        Group::SmileysAndEmotion => "😄 Smileys & Emotion",
        Group::PeopleAndBody => "🧑 People & Body",
        Group::AnimalsAndNature => "🐷 Animals & Nature",
        Group::Activities => "⚽ Activities",
        Group::FoodAndDrink => "🍕 Food & Drink",
        Group::Objects => "🧦 Objects",
        Group::TravelAndPlaces => "✈️ Travel & Places",
        Group::Symbols => "☢️ Symbols",
        Group::Flags => "🏳️‍⚧️ Flags",
    }
}

/// Checks whether two optional tones are the same.
fn same_tone(a: Option<SkinTone>, b: Option<SkinTone>) -> (r: bool)
    ensures
        r == (a == b),
{
    match (a, b) {
        (None, None) => true,
        (Some(x), Some(y)) => x == y,
        _ => false,
    }
}

/// Checks [`record_wf`] on one record.
pub fn record_is_wf(r: &EmojiRecord) -> (b: bool)
    ensures
        b == record_wf(r@),
{
    if r.glyph.as_str().unicode_len() == 0 || !is_storable_text(r.glyph.as_str()) {
        return false;
    }
    if r.variants.len() > 0 {
        let first = &r.variants[0];
        if !same_tone(first.tone, Some(SkinTone::Default)) {
            return false;
        }
        if !(first.glyph == r.glyph) {
            return false;
        }
    }
    let n = r.variants.len();
    let mut i: usize = 0;
    while i < n
        invariant
            n == r.variants@.len(),
            0 <= i <= n,
            forall|p: int, q: int|
                0 <= p < q < n && p < i && (#[trigger] r@.variants[p]).tone is Some
                    ==> r@.variants[p].tone != (#[trigger] r@.variants[q]).tone,
            forall|p: int, q: int|
                0 <= p < q < n && p < i ==> (#[trigger] r@.variants[p]).glyph
                    != (#[trigger] r@.variants[q]).glyph,
            forall|p: int|
                0 <= p < i ==> (#[trigger] r@.variants[p]).glyph.len() > 0 && storable_text(
                    r@.variants[p].glyph,
                ),
        decreases n - i,
    {
        let v = &r.variants[i];
        if v.glyph.as_str().unicode_len() == 0 || !is_storable_text(v.glyph.as_str()) {
            return false;
        }
        let mut j: usize = i + 1;
        while j < n
            invariant
                n == r.variants@.len(),
                0 <= i < j <= n,
                forall|q: int|
                    i < q < j && r@.variants[i as int].tone is Some ==> r@.variants[i as int].tone
                        != (#[trigger] r@.variants[q]).tone,
                forall|q: int|
                    i < q < j ==> r@.variants[i as int].glyph != (#[trigger] r@.variants[q]).glyph,
            decreases n - j,
        {
            if r.variants[i].tone.is_some() && same_tone(r.variants[i].tone, r.variants[j].tone) {
                proof {
                    assert(r@.variants[i as int].tone == (#[trigger] r@.variants[j as int]).tone);
                    assert(!record_wf(r@));
                }
                return false;
            }
            if r.variants[i].glyph == r.variants[j].glyph {
                proof {
                    assert(r@.variants[i as int].glyph == (#[trigger] r@.variants[j as int]).glyph);
                    assert(!record_wf(r@));
                }
                return false;
            }
            proof {
                assert(r@.variants[i as int].glyph != (#[trigger] r@.variants[j as int]).glyph);
                assert(r@.variants[i as int].tone is Some ==> r@.variants[i as int].tone
                    != (#[trigger] r@.variants[j as int]).tone);
            }
            j = j + 1;
        }
        i = i + 1;
    }
    true
}

/// Filtering the first `i + 1` elements of `s` extends filtering the
/// first `i` by the element `s[i]` exactly when the predicate holds of
/// it.
pub proof fn lemma_take_filter_step<A>(s: Seq<A>, pred: spec_fn(A) -> bool, i: int)
    requires
        0 <= i < s.len(),
    ensures
        s.take(i + 1).filter(pred) == if pred(s[i]) {
            s.take(i).filter(pred).push(s[i])
        } else {
            s.take(i).filter(pred)
        },
{
    broadcast use vstd::prelude::Seq::lemma_filter_push;

    assert(s.take(i + 1) =~= s.take(i).push(s[i]));
    assert(s.take(i).push(s[i]).filter(pred) == if pred(s[i]) {
        s.take(i).filter(pred).push(s[i])
    } else {
        s.take(i).filter(pred)
    });
}

/// Every record that the group filter keeps is a well-formed record
/// of that group.
pub proof fn lemma_in_group_wf(cat: Seq<EmojiModel>, g: Group, i: int)
    requires
        catalog_wf(cat),
        0 <= i < in_group(cat, g).len(),
    ensures
        record_wf(in_group(cat, g)[i]),
        in_group(cat, g)[i].group == g,
{
    broadcast use vstd::seq_lib::group_filter_ensures;

    let pred = |r: EmojiModel| r.group == g;
    let f = cat.filter(pred);
    assert(pred(f[i]));
    assert(f.contains(f[i]));
    cat.lemma_filter_contains_rev(pred, f[i]);
    let k = choose|k: int| 0 <= k < cat.len() && cat[k] == f[i];
    assert(record_wf(cat[k]));
}

/// The ordered, immutable universe of emoji records.
pub struct Catalog {
    pub records: Vec<EmojiRecord>,
}

/// Every record of the sequence is well formed.
pub open spec fn catalog_wf(s: Seq<EmojiModel>) -> bool {
    forall|i: int| 0 <= i < s.len() ==> record_wf(#[trigger] s[i])
}

impl View for Catalog {
    type V = Seq<EmojiModel>;

    open spec fn view(&self) -> Seq<EmojiModel> {
        self.records.deep_view()
    }
}

/// The records of `s` that belong to group `g`, in order.
pub open spec fn in_group(s: Seq<EmojiModel>, g: Group) -> Seq<EmojiModel> {
    s.filter(|r: EmojiModel| r.group == g)
}

/// The records of `s` first encoded in a Unicode version before
/// `major.minor`, in order.
pub open spec fn released_before(s: Seq<EmojiModel>, major: u32, minor: u32) -> Seq<EmojiModel> {
    s.filter(
        |r: EmojiModel|
            r.version_major < major || (r.version_major == major && r.version_minor < minor),
    )
}

impl Catalog {
    /// Well-formedness: every record is well formed.
    pub open spec fn wf(&self) -> bool {
        catalog_wf(self@)
    }

    /// Builds a catalog after checking every record; rejects a record
    /// list with a malformed record.
    pub fn new(records: Vec<EmojiRecord>) -> (r: Option<Catalog>)
        ensures
            r matches Some(c) ==> c@ == records.deep_view() && c.wf(),
            r is Some <==> catalog_wf(records.deep_view()),
    {
        let n = records.len();
        let mut i: usize = 0;
        while i < n
            invariant
                n == records@.len(),
                0 <= i <= n,
                forall|k: int| 0 <= k < i ==> record_wf(#[trigger] records.deep_view()[k]),
            decreases n - i,
        {
            if !record_is_wf(&records[i]) {
                proof {
                    assert(!record_wf(#[trigger] records.deep_view()[i as int]));
                }
                return None;
            }
            proof {
                assert(record_wf(#[trigger] records.deep_view()[i as int]));
            }
            i = i + 1;
        }
        Some(Catalog { records })
    }

    /// The number of records.
    pub fn len(&self) -> (n: usize)
        ensures
            n == self@.len(),
    {
        self.records.len()
    }

    /// All records, in catalog order.
    pub fn all(&self) -> (r: &Vec<EmojiRecord>)
        ensures
            r.deep_view() == self@,
    {
        &self.records
    }

    /// The records of group `g`, in catalog order.
    pub fn by_group(&self, g: Group) -> (r: Vec<EmojiRecord>)
        ensures
            r.deep_view() == in_group(self@, g),
    {
        let gpred = Ghost(|m: EmojiModel| m.group == g);
        let n = self.records.len();
        let mut out: Vec<EmojiRecord> = Vec::new();
        let mut i: usize = 0;
        proof {
            assert(self@.take(0) =~= Seq::<EmojiModel>::empty());
            assert(out.deep_view() =~= self@.take(0).filter(gpred@));
        }
        while i < n
            invariant
                n == self.records@.len(),
                0 <= i <= n,
                gpred@ == (|m: EmojiModel| m.group == g),
                out.deep_view() == self@.take(i as int).filter(gpred@),
        decreases n - i,
        {
            proof {
                lemma_take_filter_step(self@, gpred@, i as int);
            }
            let rec = &self.records[i];
            if rec.group == g {
                out.push(rec.clone());
                proof {
                    assert(out.deep_view() =~= self@.take(i + 1).filter(gpred@));
                }
            }
            i = i + 1;
        }
        proof {
            assert(self@.take(n as int) =~= self@);
        }
        out
    }
}

/// The catalog's records first encoded in a Unicode version before
/// 13.0, in catalog order.
pub fn list_emojis(catalog: &Catalog) -> (r: Vec<EmojiRecord>)
    ensures
        r.deep_view() == released_before(catalog@, 13, 0),
{
    let vpred = Ghost(
        |m: EmojiModel|
            m.version_major < 13u32 || (m.version_major == 13u32 && m.version_minor < 0u32),
    );
    let n = catalog.records.len();
    let mut out: Vec<EmojiRecord> = Vec::new();
    let mut i: usize = 0;
    proof {
        assert(out.deep_view() =~= catalog@.take(0).filter(vpred@));
    }
    while i < n
        invariant
            n == catalog.records@.len(),
            0 <= i <= n,
            vpred@ == (|m: EmojiModel|
                m.version_major < 13u32 || (m.version_major == 13u32 && m.version_minor < 0u32)),
            out.deep_view() == catalog@.take(i as int).filter(vpred@),
        decreases n - i,
    {
        proof {
            lemma_take_filter_step(catalog@, vpred@, i as int);
        }
        let rec = &catalog.records[i];
        if rec.version_major < 13 {
            out.push(rec.clone());
            proof {
                assert(out.deep_view() =~= catalog@.take(i + 1).filter(vpred@));
            }
        }
        i = i + 1;
    }
    proof {
        assert(catalog@.take(n as int) =~= catalog@);
    }
    out
}

} // verus!
