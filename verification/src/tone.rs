//! Skin-tone resolution: picking the variant of a record that shows a
//! preferred tone (falling back to the record itself), enumerating a
//! record's tone options, and recovering the catalog identity that owns
//! a displayed glyph.

use vstd::prelude::*;

use crate::catalog::Catalog;
use crate::catalog::EmojiModel;
use crate::catalog::EmojiRecord;
use crate::catalog::SkinTone;
use crate::catalog::VariantModel;
use crate::catalog::record_wf;
use crate::text::chars_of;
use crate::text::string_eq_chars;

verus! {

/// The family of `r` has an entry for tone `t`.
pub open spec fn family_has_tone(r: EmojiModel, t: SkinTone) -> bool {
    exists|i: int| 0 <= i < r.variants.len() && (#[trigger] r.variants[i]).tone == Some(t)
}

/// The index of the family entry for tone `t`; meaningful only when
/// [`family_has_tone`] holds (under [`record_wf`] it is unique).
pub open spec fn family_index_of(r: EmojiModel, t: SkinTone) -> int {
    choose|i: int| 0 <= i < r.variants.len() && (#[trigger] r.variants[i]).tone == Some(t)
}

/// The record `base`, displayed as its family member `v`: glyph and
/// name come from the variant, everything else from the base.
pub open spec fn variant_as_model(base: EmojiModel, v: VariantModel) -> EmojiModel {
    EmojiModel { glyph: v.glyph, name: v.name, ..base }
}

/// Tone resolution: the family's entry for `t` when there is one,
/// the record itself otherwise.
pub open spec fn resolve_model(r: EmojiModel, t: SkinTone) -> EmojiModel {
    if family_has_tone(r, t) {
        variant_as_model(r, r.variants[family_index_of(r, t)])
    } else {
        r
    }
}

/// Under [`record_wf`], an entry carrying tone `t` is the only one, so
/// its index is [`family_index_of`].
pub proof fn lemma_family_index_unique(r: EmojiModel, t: SkinTone, i: int)
    requires
        record_wf(r),
        0 <= i < r.variants.len(),
        r.variants[i].tone == Some(t),
    ensures
        family_has_tone(r, t),
        family_index_of(r, t) == i,
{
    assert(family_has_tone(r, t));
    let j = family_index_of(r, t);
    assert(0 <= j < r.variants.len() && r.variants[j].tone == Some(t));
    if i < j {
        assert(r.variants[i].tone != r.variants[j].tone);
    } else if j < i {
        assert(r.variants[j].tone != r.variants[i].tone);
    }
}

/// The resolution policy, stated plainly: whenever a record's family
/// holds an entry for a tone, resolving to that tone shows exactly
/// that entry; for every tone the family lacks, resolving returns the
/// record unchanged.
pub proof fn lemma_resolve_policy(r: EmojiModel, t: SkinTone, i: int)
    requires
        record_wf(r),
    ensures
        0 <= i < r.variants.len() && r.variants[i].tone == Some(t) ==> {
            &&& resolve_model(r, t).glyph == r.variants[i].glyph
            &&& resolve_model(r, t).name == r.variants[i].name
            &&& resolve_model(r, t).group == r.group
        },
        !family_has_tone(r, t) ==> resolve_model(r, t) == r,
{
    if 0 <= i < r.variants.len() && r.variants[i].tone == Some(t) {
        lemma_family_index_unique(r, t, i);
    }
}

/// Returns the family's entry for `tone` if the record has one, and
/// the record itself otherwise: tone preference never replaces an
/// emoji with an unrelated one.
pub fn resolve(record: &EmojiRecord, tone: SkinTone) -> (r: EmojiRecord)
    requires
        record_wf(record@),
    ensures
        r@ == resolve_model(record@, tone),
{
    let n = record.variants.len();
    let mut i: usize = 0;
    while i < n
        invariant
            record_wf(record@),
            n == record.variants@.len(),
            0 <= i <= n,
            forall|k: int| 0 <= k < i ==> (#[trigger] record@.variants[k]).tone != Some(tone),
        decreases n - i,
    {
        let v = &record.variants[i];
        let is_match = match v.tone {
            Some(t) => t == tone,
            None => false,
        };
        if is_match {
            let shortcodes = record.shortcodes.clone();
            let variants = record.variants.clone();
            proof {
                assert(shortcodes.deep_view() =~= record.shortcodes.deep_view());
                assert(variants.deep_view() =~= record.variants.deep_view());
                lemma_family_index_unique(record@, tone, i as int);
            }
            let r = EmojiRecord {
                glyph: v.glyph.clone(),
                name: v.name.clone(),
                shortcodes,
                group: record.group,
                version_major: record.version_major,
                version_minor: record.version_minor,
                variants,
            };
            proof {
                assert(r@ =~= resolve_model(record@, tone));
            }
            return r;
        }
        i = i + 1;
    }
    assert(!family_has_tone(record@, tone));
    record.clone()
}

/// The record followed by its non-default tone options: the family
/// tail, each shown as a record of its own. A record without a family
/// expands to itself alone.
pub open spec fn expand_model(r: EmojiModel) -> Seq<EmojiModel> {
    if r.variants.len() == 0 {
        seq![r]
    } else {
        seq![r] + r.variants.skip(1).map_values(|v: VariantModel| variant_as_model(r, v))
    }
}

/// Enumerates the tone options of a record: the record itself first,
/// then every family entry except the default one, in family order.
pub fn expand_with_variants(record: &EmojiRecord) -> (r: Vec<EmojiRecord>)
    requires
        record_wf(record@),
    ensures
        r.deep_view() == expand_model(record@),
{
    let ghost tail = record@.variants.skip(1).map_values(
        |v: VariantModel| variant_as_model(record@, v),
    );
    let mut out: Vec<EmojiRecord> = Vec::new();
    out.push(record.clone());
    let n = record.variants.len();
    let mut i: usize = 1;
    if n == 0 {
        proof {
            assert(out.deep_view() =~= expand_model(record@));
        }
        return out;
    }
    while i < n
        invariant
            1 <= i <= n,
            n == record.variants@.len(),
            tail == record@.variants.skip(1).map_values(
                |v: VariantModel| variant_as_model(record@, v),
            ),
            out.deep_view().len() == i,
            out.deep_view()[0] == record@,
            forall|k: int| 1 <= k < i ==> out.deep_view()[k] == tail[k - 1],
        decreases n - i,
    {
        let v = &record.variants[i];
        let shortcodes = record.shortcodes.clone();
        let variants = record.variants.clone();
        proof {
            assert(shortcodes.deep_view() =~= record.shortcodes.deep_view());
            assert(variants.deep_view() =~= record.variants.deep_view());
        }
        let entry = EmojiRecord {
            glyph: v.glyph.clone(),
            name: v.name.clone(),
            shortcodes,
            group: record.group,
            version_major: record.version_major,
            version_minor: record.version_minor,
            variants,
        };
        proof {
            assert(entry@ =~= variant_as_model(record@, record@.variants[i as int]));
            assert(record@.variants.skip(1)[i - 1] == record@.variants[i as int]);
            assert(tail[i - 1] == variant_as_model(record@, record@.variants[i as int]));
            assert(entry@ == tail[i - 1]);
        }
        let ghost prev = out@;
        let ghost prevdv = out.deep_view();
        out.push(entry);
        i = i + 1;
        proof {
            assert(out@ == prev.push(entry));
            assert(prevdv.len() == prev.len());
            assert(out.deep_view().len() == i);
            assert forall|k: int| 1 <= k < i implies out.deep_view()[k] == tail[k - 1] by {
                if k < i - 1 {
                    assert(out@[k] == prev[k]);
                    assert(out.deep_view()[k] == prev[k].deep_view());
                    assert(prevdv[k] == prev[k].deep_view());
                    assert(prevdv[k] == tail[k - 1]);
                } else {
                    assert(out@[k] == entry);
                    assert(out.deep_view()[k] == entry@);
                }
            }
            assert(out@[0] == prev[0]);
            assert(out.deep_view()[0] == prev[0].deep_view());
            assert(prevdv[0] == prev[0].deep_view());
        }
    }
    proof {
        assert(out.deep_view() =~= expand_model(record@));
    }
    out
}

/// Shape of the expansion of a record that has a variant family: it
/// has exactly as many entries as the family, it starts with the
/// default-tone glyph, and that glyph is not repeated later.
pub proof fn lemma_expand_shape(r: EmojiModel)
    requires
        record_wf(r),
        r.variants.len() > 0,
    ensures
        expand_model(r).len() == r.variants.len(),
        expand_model(r)[0].glyph == r.variants[0].glyph,
        forall|i: int|
            1 <= i < expand_model(r).len() ==> (#[trigger] expand_model(r)[i]).glyph
                != r.variants[0].glyph,
{
    let e = expand_model(r);
    assert(e[0] == r);
    assert forall|i: int| 1 <= i < e.len() implies (#[trigger] e[i]).glyph
        != r.variants[0].glyph by {
        assert(e[i] == variant_as_model(r, r.variants.skip(1)[i - 1]));
        assert(r.variants.skip(1)[i - 1] == r.variants[i]);
        assert(r.variants[0].glyph != r.variants[i].glyph);
    }
}

/// The whole identity space of a catalog: every record's expansion,
/// concatenated in catalog order. A displayed glyph always came from
/// one of these entries.
pub open spec fn identity_space(cat: Seq<EmojiModel>) -> Seq<EmojiModel> {
    cat.map_values(|m: EmojiModel| expand_model(m)).flatten()
}

/// Enumerates every emoji together with its non-default tone options,
/// in catalog order.
pub fn every_emoji_and_variants(catalog: &Catalog) -> (r: Vec<EmojiRecord>)
    requires
        catalog.wf(),
    ensures
        r.deep_view() == identity_space(catalog@),
{
    let ghost expander = |m: EmojiModel| expand_model(m);
    let n = catalog.len();
    let mut out: Vec<EmojiRecord> = Vec::new();
    proof {
        assert(catalog@.take(0).map_values(expander) =~= Seq::<Seq<EmojiModel>>::empty());
        assert(out.deep_view() =~= catalog@.take(0).map_values(expander).flatten());
    }
    let mut i: usize = 0;
    while i < n
        invariant
            catalog.wf(),
            expander == (|m: EmojiModel| expand_model(m)),
            n == catalog@.len(),
            0 <= i <= n,
            out.deep_view() == catalog@.take(i as int).map_values(expander).flatten(),
        decreases n - i,
    {
        broadcast use vstd::prelude::Seq::lemma_flatten_push;

        proof {
            assert(record_wf(catalog@[i as int]));
        }
        let mut ex = expand_with_variants(&catalog.all()[i]);
        let ghost exdv = ex.deep_view();
        let ghost prev = out@;
        let ghost prevdv = out.deep_view();
        let ghost exv = ex@;
        out.append(&mut ex);
        proof {
            let mapped = catalog@.take(i as int).map_values(expander);
            assert(catalog@.take(i + 1).map_values(expander) =~= mapped.push(
                expand_model(catalog@[i as int]),
            ));
            assert(mapped.push(expand_model(catalog@[i as int])).flatten() == mapped.flatten()
                + expand_model(catalog@[i as int]));
            assert(out@ == prev + exv);
            assert forall|k: int| 0 <= k < out@.len() implies out.deep_view()[k] == (prevdv
                + exdv)[k] by {
                if k < prev.len() {
                    assert(out@[k] == prev[k]);
                    assert(prevdv[k] == prev[k].deep_view());
                } else {
                    assert(out@[k] == exv[k - prev.len()]);
                    assert(exdv[k - prev.len()] == exv[k - prev.len()].deep_view());
                }
            }
            assert(out.deep_view() =~= prevdv + exdv);
            assert(out.deep_view() =~= catalog@.take(i + 1).map_values(expander).flatten());
        }
        i = i + 1;
    }
    proof {
        assert(catalog@.take(n as int) =~= catalog@);
    }
    out
}

/// `r` owns glyph `g`: `g` is the record's own glyph or the glyph of
/// one of its family entries.
pub open spec fn owns_glyph(r: EmojiModel, g: Seq<char>) -> bool {
    r.glyph == g || exists|i: int|
        0 <= i < r.variants.len() && (#[trigger] r.variants[i]).glyph == g
}

/// Some record of `s` owns glyph `g`.
pub open spec fn some_owner(s: Seq<EmojiModel>, g: Seq<char>) -> bool {
    exists|i: int| 0 <= i < s.len() && owns_glyph(#[trigger] s[i], g)
}

/// `i` is the first index of `s` whose record owns `g`.
pub open spec fn is_first_owner(s: Seq<EmojiModel>, g: Seq<char>, i: int) -> bool {
    &&& 0 <= i < s.len()
    &&& owns_glyph(s[i], g)
    &&& forall|j: int| 0 <= j < i ==> !owns_glyph(#[trigger] s[j], g)
}

/// The first record of `s` that owns `g`; meaningful only when some
/// record does.
pub open spec fn canonical_owner(s: Seq<EmojiModel>, g: Seq<char>) -> EmojiModel {
    s[choose|i: int| is_first_owner(s, g, i)]
}

/// At most one index is the first owner of a glyph.
pub proof fn lemma_first_owner_unique(s: Seq<EmojiModel>, g: Seq<char>, i: int, j: int)
    requires
        is_first_owner(s, g, i),
        is_first_owner(s, g, j),
    ensures
        i == j,
{
    if i < j {
        assert(!owns_glyph(s[i], g));
    } else if j < i {
        assert(!owns_glyph(s[j], g));
    }
}

/// Below any owner of a glyph there is a first owner.
proof fn lemma_min_owner(s: Seq<EmojiModel>, g: Seq<char>, j: int)
    requires
        0 <= j < s.len(),
        owns_glyph(s[j], g),
    ensures
        exists|i: int| #[trigger] is_first_owner(s, g, i),
    decreases j,
{
    if forall|k: int| 0 <= k < j ==> !owns_glyph(#[trigger] s[k], g) {
        assert(is_first_owner(s, g, j));
    } else {
        let k = choose|k: int| 0 <= k < j && owns_glyph(#[trigger] s[k], g);
        lemma_min_owner(s, g, k);
    }
}

/// A glyph someone owns has a first owner, and [`canonical_owner`]
/// is it.
pub proof fn lemma_canonical_owner_is_first(s: Seq<EmojiModel>, g: Seq<char>)
    requires
        some_owner(s, g),
    ensures
        exists|i: int| #[trigger] is_first_owner(s, g, i),
        forall|i: int| #[trigger] is_first_owner(s, g, i) ==> canonical_owner(s, g) == s[i],
{
    let j = choose|j: int| 0 <= j < s.len() && owns_glyph(#[trigger] s[j], g);
    lemma_min_owner(s, g, j);
    let i0 = choose|i: int| is_first_owner(s, g, i);
    assert forall|i: int| #[trigger] is_first_owner(s, g, i) implies canonical_owner(s, g)
        == s[i] by {
        lemma_first_owner_unique(s, g, i, i0);
    }
}

/// No glyph is owned by two different records of `s`: base glyphs and
/// variant glyphs are unique across the whole catalog.
pub open spec fn distinct_identities(s: Seq<EmojiModel>) -> bool {
    forall|i: int, j: int, g: Seq<char>|
        #![trigger owns_glyph(s[i], g), owns_glyph(s[j], g)]
        0 <= i < s.len() && 0 <= j < s.len() && i != j && owns_glyph(s[i], g) ==> !owns_glyph(
            s[j],
            g,
        )
}

/// In a catalog with distinct identities, every record is the first
/// owner of its own glyph and of each of its variant glyphs, so a
/// displayed glyph always resolves back to the record it came from.
pub proof fn lemma_canonical_of_member(s: Seq<EmojiModel>, k: int)
    requires
        distinct_identities(s),
        0 <= k < s.len(),
    ensures
        is_first_owner(s, s[k].glyph, k),
        canonical_owner(s, s[k].glyph) == s[k],
        forall|m: int|
            0 <= m < s[k].variants.len() ==> is_first_owner(
                s,
                (#[trigger] s[k].variants[m]).glyph,
                k,
            ) && canonical_owner(s, s[k].variants[m].glyph) == s[k],
{
    assert(owns_glyph(s[k], s[k].glyph));
    assert forall|j: int| 0 <= j < k implies !owns_glyph(#[trigger] s[j], s[k].glyph) by {
        assert(owns_glyph(s[k], s[k].glyph));
    }
    assert(some_owner(s, s[k].glyph));
    lemma_canonical_owner_is_first(s, s[k].glyph);
    assert forall|m: int| 0 <= m < s[k].variants.len() implies is_first_owner(
        s,
        (#[trigger] s[k].variants[m]).glyph,
        k,
    ) && canonical_owner(s, s[k].variants[m].glyph) == s[k] by {
        let g = s[k].variants[m].glyph;
        assert(owns_glyph(s[k], g));
        assert forall|j: int| 0 <= j < k implies !owns_glyph(#[trigger] s[j], g) by {
            assert(owns_glyph(s[k], g));
        }
        assert(is_first_owner(s, g, k));
        assert(some_owner(s, g));
        lemma_canonical_owner_is_first(s, g);
    }
}

/// Checks whether `record` owns the glyph `g`.
fn owns_glyph_exec(record: &EmojiRecord, g: &Vec<char>) -> (r: bool)
    ensures
        r == owns_glyph(record@, g@),
{
    if string_eq_chars(&record.glyph, g) {
        return true;
    }
    let n = record.variants.len();
    let mut i: usize = 0;
    while i < n
        invariant
            n == record.variants@.len(),
            0 <= i <= n,
            forall|k: int| 0 <= k < i ==> (#[trigger] record@.variants[k]).glyph != g@,
        decreases n - i,
    {
        if string_eq_chars(&record.variants[i].glyph, g) {
            proof {
                assert((#[trigger] record@.variants[i as int]).glyph == g@);
                assert(owns_glyph(record@, g@));
            }
            return true;
        }
        i = i + 1;
    }
    assert(!owns_glyph(record@, g@));
    false
}

/// Checks whether two records own a glyph in common. Every glyph `a`
/// owns is one of finitely many, so checking each against `b` decides
/// the question.
fn records_share_glyph(a: &EmojiRecord, b: &EmojiRecord) -> (r: bool)
    ensures
        r == exists|g: Seq<char>| owns_glyph(a@, g) && owns_glyph(b@, g),
{
    let base = chars_of(a.glyph.as_str());
    if owns_glyph_exec(b, &base) {
        proof {
            assert(owns_glyph(a@, a@.glyph));
        }
        return true;
    }
    let n = a.variants.len();
    let mut i: usize = 0;
    while i < n
        invariant
            n == a.variants@.len(),
            0 <= i <= n,
            forall|k: int| 0 <= k < i ==> !owns_glyph(b@, (#[trigger] a@.variants[k]).glyph),
        decreases n - i,
    {
        let vg = chars_of(a.variants[i].glyph.as_str());
        if owns_glyph_exec(b, &vg) {
            proof {
                assert(owns_glyph(a@, (#[trigger] a@.variants[i as int]).glyph));
            }
            return true;
        }
        i = i + 1;
    }
    proof {
        assert(!owns_glyph(b@, a@.glyph));
        assert forall|g: Seq<char>| owns_glyph(a@, g) implies !owns_glyph(b@, g) by {
            if a@.glyph != g {
                let k = choose|k: int|
                    0 <= k < a@.variants.len() && (#[trigger] a@.variants[k]).glyph == g;
                assert(!owns_glyph(b@, a@.variants[k].glyph));
            }
        }
    }
    false
}

impl Catalog {
    /// Checks that no two records of the catalog own a glyph in
    /// common, so that every displayed glyph maps back to exactly one
    /// identity.
    pub fn has_distinct_identities(&self) -> (r: bool)
        ensures
            r == distinct_identities(self@),
    {
        let n = self.records.len();
        let mut i: usize = 0;
        while i < n
            invariant
                n == self.records@.len(),
                0 <= i <= n,
                forall|p: int, q: int|
                    0 <= p < q < n && p < i ==> !(exists|g: Seq<char>|
                        owns_glyph(#[trigger] self@[p], g) && owns_glyph(#[trigger] self@[q], g)),
            decreases n - i,
        {
            let mut j: usize = i + 1;
            while j < n
                invariant
                    n == self.records@.len(),
                    0 <= i < j <= n,
                    forall|q: int|
                        i < q < j ==> !(exists|g: Seq<char>|
                            owns_glyph(#[trigger] self@[i as int], g) && owns_glyph(
                                #[trigger] self@[q],
                                g,
                            )),
                decreases n - j,
            {
                if records_share_glyph(&self.records[i], &self.records[j]) {
                    proof {
                        let g = choose|g: Seq<char>|
                            owns_glyph(self@[i as int], g) && owns_glyph(self@[j as int], g);
                        assert(owns_glyph(self@[i as int], g) && owns_glyph(self@[j as int], g));
                        assert(!distinct_identities(self@));
                    }
                    return false;
                }
                j = j + 1;
            }
            i = i + 1;
        }
        proof {
            assert forall|p: int, q: int, g: Seq<char>|
                #![trigger owns_glyph(self@[p], g), owns_glyph(self@[q], g)]
                0 <= p < self@.len() && 0 <= q < self@.len() && p != q && owns_glyph(
                    self@[p],
                    g,
                ) implies !owns_glyph(self@[q], g) by {
                if p < q {
                    assert(self@[p] == self@[p] && self@[q] == self@[q]);
                } else {
                    assert(self@[q] == self@[q] && self@[p] == self@[p]);
                }
            }
        }
        true
    }

    /// Maps a displayed glyph, given as characters, back to the first
    /// record that owns it; `None` when no record of the catalog
    /// produces the glyph.
    pub fn canonical_identity_chars(&self, g: &Vec<char>) -> (r: Option<EmojiRecord>)
        ensures
            r is Some <==> some_owner(self@, g@),
            r matches Some(rec) ==> is_first_owner(
                self@,
                g@,
                choose|i: int| is_first_owner(self@, g@, i),
            ) && rec@ == canonical_owner(self@, g@),
    {
        let n = self.records.len();
        let mut i: usize = 0;
        while i < n
            invariant
                n == self.records@.len(),
                0 <= i <= n,
                forall|k: int| 0 <= k < i ==> !owns_glyph(#[trigger] self@[k], g@),
            decreases n - i,
        {
            if owns_glyph_exec(&self.records[i], g) {
                proof {
                    assert(is_first_owner(self@, g@, i as int));
                    assert(some_owner(self@, g@));
                    lemma_canonical_owner_is_first(self@, g@);
                }
                return Some(self.records[i].clone());
            }
            i = i + 1;
        }
        assert(!some_owner(self@, g@));
        None
    }

    /// Maps a displayed glyph back to the base record that owns it,
    /// scanning base glyphs and every family entry in catalog order;
    /// `None` when no record of the catalog produces the glyph.
    pub fn canonical_identity(&self, glyph: &str) -> (r: Option<EmojiRecord>)
        ensures
            r is Some <==> some_owner(self@, glyph@),
            r matches Some(rec) ==> rec@ == canonical_owner(self@, glyph@),
    {
        let g = chars_of(glyph);
        self.canonical_identity_chars(&g)
    }
}

} // verus!
