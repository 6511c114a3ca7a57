//! One picker interaction: building the candidate lists a caller
//! shows (a group's emojis or a search's results, each in the user's
//! preferred tone), listing the tone options of a displayed emoji, and
//! recording a pick into the personalization state.

use vstd::prelude::*;

use crate::catalog::Catalog;
use crate::catalog::EmojiModel;
use crate::catalog::EmojiRecord;
use crate::catalog::Group;
use crate::catalog::SkinTone;
use crate::catalog::in_group;
use crate::catalog::lemma_in_group_wf;
use crate::catalog::record_wf;
use crate::config::Config;
use crate::config::StateError;
use crate::config::config_wf;
use crate::config::record_pick_model;
use crate::search::filter;
use crate::search::filter_model;
use crate::tone::canonical_owner;
use crate::tone::expand_model;
use crate::tone::expand_with_variants;
use crate::tone::is_first_owner;
use crate::tone::lemma_canonical_owner_is_first;
use crate::tone::resolve;
use crate::tone::resolve_model;
use crate::tone::some_owner;

verus! {

/// Every record of `cat`, shown in tone `t`.
pub open spec fn resolved_all(cat: Seq<EmojiModel>, t: SkinTone) -> Seq<EmojiModel> {
    cat.map_values(|m: EmojiModel| resolve_model(m, t))
}

/// A picker session: the catalog it draws from and the state handle
/// it reads the preferred tone from and records picks into.
pub struct PickerSession {
    pub catalog: Catalog,
    pub config: Config,
}

impl PickerSession {
    /// Both halves are well formed.
    pub open spec fn wf(&self) -> bool {
        &&& self.catalog.wf()
        &&& config_wf(self.config@)
    }

    /// Builds a session around a catalog and a loaded state.
    pub fn new(catalog: Catalog, config: Config) -> (r: PickerSession)
        ensures
            r.catalog == catalog,
            r.config == config,
    {
        PickerSession { catalog, config }
    }

    /// The emojis of one group, each in the preferred tone.
    pub fn candidates_for_group(&self, group: Group) -> (r: Vec<EmojiRecord>)
        requires
            self.wf(),
        ensures
            r.deep_view() == in_group(self.catalog@, group).map_values(
                |m: EmojiModel| resolve_model(m, self.config@.preferred_skin_tone),
            ),
    {
        let tone = self.config.preferred_skin_tone;
        let ghost resolver = |m: EmojiModel| resolve_model(m, tone);
        let members = self.catalog.by_group(group);
        let n = members.len();
        let mut out: Vec<EmojiRecord> = Vec::new();
        proof {
            assert(out.deep_view() =~= in_group(self.catalog@, group).map_values(resolver).take(
                0,
            ));
        }
        let mut i: usize = 0;
        while i < n
            invariant
                self.wf(),
                tone == self.config@.preferred_skin_tone,
                resolver == (|m: EmojiModel| resolve_model(m, tone)),
                n == members@.len(),
                members.deep_view() == in_group(self.catalog@, group),
                0 <= i <= n,
                out.deep_view() == in_group(self.catalog@, group).map_values(resolver).take(
                    i as int,
                ),
            decreases n - i,
        {
            proof {
                lemma_in_group_wf(self.catalog@, group, i as int);
                assert(members.deep_view()[i as int] == in_group(self.catalog@, group)[i as int]);
            }
            let entry = resolve(&members[i], tone);
            let ghost ev = entry@;
            let ghost prev = out@;
            let ghost prevdv = out.deep_view();
            out.push(entry);
            proof {
                let full = in_group(self.catalog@, group).map_values(resolver);
                assert(prevdv.len() == i);
                assert(prev.len() == prevdv.len());
                assert(out@.len() == prev.len() + 1);
                assert forall|k: int| 0 <= k < i implies out.deep_view()[k] == prevdv[k] by {
                    assert(out@[k] == prev[k]);
                    assert(prevdv[k] == prev[k].deep_view());
                }
                assert(out@[i as int]@ == ev);
                assert(out.deep_view()[i as int] == out@[i as int]@);
                assert(full[i as int] == resolver(in_group(self.catalog@, group)[i as int]));
                assert(ev == full[i as int]);
                assert(out.deep_view() =~= full.take(i + 1));
            }
            i = i + 1;
        }
        proof {
            let full = in_group(self.catalog@, group).map_values(resolver);
            assert(full.take(n as int) =~= full);
        }
        out
    }

    /// Every catalog emoji in the preferred tone, filtered by a
    /// search query against the displayed names and the shortcodes.
    pub fn candidates_for_query(&self, query: &str) -> (r: Vec<EmojiRecord>)
        requires
            self.wf(),
        ensures
            r.deep_view() == filter_model(
                resolved_all(self.catalog@, self.config@.preferred_skin_tone),
                query@,
            ),
    {
        let tone = self.config.preferred_skin_tone;
        let ghost resolver = |m: EmojiModel| resolve_model(m, tone);
        let all = self.catalog.all();
        let n = all.len();
        let mut resolved: Vec<EmojiRecord> = Vec::new();
        proof {
            assert(resolved.deep_view() =~= self.catalog@.map_values(resolver).take(0));
        }
        let mut i: usize = 0;
        while i < n
            invariant
                self.wf(),
                tone == self.config@.preferred_skin_tone,
                resolver == (|m: EmojiModel| resolve_model(m, tone)),
                n == all@.len(),
                all.deep_view() == self.catalog@,
                0 <= i <= n,
                resolved.deep_view() == self.catalog@.map_values(resolver).take(i as int),
            decreases n - i,
        {
            proof {
                assert(record_wf(self.catalog@[i as int]));
                assert(all.deep_view()[i as int] == self.catalog@[i as int]);
            }
            let entry = resolve(&all[i], tone);
            let ghost ev = entry@;
            let ghost prev = resolved@;
            let ghost prevdv = resolved.deep_view();
            resolved.push(entry);
            proof {
                let full = self.catalog@.map_values(resolver);
                assert(prevdv.len() == i);
                assert(prev.len() == prevdv.len());
                assert(resolved@.len() == prev.len() + 1);
                assert forall|k: int| 0 <= k < i implies resolved.deep_view()[k] == prevdv[k] by {
                    assert(resolved@[k] == prev[k]);
                    assert(prevdv[k] == prev[k].deep_view());
                }
                assert(resolved@[i as int]@ == ev);
                assert(resolved.deep_view()[i as int] == resolved@[i as int]@);
                assert(full[i as int] == resolver(self.catalog@[i as int]));
                assert(ev == full[i as int]);
                assert(resolved.deep_view() =~= full.take(i + 1));
            }
            i = i + 1;
        }
        proof {
            let full = self.catalog@.map_values(resolver);
            assert(full.take(n as int) =~= full);
        }
        filter(&resolved, query)
    }

    /// The tone options of the emoji behind a displayed glyph: its
    /// catalog identity first, then each non-default family entry;
    /// empty when the identity has no variant family. A glyph no
    /// catalog record produces cannot be mapped back and is the
    /// unresolved-identity error.
    pub fn variants_for(&self, glyph: &str) -> (r: Result<Vec<EmojiRecord>, StateError>)
        requires
            self.wf(),
        ensures
            r matches Ok(v) ==> some_owner(self.catalog@, glyph@) && v.deep_view() == {
                let m = canonical_owner(self.catalog@, glyph@);
                if m.variants.len() == 0 {
                    Seq::<EmojiModel>::empty()
                } else {
                    expand_model(m)
                }
            },
            r is Err <==> !some_owner(self.catalog@, glyph@),
            r matches Err(e) ==> e == StateError::UnresolvedIdentity,
    {
        let rec = match self.catalog.canonical_identity(glyph) {
            None => {
                return Err(StateError::UnresolvedIdentity);
            },
            Some(rec) => rec,
        };
        proof {
            lemma_canonical_owner_is_first(self.catalog@, glyph@);
            let i0 = choose|i: int| is_first_owner(self.catalog@, glyph@, i);
            assert(is_first_owner(self.catalog@, glyph@, i0));
            assert(rec@ == self.catalog@[i0]);
            assert(record_wf(rec@));
        }
        if rec.variants.len() == 0 {
            let out: Vec<EmojiRecord> = Vec::new();
            proof {
                assert(out.deep_view() =~= Seq::<EmojiModel>::empty());
            }
            return Ok(out);
        }
        Ok(expand_with_variants(&rec))
    }

    /// Records a pick of the emoji behind a displayed glyph: the glyph
    /// is mapped back to its catalog identity, the identity is appended
    /// to the recents unless already there, and it is returned to the
    /// caller, who places its glyph wherever the pick was for. The
    /// preferred tone and the catalog are untouched; the caller
    /// persists the state.
    pub fn pick(&mut self, glyph: &str) -> (r: Result<EmojiRecord, StateError>)
        requires
            old(self).wf(),
        ensures
            final(self).wf(),
            final(self).catalog == old(self).catalog,
            final(self).config@.preferred_skin_tone == old(self).config@.preferred_skin_tone,
            r matches Ok(rec) ==> some_owner(old(self).catalog@, glyph@) && rec@ == canonical_owner(
                old(self).catalog@,
                glyph@,
            ) && final(self).config@.recent_emojis == record_pick_model(
                old(self).config@.recent_emojis,
                rec@,
            ),
            r is Err <==> !some_owner(old(self).catalog@, glyph@),
            r matches Err(e) ==> e == StateError::UnresolvedIdentity,
            r is Err ==> final(self).config@ == old(self).config@,
    {
        let rec = match self.catalog.canonical_identity(glyph) {
            None => {
                return Err(StateError::UnresolvedIdentity);
            },
            Some(rec) => rec,
        };
        proof {
            lemma_canonical_owner_is_first(self.catalog@, glyph@);
            let i0 = choose|i: int| is_first_owner(self.catalog@, glyph@, i);
            assert(is_first_owner(self.catalog@, glyph@, i0));
            assert(rec@ == self.catalog@[i0]);
            assert(record_wf(rec@));
        }
        self.config.record_pick(&rec);
        Ok(rec)
    }
}

} // verus!
