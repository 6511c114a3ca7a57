//! Persisted personalization state: the preferred skin tone and the
//! list of recently picked emojis, unique by glyph and kept in first
//! pick order. Mutations never fail; persisting the state is done by
//! the caller with [`Config::save`] and [`Config::load`].

use vstd::prelude::*;

use crate::catalog::Catalog;
use crate::catalog::EmojiModel;
use crate::catalog::EmojiRecord;
use crate::catalog::SkinTone;
use crate::catalog::record_wf;
use crate::codec::StateDocModel;
use crate::codec::decode_state;
use crate::codec::doc_storable;
use crate::codec::encode_doc;
use crate::codec::encode_state;
use crate::tone::canonical_owner;
use crate::tone::distinct_identities;
use crate::tone::is_first_owner;
use crate::tone::lemma_canonical_of_member;
use crate::tone::some_owner;

verus! {

/// What can go wrong around the persisted state: an unreadable or
/// unwritable storage location, a state file that cannot be parsed or
/// holds a glyph the catalog does not know, and a displayed glyph that
/// maps to no catalog identity.
#[derive(Clone, Copy, Debug, PartialEq, Eq, Structural)]
pub enum StateError {
    CorruptState,
    StorageIo,
    UnresolvedIdentity,
}

/// The user's personalization state.
#[derive(Debug)]
pub struct Config {
    pub preferred_skin_tone: SkinTone,
    pub recent_emojis: Vec<EmojiRecord>,
}

/// Mathematical model of a [`Config`].
#[verifier::ext_equal]
pub struct ConfigModel {
    pub preferred_skin_tone: SkinTone,
    pub recent_emojis: Seq<EmojiModel>,
}

impl View for Config {
    type V = ConfigModel;

    open spec fn view(&self) -> ConfigModel {
        ConfigModel {
            preferred_skin_tone: self.preferred_skin_tone,
            recent_emojis: self.recent_emojis.deep_view(),
        }
    }
}

/// Some record of `s` shows glyph `g`.
pub open spec fn has_glyph(s: Seq<EmojiModel>, g: Seq<char>) -> bool {
    exists|i: int| 0 <= i < s.len() && (#[trigger] s[i]).glyph == g
}

/// No two records of `s` show the same glyph.
pub open spec fn distinct_glyphs(s: Seq<EmojiModel>) -> bool {
    forall|i: int, j: int|
        0 <= i < j < s.len() ==> (#[trigger] s[i]).glyph != (#[trigger] s[j]).glyph
}

/// Well-formedness of the state: recents are well-formed records and
/// are unique by glyph.
pub open spec fn config_wf(c: ConfigModel) -> bool {
    &&& distinct_glyphs(c.recent_emojis)
    &&& forall|i: int| 0 <= i < c.recent_emojis.len() ==> record_wf(#[trigger] c.recent_emojis[i])
}

/// Recording a pick: append the record unless its glyph is already
/// present; a repeated pick changes nothing, so first pick order is
/// kept.
pub open spec fn record_pick_model(s: Seq<EmojiModel>, r: EmojiModel) -> Seq<EmojiModel> {
    if has_glyph(s, r.glyph) {
        s
    } else {
        s.push(r)
    }
}

impl Config {
    /// Appends `record` to the recents unless an entry with its glyph
    /// is already there; the preferred tone is untouched.
    pub fn record_pick(&mut self, record: &EmojiRecord)
        requires
            config_wf(old(self)@),
            record_wf(record@),
        ensures
            final(self)@.preferred_skin_tone == old(self)@.preferred_skin_tone,
            final(self)@.recent_emojis == record_pick_model(old(self)@.recent_emojis, record@),
            config_wf(final(self)@),
    {
        let n = self.recent_emojis.len();
        let mut i: usize = 0;
        while i < n
            invariant
                self@ == old(self)@,
                config_wf(self@),
                n == self.recent_emojis@.len(),
                0 <= i <= n,
                forall|k: int| 0 <= k < i ==> (#[trigger] self@.recent_emojis[k]).glyph
                    != record@.glyph,
            decreases n - i,
        {
            if self.recent_emojis[i].glyph == record.glyph {
                proof {
                    assert((#[trigger] self@.recent_emojis[i as int]).glyph == record@.glyph);
                    assert(has_glyph(self@.recent_emojis, record@.glyph));
                }
                return ;
            }
            i = i + 1;
        }
        proof {
            assert(!has_glyph(self@.recent_emojis, record@.glyph));
        }
        let ghost prev = self.recent_emojis@;
        let ghost prevdv = self.recent_emojis.deep_view();
        self.recent_emojis.push(record.clone());
        proof {
            assert(self.recent_emojis@.len() == prev.len() + 1);
            assert forall|k: int| 0 <= k < prev.len() implies self.recent_emojis.deep_view()[k]
                == prevdv[k] by {
                assert(self.recent_emojis@[k] == prev[k]);
                assert(prevdv[k] == prev[k].deep_view());
            }
            assert(self.recent_emojis.deep_view()[prev.len() as int] == record@);
            assert(self.recent_emojis.deep_view() =~= prevdv.push(record@));
            assert forall|p: int, q: int| 0 <= p < q < prevdv.len() + 1 implies (#[trigger] prevdv.push(
                record@,
            )[p]).glyph != (#[trigger] prevdv.push(record@)[q]).glyph by {
                if q == prevdv.len() {
                    assert(prevdv.push(record@)[p] == prevdv[p]);
                    assert((#[trigger] prevdv[p]).glyph != record@.glyph);
                } else {
                    assert(prevdv.push(record@)[p] == prevdv[p]);
                    assert(prevdv.push(record@)[q] == prevdv[q]);
                }
            }
        }
    }

    /// Sets the preferred tone; already-recorded recents keep the
    /// identity they were recorded with.
    pub fn set_preferred_tone(&mut self, tone: SkinTone)
        ensures
            final(self)@.preferred_skin_tone == tone,
            final(self)@.recent_emojis == old(self)@.recent_emojis,
    {
        self.preferred_skin_tone = tone;
    }

    /// Empties the recents; the preferred tone is untouched.
    pub fn clear_recents(&mut self)
        ensures
            final(self)@.preferred_skin_tone == old(self)@.preferred_skin_tone,
            final(self)@.recent_emojis == Seq::<EmojiModel>::empty(),
    {
        self.recent_emojis = Vec::new();
        proof {
            assert(self.recent_emojis.deep_view() =~= Seq::<EmojiModel>::empty());
        }
    }
}

impl Default for Config {
    /// The state of a fresh install: default tone, no recents.
    fn default() -> (r: Config)
        ensures
            r@.preferred_skin_tone == SkinTone::Default,
            r@.recent_emojis == Seq::<EmojiModel>::empty(),
            config_wf(r@),
    {
        let r = Config { preferred_skin_tone: SkinTone::Default, recent_emojis: Vec::new() };
        proof {
            assert(r@.recent_emojis =~= Seq::<EmojiModel>::empty());
        }
        r
    }
}

/// The document that [`Config::save`] writes for a state: its tone
/// and its recents' glyphs, in order.
pub open spec fn doc_of(c: ConfigModel) -> StateDocModel {
    StateDocModel {
        preferred_skin_tone: c.preferred_skin_tone,
        recent_glyphs: c.recent_emojis.map_values(|r: EmojiModel| r.glyph),
    }
}

/// Replaying stored glyphs against a catalog: each glyph resolves to
/// the first record that owns it and is recorded as a pick; a glyph
/// the catalog does not know fails the whole load.
pub open spec fn rehydrate_model(cat: Seq<EmojiModel>, glyphs: Seq<Seq<char>>) -> Option<
    Seq<EmojiModel>,
>
    decreases glyphs.len(),
{
    if glyphs.len() == 0 {
        Some(Seq::empty())
    } else {
        match rehydrate_model(cat, glyphs.drop_last()) {
            Some(s) => {
                if some_owner(cat, glyphs.last()) {
                    Some(record_pick_model(s, canonical_owner(cat, glyphs.last())))
                } else {
                    None
                }
            },
            None => None,
        }
    }
}

/// A load that failed at some glyph stays failed with every further
/// glyph.
proof fn lemma_rehydrate_none_extends(cat: Seq<EmojiModel>, gs: Seq<Seq<char>>, i: int)
    requires
        0 <= i <= gs.len(),
        rehydrate_model(cat, gs.take(i)) is None,
    ensures
        rehydrate_model(cat, gs) is None,
    decreases gs.len() - i,
{
    if i == gs.len() {
        assert(gs.take(i) =~= gs);
        assert(gs.take(i) == gs);
    } else {
        assert(gs.take(i + 1).drop_last() =~= gs.take(i));
        assert(rehydrate_model(cat, gs.take(i + 1)) is None);
        lemma_rehydrate_none_extends(cat, gs, i + 1);
    }
}

/// The state a caller loads is the state that was saved: the text
/// written for a well-formed state, replayed against a catalog with
/// distinct identities that holds every recorded record, reproduces
/// the same tone and the same recents in the same order.
pub proof fn lemma_save_load_round_trip(cat: Seq<EmojiModel>, c: ConfigModel)
    requires
        distinct_identities(cat),
        config_wf(c),
        forall|i: int| 0 <= i < c.recent_emojis.len() ==> cat.contains(#[trigger] c.recent_emojis[i]),
    ensures
        doc_storable(doc_of(c)),
        rehydrate_model(cat, doc_of(c).recent_glyphs) == Some(c.recent_emojis),
{
    let gs = doc_of(c).recent_glyphs;
    assert forall|i: int| 0 <= i < gs.len() implies crate::catalog::storable_text(
        #[trigger] gs[i],
    ) by {
        assert(record_wf(c.recent_emojis[i]));
        assert(gs[i] == c.recent_emojis[i].glyph);
    }
    lemma_rehydrate_members(cat, c.recent_emojis);
}

/// Replaying the glyphs of catalog records that are unique by glyph
/// recovers exactly those records.
proof fn lemma_rehydrate_members(cat: Seq<EmojiModel>, rs: Seq<EmojiModel>)
    requires
        distinct_identities(cat),
        distinct_glyphs(rs),
        forall|i: int| 0 <= i < rs.len() ==> cat.contains(#[trigger] rs[i]),
    ensures
        rehydrate_model(cat, rs.map_values(|r: EmojiModel| r.glyph)) == Some(rs),
    decreases rs.len(),
{
    let gs = rs.map_values(|r: EmojiModel| r.glyph);
    if rs.len() == 0 {
        assert(gs.len() == 0);
        assert(rs =~= Seq::<EmojiModel>::empty());
    } else {
        let front = rs.drop_last();
        assert(distinct_glyphs(front)) by {
            assert forall|i: int, j: int|
                0 <= i < j < front.len() implies (#[trigger] front[i]).glyph
                != (#[trigger] front[j]).glyph by {
                assert(front[i] == rs[i] && front[j] == rs[j]);
            }
        }
        assert forall|i: int| 0 <= i < front.len() implies cat.contains(#[trigger] front[i]) by {
            assert(front[i] == rs[i]);
        }
        lemma_rehydrate_members(cat, front);
        assert(gs.drop_last() =~= front.map_values(|r: EmojiModel| r.glyph));
        assert(gs.last() == rs.last().glyph);
        let last = rs.last();
        let k = choose|k: int| 0 <= k < cat.len() && cat[k] == last;
        assert(cat[k] == last);
        lemma_canonical_of_member(cat, k);
        assert(is_first_owner(cat, last.glyph, k));
        assert(some_owner(cat, last.glyph));
        assert(canonical_owner(cat, last.glyph) == last);
        assert(!has_glyph(front, last.glyph)) by {
            if has_glyph(front, last.glyph) {
                let m = choose|m: int|
                    0 <= m < front.len() && (#[trigger] front[m]).glyph == last.glyph;
                assert(rs[m].glyph == rs[rs.len() - 1].glyph);
                assert(rs[m].glyph != rs[rs.len() - 1].glyph);
            }
        }
        assert(record_pick_model(front, last) == front.push(last));
        assert(front.push(last) =~= rs);
        assert(rehydrate_model(cat, gs) == Some(rs));
    }
}

/// A parsed document that this state, saved, would produce, replayed
/// successfully into these recents.
pub open spec fn loaded_from(cat: Seq<EmojiModel>, text: Seq<char>, c: ConfigModel) -> bool {
    exists|d: StateDocModel|
        {
            &&& doc_storable(d)
            &&& text == #[trigger] encode_doc(d)
            &&& c.preferred_skin_tone == d.preferred_skin_tone
            &&& rehydrate_model(cat, d.recent_glyphs) == Some(c.recent_emojis)
        }
}

impl Config {
    /// Writes the state file text for this state: its tone's tag and
    /// its recents' glyphs. The caller persists the text.
    pub fn save(&self) -> (r: String)
        ensures
            r@ == encode_doc(doc_of(self@)),
    {
        let n = self.recent_emojis.len();
        let mut glyphs: Vec<String> = Vec::new();
        let ghost all = doc_of(self@).recent_glyphs;
        proof {
            assert(glyphs.deep_view() =~= all.take(0));
        }
        let mut i: usize = 0;
        while i < n
            invariant
                n == self.recent_emojis@.len(),
                all == doc_of(self@).recent_glyphs,
                0 <= i <= n,
                glyphs.deep_view() == all.take(i as int),
            decreases n - i,
        {
            let gstr = self.recent_emojis[i].glyph.clone();
            let ghost gv = gstr@;
            proof {
                assert(gv == all[i as int]);
            }
            let ghost prev = glyphs@;
            let ghost prevdv = glyphs.deep_view();
            glyphs.push(gstr);
            proof {
                assert(all.len() == n);
                assert(prevdv.len() == i);
                assert(prevdv.len() == prev.len());
                assert(glyphs@.len() == prev.len() + 1);
                assert forall|k: int| 0 <= k < prev.len() implies glyphs.deep_view()[k]
                    == prevdv[k] by {
                    assert(glyphs@[k] == prev[k]);
                    assert(prevdv[k] == prev[k]@);
                }
                assert(glyphs@[i as int]@ == gv);
                assert(glyphs.deep_view()[i as int] == glyphs@[i as int]@);
                assert(all.take(i + 1)[i as int] == all[i as int]);
                assert(glyphs.deep_view() =~= all.take(i + 1));
            }
            i = i + 1;
        }
        let out = encode_state(self.preferred_skin_tone, &glyphs);
        proof {
            assert(all.take(n as int) =~= all);
            assert(StateDocModel {
                preferred_skin_tone: self.preferred_skin_tone,
                recent_glyphs: glyphs.deep_view(),
            } =~= doc_of(self@));
        }
        out
    }

    /// Reads a state back from the state file text, resolving each
    /// stored glyph against the catalog. Exactly the texts written by
    /// [`Config::save`] whose glyphs the catalog knows are accepted;
    /// anything else is the corrupt-state error, never a silent
    /// default.
    pub fn load(catalog: &Catalog, contents: &str) -> (r: Result<Config, StateError>)
        requires
            catalog.wf(),
        ensures
            r matches Ok(c) ==> config_wf(c@) && loaded_from(catalog@, contents@, c@),
            forall|d: StateDocModel|
                doc_storable(d) && contents@ == #[trigger] encode_doc(d) && rehydrate_model(
                    catalog@,
                    d.recent_glyphs,
                ) is Some ==> (r matches Ok(c) && c@.preferred_skin_tone == d.preferred_skin_tone
                && Some(c@.recent_emojis) == rehydrate_model(catalog@, d.recent_glyphs)),
            forall|d: StateDocModel|
                doc_storable(d) && contents@ == #[trigger] encode_doc(d) && rehydrate_model(
                    catalog@,
                    d.recent_glyphs,
                ) is None ==> r is Err,
            r matches Err(e) ==> e == StateError::CorruptState,
    {
        let doc = match decode_state(contents) {
            None => {
                return Err(StateError::CorruptState);
            },
            Some(doc) => doc,
        };
        let ghost dm = doc@;
        let n = doc.recent_glyphs.len();
        let mut cfg = Config { preferred_skin_tone: doc.preferred_skin_tone, recent_emojis: Vec::new() };
        proof {
            assert(cfg@.recent_emojis =~= Seq::<EmojiModel>::empty());
            assert(dm.recent_glyphs.take(0).len() == 0);
            assert(rehydrate_model(catalog@, dm.recent_glyphs.take(0)) == Some(
                Seq::<EmojiModel>::empty(),
            ));
        }
        let mut i: usize = 0;
        while i < n
            invariant
                catalog.wf(),
                n == doc.recent_glyphs@.len(),
                dm == doc@,
                0 <= i <= n,
                cfg@.preferred_skin_tone == dm.preferred_skin_tone,
                config_wf(cfg@),
                rehydrate_model(catalog@, dm.recent_glyphs.take(i as int)) == Some(
                    cfg@.recent_emojis,
                ),
                forall|d: StateDocModel|
                    doc_storable(d) && contents@ == #[trigger] encode_doc(d) ==> d == dm,
            decreases n - i,
        {
            let ghost gseq = dm.recent_glyphs;
            proof {
                assert(gseq.take(i + 1).drop_last() =~= gseq.take(i as int));
                assert(gseq.take(i + 1).last() == gseq[i as int]);
                assert(gseq[i as int] == doc.recent_glyphs@[i as int]@);
            }
            let rec = match catalog.canonical_identity_chars(&doc.recent_glyphs[i]) {
                None => {
                    proof {
                        assert(rehydrate_model(catalog@, gseq.take(i + 1)) is None);
                        lemma_rehydrate_none_extends(catalog@, gseq, i + 1);
                    }
                    return Err(StateError::CorruptState);
                },
                Some(rec) => rec,
            };
            proof {
                assert(rec@ == canonical_owner(catalog@, gseq[i as int]));
                let i0 = choose|k: int| is_first_owner(catalog@, gseq[i as int], k);
                assert(is_first_owner(catalog@, gseq[i as int], i0));
                assert(record_wf(catalog@[i0]));
                assert(record_wf(rec@));
            }
            cfg.record_pick(&rec);
            proof {
                assert(rehydrate_model(catalog@, gseq.take(i + 1)) == Some(cfg@.recent_emojis));
            }
            i = i + 1;
        }
        proof {
            assert(dm.recent_glyphs.take(n as int) =~= dm.recent_glyphs);
            assert(rehydrate_model(catalog@, dm.recent_glyphs) == Some(cfg@.recent_emojis));
            assert(loaded_from(catalog@, contents@, cfg@));
        }
        Ok(cfg)
    }

    /// The state at start-up: read from the state file text when one
    /// exists, the default state of a fresh install when none does.
    /// On a fresh install the caller must persist the returned state
    /// at once, so that a state file exists from then on.
    pub fn load_or_create(catalog: &Catalog, contents: Option<&str>) -> (r: Result<
        Config,
        StateError,
    >)
        requires
            catalog.wf(),
        ensures
            contents is None ==> (r matches Ok(c) && c@.preferred_skin_tone == SkinTone::Default
                && c@.recent_emojis == Seq::<EmojiModel>::empty()),
            contents matches Some(s) ==> {
                &&& (r matches Ok(c) ==> config_wf(c@) && loaded_from(catalog@, s@, c@))
                &&& (forall|d: StateDocModel|
                    doc_storable(d) && s@ == #[trigger] encode_doc(d) && rehydrate_model(
                        catalog@,
                        d.recent_glyphs,
                    ) is Some ==> (r matches Ok(c) && c@.preferred_skin_tone
                        == d.preferred_skin_tone && Some(c@.recent_emojis) == rehydrate_model(
                        catalog@,
                        d.recent_glyphs,
                    )))
                &&& (r matches Err(e) ==> e == StateError::CorruptState)
            },
    {
        match contents {
            None => Ok(Config::default()),
            Some(text) => Config::load(catalog, text),
        }
    }
}

/// Recording the same record twice is the same as recording it once:
/// the recents keep exactly one entry with its glyph, at the place of
/// the first pick, and stay unique by glyph.
#[verifier::rlimit(50)]
pub proof fn lemma_record_pick_idempotent(s: Seq<EmojiModel>, r: EmojiModel)
    requires
        distinct_glyphs(s),
    ensures
        record_pick_model(record_pick_model(s, r), r) == record_pick_model(s, r),
        has_glyph(record_pick_model(s, r), r.glyph),
        distinct_glyphs(record_pick_model(s, r)),
        exists|i: int|
            {
                &&& 0 <= i < record_pick_model(s, r).len()
                &&& (#[trigger] record_pick_model(s, r)[i]).glyph == r.glyph
                &&& forall|j: int|
                    0 <= j < record_pick_model(s, r).len() && j != i
                        ==> (#[trigger] record_pick_model(s, r)[j]).glyph != r.glyph
            },
{
    let once = record_pick_model(s, r);
    if has_glyph(s, r.glyph) {
        let i = choose|i: int| 0 <= i < s.len() && (#[trigger] s[i]).glyph == r.glyph;
        assert(once == s);
        assert forall|j: int| 0 <= j < once.len() && j != i implies (#[trigger] once[j]).glyph
            != r.glyph by {
            if j < i {
                assert(s[j].glyph != s[i].glyph);
            } else {
                assert(s[i].glyph != s[j].glyph);
            }
        }
    } else {
        let i = s.len() as int;
        assert(once == s.push(r));
        assert(once[i].glyph == r.glyph);
        assert(has_glyph(once, r.glyph));
        assert forall|p: int, q: int| 0 <= p < q < once.len() implies (#[trigger] once[p]).glyph
            != (#[trigger] once[q]).glyph by {
            if q < i {
                assert(once[p] == s[p] && once[q] == s[q]);
            } else {
                assert(q == i);
                assert(once[p] == s[p]);
                assert(!((#[trigger] s[p]).glyph == r.glyph));
            }
        }
        assert forall|j: int| 0 <= j < once.len() && j != i implies (#[trigger] once[j]).glyph
            != r.glyph by {
            assert(once[j] == s[j]);
        }
    }
}

} // verus!
