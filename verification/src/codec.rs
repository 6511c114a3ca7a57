//! The state-file format: a single object holding the preferred skin
//! tone as its textual tag and the recent glyphs as a list of quoted
//! strings, e.g. `{"preferred_skin_tone":"Medium","recent_emojis":["👍"]}`.
//! The encoder and the decoder are exact inverses on storable
//! documents, so a saved state always loads back unchanged.

use vstd::prelude::*;

use crate::catalog::SkinTone;
use crate::catalog::storable_char;
use crate::catalog::storable_text;
use crate::text::chars_of;
use crate::text::matches_at;
use crate::text::prefix_at;

verus! {

/// What the state file stores: the tone and the recent glyphs, most
/// recent last. Glyph text is kept as plain character vectors; the
/// loader resolves each against the catalog.
#[derive(Debug)]
pub struct StateDoc {
    pub preferred_skin_tone: SkinTone,
    pub recent_glyphs: Vec<Vec<char>>,
}

/// Mathematical model of a [`StateDoc`].
#[verifier::ext_equal]
pub struct StateDocModel {
    pub preferred_skin_tone: SkinTone,
    pub recent_glyphs: Seq<Seq<char>>,
}

impl View for StateDoc {
    type V = StateDocModel;

    open spec fn view(&self) -> StateDocModel {
        StateDocModel {
            preferred_skin_tone: self.preferred_skin_tone,
            recent_glyphs: self.recent_glyphs.deep_view(),
        }
    }
}

/// Every glyph of the document is storable text.
pub open spec fn doc_storable(d: StateDocModel) -> bool {
    forall|i: int| 0 <= i < d.recent_glyphs.len() ==> storable_text(#[trigger] d.recent_glyphs[i])
}

/// The textual tag of a tone, as stored in the state file.
pub open spec fn tone_tag(t: SkinTone) -> Seq<char> {
    match t {
        SkinTone::Default => "Default"@,
        SkinTone::Light => "Light"@,
        SkinTone::MediumLight => "MediumLight"@,
        SkinTone::Medium => "Medium"@,
        SkinTone::MediumDark => "MediumDark"@,
        SkinTone::Dark => "Dark"@,
    }
}

/// A glyph between double quotes.
pub open spec fn quoted(g: Seq<char>) -> Seq<char> {
    seq!['"'] + g + seq!['"']
}

/// The quoted glyphs joined by commas.
pub open spec fn items_text(gs: Seq<Seq<char>>) -> Seq<char>
    decreases gs.len(),
{
    if gs.len() == 0 {
        Seq::empty()
    } else if gs.len() == 1 {
        quoted(gs[0])
    } else {
        quoted(gs[0]) + seq![','] + items_text(gs.drop_first())
    }
}

/// Everything before the tone tag.
pub open spec fn header_text() -> Seq<char> {
    "{\"preferred_skin_tone\":\""@
}

/// Everything between the tone tag and the glyph list.
pub open spec fn middle_text() -> Seq<char> {
    "\",\"recent_emojis\":["@
}

/// Everything after the glyph list.
pub open spec fn footer_text() -> Seq<char> {
    "]}"@
}

/// The full text of a document.
pub open spec fn encode_doc(d: StateDocModel) -> Seq<char> {
    header_text() + tone_tag(d.preferred_skin_tone) + middle_text() + items_text(d.recent_glyphs)
        + footer_text()
}

/// The tag of a tone, as a string slice.
pub fn tone_tag_str(t: SkinTone) -> (r: &'static str)
    ensures
        r@ == tone_tag(t),
{
    match t {
        SkinTone::Default => "Default",
        SkinTone::Light => "Light",
        SkinTone::MediumLight => "MediumLight",
        SkinTone::Medium => "Medium",
        SkinTone::MediumDark => "MediumDark",
        SkinTone::Dark => "Dark",
    }
}

/// Appending one glyph extends the joined list text by a comma (after
/// a previous item) and the quoted glyph.
proof fn lemma_items_snoc(gs: Seq<Seq<char>>, g: Seq<char>)
    ensures
        items_text(gs.push(g)) == if gs.len() == 0 {
            quoted(g)
        } else {
            items_text(gs) + seq![','] + quoted(g)
        },
    decreases gs.len(),
{
    let whole = gs.push(g);
    if gs.len() == 0 {
        assert(whole.len() == 1);
        assert(whole[0] == g);
    } else {
        assert(whole.len() >= 2);
        assert(whole[0] == gs[0]);
        assert(whole.drop_first() =~= gs.drop_first().push(g));
        lemma_items_snoc(gs.drop_first(), g);
        if gs.len() == 1 {
            assert(items_text(whole) == quoted(gs[0]) + seq![','] + quoted(g));
            assert(items_text(gs) == quoted(gs[0]));
        } else {
            assert(items_text(whole) == quoted(gs[0]) + seq![','] + (items_text(gs.drop_first())
                + seq![','] + quoted(g)));
            assert(items_text(gs) + seq![','] + quoted(g) == (quoted(gs[0]) + seq![',']
                + items_text(gs.drop_first())) + seq![','] + quoted(g));
            assert(quoted(gs[0]) + seq![','] + (items_text(gs.drop_first()) + seq![','] + quoted(g))
                =~= (quoted(gs[0]) + seq![','] + items_text(gs.drop_first())) + seq![','] + quoted(
                g,
            ));
        }
    }
}

/// Writes the state file text for the given tone and glyph list.
pub fn encode_state(tone: SkinTone, glyphs: &Vec<String>) -> (r: String)
    ensures
        r@ == encode_doc(
            StateDocModel { preferred_skin_tone: tone, recent_glyphs: glyphs.deep_view() },
        ),
{
    let ghost gs = glyphs.deep_view();
    let mut out = String::new();
    out.append("{\"preferred_skin_tone\":\"");
    out.append(tone_tag_str(tone));
    out.append("\",\"recent_emojis\":[");
    let ghost prefix = header_text() + tone_tag(tone) + middle_text();
    proof {
        assert(out@ =~= prefix + items_text(gs.take(0)));
    }
    let n = glyphs.len();
    let mut i: usize = 0;
    while i < n
        invariant
            n == glyphs@.len(),
            gs == glyphs.deep_view(),
            0 <= i <= n,
            prefix == header_text() + tone_tag(tone) + middle_text(),
            out@ == prefix + items_text(gs.take(i as int)),
        decreases n - i,
    {
        proof {
            reveal_strlit("\"");
            reveal_strlit(",");
            assert(gs.take(i + 1) =~= gs.take(i as int).push(gs[i as int]));
            lemma_items_snoc(gs.take(i as int), gs[i as int]);
        }
        if i > 0 {
            out.append(",");
        }
        out.append("\"");
        out.append(glyphs[i].as_str());
        out.append("\"");
        proof {
            assert(("\"")@ =~= seq!['"']);
            assert((",")@ =~= seq![',']);
            assert(gs.take(i as int).len() == i);
            assert(out@ =~= prefix + items_text(gs.take(i + 1)));
        }
        i = i + 1;
    }
    out.append("]}");
    proof {
        assert(gs.take(n as int) =~= gs);
        assert(out@ =~= encode_doc(
            StateDocModel { preferred_skin_tone: tone, recent_glyphs: gs },
        ));
    }
    out
}

/// Scans forward from `i` for a closing quote, collecting storable
/// characters. Fails when a non-storable character (a backslash or a
/// control character) or the end of input comes first.
fn scan_glyph(v: &Vec<char>, i: usize) -> (r: Option<(Vec<char>, usize)>)
    requires
        i <= v@.len(),
    ensures
        r matches Some((g, jc)) ==> {
            &&& i <= jc < v@.len()
            &&& v@[jc as int] == '"'
            &&& g@ == v@.subrange(i as int, jc as int)
            &&& storable_text(g@)
        },
        r is None ==> forall|jc: int|
            i <= jc < v@.len() && v@[jc] == '"' ==> !storable_text(
                v@.subrange(i as int, jc),
            ),
{
    let len = v.len();
    let mut g: Vec<char> = Vec::new();
    let mut j: usize = i;
    proof {
        assert(g@ =~= v@.subrange(i as int, i as int));
    }
    while j < len
        invariant
            len == v@.len(),
            i <= j <= len,
            g@ == v@.subrange(i as int, j as int),
            storable_text(g@),
            forall|k: int| i <= k < j ==> v@[k] != '"',
        decreases len - j,
    {
        let c = v[j];
        if c == '"' {
            return Some((g, j));
        }
        if c == '\\' || (c as u32) < 32 {
            proof {
                assert forall|jc: int|
                    i <= jc < v@.len() && v@[jc] == '"' implies !storable_text(
                    v@.subrange(i as int, jc),
                ) by {
                    assert(jc > j);
                    assert(v@.subrange(i as int, jc)[j - i] == v@[j as int]);
                }
            }
            return None;
        }
        g.push(c);
        proof {
            assert(g@ =~= v@.subrange(i as int, j + 1));
        }
        j = j + 1;
    }
    proof {
        assert forall|jc: int|
            i <= jc < v@.len() && v@[jc] == '"' implies !storable_text(
            v@.subrange(i as int, jc),
        ) by {
        }
    }
    None
}

/// In text that shows a storable glyph `g` and then a quote, the first
/// quote at or after the glyph's start stands exactly at its end.
proof fn lemma_first_quote(v: Seq<char>, i: int, g: Seq<char>, jc: int)
    requires
        0 <= i,
        i + g.len() < v.len(),
        storable_text(g),
        v.subrange(i, i + g.len() as int) == g,
        v[i + g.len()] == '"',
        i <= jc < v.len(),
        v[jc] == '"',
        storable_text(v.subrange(i, jc)),
    ensures
        jc == i + g.len(),
{
    if jc < i + g.len() {
        assert(v.subrange(i, i + g.len() as int)[jc - i] == v[jc]);
        assert(g[jc - i] == '"');
        assert(storable_char(g[jc - i]));
    } else if jc > i + g.len() {
        assert(v.subrange(i, jc)[g.len() as int] == v[i + g.len()]);
        assert(storable_char(v.subrange(i, jc)[g.len() as int]));
    }
}

/// Every glyph of the sequence is storable text.
pub open spec fn all_storable(gs: Seq<Seq<char>>) -> bool {
    forall|i: int| 0 <= i < gs.len() ==> storable_text(#[trigger] gs[i])
}

/// What follows the first quoted glyph in the list text: the footer
/// directly after a last item, or a comma and the rest of the list.
spec fn item_rest(gs: Seq<Seq<char>>) -> Seq<char>
    recommends
        gs.len() >= 1,
{
    if gs.len() == 1 {
        footer_text()
    } else {
        seq![','] + (items_text(gs.drop_first()) + footer_text())
    }
}

/// The list text splits as its first quoted glyph and the rest.
proof fn lemma_items_head_split(gs: Seq<Seq<char>>)
    requires
        gs.len() >= 1,
    ensures
        items_text(gs) + footer_text() == quoted(gs[0]) + item_rest(gs),
{
    if gs.len() >= 2 {
        assert(items_text(gs) == quoted(gs[0]) + seq![','] + items_text(gs.drop_first()));
        assert((quoted(gs[0]) + seq![','] + items_text(gs.drop_first())) + footer_text()
            =~= quoted(gs[0]) + (seq![','] + (items_text(gs.drop_first()) + footer_text())));
    }
}

/// Where each character of a well-formed list text stands: the opening
/// quote, the first glyph, its closing quote, and after it either the
/// footer (last item) or a comma and a well-formed shorter list text.
proof fn lemma_layout(v: Seq<char>, i: int, gs: Seq<Seq<char>>)
    requires
        0 <= i <= v.len(),
        gs.len() >= 1,
        all_storable(gs),
        v.subrange(i, v.len() as int) == items_text(gs) + footer_text(),
    ensures
        v[i] == '"',
        i + 1 + gs[0].len() < v.len(),
        v.subrange(i + 1, i + 1 + gs[0].len() as int) == gs[0],
        v[i + 1 + gs[0].len()] == '"',
        i + gs[0].len() + 2 < v.len(),
        gs.len() == 1 ==> v[i + gs[0].len() + 2] == ']' && v.len() == i + gs[0].len() + 4 && v[i
            + gs[0].len() + 3] == '}',
        gs.len() >= 2 ==> v[i + gs[0].len() + 2] == ',' && v.subrange(
            i + gs[0].len() + 3,
            v.len() as int,
        ) == items_text(gs.drop_first()) + footer_text(),
{
    reveal_strlit("]}");
    assert(footer_text() =~= seq![']', '}']);
    let tail = v.subrange(i, v.len() as int);
    let g0 = gs[0];
    let qlen: int = g0.len() + 2int;
    lemma_items_head_split(gs);
    assert(tail == quoted(g0) + item_rest(gs));
    assert(quoted(g0).len() == qlen);
    assert(item_rest(gs).len() >= 2);
    assert(tail.len() == qlen + item_rest(gs).len());
    assert(v[i] == tail[0]);
    assert(tail[0] == quoted(g0)[0]);
    assert(quoted(g0)[0] == '"');
    assert forall|k: int| 0 <= k < g0.len() implies v[i + 1 + k] == g0[k] by {
        assert(v[i + 1 + k] == tail[1 + k]);
        assert(tail[1 + k] == quoted(g0)[1 + k]);
        assert(quoted(g0)[1 + k] == g0[k]);
    }
    assert(v.subrange(i + 1, i + 1 + g0.len() as int) =~= g0);
    assert(v[i + 1 + g0.len()] == tail[1 + g0.len() as int]);
    assert(tail[1 + g0.len() as int] == quoted(g0)[1 + g0.len() as int]);
    assert(quoted(g0)[1 + g0.len() as int] == '"');
    assert(v[i + g0.len() + 2] == tail[qlen as int]);
    assert(tail[qlen as int] == item_rest(gs)[0]);
    if gs.len() == 1 {
        assert(item_rest(gs)[0] == ']');
        assert(item_rest(gs).len() == 2);
        assert(v.len() == i + g0.len() + 4);
        assert(v[i + g0.len() + 3] == tail[qlen + 1]);
        assert(tail[qlen + 1] == item_rest(gs)[1]);
        assert(item_rest(gs)[1] == '}');
    } else {
        assert(item_rest(gs)[0] == ',');
        let r2 = items_text(gs.drop_first()) + footer_text();
        assert forall|m: int| 0 <= m < r2.len() implies v[i + g0.len() + 3 + m] == r2[m] by {
            assert(v[i + g0.len() + 3 + m] == tail[qlen + 1 + m]);
            assert(tail[qlen + 1 + m] == item_rest(gs)[1 + m]);
            assert(item_rest(gs)[1 + m] == r2[m]);
        }
        assert(v.subrange(i + g0.len() + 3, v.len() as int) =~= r2);
    }
}

/// Parses the glyph list and the closing of the document: everything
/// from `i` to the end of input must be the comma-joined quoted glyphs
/// followed by `]}`. Exactly the texts of well-formed lists are
/// accepted, and each list is recovered exactly.
fn parse_items(v: &Vec<char>, i: usize) -> (r: Option<Vec<Vec<char>>>)
    requires
        i <= v@.len(),
    ensures
        r matches Some(gs) ==> all_storable(gs.deep_view()) && v@.subrange(
            i as int,
            v@.len() as int,
        ) == items_text(gs.deep_view()) + footer_text(),
        forall|gs: Seq<Seq<char>>|
            all_storable(gs) && v@.subrange(i as int, v@.len() as int) == items_text(gs)
                + footer_text() ==> (r matches Some(out) && out.deep_view() == gs),
    decreases v@.len() - i,
{
    proof {
        reveal_strlit("]}");
        assert(footer_text() =~= seq![']', '}']);
    }
    let len = v.len();
    let ghost tail = v@.subrange(i as int, v@.len() as int);
    if i == len {
        proof {
            assert forall|gs: Seq<Seq<char>>|
                all_storable(gs) && tail == items_text(gs) + footer_text() implies false by {
                assert((items_text(gs) + footer_text()).len() >= 2);
            }
        }
        return None;
    }
    let c0 = v[i];
    if c0 == ']' {
        if len - i == 2 && v[i + 1] == '}' {
            let out: Vec<Vec<char>> = Vec::new();
            proof {
                assert(out.deep_view() =~= Seq::<Seq<char>>::empty());
                assert(tail =~= items_text(out.deep_view()) + footer_text());
                assert forall|gs: Seq<Seq<char>>|
                    all_storable(gs) && tail == items_text(gs) + footer_text() implies
                    out.deep_view() == gs by {
                    if gs.len() > 0 {
                        lemma_layout(v@, i as int, gs);
                    } else {
                        assert(gs =~= out.deep_view());
                    }
                }
            }
            return Some(out);
        }
        proof {
            assert forall|gs: Seq<Seq<char>>|
                all_storable(gs) && tail == items_text(gs) + footer_text() implies false by {
                if gs.len() > 0 {
                    lemma_layout(v@, i as int, gs);
                } else {
                    assert(tail.len() == 2);
                    assert(tail[1] == '}');
                }
            }
        }
        return None;
    }
    if c0 != '"' {
        proof {
            assert forall|gs: Seq<Seq<char>>|
                all_storable(gs) && tail == items_text(gs) + footer_text() implies false by {
                if gs.len() > 0 {
                    lemma_layout(v@, i as int, gs);
                } else {
                    assert(tail[0] == ']');
                }
            }
        }
        return None;
    }
    let scanned = scan_glyph(v, i + 1);
    match scanned {
        None => {
            proof {
                assert forall|gs: Seq<Seq<char>>|
                    all_storable(gs) && tail == items_text(gs) + footer_text() implies false by {
                    assert(gs.len() > 0) by {
                        if gs.len() == 0 {
                            assert(tail[0] == ']');
                        }
                    }
                    lemma_layout(v@, i as int, gs);
                    let g0 = gs[0];
                    let jq = i + 1 + g0.len();
                    assert(v@[jq as int] == '"');
                    assert(v@.subrange(i + 1, jq as int) == g0);
                    assert(storable_text(v@.subrange(i + 1, jq as int)));
                }
            }
            return None;
        },
        Some((g, jc)) => {
            proof {
                assert forall|gs: Seq<Seq<char>>|
                    all_storable(gs) && tail == items_text(gs) + footer_text() implies gs.len() > 0
                    && gs[0] == g@ && jc == i + 1 + gs[0].len() by {
                    assert(gs.len() > 0) by {
                        if gs.len() == 0 {
                            assert(tail[0] == ']');
                        }
                    }
                    lemma_layout(v@, i as int, gs);
                    lemma_first_quote(v@, i + 1, gs[0], jc as int);
                    assert(g@ == v@.subrange(i + 1, jc as int));
                }
            }
            if jc + 1 < len && v[jc + 1] == ',' {
                let rest = parse_items(v, jc + 2);
                match rest {
                    None => {
                        proof {
                            assert forall|gs: Seq<Seq<char>>|
                                all_storable(gs) && tail == items_text(gs) + footer_text() implies
                                false by {
                                assert(gs.len() > 0 && gs[0] == g@ && jc == i + 1 + gs[0].len());
                                lemma_layout(v@, i as int, gs);
                                assert(gs.len() >= 2) by {
                                    if gs.len() == 1 {
                                        assert(v@[jc + 1] == ']');
                                    }
                                }
                                assert(all_storable(gs.drop_first()));
                            }
                        }
                        return None;
                    },
                    Some(more) => {
                        let ghost moredv = more.deep_view();
                        if more.len() == 0 {
                            proof {
                                assert forall|gs: Seq<Seq<char>>|
                                    all_storable(gs) && tail == items_text(gs) + footer_text()
                                    implies false by {
                                    assert(gs.len() > 0 && gs[0] == g@ && jc == i + 1
                                        + gs[0].len());
                                    lemma_layout(v@, i as int, gs);
                                    assert(gs.len() >= 2) by {
                                        if gs.len() == 1 {
                                            assert(v@[jc + 1] == ']');
                                        }
                                    }
                                    assert(all_storable(gs.drop_first()));
                                    assert(moredv == gs.drop_first());
                                    assert(gs.drop_first().len() == 0);
                                }
                            }
                            return None;
                        }
                        let mut out = more;
                        out.insert(0, g);
                        proof {
                            assert(out.deep_view().len() == moredv.len() + 1);
                            assert forall|k: int|
                                0 <= k < out.deep_view().len() implies out.deep_view()[k] == (seq![
                                    g@,
                                ] + moredv)[k] by {
                                if k == 0 {
                                    assert(out@[0] == g);
                                    assert(g.deep_view() =~= g@);
                                } else {
                                    assert(out@[k] == more@[k - 1]);
                                    assert(moredv[k - 1] == more@[k - 1].deep_view());
                                }
                            }
                            assert(out.deep_view() =~= seq![g@] + moredv);
                            let whole = seq![g@] + moredv;
                            assert(whole.len() >= 2);
                            assert(whole[0] == g@);
                            assert(whole.drop_first() =~= moredv);
                            assert(items_text(whole) == quoted(g@) + seq![','] + items_text(
                                moredv,
                            ));
                            assert(all_storable(whole));
                            assert(v@.subrange(jc + 2, len as int) == items_text(moredv)
                                + footer_text());
                            assert forall|m: int| 0 <= m < tail.len() implies tail[m] == (items_text(
                                whole,
                            ) + footer_text())[m] by {
                                lemma_items_head_split(whole);
                                assert(v@[i + m] == tail[m]);
                                if m == 0 {
                                    assert((quoted(g@) + item_rest(whole))[0] == quoted(g@)[0]);
                                } else if m <= g@.len() {
                                    assert((quoted(g@) + item_rest(whole))[m] == quoted(g@)[m]);
                                    assert(quoted(g@)[m] == g@[m - 1]);
                                    assert(g@[m - 1] == v@.subrange(i + 1, jc as int)[m - 1]);
                                } else if m == g@.len() + 1 {
                                    assert((quoted(g@) + item_rest(whole))[m] == quoted(g@)[m]);
                                    assert(quoted(g@)[m] == '"');
                                    assert(v@[jc as int] == '"');
                                } else if m == g@.len() + 2 {
                                    assert((quoted(g@) + item_rest(whole))[m] == item_rest(
                                        whole,
                                    )[0]);
                                    assert(item_rest(whole)[0] == ',');
                                } else {
                                    assert((quoted(g@) + item_rest(whole))[m] == item_rest(
                                        whole,
                                    )[m - g@.len() - 2]);
                                    assert(item_rest(whole)[m - g@.len() - 2] == (items_text(
                                        moredv,
                                    ) + footer_text())[m - g@.len() - 3]);
                                    assert(v@.subrange(jc + 2, len as int)[m - g@.len() - 3]
                                        == v@[i + m]);
                                }
                            }
                            assert(tail =~= items_text(whole) + footer_text());
                            assert forall|gs: Seq<Seq<char>>|
                                all_storable(gs) && tail == items_text(gs) + footer_text() implies
                                out.deep_view() == gs by {
                                assert(gs.len() > 0 && gs[0] == g@ && jc == i + 1 + gs[0].len());
                                lemma_layout(v@, i as int, gs);
                                assert(gs.len() >= 2) by {
                                    if gs.len() == 1 {
                                        assert(v@[jc + 1] == ']');
                                    }
                                }
                                assert(all_storable(gs.drop_first()));
                                assert(moredv == gs.drop_first());
                                assert(gs =~= seq![gs[0]] + gs.drop_first());
                                assert(out.deep_view() =~= gs);
                            }
                        }
                        return Some(out);
                    },
                }
            } else if jc + 1 < len && v[jc + 1] == ']' {
                if jc + 2 < len && v[jc + 2] == '}' && jc + 3 == len {
                    let mut out: Vec<Vec<char>> = Vec::new();
                    out.push(g);
                    proof {
                        assert(g.deep_view() =~= g@);
                        assert(out@[0] == g);
                        assert(out.deep_view() =~= seq![g@]);
                        let whole = seq![g@];
                        assert(items_text(whole) == quoted(g@));
                        assert(all_storable(whole));
                        assert forall|m: int| 0 <= m < tail.len() implies tail[m] == (quoted(g@)
                            + footer_text())[m] by {
                            assert(v@[i + m] == tail[m]);
                            if m == 0 {
                                assert((quoted(g@) + footer_text())[0] == quoted(g@)[0]);
                            } else if m <= g@.len() {
                                assert((quoted(g@) + footer_text())[m] == quoted(g@)[m]);
                                assert(quoted(g@)[m] == g@[m - 1]);
                                assert(g@[m - 1] == v@.subrange(i + 1, jc as int)[m - 1]);
                            } else if m == g@.len() + 1 {
                                assert((quoted(g@) + footer_text())[m] == quoted(g@)[m]);
                                assert(quoted(g@)[m] == '"');
                                assert(v@[jc as int] == '"');
                            } else if m == g@.len() + 2 {
                                assert((quoted(g@) + footer_text())[m] == footer_text()[0]);
                            } else {
                                assert(m == g@.len() + 3);
                                assert((quoted(g@) + footer_text())[m] == footer_text()[1]);
                            }
                        }
                        assert(tail =~= items_text(whole) + footer_text());
                        assert forall|gs: Seq<Seq<char>>|
                            all_storable(gs) && tail == items_text(gs) + footer_text() implies
                            out.deep_view() == gs by {
                            assert(gs.len() > 0 && gs[0] == g@ && jc == i + 1 + gs[0].len());
                            lemma_layout(v@, i as int, gs);
                            assert(gs.len() == 1) by {
                                if gs.len() >= 2 {
                                    assert(v@[jc + 1] == ',');
                                }
                            }
                            assert(gs =~= seq![g@]);
                        }
                    }
                    return Some(out);
                }
                proof {
                    assert forall|gs: Seq<Seq<char>>|
                        all_storable(gs) && tail == items_text(gs) + footer_text() implies
                        false by {
                        assert(gs.len() > 0 && gs[0] == g@ && jc == i + 1 + gs[0].len());
                        lemma_layout(v@, i as int, gs);
                        assert(gs.len() == 1) by {
                            if gs.len() >= 2 {
                                assert(v@[jc + 1] == ',');
                            }
                        }
                        assert(v@[jc + 2] == '}');
                        assert(v@.len() == jc + 3);
                    }
                }
                return None;
            } else {
                proof {
                    assert forall|gs: Seq<Seq<char>>|
                        all_storable(gs) && tail == items_text(gs) + footer_text() implies
                        false by {
                        assert(gs.len() > 0 && gs[0] == g@ && jc == i + 1 + gs[0].len());
                        lemma_layout(v@, i as int, gs);
                        if gs.len() == 1 {
                            assert(v@[jc + 1] == ']');
                            assert(v@.len() == jc + 3);
                        } else {
                            assert(v@[jc + 1] == ',');
                        }
                    }
                }
                return None;
            }
        },
    }
}

/// Two tone tags that both fit the same place of the text, each
/// followed there by the fixed middle part, are the same tag: the tags
/// have pairwise different lengths, and where a shorter tag ends the
/// middle part would put a quote inside the longer tag, which holds
/// none.
proof fn lemma_tone_tag_unambiguous(v: Seq<char>, p: int, t1: SkinTone, t2: SkinTone)
    requires
        0 <= p,
        matches_at(v, tone_tag(t1), p),
        matches_at(v, middle_text(), p + tone_tag(t1).len()),
        matches_at(v, tone_tag(t2), p),
        matches_at(v, middle_text(), p + tone_tag(t2).len()),
    ensures
        t1 == t2,
{
    reveal_strlit("Default");
    reveal_strlit("Light");
    reveal_strlit("MediumLight");
    reveal_strlit("Medium");
    reveal_strlit("MediumDark");
    reveal_strlit("Dark");
    reveal_strlit("\",\"recent_emojis\":[");
    if t1 != t2 {
        let l1 = tone_tag(t1).len() as int;
        let l2 = tone_tag(t2).len() as int;
        assert(l1 != l2);
        if l1 < l2 {
            assert(v.subrange(p + l1, p + l1 + middle_text().len() as int)[0] == v[p + l1]);
            assert(v[p + l1] == middle_text()[0]);
            assert(middle_text()[0] == '"');
            assert(v.subrange(p, p + l2)[l1] == v[p + l1]);
            assert(tone_tag(t2)[l1] == '"');
        } else {
            assert(v.subrange(p + l2, p + l2 + middle_text().len() as int)[0] == v[p + l2]);
            assert(v[p + l2] == middle_text()[0]);
            assert(middle_text()[0] == '"');
            assert(v.subrange(p, p + l1)[l2] == v[p + l2]);
            assert(tone_tag(t1)[l2] == '"');
        }
        assert(false);
    }
}

/// Finds which tone tag, followed by the fixed middle part, stands
/// after the header; returns it with the position directly after the
/// middle part.
fn parse_tone(v: &Vec<char>) -> (r: Option<(SkinTone, usize)>)
    ensures
        r matches Some((t, p)) ==> {
            &&& matches_at(v@, tone_tag(t), header_text().len() as int)
            &&& matches_at(v@, middle_text(), (header_text().len() + tone_tag(t).len()) as int)
            &&& p == header_text().len() + tone_tag(t).len() + middle_text().len()
            &&& p <= v@.len()
        },
        r is None ==> forall|t: SkinTone|
            !(matches_at(v@, #[trigger] tone_tag(t), header_text().len() as int) && matches_at(
                v@,
                middle_text(),
                (header_text().len() + tone_tag(t).len()) as int,
            )),
{
    let vlen = v.len();
    let hdr = chars_of("{\"preferred_skin_tone\":\"");
    let mid = chars_of("\",\"recent_emojis\":[");
    let tones = [
        SkinTone::Default,
        SkinTone::Light,
        SkinTone::MediumLight,
        SkinTone::Medium,
        SkinTone::MediumDark,
        SkinTone::Dark,
    ];
    let mut k: usize = 0;
    while k < 6
        invariant
            vlen == v@.len(),
            hdr@ == header_text(),
            mid@ == middle_text(),
            tones@ =~= seq![
                SkinTone::Default,
                SkinTone::Light,
                SkinTone::MediumLight,
                SkinTone::Medium,
                SkinTone::MediumDark,
                SkinTone::Dark,
            ],
            0 <= k <= 6,
            forall|j: int|
                0 <= j < k ==> !(matches_at(
                    v@,
                    #[trigger] tone_tag(tones@[j]),
                    header_text().len() as int,
                ) && matches_at(
                    v@,
                    middle_text(),
                    (header_text().len() + tone_tag(tones@[j]).len()) as int,
                )),
        decreases 6 - k,
    {
        let t = tones[k];
        let tag = chars_of(tone_tag_str(t));
        if prefix_at(v, &tag, hdr.len()) {
            proof {
                assert(hdr@.len() + tag@.len() <= v@.len());
            }
            let after_tag = hdr.len() + tag.len();
            if prefix_at(v, &mid, after_tag) {
                proof {
                    assert(after_tag + mid@.len() <= v@.len());
                }
                return Some((t, after_tag + mid.len()));
            }
        }
        proof {
            assert(tones@[k as int] == t);
        }
        k = k + 1;
    }
    proof {
        assert forall|t: SkinTone|
            !(matches_at(v@, #[trigger] tone_tag(t), header_text().len() as int) && matches_at(
                v@,
                middle_text(),
                (header_text().len() + tone_tag(t).len()) as int,
            )) by {
            let ts = seq![
                SkinTone::Default,
                SkinTone::Light,
                SkinTone::MediumLight,
                SkinTone::Medium,
                SkinTone::MediumDark,
                SkinTone::Dark,
            ];
            match t {
                SkinTone::Default => assert(ts[0] == t),
                SkinTone::Light => assert(ts[1] == t),
                SkinTone::MediumLight => assert(ts[2] == t),
                SkinTone::Medium => assert(ts[3] == t),
                SkinTone::MediumDark => assert(ts[4] == t),
                SkinTone::Dark => assert(ts[5] == t),
            }
        }
    }
    None
}

/// In the text of a document, the header, the tone tag, the middle
/// part and the glyph list each stand at their place.
proof fn lemma_doc_layout(v: Seq<char>, d: StateDocModel)
    requires
        v == encode_doc(d),
    ensures
        matches_at(v, header_text(), 0),
        matches_at(v, tone_tag(d.preferred_skin_tone), header_text().len() as int),
        matches_at(v, middle_text(), (header_text().len() + tone_tag(d.preferred_skin_tone).len()) as int),
        v.subrange(
            (header_text().len() + tone_tag(d.preferred_skin_tone).len()
                + middle_text().len()) as int,
            v.len() as int,
        ) == items_text(d.recent_glyphs) + footer_text(),
{
    let h = header_text();
    let t = tone_tag(d.preferred_skin_tone);
    let m = middle_text();
    let it = items_text(d.recent_glyphs);
    let f = footer_text();
    assert(v.len() == h.len() + t.len() + m.len() + it.len() + f.len());
    assert(v.subrange(0, h.len() as int) =~= h);
    assert(v.subrange(h.len() as int, (h.len() + t.len()) as int) =~= t);
    assert(v.subrange((h.len() + t.len()) as int, (h.len() + t.len() + m.len()) as int) =~= m);
    assert(v.subrange((h.len() + t.len() + m.len()) as int, v.len() as int) =~= it + f);
}

/// A text with the header, a tone tag, the middle part and a glyph
/// list at their places is the text of that document.
proof fn lemma_doc_assemble(v: Seq<char>, d: StateDocModel)
    requires
        matches_at(v, header_text(), 0),
        matches_at(v, tone_tag(d.preferred_skin_tone), header_text().len() as int),
        matches_at(v, middle_text(), (header_text().len() + tone_tag(d.preferred_skin_tone).len()) as int),
        v.subrange(
            (header_text().len() + tone_tag(d.preferred_skin_tone).len()
                + middle_text().len()) as int,
            v.len() as int,
        ) == items_text(d.recent_glyphs) + footer_text(),
    ensures
        v == encode_doc(d),
{
    let h = header_text();
    let t = tone_tag(d.preferred_skin_tone);
    let m = middle_text();
    let it = items_text(d.recent_glyphs);
    let f = footer_text();
    let p: int = (h.len() + t.len() + m.len()) as int;
    assert(p <= v.len());
    assert(v.subrange(p, v.len() as int).len() == v.len() - p);
    assert(v.len() - p == it.len() + f.len());
    assert forall|k: int| 0 <= k < v.len() implies v[k] == encode_doc(d)[k] by {
        if k < h.len() {
            assert(v.subrange(0, h.len() as int)[k] == v[k]);
        } else if k < h.len() + t.len() {
            assert(v.subrange(h.len() as int, (h.len() + t.len()) as int)[k - h.len()] == v[k]);
        } else if k < p {
            assert(v.subrange((h.len() + t.len()) as int, (h.len() + t.len() + m.len()) as int)[k
                - h.len() - t.len()] == v[k]);
        } else {
            assert(v.subrange(p, v.len() as int)[k - p] == v[k]);
            assert((it + f)[k - p] == v[k]);
        }
    }
    assert(v =~= encode_doc(d));
}

/// Reads a state file text back into a document. Exactly the texts
/// written by [`encode_state`] for storable documents are accepted,
/// and each document is recovered exactly; everything else is refused.
pub fn decode_state(s: &str) -> (r: Option<StateDoc>)
    ensures
        r matches Some(d) ==> doc_storable(d@) && s@ == encode_doc(d@),
        forall|d: StateDocModel|
            doc_storable(d) && s@ == encode_doc(d) ==> (r matches Some(out) && out@ == d),
{
    let v = chars_of(s);
    let hdr = chars_of("{\"preferred_skin_tone\":\"");
    if !prefix_at(&v, &hdr, 0) {
        proof {
            assert forall|d: StateDocModel|
                doc_storable(d) && s@ == encode_doc(d) implies false by {
                lemma_doc_layout(v@, d);
            }
        }
        return None;
    }
    let tone = parse_tone(&v);
    match tone {
        None => {
            proof {
                assert forall|d: StateDocModel|
                    doc_storable(d) && s@ == encode_doc(d) implies false by {
                    lemma_doc_layout(v@, d);
                }
            }
            None
        },
        Some((t, p)) => {
            let items = parse_items(&v, p);
            match items {
                None => {
                    proof {
                        assert forall|d: StateDocModel|
                            doc_storable(d) && s@ == encode_doc(d) implies false by {
                            lemma_doc_layout(v@, d);
                            lemma_tone_tag_unambiguous(v@, header_text().len() as int, t, d.preferred_skin_tone);
                            assert(t == d.preferred_skin_tone);
                            assert(p as int == header_text().len() + tone_tag(
                                d.preferred_skin_tone,
                            ).len() + middle_text().len());
                            assert(v@.subrange(p as int, v@.len() as int) == items_text(
                                d.recent_glyphs,
                            ) + footer_text());
                            assert(all_storable(d.recent_glyphs));
                        }
                    }
                    None
                },
                Some(gs) => {
                    let doc = StateDoc { preferred_skin_tone: t, recent_glyphs: gs };
                    proof {
                        let ghost dm = doc@;
                        assert(dm.recent_glyphs == doc.recent_glyphs.deep_view());
                        lemma_doc_assemble(v@, dm);
                        assert forall|d: StateDocModel|
                            doc_storable(d) && s@ == encode_doc(d) implies doc@ == d by {
                            lemma_doc_layout(v@, d);
                            lemma_tone_tag_unambiguous(v@, header_text().len() as int, t, d.preferred_skin_tone);
                            assert(t == d.preferred_skin_tone);
                            assert(p as int == header_text().len() + tone_tag(
                                d.preferred_skin_tone,
                            ).len() + middle_text().len());
                            assert(v@.subrange(p as int, v@.len() as int) == items_text(
                                d.recent_glyphs,
                            ) + footer_text());
                            assert(all_storable(d.recent_glyphs));
                            assert(doc@.recent_glyphs == d.recent_glyphs);
                            assert(doc@ =~= d);
                        }
                    }
                    Some(doc)
                },
            }
        },
    }
}

} // verus!
