//! Free-text search over emoji records: a record passes a query when
//! the query occurs, case insensitively, in its display name or in one
//! of its shortcodes. The empty query passes everything; the input
//! order is preserved and nothing is ranked.

use vstd::prelude::*;

use crate::catalog::EmojiModel;
use crate::catalog::EmojiRecord;
use crate::catalog::lemma_take_filter_step;
use crate::text::contains_ci;
use crate::text::contains_chars;
use crate::text::lower_chars;
use crate::text::lower_seq;

verus! {

/// The record `r` passes query `q`: `q` is empty, or occurs case
/// insensitively in the name or in some shortcode.
pub open spec fn matches_model(r: EmojiModel, q: Seq<char>) -> bool {
    ||| q.len() == 0
    ||| contains_ci(r.name, q)
    ||| exists|i: int| 0 <= i < r.shortcodes.len() && contains_ci(#[trigger] r.shortcodes[i], q)
}

/// The records of `s` that pass query `q`, in order.
pub open spec fn filter_model(s: Seq<EmojiModel>, q: Seq<char>) -> Seq<EmojiModel> {
    s.filter(|r: EmojiModel| matches_model(r, q))
}

/// Checks whether one record passes a query.
pub fn record_matches(record: &EmojiRecord, query: &str) -> (r: bool)
    ensures
        r == matches_model(record@, query@),
{
    let qf = lower_chars(query);
    if qf.len() == 0 {
        return true;
    }
    let namef = lower_chars(record.name.as_str());
    if contains_chars(&namef, &qf) {
        return true;
    }
    let n = record.shortcodes.len();
    let mut i: usize = 0;
    while i < n
        invariant
            n == record.shortcodes@.len(),
            0 <= i <= n,
            qf@ == lower_seq(query@),
            forall|k: int| 0 <= k < i ==> !contains_ci(#[trigger] record@.shortcodes[k], query@),
        decreases n - i,
    {
        let sf = lower_chars(record.shortcodes[i].as_str());
        if contains_chars(&sf, &qf) {
            proof {
                assert(contains_ci(#[trigger] record@.shortcodes[i as int], query@));
            }
            return true;
        }
        i = i + 1;
    }
    proof {
        assert(!matches_model(record@, query@));
    }
    false
}

/// Keeps the records of `source` that pass `query`, in input order.
/// The empty query keeps the whole input unchanged.
pub fn filter(source: &Vec<EmojiRecord>, query: &str) -> (r: Vec<EmojiRecord>)
    ensures
        r.deep_view() == filter_model(source.deep_view(), query@),
        query@.len() == 0 ==> r.deep_view() == source.deep_view(),
{
    let ghost src = source.deep_view();
    let ghost qpred = |m: EmojiModel| matches_model(m, query@);
    let n = source.len();
    let mut out: Vec<EmojiRecord> = Vec::new();
    let mut i: usize = 0;
    proof {
        assert(out.deep_view() =~= src.take(0).filter(qpred));
    }
    while i < n
        invariant
            n == source@.len(),
            src == source.deep_view(),
            qpred == (|m: EmojiModel| matches_model(m, query@)),
            0 <= i <= n,
            out.deep_view() == src.take(i as int).filter(qpred),
        decreases n - i,
    {
        proof {
            lemma_take_filter_step(src, qpred, i as int);
        }
        let rec = &source[i];
        if record_matches(rec, query) {
            out.push(rec.clone());
            proof {
                assert(out.deep_view() =~= src.take(i + 1).filter(qpred));
            }
        }
        i = i + 1;
    }
    proof {
        assert(src.take(n as int) =~= src);
        if query@.len() == 0 {
            lemma_filter_all(src, qpred);
        }
    }
    out
}

/// Filtering by a predicate that holds of every element keeps the
/// sequence unchanged.
proof fn lemma_filter_all<A>(s: Seq<A>, pred: spec_fn(A) -> bool)
    requires
        forall|i: int| 0 <= i < s.len() ==> pred(#[trigger] s[i]),
    ensures
        s.filter(pred) == s,
    decreases s.len(),
{
    reveal(Seq::filter);
    if s.len() > 0 {
        lemma_filter_all(s.drop_last(), pred);
        assert(pred(s.last()));
        assert(s.drop_last().push(s.last()) =~= s);
    }
}

/// The query filter keeps only input records, keeps no record that
/// fails the query, and keeps every record that passes it, in order:
/// the result never grows past its input, each kept record passes the
/// query, and the empty query keeps everything.
pub proof fn lemma_filter_is_subset(s: Seq<EmojiModel>, q: Seq<char>)
    ensures
        filter_model(s, q).len() <= s.len(),
        forall|i: int|
            0 <= i < filter_model(s, q).len() ==> s.contains(#[trigger] filter_model(s, q)[i])
                && matches_model(filter_model(s, q)[i], q),
        forall|i: int|
            0 <= i < s.len() && matches_model(#[trigger] s[i], q) ==> filter_model(s, q).contains(
                s[i],
            ),
        q.len() == 0 ==> filter_model(s, q) == s,
{
    broadcast use vstd::seq_lib::group_filter_ensures;

    let pred = |r: EmojiModel| matches_model(r, q);
    assert forall|i: int|
        0 <= i < filter_model(s, q).len() implies s.contains(#[trigger] filter_model(s, q)[i])
        && matches_model(filter_model(s, q)[i], q) by {
        assert(pred(s.filter(pred)[i]));
        assert(s.filter(pred).contains(s.filter(pred)[i]));
        s.lemma_filter_contains_rev(pred, s.filter(pred)[i]);
    }
    if q.len() == 0 {
        lemma_filter_all(s, pred);
    }
}

} // verus!
