//! Causality: "to date" queries agree with the ledger.
//!
//! The pipeline promises that a query for match *m* sees only history
//! strictly earlier than *m*.  Two readings of that promise exist side by
//! side: scan queries filter the full collection to dates before *m*'s,
//! while ledger queries read the per-club entries as they stand just
//! before *m*'s own mutation.  For a strictly dated collection the two
//! readings coincide, which is proved here.
use vstd::prelude::*;

use crate::ledger::{lemma_stats_model_push, stats_model};
use crate::models::Match;
use crate::stats::{spec_away_goals_before, spec_home_goals_before};

verus! {

/// The matches strictly before `d`, in collection order.
pub open spec fn matches_before(ms: Seq<Match>, d: i64) -> Seq<Match> {
    ms.filter(|m: Match| m.date < d)
}

/// Dates strictly increase along the collection.
pub open spec fn strictly_dated(ms: Seq<Match>) -> bool {
    forall|i: int, j: int| 0 <= i < j < ms.len() ==> ms[i].date < ms[j].date
}

/// A filter that every element passes keeps the whole sequence.
proof fn lemma_filter_all(ms: Seq<Match>, pred: spec_fn(Match) -> bool)
    requires
        forall|i: int| 0 <= i < ms.len() ==> pred(#[trigger] ms[i]),
    ensures
        ms.filter(pred) == ms,
    decreases ms.len(),
{
    reveal(Seq::filter);
    if ms.len() > 0 {
        lemma_filter_all(ms.drop_last(), pred);
        assert(ms.filter(pred) =~= ms);
    }
}

/// In a strictly dated collection, the prefix before position `i` is
/// exactly the filter to dates before `ms[i].date`.
pub proof fn lemma_prefix_is_before(ms: Seq<Match>, i: int)
    requires
        strictly_dated(ms),
        0 <= i < ms.len(),
    ensures
        matches_before(ms, ms[i].date) == ms.take(i),
    decreases ms.len(),
{
    reveal(Seq::filter);
    let d = ms[i].date;
    let pred = |m: Match| m.date < d;
    if i == ms.len() - 1 {
        assert(!pred(ms.last()));
        lemma_filter_all(ms.drop_last(), pred);
        assert(ms.drop_last() =~= ms.take(i));
    } else {
        let rest = ms.drop_last();
        assert(strictly_dated(rest)) by {
            assert forall|p: int, q: int| 0 <= p < q < rest.len() implies rest[p].date
                < rest[q].date by {
                assert(rest[p] == ms[p]);
                assert(rest[q] == ms[q]);
            }
        }
        assert(rest[i] == ms[i]);
        lemma_prefix_is_before(rest, i);
        assert(!pred(ms.last()));
        assert(matches_before(ms, d) == matches_before(rest, d));
        assert(rest.take(i) =~= ms.take(i));
    }
}

/// Law (causality): any "to date" query for the match at position `i` of
/// a strictly dated collection yields identical results whether it is
/// computed against the full collection filtered to dates strictly before
/// that match, or against the ledger state immediately before that
/// match's own mutation — the ledger after the first `i` matches.  The
/// per-club history sequences agree exactly, so every query derived from
/// them (totals, maxima, medians, win/draw/loss counts) agrees too.
pub proof fn lemma_causality(ms: Seq<Match>, i: int, name: Seq<char>)
    requires
        strictly_dated(ms),
        0 <= i < ms.len(),
    ensures
        stats_model(matches_before(ms, ms[i].date), name) == stats_model(ms.take(i), name),
        spec_home_goals_before(ms, name, ms[i].date) == stats_model(ms.take(i), name).home,
        spec_away_goals_before(ms, name, ms[i].date) == stats_model(ms.take(i), name).away,
{
    lemma_prefix_is_before(ms, i);
    lemma_goals_are_model(ms, name, ms[i].date);
}

/// The scan-based goal lists are the history sequences of the ledger
/// model taken over the filtered collection.
proof fn lemma_goals_are_model(ms: Seq<Match>, name: Seq<char>, d: i64)
    ensures
        spec_home_goals_before(ms, name, d) == stats_model(matches_before(ms, d), name).home,
        spec_away_goals_before(ms, name, d) == stats_model(matches_before(ms, d), name).away,
    decreases ms.len(),
{
    reveal(Seq::filter);
    let pred = |m: Match| m.date < d;
    if ms.len() == 0 {
        assert(matches_before(ms, d) =~= Seq::<Match>::empty());
    } else {
        let rest = ms.drop_last();
        let m = ms.last();
        lemma_goals_are_model(rest, name, d);
        if pred(m) {
            assert(matches_before(ms, d) == matches_before(rest, d).push(m));
            lemma_stats_model_push(matches_before(rest, d), m, name);
        } else {
            assert(matches_before(ms, d) == matches_before(rest, d));
        }
    }
}

} // verus!
