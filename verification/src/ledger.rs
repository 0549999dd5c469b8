//! The club ledger: one [`Stats`] entry per registered club, indexed by
//! the registry, advanced once per match strictly in chronological order.
use vstd::prelude::*;

use crate::models::{Clubs, Match};
use crate::stats::{Stats, StatsModel};

verus! {

/// The ledger entry the club called `name` has after the matches `ms`
/// are applied in order to an empty ledger: its home goals in home
/// matches with a known result, its away goals in away matches with a
/// known result, and the matching games-played counts.
pub open spec fn stats_model(ms: Seq<Match>, name: Seq<char>) -> StatsModel
    decreases ms.len(),
{
    if ms.len() == 0 {
        StatsModel { home: Seq::empty(), away: Seq::empty(), played_home: 0, played_away: 0 }
    } else {
        stats_model_step(stats_model(ms.drop_last(), name), ms.last(), name)
    }
}

/// One match applied to one ledger entry.
pub open spec fn stats_model_step(p: StatsModel, m: Match, name: Seq<char>) -> StatsModel {
    match m.result {
        Some(r) => {
            let h = if m.home@ == name {
                StatsModel {
                    home: p.home.push(r[0]),
                    away: p.away,
                    played_home: p.played_home + 1,
                    played_away: p.played_away,
                }
            } else {
                p
            };
            if m.away@ == name {
                StatsModel {
                    home: h.home,
                    away: h.away.push(r[1]),
                    played_home: h.played_home,
                    played_away: h.played_away + 1,
                }
            } else {
                h
            }
        },
        None => p,
    }
}

/// Unfolds `stats_model` over a push.
pub proof fn lemma_stats_model_push(ms: Seq<Match>, m: Match, name: Seq<char>)
    ensures
        stats_model(ms.push(m), name) == stats_model_step(stats_model(ms, name), m, name),
{
    assert(ms.push(m).drop_last() =~= ms);
    assert(ms.push(m).last() == m);
}

/// The per-club statistics ledger, indexed in step with a club registry.
#[derive(Debug)]
pub struct Ledger {
    pub entries: Vec<Stats>,
}

impl Ledger {
    /// Every entry satisfies the cross-field invariant.
    pub open spec fn wf(self) -> bool {
        forall|i: int| 0 <= i < self.entries@.len() ==> (#[trigger] self.entries@[i]).wf()
    }

    /// The ledger is exactly the history `ms`, entry by entry, for the
    /// clubs of `clubs`.
    pub open spec fn models(self, clubs: Clubs, ms: Seq<Match>) -> bool {
        &&& self.entries@.len() == clubs.data@.len()
        &&& forall|i: int|
            0 <= i < self.entries@.len() ==> (#[trigger] self.entries@[i])@ == stats_model(
                ms,
                clubs.data@[i].name@,
            )
    }

    /// A fresh ledger: one empty entry per registered club.
    pub fn new(clubs: &Clubs) -> (l: Ledger)
        ensures
            l.wf(),
            l.models(*clubs, Seq::<Match>::empty()),
    {
        let mut entries: Vec<Stats> = Vec::new();
        let n = clubs.data.len();
        for i in 0..n
            invariant
                entries@.len() == i,
                forall|j: int| 0 <= j < i ==> (#[trigger] entries@[j]).wf(),
                forall|j: int|
                    0 <= j < i ==> (#[trigger] entries@[j])@ == stats_model(
                        Seq::<Match>::empty(),
                        Seq::<char>::empty(),
                    ),
        {
            entries.push(Stats::default());
        }
        let l = Ledger { entries };
        proof {
            assert forall|i: int| 0 <= i < l.entries@.len() implies (#[trigger] l.entries@[i])@
                == stats_model(Seq::<Match>::empty(), clubs.data@[i].name@) by {
                assert(l.entries@[i]@ == stats_model(Seq::<Match>::empty(), Seq::<char>::empty()));
            }
        }
        l
    }

    /// Applies one match: with a known result, the home club's entry gains
    /// the home goals and one home game, the away club's entry gains the
    /// away goals and one away game; all other entries are untouched.
    /// Without a result nothing changes at all — a prediction fixture
    /// never mutates the ledger.  The cross-field invariant is preserved.
    pub fn apply(&mut self, m: &Match, hi: usize, ai: usize)
        requires
            hi < old(self).entries@.len(),
            ai < old(self).entries@.len(),
            hi != ai,
            m.result is Some ==> old(self).entries@[hi as int].games_played[0] < 255,
            m.result is Some ==> old(self).entries@[ai as int].games_played[1] < 255,
        ensures
            final(self).entries@.len() == old(self).entries@.len(),
            m.result is None ==> *final(self) == *old(self),
            m.result is Some ==> {
                let r = m.result->Some_0;
                let pre_h = old(self).entries@[hi as int]@;
                let pre_a = old(self).entries@[ai as int]@;
                &&& final(self).entries@[hi as int]@ == StatsModel {
                    home: pre_h.home.push(r[0]),
                    away: pre_h.away,
                    played_home: pre_h.played_home + 1,
                    played_away: pre_h.played_away,
                }
                &&& final(self).entries@[ai as int]@ == StatsModel {
                    home: pre_a.home,
                    away: pre_a.away.push(r[1]),
                    played_home: pre_a.played_home,
                    played_away: pre_a.played_away + 1,
                }
                &&& forall|j: int|
                    0 <= j < final(self).entries@.len() && j != hi && j != ai
                        ==> final(self).entries@[j] == old(self).entries@[j]
            },
            old(self).wf() ==> final(self).wf(),
    {
        if let Some(result) = m.result {
            let h = &mut self.entries[hi];
            h.home_scores.push(result[0]);
            h.games_played = [h.games_played[0] + 1, h.games_played[1]];
            let a = &mut self.entries[ai];
            a.away_scores.push(result[1]);
            a.games_played = [a.games_played[0], a.games_played[1] + 1];
        }
    }
}

} // verus!
