//! The per-club statistics ledger entry and its pure query functions.
//!
//! A `Stats` value records, for one club, the goals it scored in each home
//! match and in each away match, in chronological order, together with the
//! two games-played counters.  The cross-field invariant — each counter
//! equals the length of its score list — holds after every update.
use vstd::prelude::*;

use crate::models::{Match, Scoring};
use crate::ratio::{Rat, Ratio};
use vstd::relations::{sorted_by, total_ordering};

verus! {

/// The sum of a score list.
pub open spec fn sum_of(s: Seq<u8>) -> int
    decreases s.len(),
{
    if s.len() == 0 {
        0
    } else {
        sum_of(s.drop_last()) + s.last()
    }
}

/// The greatest entry of a score list, `0` when the list is empty.
pub open spec fn max_of(s: Seq<u8>) -> int
    decreases s.len(),
{
    if s.len() == 0 {
        0
    } else {
        let p = max_of(s.drop_last());
        if s.last() > p {
            s.last() as int
        } else {
            p
        }
    }
}

/// The mathematical content of a ledger entry.
pub struct StatsModel {
    pub home: Seq<u8>,
    pub away: Seq<u8>,
    pub played_home: int,
    pub played_away: int,
}

/// One club's running scoring record: ordered home and away score lists
/// plus the `[home, away]` games-played counters.
#[derive(Debug)]
pub struct Stats {
    pub home_scores: Vec<u8>,
    pub away_scores: Vec<u8>,
    pub games_played: [u8; 2],
}

impl View for Stats {
    type V = StatsModel;

    open spec fn view(&self) -> StatsModel {
        StatsModel {
            home: self.home_scores@,
            away: self.away_scores@,
            played_home: self.games_played[0] as int,
            played_away: self.games_played[1] as int,
        }
    }
}

impl Stats {
    /// The cross-field invariant: each games-played counter equals the
    /// length of the matching score list.
    pub open spec fn wf(self) -> bool {
        &&& self.home_scores@.len() == self.games_played[0] as int
        &&& self.away_scores@.len() == self.games_played[1] as int
    }

    /// Replaces this entry wholesale.
    pub fn update(&mut self, new: Stats)
        ensures
            *final(self) == new,
    {
        *self = new;
    }

    /// Sums the retained scoring for home and away matches.  The result
    /// is already "to date" because entries are mutated only after the
    /// current match's features are generated.
    pub fn total_scoring_by_club_to_date(stats: &Stats) -> (r: [u32; 2])
        requires
            stats.wf(),
        ensures
            r[0] == sum_of(stats@.home),
            r[1] == sum_of(stats@.away),
    {
        [sum_u8(&stats.home_scores), sum_u8(&stats.away_scores)]
    }

    /// The club's highest scoring at home and away; `0` where it has no
    /// recorded match.
    pub fn highest_scoring_by_club_to_date(stats: &Stats) -> (r: [u8; 2])
        ensures
            r[0] == max_of(stats@.home),
            r[1] == max_of(stats@.away),
    {
        [max_u8(&stats.home_scores), max_u8(&stats.away_scores)]
    }

    /// The all-time highest scoring in the whole match set, per side:
    /// `[max home goals, max away goals]` over matches with a known
    /// result.
    pub fn all_time_highest_score_in_league(matches: &[Match]) -> (r: [u8; 2])
        ensures
            r[0] == spec_highest_score(matches@, 0),
            r[1] == spec_highest_score(matches@, 1),
    {
        let mut score: [u8; 2] = [0, 0];
        let n = matches.len();
        for i in 0..n
            invariant
                n == matches@.len(),
                score[0] == spec_highest_score(matches@.take(i as int), 0),
                score[1] == spec_highest_score(matches@.take(i as int), 1),
        {
            if let Some(result) = matches[i].result {
                if result[0] > score[0] {
                    score[0] = result[0];
                }
                if result[1] > score[1] {
                    score[1] = result[1];
                }
            }
            proof {
                assert(matches@.take(i + 1).drop_last() =~= matches@.take(i as int));
            }
        }
        proof {
            assert(matches@.take(n as int) =~= matches@);
        }
        score
    }

    /// The highest scoring per side among matches strictly before `date`
    /// with a known result — an O(N) scan of the whole set per call.
    pub fn highest_scoring_in_league_to_date(matches: &[Match], date: i64) -> (r: [u8; 2])
        ensures
            r[0] == spec_highest_score_before(matches@, 0, date),
            r[1] == spec_highest_score_before(matches@, 1, date),
    {
        let mut hs: [u8; 2] = [0, 0];
        let n = matches.len();
        for i in 0..n
            invariant
                n == matches@.len(),
                hs[0] == spec_highest_score_before(matches@.take(i as int), 0, date),
                hs[1] == spec_highest_score_before(matches@.take(i as int), 1, date),
        {
            if let Some(result) = matches[i].result {
                if matches[i].date < date {
                    if result[0] > hs[0] {
                        hs[0] = result[0];
                    }
                    if result[1] > hs[1] {
                        hs[1] = result[1];
                    }
                }
            }
            proof {
                assert(matches@.take(i + 1).drop_last() =~= matches@.take(i as int));
            }
        }
        proof {
            assert(matches@.take(n as int) =~= matches@);
        }
        hs
    }

    /// The number of game days in a match collection.
    pub fn game_days(matches: &[Match]) -> (r: usize)
        ensures
            r == matches@.len(),
    {
        matches.len()
    }
}

impl Stats {
    /// The goal difference between home and away scoring: the counted
    /// home goals divided (whole-number division) by the counted away
    /// goals, or the raw home total when no away goal is recorded.  The
    /// counted scores — the first `games_played` entries of each list —
    /// are drained from the entry in the process.
    pub fn goal_diff(stats: &mut Stats) -> (r: u8)
        requires
            old(stats).games_played[0] as int <= old(stats)@.home.len(),
            old(stats).games_played[1] as int <= old(stats)@.away.len(),
            sum_of(old(stats)@.home.take(old(stats).games_played[0] as int)) <= 255,
            sum_of(old(stats)@.away.take(old(stats).games_played[1] as int)) <= 255,
        ensures
            final(stats)@.home == old(stats)@.home.skip(old(stats).games_played[0] as int),
            final(stats)@.away == old(stats)@.away.skip(old(stats).games_played[1] as int),
            final(stats).games_played == old(stats).games_played,
            r == ({
                let h = sum_of(old(stats)@.home.take(old(stats).games_played[0] as int));
                let a = sum_of(old(stats)@.away.take(old(stats).games_played[1] as int));
                if a != 0 {
                    h / a
                } else {
                    h
                }
            }),
    {
        let counted = Self::drain_counted(stats);
        if counted[1] != 0 {
            counted[0] / counted[1]
        } else {
            counted[0]
        }
    }

    /// As [`Stats::goal_diff`], but with exact division: the home-over-
    /// away scoring ratio for [`Scoring::Home`], the away-over-home
    /// ratio for [`Scoring::Away`], each falling back to the raw total
    /// when its divisor is zero.  Drains the counted scores likewise.
    pub fn goal_diff_feature(stats: &mut Stats, scoring: Scoring) -> (r: Ratio)
        requires
            old(stats).games_played[0] as int <= old(stats)@.home.len(),
            old(stats).games_played[1] as int <= old(stats)@.away.len(),
            sum_of(old(stats)@.home.take(old(stats).games_played[0] as int)) <= 255,
            sum_of(old(stats)@.away.take(old(stats).games_played[1] as int)) <= 255,
        ensures
            final(stats)@.home == old(stats)@.home.skip(old(stats).games_played[0] as int),
            final(stats)@.away == old(stats)@.away.skip(old(stats).games_played[1] as int),
            final(stats).games_played == old(stats).games_played,
            r@ == ({
                let h = sum_of(old(stats)@.home.take(old(stats).games_played[0] as int));
                let a = sum_of(old(stats)@.away.take(old(stats).games_played[1] as int));
                match scoring {
                    Scoring::Home => if a != 0 {
                        Rat { num: h, den: a }
                    } else {
                        Rat { num: h, den: 1 }
                    },
                    Scoring::Away => if h != 0 {
                        Rat { num: a, den: h }
                    } else {
                        Rat { num: a, den: 1 }
                    },
                }
            }),
    {
        let counted = Self::drain_counted(stats);
        let h = counted[0];
        let a = counted[1];
        match scoring {
            Scoring::Home => if a != 0 {
                Ratio { num: h as i128, den: a as i128 }
            } else {
                Ratio { num: h as i128, den: 1 }
            },
            Scoring::Away => if h != 0 {
                Ratio { num: a as i128, den: h as i128 }
            } else {
                Ratio { num: a as i128, den: 1 }
            },
        }
    }

    /// Removes the counted prefix of each score list and returns the two
    /// sums.
    fn drain_counted(stats: &mut Stats) -> (r: [u8; 2])
        requires
            old(stats).games_played[0] as int <= old(stats)@.home.len(),
            old(stats).games_played[1] as int <= old(stats)@.away.len(),
            sum_of(old(stats)@.home.take(old(stats).games_played[0] as int)) <= 255,
            sum_of(old(stats)@.away.take(old(stats).games_played[1] as int)) <= 255,
        ensures
            final(stats)@.home == old(stats)@.home.skip(old(stats).games_played[0] as int),
            final(stats)@.away == old(stats)@.away.skip(old(stats).games_played[1] as int),
            final(stats).games_played == old(stats).games_played,
            r[0] == sum_of(old(stats)@.home.take(old(stats).games_played[0] as int)),
            r[1] == sum_of(old(stats)@.away.take(old(stats).games_played[1] as int)),
    {
        let h_count = stats.games_played[0] as usize;
        let a_count = stats.games_played[1] as usize;
        let h = drain_prefix_sum(&mut stats.home_scores, h_count);
        let a = drain_prefix_sum(&mut stats.away_scores, a_count);
        [h, a]
    }
}

/// Removes the first `count` entries and returns their sum.
fn drain_prefix_sum(v: &mut Vec<u8>, count: usize) -> (s: u8)
    requires
        count <= old(v)@.len(),
        sum_of(old(v)@.take(count as int)) <= 255,
    ensures
        final(v)@ == old(v)@.skip(count as int),
        s == sum_of(old(v)@.take(count as int)),
{
    let mut acc: u8 = 0;
    for i in 0..count
        invariant
            count <= v@.len(),
            v@ == old(v)@,
            acc == sum_of(v@.take(i as int)),
            sum_of(v@.take(count as int)) <= 255,
    {
        proof {
            assert(v@.take(i + 1).drop_last() =~= v@.take(i as int));
            lemma_sum_take_monotonic(v@, i + 1, count as int);
        }
        acc = acc + v[i];
    }
    let mut rest: Vec<u8> = Vec::new();
    let n = v.len();
    for i in count..n
        invariant
            n == v@.len(),
            count <= n,
            v@ == old(v)@,
            rest@ == v@.subrange(count as int, i as int),
    {
        rest.push(v[i]);
        proof {
            assert(v@.subrange(count as int, i + 1) =~= v@.subrange(count as int, i as int).push(
                v@[i as int],
            ));
        }
    }
    proof {
        assert(v@.subrange(count as int, n as int) =~= v@.skip(count as int));
    }
    *v = rest;
    acc
}

/// Partial sums of a score list never exceed the sum of a longer prefix.
proof fn lemma_sum_take_monotonic(s: Seq<u8>, i: int, j: int)
    requires
        0 <= i <= j <= s.len(),
    ensures
        sum_of(s.take(i)) <= sum_of(s.take(j)),
    decreases j - i,
{
    if i < j {
        lemma_sum_take_monotonic(s, i + 1, j);
        assert(s.take(i + 1).drop_last() =~= s.take(i));
        assert(sum_of(s.take(i)) <= sum_of(s.take(i + 1)));
    }
}

impl Clone for Stats {
    fn clone(&self) -> (s: Stats)
        ensures
            s@ == self@,
            s.wf() <==> self.wf(),
    {
        Stats {
            home_scores: copy_scores(&self.home_scores),
            away_scores: copy_scores(&self.away_scores),
            games_played: self.games_played,
        }
    }
}

impl Default for Stats {
    /// A fresh entry: no recorded scores, both counters zero.
    fn default() -> (s: Stats)
        ensures
            s@.home == Seq::<u8>::empty(),
            s@.away == Seq::<u8>::empty(),
            s.games_played[0] == 0,
            s.games_played[1] == 0,
            s.wf(),
    {
        Stats { home_scores: Vec::new(), away_scores: Vec::new(), games_played: [0, 0] }
    }
}

/// An exact copy of a score list.
fn copy_scores(v: &Vec<u8>) -> (r: Vec<u8>)
    ensures
        r@ == v@,
{
    let mut r: Vec<u8> = Vec::new();
    let n = v.len();
    for i in 0..n
        invariant
            n == v@.len(),
            r@ == v@.take(i as int),
    {
        r.push(v[i]);
        proof {
            assert(v@.take(i + 1) =~= v@.take(i as int).push(v@[i as int]));
        }
    }
    proof {
        assert(v@.take(n as int) =~= v@);
    }
    r
}

/// Sums a score list of at most 255 entries.
fn sum_u8(v: &Vec<u8>) -> (r: u32)
    requires
        v@.len() <= 255,
    ensures
        r == sum_of(v@),
{
    let mut acc: u32 = 0;
    let n = v.len();
    for i in 0..n
        invariant
            n == v@.len(),
            n <= 255,
            acc == sum_of(v@.take(i as int)),
            acc <= 255 * i,
    {
        acc = acc + v[i] as u32;
        proof {
            assert(v@.take(i + 1).drop_last() =~= v@.take(i as int));
        }
    }
    proof {
        assert(v@.take(n as int) =~= v@);
    }
    acc
}

/// The greatest entry of a score list, `0` when empty.
fn max_u8(v: &Vec<u8>) -> (r: u8)
    ensures
        r == max_of(v@),
{
    let mut best: u8 = 0;
    let n = v.len();
    for i in 0..n
        invariant
            n == v@.len(),
            best == max_of(v@.take(i as int)),
    {
        if v[i] > best {
            best = v[i];
        }
        proof {
            assert(v@.take(i + 1).drop_last() =~= v@.take(i as int));
        }
    }
    proof {
        assert(v@.take(n as int) =~= v@);
    }
    best
}

/// The greatest home (`side == 0`) or away (`side == 1`) goal count among
/// matches with a known result; `0` when there is none.
pub open spec fn spec_highest_score(ms: Seq<Match>, side: int) -> int
    decreases ms.len(),
{
    if ms.len() == 0 {
        0
    } else {
        let p = spec_highest_score(ms.drop_last(), side);
        match ms.last().result {
            Some(r) => if r[side] > p {
                r[side] as int
            } else {
                p
            },
            None => p,
        }
    }
}

/// The outcome filter for win/draw/loss counting: how a known result's
/// home goals compare to its away goals.
#[derive(Clone, Copy, Debug, PartialEq, Eq, Structural)]
pub enum Comparison {
    /// Home goals exceed away goals: a home win.
    Greater,
    /// A draw.
    Equal,
    /// Home goals fall short of away goals: a home loss.
    Less,
}

/// The known result `r` satisfies the outcome filter `c`.
pub open spec fn goals_satisfy(r: [u8; 2], c: Comparison) -> bool {
    match c {
        Comparison::Greater => r[0] > r[1],
        Comparison::Equal => r[0] == r[1],
        Comparison::Less => r[0] < r[1],
    }
}

/// How many matches strictly before `d`, with `home` as the home club and
/// a known result, satisfy the outcome filter `c`.
pub open spec fn spec_wdl_home(ms: Seq<Match>, home: Seq<char>, d: i64, c: Comparison) -> int
    decreases ms.len(),
{
    if ms.len() == 0 {
        0
    } else {
        spec_wdl_home(ms.drop_last(), home, d, c) + {
            let m = ms.last();
            match m.result {
                Some(r) => if m.date < d && m.home@ == home && goals_satisfy(r, c) {
                    1int
                } else {
                    0int
                },
                None => 0,
            }
        }
    }
}

/// As [`spec_wdl_home`], for `away` as the away club.
pub open spec fn spec_wdl_away(ms: Seq<Match>, away: Seq<char>, d: i64, c: Comparison) -> int
    decreases ms.len(),
{
    if ms.len() == 0 {
        0
    } else {
        spec_wdl_away(ms.drop_last(), away, d, c) + {
            let m = ms.last();
            match m.result {
                Some(r) => if m.date < d && m.away@ == away && goals_satisfy(r, c) {
                    1int
                } else {
                    0int
                },
                None => 0,
            }
        }
    }
}

/// The goals `home` scored as home club in matches strictly before `d`
/// with a known result, in collection order.
pub open spec fn spec_home_goals_before(ms: Seq<Match>, home: Seq<char>, d: i64) -> Seq<u8>
    decreases ms.len(),
{
    if ms.len() == 0 {
        Seq::empty()
    } else {
        let p = spec_home_goals_before(ms.drop_last(), home, d);
        let m = ms.last();
        match m.result {
            Some(r) => if m.date < d && m.home@ == home {
                p.push(r[0])
            } else {
                p
            },
            None => p,
        }
    }
}

/// The goals `away` scored as away club in matches strictly before `d`
/// with a known result, in collection order.
pub open spec fn spec_away_goals_before(ms: Seq<Match>, away: Seq<char>, d: i64) -> Seq<u8>
    decreases ms.len(),
{
    if ms.len() == 0 {
        Seq::empty()
    } else {
        let p = spec_away_goals_before(ms.drop_last(), away, d);
        let m = ms.last();
        match m.result {
            Some(r) => if m.date < d && m.away@ == away {
                p.push(r[1])
            } else {
                p
            },
            None => p,
        }
    }
}

/// The ascending order on goal counts.
pub open spec fn score_le() -> spec_fn(u8, u8) -> bool {
    |a: u8, b: u8| a <= b
}

/// `<=` on `u8` is a total ordering.
pub proof fn lemma_score_le_total()
    ensures
        total_ordering(score_le()),
{
    let r = score_le();
    assert forall|x: u8| #[trigger] r(x, x) by {}
    assert forall|x: u8, y: u8| #[trigger] r(x, y) && #[trigger] r(y, x) implies x == y by {}
    assert forall|x: u8, y: u8, z: u8| #[trigger] r(x, y) && #[trigger] r(y, z) implies r(
        x,
        z,
    ) by {}
    assert forall|x: u8, y: u8| #[trigger] r(x, y) || #[trigger] r(y, x) by {}
}

/// Twice the median of a sorted score list: the middle element doubled for
/// an odd length, the sum of the two middle elements for an even length,
/// and `0` for an empty list.
pub open spec fn spec_median_doubled(s: Seq<u8>) -> int {
    let l = s.len() as int;
    if l == 0 {
        0
    } else if l % 2 == 1 {
        2 * s[(l - 1) / 2]
    } else {
        s[l / 2 - 1] + s[l / 2]
    }
}

/// The median of a sorted score list, as an exact rational.
pub open spec fn spec_median(s: Seq<u8>) -> Rat {
    Rat { num: spec_median_doubled(s), den: 2 }
}

/// A doubled median lies between 0 and 510.
pub proof fn lemma_median_bounds(s: Seq<u8>)
    ensures
        0 <= spec_median_doubled(s) <= 510,
{
}

/// A score-list sum is bounded by 255 per entry.
pub proof fn lemma_sum_of_bound(s: Seq<u8>)
    ensures
        0 <= sum_of(s) <= 255 * s.len(),
    decreases s.len(),
{
    if s.len() > 0 {
        lemma_sum_of_bound(s.drop_last());
    }
}

/// A score-list maximum is an entry value or zero.
pub proof fn lemma_max_of_bound(s: Seq<u8>)
    ensures
        0 <= max_of(s) <= 255,
    decreases s.len(),
{
    if s.len() > 0 {
        lemma_max_of_bound(s.drop_last());
    }
}

/// The known result `r` satisfies the outcome filter `c`.
pub fn result_satisfies(r: [u8; 2], c: Comparison) -> (b: bool)
    ensures
        b == goals_satisfy(r, c),
{
    match c {
        Comparison::Greater => r[0] > r[1],
        Comparison::Equal => r[0] == r[1],
        Comparison::Less => r[0] < r[1],
    }
}

impl Stats {
    /// Counts the strictly-earlier known-result matches that satisfy the
    /// outcome filter `c`: for the home club of `m` among its home
    /// fixtures, and for the away club of `m` among its away fixtures.
    pub fn wdl_to_date(matches: &[Match], m: &Match, c: Comparison) -> (r: [usize; 2])
        ensures
            r[0] == spec_wdl_home(matches@, m.home@, m.date, c),
            r[1] == spec_wdl_away(matches@, m.away@, m.date, c),
            r[0] <= matches@.len(),
            r[1] <= matches@.len(),
    {
        let mut home_count: usize = 0;
        let mut away_count: usize = 0;
        let n = matches.len();
        for i in 0..n
            invariant
                n == matches@.len(),
                home_count == spec_wdl_home(matches@.take(i as int), m.home@, m.date, c),
                away_count == spec_wdl_away(matches@.take(i as int), m.away@, m.date, c),
                home_count <= i,
                away_count <= i,
        {
            proof {
                lemma_wdl_bound(matches@.take(i + 1), m.home@, m.away@, m.date, c);
            }
            if let Some(result) = matches[i].result {
                if matches[i].date < m.date {
                    if result_satisfies(result, c) {
                        if matches[i].home == m.home {
                            home_count = home_count + 1;
                        }
                        if matches[i].away == m.away {
                            away_count = away_count + 1;
                        }
                    }
                }
            }
            proof {
                assert(matches@.take(i + 1).drop_last() =~= matches@.take(i as int));
            }
        }
        proof {
            assert(matches@.take(n as int) =~= matches@);
        }
        [home_count, away_count]
    }

    /// The median score among strictly-earlier known results: home-at-home
    /// for the home club of `m`, away-at-away for its away club.  Each
    /// median is the middle element of the sorted scores, the average of
    /// the two middle elements for an even count, and `0` with no data.
    pub fn median_score_to_date(matches: &[Match], m: &Match) -> (r: [Ratio; 2])
        ensures
            r[0]@ == spec_median(
                spec_home_goals_before(matches@, m.home@, m.date).sort_by(score_le()),
            ),
            r[1]@ == spec_median(
                spec_away_goals_before(matches@, m.away@, m.date).sort_by(score_le()),
            ),
            r[0].wf(),
            r[1].wf(),
    {
        let mut home_goals: Vec<u8> = Vec::new();
        let mut away_goals: Vec<u8> = Vec::new();
        let n = matches.len();
        for i in 0..n
            invariant
                n == matches@.len(),
                home_goals@ == spec_home_goals_before(matches@.take(i as int), m.home@, m.date),
                away_goals@ == spec_away_goals_before(matches@.take(i as int), m.away@, m.date),
        {
            if let Some(result) = matches[i].result {
                if matches[i].date < m.date {
                    if matches[i].home == m.home {
                        home_goals.push(result[0]);
                    }
                    if matches[i].away == m.away {
                        away_goals.push(result[1]);
                    }
                }
            }
            proof {
                assert(matches@.take(i + 1).drop_last() =~= matches@.take(i as int));
            }
        }
        proof {
            assert(matches@.take(n as int) =~= matches@);
        }
        let home_sorted = sort_scores(home_goals);
        let away_sorted = sort_scores(away_goals);
        [median_ratio(&home_sorted), median_ratio(&away_sorted)]
    }
}

/// Both win/draw/loss counts are bounded by the number of matches.
proof fn lemma_wdl_bound(ms: Seq<Match>, home: Seq<char>, away: Seq<char>, d: i64, c: Comparison)
    ensures
        0 <= spec_wdl_home(ms, home, d, c) <= ms.len(),
        0 <= spec_wdl_away(ms, away, d, c) <= ms.len(),
    decreases ms.len(),
{
    if ms.len() > 0 {
        lemma_wdl_bound(ms.drop_last(), home, away, d, c);
    }
}

/// Sorts a score list ascending.
fn sort_scores(v: Vec<u8>) -> (r: Vec<u8>)
    ensures
        r@ == v@.sort_by(score_le()),
{
    let mut src = v;
    let mut out: Vec<u8> = Vec::new();
    proof {
        broadcast use vstd::seq_lib::group_to_multiset_ensures;

        assert(out@.to_multiset().add(src@.to_multiset()) =~= v@.to_multiset());
    }
    while src.len() > 0
        invariant
            sorted_by(out@, score_le()),
            out@.to_multiset().add(src@.to_multiset()) =~= v@.to_multiset(),
            forall|i: int, j: int|
                0 <= i < out@.len() && 0 <= j < src@.len() ==> out@[i] <= src@[j],
        decreases src@.len(),
    {
        let n = src.len();
        let mut k: usize = 0;
        for t in 1..n
            invariant
                n == src@.len(),
                k < n,
                forall|j: int| 0 <= j < t ==> src@[k as int] <= src@[j],
        {
            if src[t] < src[k] {
                k = t;
            }
        }
        let ghost src0 = src@;
        let ghost out0 = out@;
        let x = src.remove(k);
        out.push(x);
        proof {
            broadcast use vstd::seq_lib::group_to_multiset_ensures;

            assert(src@ == src0.remove(k as int));
            assert(out@ == out0.push(x));
            assert(src@.to_multiset() =~= src0.to_multiset().remove(x));
            assert(out@.to_multiset() =~= out0.to_multiset().insert(x));
            assert(src0.to_multiset().contains(x));
            assert(out@.to_multiset().add(src@.to_multiset()) =~= out0.to_multiset().add(
                src0.to_multiset(),
            ));
            // every remaining element is an element of the old list
            assert forall|j: int| 0 <= j < src@.len() implies x <= src@[j] by {
                if j < k {
                    assert(src@[j] == src0[j]);
                } else {
                    assert(src@[j] == src0[j + 1]);
                }
            }
            assert forall|i: int, j: int|
                0 <= i < out@.len() && 0 <= j < src@.len() implies out@[i] <= src@[j] by {
                if i < out0.len() {
                    assert(out@[i] == out0[i]);
                    if j < k {
                        assert(src@[j] == src0[j]);
                    } else {
                        assert(src@[j] == src0[j + 1]);
                    }
                } else {
                    assert(out@[i] == x);
                }
            }
            assert(sorted_by(out@, score_le())) by {
                assert forall|i: int, j: int| 0 <= i < j < out@.len() implies #[trigger] score_le()(
                    out@[i],
                    out@[j],
                ) by {
                    if j < out0.len() {
                        assert(score_le()(out0[i], out0[j]));
                    } else {
                        assert(out@[j] == x);
                        assert(out0[i] <= src0[k as int]);
                    }
                }
            }
        }
    }
    proof {
        broadcast use vstd::seq_lib::group_to_multiset_ensures;

        lemma_score_le_total();
        v@.lemma_sort_by_ensures(score_le());
        assert(out@.to_multiset() =~= v@.to_multiset());
        vstd::seq_lib::lemma_sorted_unique(out@, v@.sort_by(score_le()), score_le());
        assert(out@ =~= v@.sort_by(score_le()));
    }
    out
}

/// The median of an already sorted score list, as an exact rational with
/// denominator 2.
fn median_ratio(s: &Vec<u8>) -> (r: Ratio)
    ensures
        r@ == spec_median(s@),
        r.wf(),
{
    let n = s.len();
    let num: i128 = if n == 0 {
        0
    } else if n % 2 == 1 {
        2 * (s[(n - 1) / 2] as i128)
    } else {
        s[n / 2 - 1] as i128 + s[n / 2] as i128
    };
    Ratio { num, den: 2 }
}

/// As [`spec_highest_score`], restricted to matches strictly before `d`.
pub open spec fn spec_highest_score_before(ms: Seq<Match>, side: int, d: i64) -> int
    decreases ms.len(),
{
    if ms.len() == 0 {
        0
    } else {
        let p = spec_highest_score_before(ms.drop_last(), side, d);
        match ms.last().result {
            Some(r) => if ms.last().date < d && r[side] > p {
                r[side] as int
            } else {
                p
            },
            None => p,
        }
    }
}

} // verus!
