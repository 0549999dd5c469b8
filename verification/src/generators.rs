//! The feature generator: one capability, `generate`, which derives the
//! numeric feature vector for a match and then — as its final step —
//! advances the shared ledger by that match.
//!
//! The contract every implementation must meet mirrors the pipeline's
//! causality rules: "to date" reads see only strictly earlier history,
//! the ledger is mutated exactly once per generated match and only when
//! the match has a result, and the ledger's cross-field invariant holds
//! after every update.
use vstd::prelude::*;

use crate::features::{
    all_leagues_ok, date_range, h2h_to_date, league_code, league_ok, max_league_code, norm_ints,
    norm_pair_ratios, pair_fractions, spec_frac_pair, spec_h2h, spec_league_code, spec_max_date,
    spec_max_league_code, spec_min_date,
};
use crate::ledger::{lemma_stats_model_push, stats_model, stats_model_step, Ledger};
use crate::models::{Club, Clubs, DataEntry, GuruError, Match};
use crate::ratio::{normalize, rat_add, rat_eq, rat_int, rat_wf, spec_normalize, Rat, Ratio};
use crate::stats::{
    lemma_median_bounds, lemma_sum_of_bound, max_of, score_le, spec_away_goals_before,
    spec_highest_score_before, spec_home_goals_before, spec_median, spec_wdl_away, spec_wdl_home,
    sum_of, Comparison, Stats, StatsModel,
};

verus! {

/// The index a well-formed registry assigns to `name`.
pub open spec fn club_index(c: Clubs, name: Seq<char>) -> int {
    choose|i: int| 0 <= i < c.data@.len() && c.data@[i].name@ == name
}

/// The one-hot cell of the home club: `normalize(1, 0, 1 + AWAY_FACTOR)`.
pub open spec fn spec_home_cell(af: Rat) -> Rat {
    spec_normalize(rat_int(1), rat_int(0), rat_add(rat_int(1), af))
}

/// The one-hot cell of the away club:
/// `normalize(AWAY_FACTOR, 0, 1 + AWAY_FACTOR)`.
pub open spec fn spec_away_cell(af: Rat) -> Rat {
    spec_normalize(af, rat_int(0), rat_add(rat_int(1), af))
}

/// Law: the two occupied cells of the club one-hot block sum to exactly
/// the normalized `1 + AWAY_FACTOR` total, which is 1, for any
/// non-negative away factor; every other cell is zero, so the whole
/// block sums to the same.
pub proof fn lemma_onehot_cells_sum(af: Rat)
    requires
        rat_wf(af),
        af.num >= 0,
    ensures
        rat_eq(rat_add(spec_home_cell(af), spec_away_cell(af)), rat_int(1)),
{
    let n = af.num;
    let d = af.den;
    let hc = spec_home_cell(af);
    let ac = spec_away_cell(af);
    assert(hc.num == d);
    assert(hc.den == d + n);
    assert(ac.num == n * d);
    assert(ac.den == d * (d + n));
    assert(rat_add(hc, ac).num == d * (d * (d + n)) + (n * d) * (d + n));
    assert(rat_add(hc, ac).den == (d + n) * (d * (d + n)));
    assert(d * (d * (d + n)) + (n * d) * (d + n) == (d + n) * (d * (d + n)))
        by (nonlinear_arith);
    assert(rat_eq(rat_add(hc, ac), rat_int(1))) by (nonlinear_arith)
        requires
            rat_add(hc, ac).num == rat_add(hc, ac).den,
    {
    }
}

/// The club one-hot block: home cell, away cell, zeros elsewhere.
pub open spec fn spec_onehot(c: Clubs, af: Rat, home: Seq<char>, away: Seq<char>) -> Seq<Rat> {
    Seq::new(
        c.data@.len(),
        |j: int|
            if j == club_index(c, home) {
                spec_home_cell(af)
            } else if j == club_index(c, away) {
                spec_away_cell(af)
            } else {
                rat_int(0)
            },
    )
}

/// A club's relative strength: one scoring total over the other, with the
/// raw total as fallback when the divisor is zero.
pub open spec fn spec_rel_strength(over: int, under: int) -> Rat {
    if under != 0 {
        Rat { num: over, den: under }
    } else {
        rat_int(over)
    }
}

/// The reference feature vector for `m`: the club one-hot block followed
/// by recency, league strength, the three win/draw/loss pairs, the
/// median-score pair, the total-scoring pair, the relative-advantage
/// pair, the highest-scoring pair, the highest-vs-league pair and the
/// head-to-head pair.  `hs` and `aws` are the ledger entries of the home
/// and away club as they stand before `m` is applied.
pub open spec fn spec_feature_vector(
    ref_ms: Seq<Match>,
    clubs: Clubs,
    af: Rat,
    hs: StatsModel,
    aws: StatsModel,
    m: Match,
) -> Seq<Rat> {
    let d = m.date;
    let zero = rat_int(0);
    let recency = spec_normalize(
        rat_int(m.date as int),
        rat_int(spec_min_date(ref_ms)),
        rat_int(spec_max_date(ref_ms)),
    );
    let league = spec_normalize(
        rat_int(spec_league_code(m.league@)->Some_0),
        zero,
        rat_int(spec_max_league_code(ref_ms)->Some_0),
    );
    let wins = spec_frac_pair(
        spec_wdl_home(ref_ms, m.home@, d, Comparison::Greater),
        spec_wdl_away(ref_ms, m.away@, d, Comparison::Greater),
    );
    let draws = spec_frac_pair(
        spec_wdl_home(ref_ms, m.home@, d, Comparison::Equal),
        spec_wdl_away(ref_ms, m.away@, d, Comparison::Equal),
    );
    let losses = spec_frac_pair(
        spec_wdl_home(ref_ms, m.home@, d, Comparison::Less),
        spec_wdl_away(ref_ms, m.away@, d, Comparison::Less),
    );
    let med_h = spec_median(spec_home_goals_before(ref_ms, m.home@, d).sort_by(score_le()));
    let med_a = spec_median(spec_away_goals_before(ref_ms, m.away@, d).sort_by(score_le()));
    let med_sum = rat_add(med_h, med_a);
    let totals = spec_frac_pair(sum_of(hs.home), sum_of(aws.away));
    let h_rel = spec_rel_strength(sum_of(hs.home), sum_of(hs.away));
    let a_rel = spec_rel_strength(sum_of(aws.away), sum_of(aws.home));
    let rel_sum = rat_add(h_rel, a_rel);
    let highest = spec_frac_pair(max_of(hs.home), max_of(aws.away));
    let h2h = spec_h2h(ref_ms, m.home@, m.away@, d);
    let h2h_pair = spec_frac_pair(h2h.0, h2h.1);
    spec_onehot(clubs, af, m.home@, m.away@) + seq![
        recency,
        league,
        wins.0,
        wins.1,
        draws.0,
        draws.1,
        losses.0,
        losses.1,
        spec_normalize(med_h, zero, med_sum),
        spec_normalize(med_a, zero, med_sum),
        totals.0,
        totals.1,
        spec_normalize(h_rel, zero, rel_sum),
        spec_normalize(a_rel, zero, rel_sum),
        highest.0,
        highest.1,
        spec_normalize(rat_int(max_of(hs.home)), zero, rat_int(spec_highest_score_before(ref_ms, 0, d))),
        spec_normalize(rat_int(max_of(aws.away)), zero, rat_int(spec_highest_score_before(ref_ms, 1, d))),
        h2h_pair.0,
        h2h_pair.1,
    ]
}

/// A pluggable feature-construction strategy.  `generate` produces the
/// feature vector for one match and, as its documented side effect,
/// advances the shared ledger by that match as its final step.
///
/// The contract every implementation meets: the well-formedness invariant
/// is preserved; success comes exactly on the states and matches
/// `can_generate` admits; the returned vector is exactly `features`; the
/// ledger is advanced by exactly one application of the match — and not
/// at all when the match has no result or an error is returned.
pub trait Generator: Sized {
    /// The generator's invariant.
    spec fn wf(&self) -> bool;

    /// Success is owed for `m` in this state.
    spec fn can_generate(&self, m: Match) -> bool;

    /// Which error `generate` reports for `m` in this state.
    spec fn err_class(&self, m: Match, e: GuruError) -> bool;

    /// The club names the ledger is kept for, in index order.
    spec fn names(&self) -> Seq<Seq<char>>;

    /// The ledger entries, in index order.
    spec fn entries(&self) -> Seq<StatsModel>;

    /// The feature vector `generate` promises for `m` in this state.
    spec fn features(&self, m: Match) -> Seq<Rat>;

    /// Produce the feature vector for `m`, then advance the ledger.
    fn generate(&mut self, m: &Match) -> (r: Result<Vec<Ratio>, GuruError>)
        requires
            old(self).wf(),
        ensures
            final(self).wf(),
            final(self).names() == old(self).names(),
            final(self).entries().len() == old(self).entries().len(),
            r is Ok <==> old(self).can_generate(*m),
            r is Err ==> final(self).entries() == old(self).entries(),
            r is Err ==> old(self).err_class(*m, r->Err_0),
            m.result is None ==> final(self).entries() == old(self).entries(),
            r is Ok ==> r->Ok_0@.map_values(|x: Ratio| x@) == old(self).features(*m),
            r is Ok ==> forall|j: int|
                0 <= j < old(self).entries().len() ==> final(self).entries()[j]
                    == stats_model_step(old(self).entries()[j], *m, old(self).names()[j]),
    ;
}

/// The reference generator: the feature set of [`spec_feature_vector`]
/// over a fixed reference match collection, a club registry and the
/// shared ledger.
pub struct DefaultInputGenerator {
    /// The reference collection that scan-based "to date" queries read.
    pub matches: Vec<Match>,
    /// The club registry; ledger entries are indexed in step with it.
    pub clubs: Clubs,
    /// The shared ledger, advanced once per generated match.
    pub ledger: Ledger,
    /// The away-strength constant of the club one-hot block.
    pub away_factor: Ratio,
    /// The matches already applied to the ledger, in order.
    pub processed: Ghost<Seq<Match>>,
}

impl DefaultInputGenerator {
    /// A fresh generator over `matches`, with an empty ledger entry per
    /// registered club.
    pub fn new(matches: Vec<Match>, clubs: Clubs, away_factor: Ratio) -> (g:
        DefaultInputGenerator)
        requires
            clubs.wf(),
            away_factor.wf(),
            0 <= away_factor.num <= 0xffff,
            away_factor.den <= 0xffff,
            1 <= matches@.len() <= 0x0100_0000,
        ensures
            g.wf(),
            g.matches == matches,
            g.clubs == clubs,
            g.away_factor == away_factor,
            g.processed@ == Seq::<Match>::empty(),
    {
        let ledger = Ledger::new(&clubs);
        DefaultInputGenerator {
            matches,
            clubs,
            ledger,
            away_factor,
            processed: Ghost(Seq::empty()),
        }
    }
}

impl Generator for DefaultInputGenerator {
    open spec fn wf(&self) -> bool {
        &&& self.clubs.wf()
        &&& self.ledger.wf()
        &&& self.ledger.models(self.clubs, self.processed@)
        &&& self.away_factor.wf()
        &&& 0 <= self.away_factor.num <= 0xffff
        &&& self.away_factor.den <= 0xffff
        &&& 1 <= self.matches@.len() <= 0x0100_0000
    }

    open spec fn can_generate(&self, m: Match) -> bool {
        &&& self.clubs.contains_name(m.home@)
        &&& self.clubs.contains_name(m.away@)
        &&& m.home@ != m.away@
        &&& league_ok(m.league@)
        &&& all_leagues_ok(self.matches@)
        &&& (m.result is Some ==> stats_model(self.processed@, m.home@).played_home < 255
            && stats_model(self.processed@, m.away@).played_away < 255)
    }

    open spec fn err_class(&self, m: Match, e: GuruError) -> bool {
        if !(self.clubs.contains_name(m.home@) && self.clubs.contains_name(m.away@)) {
            e == GuruError::MissingClub
        } else if m.home@ == m.away@ {
            e == GuruError::UnparsableRecord
        } else if !(league_ok(m.league@) && all_leagues_ok(self.matches@)) {
            e == GuruError::UnparsableRecord
        } else {
            e == GuruError::LedgerInvariant
        }
    }

    open spec fn names(&self) -> Seq<Seq<char>> {
        self.clubs.data@.map_values(|c: Club| c.name@)
    }

    open spec fn entries(&self) -> Seq<StatsModel> {
        self.ledger.entries@.map_values(|s: Stats| s@)
    }

    open spec fn features(&self, m: Match) -> Seq<Rat> {
        spec_feature_vector(
            self.matches@,
            self.clubs,
            self.away_factor@,
            stats_model(self.processed@, m.home@),
            stats_model(self.processed@, m.away@),
            m,
        )
    }

    #[verifier::spinoff_prover]
    #[verifier::rlimit(100)]
    fn generate(&mut self, m: &Match) -> (r: Result<Vec<Ratio>, GuruError>) {
        let hi = match self.clubs.get_index_by_name(&m.home) {
            Some(i) => i as usize,
            None => {
                return Err(GuruError::MissingClub);
            },
        };
        let ai = match self.clubs.get_index_by_name(&m.away) {
            Some(i) => i as usize,
            None => {
                return Err(GuruError::MissingClub);
            },
        };
        if hi == ai {
            return Err(GuruError::UnparsableRecord);
        }
        proof {
            lemma_index_is_club_index(self.clubs, m.home@, hi as int);
            lemma_index_is_club_index(self.clubs, m.away@, ai as int);
        }
        let code = match league_code(m.league.as_str()) {
            Some(c) => c,
            None => {
                return Err(GuruError::UnparsableRecord);
            },
        };
        let highest_code = match max_league_code(&self.matches) {
            Some(c) => c,
            None => {
                return Err(GuruError::UnparsableRecord);
            },
        };
        if m.result.is_some() {
            if self.ledger.entries[hi].games_played[0] >= 255 {
                return Err(GuruError::LedgerInvariant);
            }
            if self.ledger.entries[ai].games_played[1] >= 255 {
                return Err(GuruError::LedgerInvariant);
            }
        }
        let ghost pre = *self;
        let mut inputs = match Guru::club_features(m, &self.clubs, self.away_factor) {
            Ok(v) => v,
            Err(_) => {
                proof {
                    assert(false);
                }
                return Err(GuruError::MissingClub);
            },
        };

        // recency
        let range = match date_range(&self.matches) {
            Some(r) => r,
            None => {
                proof {
                    assert(false);
                }
                return Err(GuruError::UnparsableRecord);
            },
        };
        inputs.push(norm_ints(m.date, range[0], range[1]));

        // league strength
        inputs.push(norm_ints(code, 0, highest_code));

        // win / draw / loss pairs
        let wins = Stats::wdl_to_date(self.matches.as_slice(), m, Comparison::Greater);
        let wp = pair_fractions(wins[0] as i64, wins[1] as i64);
        inputs.push(wp[0]);
        inputs.push(wp[1]);
        let draws = Stats::wdl_to_date(self.matches.as_slice(), m, Comparison::Equal);
        let dp = pair_fractions(draws[0] as i64, draws[1] as i64);
        inputs.push(dp[0]);
        inputs.push(dp[1]);
        let losses = Stats::wdl_to_date(self.matches.as_slice(), m, Comparison::Less);
        let lp = pair_fractions(losses[0] as i64, losses[1] as i64);
        inputs.push(lp[0]);
        inputs.push(lp[1]);

        // median-score pair
        let med = Stats::median_score_to_date(self.matches.as_slice(), m);
        proof {
            lemma_median_bounds(
                spec_home_goals_before(pre.matches@, m.home@, m.date).sort_by(score_le()),
            );
            lemma_median_bounds(
                spec_away_goals_before(pre.matches@, m.away@, m.date).sort_by(score_le()),
            );
        }
        let mp = norm_pair_ratios(med[0], med[1]);
        inputs.push(mp[0]);
        inputs.push(mp[1]);

        // total-scoring pair
        proof {
            lemma_sum_of_bound(pre.ledger.entries@[hi as int]@.home);
            lemma_sum_of_bound(pre.ledger.entries@[hi as int]@.away);
            lemma_sum_of_bound(pre.ledger.entries@[ai as int]@.home);
            lemma_sum_of_bound(pre.ledger.entries@[ai as int]@.away);
        }
        let hts = Stats::total_scoring_by_club_to_date(&self.ledger.entries[hi]);
        let ats = Stats::total_scoring_by_club_to_date(&self.ledger.entries[ai]);
        let tp = pair_fractions(hts[0] as i64, ats[1] as i64);
        inputs.push(tp[0]);
        inputs.push(tp[1]);

        // relative home/away-advantage pair
        let h_rel = if hts[1] != 0 {
            Ratio { num: hts[0] as i128, den: hts[1] as i128 }
        } else {
            Ratio::from_int(hts[0] as i64)
        };
        let a_rel = if ats[0] != 0 {
            Ratio { num: ats[1] as i128, den: ats[0] as i128 }
        } else {
            Ratio::from_int(ats[1] as i64)
        };
        let rp = norm_pair_ratios(h_rel, a_rel);
        inputs.push(rp[0]);
        inputs.push(rp[1]);

        // highest-scoring pair
        let hmax = Stats::highest_scoring_by_club_to_date(&self.ledger.entries[hi]);
        let amax = Stats::highest_scoring_by_club_to_date(&self.ledger.entries[ai]);
        let hp = pair_fractions(hmax[0] as i64, amax[1] as i64);
        inputs.push(hp[0]);
        inputs.push(hp[1]);

        // highest-scoring-vs-league pair
        let hsil = Stats::highest_scoring_in_league_to_date(self.matches.as_slice(), m.date);
        inputs.push(norm_ints(hmax[0] as i64, 0, hsil[0] as i64));
        inputs.push(norm_ints(amax[1] as i64, 0, hsil[1] as i64));

        // head-to-head pair
        let h2h = h2h_to_date(&self.matches, m);
        let hh = pair_fractions(h2h[0] as i64, h2h[1] as i64);
        inputs.push(hh[0]);
        inputs.push(hh[1]);

        // advance the ledger — only now, after every feature is computed
        self.ledger.apply(m, hi, ai);
        proof {
            self.processed@ = pre.processed@.push(*m);
        }
        proof {
            lemma_generate_advances(pre, *self, *m, hi as int, ai as int);
            assert(inputs@.map_values(|x: Ratio| x@) =~= pre.features(*m));
        }
        Ok(inputs)
    }
}


/// The pipeline's entry points that work over one fixed match collection.
pub struct Guru {
    /// The chronological match collection a pass works over.
    pub data_set: Vec<Match>,
}

impl Guru {
    pub fn new(data_set: Vec<Match>) -> (g: Guru)
        ensures
            g.data_set == data_set,
    {
        Guru { data_set }
    }

    /// The recency feature: the match date normalized between the
    /// earliest and latest dates of the collection.  Values above 1 mark
    /// fixtures later than the reference window.  `None` only for an
    /// empty collection.
    pub fn game_day(date: i64, matches: &Vec<Match>) -> (r: Option<Ratio>)
        ensures
            r is Some <==> matches@.len() > 0,
            r is Some ==> r->Some_0@ == spec_normalize(
                rat_int(date as int),
                rat_int(spec_min_date(matches@)),
                rat_int(spec_max_date(matches@)),
            ),
    {
        match date_range(matches) {
            Some(range) => Some(norm_ints(date, range[0], range[1])),
            None => None,
        }
    }

    /// The club one-hot block: one cell per registered club, the home
    /// club's cell `normalize(1, 0, 1 + AWAY_FACTOR)`, the away club's
    /// cell `normalize(AWAY_FACTOR, 0, 1 + AWAY_FACTOR)`, zero elsewhere.
    /// Fails loudly when a club of the match is not registered or the
    /// match names one club on both sides.
    pub fn club_features(m: &Match, clubs: &Clubs, away_factor: Ratio) -> (r: Result<
        Vec<Ratio>,
        GuruError,
    >)
        requires
            clubs.wf(),
            away_factor.wf(),
            0 <= away_factor@.num <= 0xffff,
            away_factor@.den <= 0xffff,
        ensures
            r is Ok <==> (clubs.contains_name(m.home@) && clubs.contains_name(m.away@)
                && m.home@ != m.away@),
            r is Ok ==> r->Ok_0@.map_values(|x: Ratio| x@) == spec_onehot(
                *clubs,
                away_factor@,
                m.home@,
                m.away@,
            ),
            r is Err && !(clubs.contains_name(m.home@) && clubs.contains_name(m.away@))
                ==> r->Err_0 == GuruError::MissingClub,
            r is Err && clubs.contains_name(m.home@) && clubs.contains_name(m.away@)
                ==> r->Err_0 == GuruError::UnparsableRecord,
    {
        let hi = match clubs.get_index_by_name(&m.home) {
            Some(i) => i as usize,
            None => {
                return Err(GuruError::MissingClub);
            },
        };
        let ai = match clubs.get_index_by_name(&m.away) {
            Some(i) => i as usize,
            None => {
                return Err(GuruError::MissingClub);
            },
        };
        if hi == ai {
            return Err(GuruError::UnparsableRecord);
        }
        proof {
            lemma_index_is_club_index(*clubs, m.home@, hi as int);
            lemma_index_is_club_index(*clubs, m.away@, ai as int);
        }
        let cells = norm_pair_ratios(Ratio::one(), away_factor);
        let nclubs = clubs.data.len();
        let mut block: Vec<Ratio> = Vec::new();
        let ghost onehot = spec_onehot(*clubs, away_factor@, m.home@, m.away@);
        for j in 0..nclubs
            invariant
                nclubs == clubs.data@.len(),
                hi as int == club_index(*clubs, m.home@),
                ai as int == club_index(*clubs, m.away@),
                hi < nclubs,
                ai < nclubs,
                cells[0]@ == spec_home_cell(away_factor@),
                cells[1]@ == spec_away_cell(away_factor@),
                onehot == spec_onehot(*clubs, away_factor@, m.home@, m.away@),
                block@.len() == j,
                forall|k: int| 0 <= k < j ==> (#[trigger] block@[k])@ == onehot[k],
        {
            if j == hi {
                block.push(cells[0]);
            } else if j == ai {
                block.push(cells[1]);
            } else {
                block.push(Ratio::from_int(0));
            }
        }
        proof {
            assert(block@.map_values(|x: Ratio| x@) =~= onehot);
        }
        Ok(block)
    }
}

/// The index `get_index_by_name` finds is the registry's index for that
/// name.
proof fn lemma_index_is_club_index(c: Clubs, name: Seq<char>, i: int)
    requires
        c.wf(),
        0 <= i < c.data@.len(),
        c.data@[i].name@ == name,
    ensures
        club_index(c, name) == i,
        c.contains_name(name),
{
    let ci = club_index(c, name);
    assert(0 <= ci < c.data@.len() && c.data@[ci].name@ == name);
}

/// After `apply` and the ghost push, the generator again models its
/// processed history, entry by entry.
proof fn lemma_generate_advances(
    pre: DefaultInputGenerator,
    post: DefaultInputGenerator,
    m: Match,
    hi: int,
    ai: int,
)
    requires
        pre.wf(),
        post.clubs == pre.clubs,
        post.matches == pre.matches,
        post.away_factor == pre.away_factor,
        post.processed@ == pre.processed@.push(m),
        hi == club_index(pre.clubs, m.home@),
        ai == club_index(pre.clubs, m.away@),
        0 <= hi < pre.clubs.data@.len(),
        0 <= ai < pre.clubs.data@.len(),
        hi != ai,
        pre.clubs.data@[hi].name@ == m.home@,
        pre.clubs.data@[ai].name@ == m.away@,
        post.ledger.entries@.len() == pre.ledger.entries@.len(),
        m.result is None ==> post.ledger == pre.ledger,
        m.result is Some ==> {
            let r = m.result->Some_0;
            let pre_h = pre.ledger.entries@[hi]@;
            let pre_a = pre.ledger.entries@[ai]@;
            &&& post.ledger.entries@[hi]@ == StatsModel {
                home: pre_h.home.push(r[0]),
                away: pre_h.away,
                played_home: pre_h.played_home + 1,
                played_away: pre_h.played_away,
            }
            &&& post.ledger.entries@[ai]@ == StatsModel {
                home: pre_a.home,
                away: pre_a.away.push(r[1]),
                played_home: pre_a.played_home,
                played_away: pre_a.played_away + 1,
            }
            &&& forall|j: int|
                0 <= j < post.ledger.entries@.len() && j != hi && j != ai
                    ==> post.ledger.entries@[j] == pre.ledger.entries@[j]
        },
        pre.wf() ==> post.ledger.wf(),
    ensures
        post.ledger.models(post.clubs, post.processed@),
        post.wf(),
        forall|j: int|
            0 <= j < pre.entries().len() ==> post.entries()[j] == stats_model_step(
                pre.entries()[j],
                m,
                pre.names()[j],
            ),
        m.result is None ==> post.entries() == pre.entries(),
{
    let names = pre.clubs.data@;
    assert forall|j: int| 0 <= j < post.ledger.entries@.len() implies (
    #[trigger] post.ledger.entries@[j])@ == stats_model(post.processed@, names[j].name@) by {
        lemma_stats_model_push(pre.processed@, m, names[j].name@);
        assert(pre.ledger.entries@[j]@ == stats_model(pre.processed@, names[j].name@));
        if j != hi && j != ai {
            assert(names[j].name@ != m.home@);
            assert(names[j].name@ != m.away@);
        }
        if j == hi {
            assert(names[j].name@ == m.home@);
            assert(names[j].name@ != m.away@);
        }
        if j == ai {
            assert(names[j].name@ == m.away@);
            assert(names[j].name@ != m.home@);
        }
    }
    assert forall|j: int| 0 <= j < pre.entries().len() implies post.entries()[j]
        == stats_model_step(pre.entries()[j], m, pre.names()[j]) by {
        lemma_stats_model_push(pre.processed@, m, names[j].name@);
    }
    if m.result is None {
        assert(post.entries() =~= pre.entries());
    }
}

impl DataEntry {
    /// Assembles one sample: the generator's feature vector for `m` as
    /// inputs, and as outputs the empty vector when `m` has no result, or
    /// the two goal values normalized against `max_goal_value` — the same
    /// fixed anchor across training, testing and prediction.
    pub fn assemble<G: Generator>(m: &Match, max_goal_value: u8, generator: &mut G) -> (r:
        Result<DataEntry, GuruError>)
        requires
            old(generator).wf(),
        ensures
            final(generator).wf(),
            r is Ok <==> old(generator).can_generate(*m),
            r is Err ==> old(generator).err_class(*m, r->Err_0),
            r is Ok ==> r->Ok_0.inputs@.map_values(|x: Ratio| x@) == old(generator).features(*m),
            r is Ok ==> match m.result {
                None => r->Ok_0.outputs@.len() == 0,
                Some(g) => r->Ok_0.outputs@.len() == 2
                    && r->Ok_0.outputs@[0]@ == spec_normalize(
                    rat_int(g[0] as int),
                    rat_int(0),
                    rat_int(max_goal_value as int),
                ) && r->Ok_0.outputs@[1]@ == spec_normalize(
                    rat_int(g[1] as int),
                    rat_int(0),
                    rat_int(max_goal_value as int),
                ),
            },
    {
        let inputs = match generator.generate(m) {
            Ok(v) => v,
            Err(e) => {
                return Err(e);
            },
        };
        let mut outputs: Vec<Ratio> = Vec::new();
        if let Some(goals) = m.result {
            let zero = Ratio::from_int(0);
            let anchor = Ratio::from_int(max_goal_value as i64);
            outputs.push(normalize(Ratio::from_int(goals[0] as i64), zero, anchor));
            outputs.push(normalize(Ratio::from_int(goals[1] as i64), zero, anchor));
        }
        Ok(DataEntry { inputs, outputs })
    }
}

} // verus!
