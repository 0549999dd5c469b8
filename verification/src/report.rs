//! Evaluation records: network tallies, per-match predictions, and their
//! markdown rendering.
use vstd::prelude::*;

use crate::models::Match;

verus! {

/// A running tally of how a trained network performed on a test pass.
#[derive(Clone, Copy, Debug)]
pub struct NetworkStats {
    pub tested: usize,
    pub positive: usize,
    pub negative: usize,
}

/// One tally step: one more fixture tested, counted as a hit or a miss.
pub open spec fn spec_updated(s: NetworkStats, positive: bool) -> NetworkStats {
    NetworkStats {
        tested: (s.tested + 1) as usize,
        positive: if positive {
            (s.positive + 1) as usize
        } else {
            s.positive
        },
        negative: if positive {
            s.negative
        } else {
            (s.negative + 1) as usize
        },
    }
}

impl NetworkStats {
    pub fn new(tested: usize, positive: usize, negative: usize) -> (s: NetworkStats)
        ensures
            s.tested == tested,
            s.positive == positive,
            s.negative == negative,
    {
        NetworkStats { tested, positive, negative }
    }

    /// Counts one more tested fixture, as a hit or a miss.
    pub fn update(&mut self, positive: bool)
        requires
            old(self).tested < usize::MAX,
            old(self).positive < usize::MAX,
            old(self).negative < usize::MAX,
        ensures
            *final(self) == spec_updated(*old(self), positive),
    {
        self.tested = self.tested + 1;
        if positive {
            self.positive = self.positive + 1;
        } else {
            self.negative = self.negative + 1;
        }
    }

    /// The percentage of hits, by integer division; a tally that has
    /// tested nothing counts over one instead of zero.
    pub fn correct_percent(&self) -> (r: usize)
        requires
            self.positive <= usize::MAX / 100,
        ensures
            r == self.positive * 100 / (if self.tested == 0 {
                1int
            } else {
                self.tested as int
            }),
    {
        let div = if self.tested == 0 {
            1
        } else {
            self.tested
        };
        self.positive * 100 / div
    }
}

impl Default for NetworkStats {
    /// A fresh tally: nothing tested yet.
    fn default() -> (s: NetworkStats)
        ensures
            s.tested == 0,
            s.positive == 0,
            s.negative == 0,
    {
        NetworkStats::new(0, 0, 0)
    }
}

/// The decimal digit `d` as a character.
pub open spec fn spec_digit_char(d: int) -> char {
    if d == 0 {
        '0'
    } else if d == 1 {
        '1'
    } else if d == 2 {
        '2'
    } else if d == 3 {
        '3'
    } else if d == 4 {
        '4'
    } else if d == 5 {
        '5'
    } else if d == 6 {
        '6'
    } else if d == 7 {
        '7'
    } else if d == 8 {
        '8'
    } else {
        '9'
    }
}

/// The decimal digits of `n`, most significant first.
pub open spec fn spec_dec(n: int) -> Seq<char>
    decreases n,
{
    if n < 10 {
        seq![spec_digit_char(n)]
    } else {
        spec_dec(n / 10).push(spec_digit_char(n % 10))
    }
}

/// One decimal digit as text.
fn digit_str(d: u64) -> (s: &'static str)
    requires
        d < 10,
    ensures
        s@ == seq![spec_digit_char(d as int)],
{
    proof {
        reveal_strlit("0");
        reveal_strlit("1");
        reveal_strlit("2");
        reveal_strlit("3");
        reveal_strlit("4");
        reveal_strlit("5");
        reveal_strlit("6");
        reveal_strlit("7");
        reveal_strlit("8");
        reveal_strlit("9");
    }
    let s = match d {
        0 => "0",
        1 => "1",
        2 => "2",
        3 => "3",
        4 => "4",
        5 => "5",
        6 => "6",
        7 => "7",
        8 => "8",
        _ => "9",
    };
    proof {
        assert(s@ =~= seq![spec_digit_char(d as int)]);
    }
    s
}

/// `n` written in decimal.
pub fn dec_string(n: u64) -> (s: String)
    ensures
        s@ == spec_dec(n as int),
    decreases n,
{
    if n < 10 {
        String::from_str(digit_str(n))
    } else {
        let mut s = dec_string(n / 10);
        s.append(digit_str(n % 10));
        proof {
            assert(s@ =~= spec_dec((n / 10) as int).push(spec_digit_char((n % 10) as int)));
        }
        s
    }
}

/// Renders as one markdown table (or one row of one).
pub trait Markdown {
    /// The exact text `to_table` yields.
    spec fn table_spec(&self) -> Seq<char>;

    /// The markdown text.
    fn to_table(&self) -> (s: String)
        ensures
            s@ == self.table_spec(),
    ;
}

/// The result of one fixture as the network predicted it, next to the
/// recorded outcome (zeros where the fixture had none).
#[derive(Debug)]
pub struct Prediction {
    /// Seconds since the Unix epoch.
    pub date: i64,
    /// Timezone offset of the recorded date, in seconds east of UTC.
    pub offset: i32,
    /// Home and away club names.
    pub teams: (String, String),
    pub expected_scores: [u8; 2],
    pub predicted_scores: [u8; 2],
}

impl Markdown for Prediction {
    open spec fn table_spec(&self) -> Seq<char> {
        "|"@ + self.teams.0@ + "|"@ + spec_dec(self.predicted_scores[0] as int) + " : "@
            + spec_dec(self.predicted_scores[1] as int) + "|"@ + self.teams.1@ + "|"@
    }

    /// One markdown table row: home club, predicted result, away club.
    fn to_table(&self) -> (s: String) {
        let mut s = String::from_str("|");
        s.append(self.teams.0.as_str());
        s.append("|");
        let d0 = dec_string(self.predicted_scores[0] as u64);
        s.append(d0.as_str());
        s.append(" : ");
        let d1 = dec_string(self.predicted_scores[1] as u64);
        s.append(d1.as_str());
        s.append("|");
        s.append(self.teams.1.as_str());
        s.append("|");
        proof {
            assert(s@ =~= self.table_spec());
        }
        s
    }
}

/// A collection of predictions, one table row each.
#[derive(Debug)]
pub struct Predictions(pub Vec<Prediction>);

/// The rows of a prediction table, one line per prediction.
pub open spec fn spec_rows(ps: Seq<Prediction>) -> Seq<char>
    decreases ps.len(),
{
    if ps.len() == 0 {
        Seq::empty()
    } else {
        spec_rows(ps.drop_last()) + ps.last().table_spec() + "\n"@
    }
}

impl Markdown for Predictions {
    open spec fn table_spec(&self) -> Seq<char> {
        "|Home|Predicted result|Away|\n"@ + "|-:|:-:|:-|\n"@ + spec_rows(self.0@)
    }

    /// A whole markdown table: header, alignment row, one row per
    /// prediction.
    fn to_table(&self) -> (s: String) {
        let mut s = String::from_str("|Home|Predicted result|Away|\n");
        s.append("|-:|:-:|:-|\n");
        let ghost header = "|Home|Predicted result|Away|\n"@ + "|-:|:-:|:-|\n"@;
        proof {
            assert(s@ =~= header + spec_rows(self.0@.take(0)));
        }
        let n = self.0.len();
        for i in 0..n
            invariant
                n == self.0@.len(),
                s@ == header + spec_rows(self.0@.take(i as int)),
                header == "|Home|Predicted result|Away|\n"@ + "|-:|:-:|:-|\n"@,
        {
            let row = self.0[i].to_table();
            s.append(row.as_str());
            s.append("\n");
            proof {
                assert(self.0@.take(i + 1).drop_last() =~= self.0@.take(i as int));
                assert(self.0@.take(i + 1).last() == self.0@[i as int]);
                assert(s@ =~= header + spec_rows(self.0@.take(i + 1)));
            }
        }
        proof {
            assert(self.0@.take(n as int) =~= self.0@);
        }
        s
    }
}

impl NetworkStats {
    /// The exact text the tally reports.
    pub open spec fn text_spec(&self) -> Seq<char> {
        "Network Stats\n-------------- \ntested: "@ + spec_dec(self.tested as int) + ", positive: "@
            + spec_dec(self.positive as int) + ", negative: "@ + spec_dec(self.negative as int)
            + ", correct: "@ + spec_dec(
            self.positive * 100 / (if self.tested == 0 {
                1int
            } else {
                self.tested as int
            }),
        ) + "%"@
    }

    /// The tally as text: the counts and the hit percentage.
    pub fn to_text(&self) -> (s: String)
        requires
            self.positive <= usize::MAX / 100,
        ensures
            s@ == self.text_spec(),
    {
        let mut s = String::from_str("Network Stats\n-------------- \ntested: ");
        let d = dec_string(self.tested as u64);
        s.append(d.as_str());
        s.append(", positive: ");
        let d = dec_string(self.positive as u64);
        s.append(d.as_str());
        s.append(", negative: ");
        let d = dec_string(self.negative as u64);
        s.append(d.as_str());
        s.append(", correct: ");
        let d = dec_string(self.correct_percent() as u64);
        s.append(d.as_str());
        s.append("%");
        proof {
            assert(s@ =~= self.text_spec());
        }
        s
    }
}

impl Prediction {
    /// The exact text the prediction displays as.
    pub open spec fn text_spec(&self) -> Seq<char> {
        self.teams.0@ + " "@ + spec_dec(self.predicted_scores[0] as int) + " : "@ + spec_dec(
            self.predicted_scores[1] as int,
        ) + " "@ + self.teams.1@ + "\nExpected: "@ + spec_dec(self.expected_scores[0] as int)
            + " : "@ + spec_dec(self.expected_scores[1] as int) + "\n"@
    }

    /// The prediction as display text: the predicted line, then the
    /// recorded expectation.
    pub fn to_text(&self) -> (s: String)
        ensures
            s@ == self.text_spec(),
    {
        let mut s = String::from_str("");
        s.append(self.teams.0.as_str());
        s.append(" ");
        let d = dec_string(self.predicted_scores[0] as u64);
        s.append(d.as_str());
        s.append(" : ");
        let d = dec_string(self.predicted_scores[1] as u64);
        s.append(d.as_str());
        s.append(" ");
        s.append(self.teams.1.as_str());
        s.append("\nExpected: ");
        let d = dec_string(self.expected_scores[0] as u64);
        s.append(d.as_str());
        s.append(" : ");
        let d = dec_string(self.expected_scores[1] as u64);
        s.append(d.as_str());
        s.append("\n");
        proof {
            reveal_strlit("");
            assert(s@ =~= self.text_spec());
        }
        s
    }
}

/// The display lines of a prediction list.
pub open spec fn spec_lines(ps: Seq<Prediction>) -> Seq<char>
    decreases ps.len(),
{
    if ps.len() == 0 {
        Seq::empty()
    } else {
        spec_lines(ps.drop_last()) + ps.last().text_spec()
    }
}

impl Predictions {
    /// The exact text the prediction list displays as.
    pub open spec fn text_spec(&self) -> Seq<char> {
        "Home | Predicted result | Away\n"@ + spec_lines(self.0@)
    }

    /// The prediction list as display text: a header line, then each
    /// prediction's lines.
    pub fn to_text(&self) -> (s: String)
        ensures
            s@ == self.text_spec(),
    {
        let mut s = String::from_str("Home | Predicted result | Away\n");
        let ghost header = "Home | Predicted result | Away\n"@;
        proof {
            assert(s@ =~= header + spec_lines(self.0@.take(0)));
        }
        let n = self.0.len();
        for i in 0..n
            invariant
                n == self.0@.len(),
                s@ == header + spec_lines(self.0@.take(i as int)),
                header == "Home | Predicted result | Away\n"@,
        {
            let line = self.0[i].to_text();
            s.append(line.as_str());
            proof {
                assert(self.0@.take(i + 1).drop_last() =~= self.0@.take(i as int));
                assert(self.0@.take(i + 1).last() == self.0@[i as int]);
                assert(s@ =~= header + spec_lines(self.0@.take(i + 1)));
            }
        }
        proof {
            assert(self.0@.take(n as int) =~= self.0@);
        }
        s
    }
}

/// The predicted score pair names exactly the recorded result.
pub open spec fn exact_hit(e: [u8; 2], p: [u8; 2]) -> bool {
    e[0] == p[0] && e[1] == p[1]
}

/// The predicted score pair names the recorded winner (or a draw where
/// the result was one).
pub open spec fn winner_hit(e: [u8; 2], p: [u8; 2]) -> bool {
    (e[0] > e[1] && p[0] > p[1]) || (e[0] < e[1] && p[0] < p[1]) || (e[0] == e[1] && p[0]
        == p[1])
}

/// Records one fixture of a test pass: appends its prediction row, and —
/// when the fixture's outcome is known — counts whether the exact result
/// and whether the winner were predicted.  A fixture without a result
/// (a future match) is listed with zero expected scores and counted in
/// neither tally.  The caller denormalizes the network's output into the
/// predicted score pair.
pub fn record_test_result(
    m: &Match,
    predicted: [u8; 2],
    res_stats: &mut NetworkStats,
    win_stats: &mut NetworkStats,
    predictions: &mut Predictions,
)
    requires
        old(res_stats).tested < usize::MAX,
        old(res_stats).positive < usize::MAX,
        old(res_stats).negative < usize::MAX,
        old(win_stats).tested < usize::MAX,
        old(win_stats).positive < usize::MAX,
        old(win_stats).negative < usize::MAX,
    ensures
        final(predictions).0@ == old(predictions).0@.push(
            Prediction {
                date: m.date,
                offset: m.offset,
                teams: (m.home, m.away),
                expected_scores: match m.result {
                    Some(e) => e,
                    None => [0, 0],
                },
                predicted_scores: predicted,
            },
        ),
        match m.result {
            Some(e) => *final(res_stats) == spec_updated(*old(res_stats), exact_hit(e, predicted))
                && *final(win_stats) == spec_updated(*old(win_stats), winner_hit(e, predicted)),
            None => *final(res_stats) == *old(res_stats) && *final(win_stats) == *old(win_stats),
        },
{
    let expected: [u8; 2] = match m.result {
        Some(e) => e,
        None => [0, 0],
    };
    let p = Prediction {
        date: m.date,
        offset: m.offset,
        teams: (m.home.clone(), m.away.clone()),
        expected_scores: expected,
        predicted_scores: predicted,
    };
    predictions.0.push(p);
    if let Some(e) = m.result {
        let exact = e[0] == predicted[0] && e[1] == predicted[1];
        res_stats.update(exact);
        let winner = (e[0] > e[1] && predicted[0] > predicted[1]) || (e[0] < e[1] && predicted[0]
            < predicted[1]) || (e[0] == e[1] && predicted[0] == predicted[1]);
        win_stats.update(winner);
    }
}

} // verus!
