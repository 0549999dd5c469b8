use guru::features::{date_range, h2h_to_date, league_code, max_league_code, pair_fractions};
use guru::generators::{DefaultInputGenerator, Generator, Guru};
use guru::models::{Clubs, DataEntry, Match, Scoring};
use guru::ratio::{normalize, Ratio};
use guru::stats::{Comparison, Stats};

fn m(date: i64, home: &str, away: &str, result: Option<[u8; 2]>) -> Match {
    Match::new(date, 0, String::from("l1"), String::from(home), String::from(away), result)
}

fn ratio(num: i128, den: i128) -> Ratio {
    Ratio { num, den }
}

#[test]
fn normalize_rescales_into_unit_interval() {
    let r = normalize(Ratio::from_int(3), Ratio::from_int(0), Ratio::from_int(10));
    assert!(r.eq_value(&ratio(3, 10)));
    let r = normalize(Ratio::from_int(7), Ratio::from_int(2), Ratio::from_int(12));
    assert!(r.eq_value(&ratio(1, 2)));
    let r = normalize(Ratio::from_int(12), Ratio::from_int(2), Ratio::from_int(12));
    assert!(r.eq_value(&Ratio::one()));
}

#[test]
fn normalize_degenerate_range_is_the_raw_offset() {
    let r = normalize(Ratio::from_int(5), Ratio::from_int(5), Ratio::from_int(5));
    assert_eq!(r.num, 0);
    assert_eq!(r.den, 1);
    // the fallback can exceed the unit interval
    let r = normalize(Ratio::from_int(9), Ratio::from_int(5), Ratio::from_int(5));
    assert_eq!(r.num, 4);
    assert_eq!(r.den, 1);
}

#[test]
fn league_codes_read_base36() {
    assert_eq!(league_code("0"), Some(0));
    assert_eq!(league_code("z"), Some(35));
    assert_eq!(league_code("10"), Some(36));
    assert_eq!(league_code("nisa"), Some(23 * 36 * 36 * 36 + 18 * 36 * 36 + 28 * 36 + 10));
    assert_eq!(league_code("Z"), Some(35));
    assert_eq!(league_code("-z"), Some(-35));
    assert_eq!(league_code("+z"), Some(35));
    assert_eq!(league_code(""), None);
    assert_eq!(league_code("+"), None);
    assert_eq!(league_code("l?1"), None);
    // 13 digits of z overflow an i64
    assert_eq!(league_code("zzzzzzzzzzzzz"), None);
}

#[test]
fn max_league_code_scans_the_collection() {
    let mut ms = vec![m(1, "A", "B", None)];
    ms[0].league = String::from("2");
    let mut second = m(2, "B", "A", None);
    second.league = String::from("z");
    ms.push(second);
    assert_eq!(max_league_code(&ms), Some(35));
    assert_eq!(max_league_code(&Vec::new()), None);
}

#[test]
fn date_range_finds_earliest_and_latest() {
    let ms = vec![m(300, "A", "B", None), m(100, "B", "C", None), m(200, "C", "A", None)];
    assert_eq!(date_range(&ms), Some([100, 300]));
    assert_eq!(date_range(&Vec::new()), None);
}

#[test]
fn game_day_normalizes_the_match_date() {
    let ms = vec![m(100, "A", "B", None), m(300, "B", "A", None)];
    let r = Guru::game_day(250, &ms).unwrap();
    assert!(r.eq_value(&ratio(3, 4)));
    // a fixture later than the reference window exceeds 1
    let r = Guru::game_day(400, &ms).unwrap();
    assert!(r.eq_value(&ratio(3, 2)));
    assert!(Guru::game_day(1, &Vec::new()).is_none());
}

#[test]
fn wdl_counts_home_and_away_outcomes() {
    let ms = vec![
        m(100, "A", "B", Some([2, 0])), // A home win
        m(200, "A", "C", Some([1, 1])), // A home draw
        m(300, "C", "B", Some([0, 1])), // B away win
        m(400, "A", "B", Some([0, 2])), // A home loss, B away win
        m(900, "A", "B", None),
    ];
    let probe = m(500, "A", "B", None);
    // the away counts apply the same home-versus-away comparison to the
    // away club's away fixtures
    assert_eq!(Stats::wdl_to_date(&ms, &probe, Comparison::Greater), [1, 1]);
    assert_eq!(Stats::wdl_to_date(&ms, &probe, Comparison::Equal), [1, 0]);
    assert_eq!(Stats::wdl_to_date(&ms, &probe, Comparison::Less), [1, 2]);
}

#[test]
fn median_is_the_middle_of_the_sorted_scores() {
    // home team scored [2, 3, 4, 1, 4] at home: sorted [1, 2, 3, 4, 4], median 3
    // away team scored [2, 0, 1, 2] away: sorted [0, 1, 2, 2], median 1.5
    let ms = vec![
        m(10, "H", "X", Some([2, 9])),
        m(20, "H", "X", Some([3, 9])),
        m(30, "H", "X", Some([4, 9])),
        m(40, "H", "X", Some([1, 9])),
        m(50, "H", "X", Some([4, 9])),
        m(11, "X", "A", Some([9, 2])),
        m(21, "X", "A", Some([9, 0])),
        m(31, "X", "A", Some([9, 1])),
        m(41, "X", "A", Some([9, 2])),
    ];
    let probe = m(500, "H", "A", None);
    let med = Stats::median_score_to_date(&ms, &probe);
    assert!(med[0].eq_value(&ratio(3, 1)));
    assert!(med[1].eq_value(&ratio(3, 2)));
    // no data: both medians are zero
    let empty_probe = m(5, "H", "A", None);
    let med = Stats::median_score_to_date(&ms, &empty_probe);
    assert!(med[0].eq_value(&Ratio::zero()));
    assert!(med[1].eq_value(&Ratio::zero()));
}

#[test]
fn h2h_sums_are_oriented_by_the_current_sides() {
    let ms = vec![
        m(10, "A", "B", Some([1, 0])),
        m(20, "B", "A", Some([1, 3])),
        m(30, "A", "C", Some([9, 9])),
        m(40, "A", "B", None),
    ];
    let probe = m(500, "A", "B", None);
    // A scored 1 + 3 against B; B scored 0 + 1 against A
    assert_eq!(h2h_to_date(&ms, &probe), [4, 1]);
    let flipped = m(500, "B", "A", None);
    assert_eq!(h2h_to_date(&ms, &flipped), [1, 4]);
}

#[test]
fn pair_fractions_split_the_total() {
    let p = pair_fractions(3, 1);
    assert!(p[0].eq_value(&ratio(3, 4)));
    assert!(p[1].eq_value(&ratio(1, 4)));
    // degenerate total: both cells fall back to the raw offsets
    let p = pair_fractions(0, 0);
    assert!(p[0].eq_value(&Ratio::zero()));
    assert!(p[1].eq_value(&Ratio::zero()));
}

#[test]
fn all_time_highest_tracks_both_sides_independently() {
    let ms = vec![
        m(10, "A", "B", Some([2, 5])),
        m(20, "B", "A", Some([3, 1])),
        m(30, "A", "B", None),
    ];
    assert_eq!(Stats::all_time_highest_score_in_league(&ms), [3, 5]);
    assert_eq!(Stats::game_days(&ms), 3);
}

#[test]
fn highest_in_league_to_date_sees_only_earlier_results() {
    let ms = vec![
        m(10, "A", "B", Some([2, 5])),
        m(20, "B", "A", Some([3, 1])),
        m(30, "A", "B", Some([9, 9])),
    ];
    assert_eq!(Stats::highest_scoring_in_league_to_date(&ms, 30), [3, 5]);
    assert_eq!(Stats::highest_scoring_in_league_to_date(&ms, 10), [0, 0]);
}

#[test]
fn goal_diff_divides_home_by_away_totals() {
    // home [3, 0, 2, 1] = 6, away [1, 1] = 2 -> 3
    let mut s = Stats {
        home_scores: vec![3, 0, 2, 1],
        away_scores: vec![1, 1],
        games_played: [4, 2],
    };
    assert_eq!(Stats::goal_diff(&mut s), 3);
    assert!(s.home_scores.is_empty());
    assert!(s.away_scores.is_empty());
    let mut s = Stats {
        home_scores: vec![2, 2],
        away_scores: vec![],
        games_played: [2, 0],
    };
    assert_eq!(Stats::goal_diff(&mut s), 4);
}

#[test]
fn goal_diff_feature_keeps_the_exact_ratio() {
    let mut s = Stats {
        home_scores: vec![3, 0, 2, 1],
        away_scores: vec![1, 1],
        games_played: [4, 2],
    };
    let r = Stats::goal_diff_feature(&mut s, Scoring::Home);
    assert!(r.eq_value(&ratio(3, 1)));
    let mut s = Stats {
        home_scores: vec![3, 0, 2, 1],
        away_scores: vec![1, 1],
        games_played: [4, 2],
    };
    let r = Stats::goal_diff_feature(&mut s, Scoring::Away);
    assert!(r.eq_value(&ratio(1, 3)));
}

#[test]
fn club_features_mark_home_and_away_cells() {
    let ms = vec![m(10, "A", "B", None), m(20, "C", "A", None)];
    let clubs = Clubs::from_matches(&ms);
    let block = Guru::club_features(&ms[0], &clubs, Ratio::one()).unwrap();
    assert_eq!(block.len(), 3);
    let hi = clubs.get_index_by_name(&String::from("A")).unwrap() as usize;
    let ai = clubs.get_index_by_name(&String::from("B")).unwrap() as usize;
    let ci = clubs.get_index_by_name(&String::from("C")).unwrap() as usize;
    assert!(block[hi].eq_value(&ratio(1, 2)));
    assert!(block[ai].eq_value(&ratio(1, 2)));
    assert!(block[ci].eq_value(&Ratio::zero()));
    // an away factor of 4/5: home cell 5/9, away cell 4/9
    let block = Guru::club_features(&ms[0], &clubs, ratio(4, 5)).unwrap();
    assert!(block[hi].eq_value(&ratio(5, 9)));
    assert!(block[ai].eq_value(&ratio(4, 9)));
}

#[test]
fn round_robin_through_the_reference_generator() {
    let matches = vec![
        m(100, "A", "B", Some([2, 1])),
        m(200, "B", "C", Some([0, 0])),
        m(300, "C", "A", Some([1, 3])),
        m(400, "B", "A", Some([2, 2])),
    ];
    let clubs = Clubs::from_matches(&matches);
    let mut g = DefaultInputGenerator::new(matches.clone(), clubs, Ratio::one());
    let nclubs = g.clubs.data.len();
    let af_total = normalize(
        Ratio::from_int(2),
        Ratio::from_int(0),
        Ratio::from_int(2),
    );
    for (idx, mm) in matches.iter().enumerate() {
        let v = g.generate(mm).unwrap();
        assert_eq!(v.len(), nclubs + 20);
        // the one-hot block always sums to the normalized 1 + AWAY_FACTOR total
        let mut block_sum = Ratio::zero();
        for cell in v.iter().take(nclubs) {
            block_sum = block_sum.add(*cell);
        }
        assert!(block_sum.eq_value(&af_total));
        // the head-to-head pair: degenerate on a first encounter, else summing to 1
        let hh0 = v[nclubs + 18];
        let hh1 = v[nclubs + 19];
        let hh_sum = hh0.add(hh1);
        if idx < 3 {
            assert!(hh_sum.eq_value(&Ratio::zero()));
        } else {
            assert!(hh_sum.eq_value(&Ratio::one()));
        }
    }
}

#[test]
fn assemble_pairs_features_with_normalized_goals() {
    let matches = vec![
        m(100, "A", "B", Some([2, 1])),
        m(200, "B", "A", None),
    ];
    let clubs = Clubs::from_matches(&matches);
    let mut g = DefaultInputGenerator::new(matches.clone(), clubs, Ratio::one());
    let nclubs = g.clubs.data.len();
    let entry = DataEntry::assemble(&matches[0], 4, &mut g).unwrap();
    assert_eq!(entry.inputs.len(), nclubs + 20);
    assert_eq!(entry.outputs.len(), 2);
    assert!(entry.outputs[0].eq_value(&ratio(1, 2)));
    assert!(entry.outputs[1].eq_value(&ratio(1, 4)));
    let entry = DataEntry::assemble(&matches[1], 4, &mut g).unwrap();
    assert!(entry.outputs.is_empty());
}
