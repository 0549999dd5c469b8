use guru::generators::{DefaultInputGenerator, Generator, Guru};
use guru::ledger::Ledger;
use guru::models::{Club, Clubs, GuruError, Match};
use guru::ratio::Ratio;
use guru::stats::Stats;

fn m(date: i64, home: &str, away: &str, result: Option<[u8; 2]>) -> Match {
    Match::new(date, 0, String::from("l1"), String::from(home), String::from(away), result)
}

fn generator_for(matches: Vec<Match>) -> DefaultInputGenerator {
    let clubs = Clubs::from_matches(&matches);
    DefaultInputGenerator::new(matches, clubs, Ratio::one())
}

fn entry<'a>(g: &'a DefaultInputGenerator, name: &str) -> &'a Stats {
    let i = g.clubs.get_index_by_name(&String::from(name)).unwrap() as usize;
    &g.ledger.entries[i]
}

#[test]
fn two_matches_advance_both_ledgers() {
    let matches = vec![
        m(100, "Red", "Blue", Some([2, 1])),
        m(200, "Blue", "Red", Some([0, 3])),
    ];
    let mut g = generator_for(matches.clone());
    g.generate(&matches[0]).unwrap();
    {
        let red = entry(&g, "Red");
        assert_eq!(red.home_scores, vec![2]);
        assert_eq!(red.away_scores, Vec::<u8>::new());
        assert_eq!(red.games_played, [1, 0]);
        let blue = entry(&g, "Blue");
        assert_eq!(blue.away_scores, vec![1]);
        assert_eq!(blue.home_scores, Vec::<u8>::new());
        assert_eq!(blue.games_played, [0, 1]);
    }
    g.generate(&matches[1]).unwrap();
    {
        let blue = entry(&g, "Blue");
        assert_eq!(blue.home_scores, vec![0]);
        assert_eq!(blue.games_played, [1, 1]);
        let red = entry(&g, "Red");
        assert_eq!(red.away_scores, vec![3]);
        assert_eq!(red.games_played, [1, 1]);
    }
}

#[test]
fn counters_always_match_score_lengths() {
    let matches = vec![
        m(100, "Red", "Blue", Some([2, 1])),
        m(200, "Blue", "Red", Some([0, 3])),
        m(300, "Red", "Blue", None),
        m(400, "Red", "Blue", Some([1, 1])),
    ];
    let mut g = generator_for(matches.clone());
    for mm in &matches {
        g.generate(mm).unwrap();
        for s in &g.ledger.entries {
            assert_eq!(s.home_scores.len(), s.games_played[0] as usize);
            assert_eq!(s.away_scores.len(), s.games_played[1] as usize);
        }
    }
}

#[test]
fn resultless_match_leaves_ledger_unchanged() {
    let matches = vec![
        m(100, "Red", "Blue", Some([2, 1])),
        m(200, "Blue", "Red", None),
    ];
    let mut g = generator_for(matches.clone());
    g.generate(&matches[0]).unwrap();
    let before: Vec<(Vec<u8>, Vec<u8>, [u8; 2])> = g
        .ledger
        .entries
        .iter()
        .map(|s| (s.home_scores.clone(), s.away_scores.clone(), s.games_played))
        .collect();
    g.generate(&matches[1]).unwrap();
    let after: Vec<(Vec<u8>, Vec<u8>, [u8; 2])> = g
        .ledger
        .entries
        .iter()
        .map(|s| (s.home_scores.clone(), s.away_scores.clone(), s.games_played))
        .collect();
    assert_eq!(before, after);
}

#[test]
fn empty_entry_queries_return_zero() {
    let s = Stats::default();
    assert_eq!(Stats::total_scoring_by_club_to_date(&s), [0, 0]);
    assert_eq!(Stats::highest_scoring_by_club_to_date(&s), [0, 0]);
}

#[test]
fn ledger_totals_agree_with_manual_sums() {
    let matches = vec![
        m(100, "Red", "Blue", Some([2, 1])),
        m(200, "Blue", "Red", Some([0, 3])),
        m(300, "Red", "Blue", Some([4, 2])),
    ];
    let mut g = generator_for(matches.clone());
    for mm in &matches {
        g.generate(mm).unwrap();
    }
    let red = entry(&g, "Red");
    assert_eq!(Stats::total_scoring_by_club_to_date(red), [6, 3]);
    assert_eq!(Stats::highest_scoring_by_club_to_date(red), [4, 3]);
    let blue = entry(&g, "Blue");
    assert_eq!(Stats::total_scoring_by_club_to_date(blue), [0, 3]);
    assert_eq!(Stats::highest_scoring_by_club_to_date(blue), [0, 2]);
}

#[test]
fn registry_rebuild_gives_same_club_set() {
    let matches = vec![
        m(100, "Red", "Blue", Some([2, 1])),
        m(200, "Green", "Red", None),
    ];
    let c1 = Clubs::from_matches(&matches);
    let c2 = Clubs::from_matches(&matches);
    let mut n1: Vec<String> = c1.data.iter().map(|c| c.name.clone()).collect();
    let mut n2: Vec<String> = c2.data.iter().map(|c| c.name.clone()).collect();
    assert_eq!(n1.len(), 3);
    n1.sort();
    n2.sort();
    assert_eq!(n1, n2);
    assert_eq!(n1, vec!["Blue".to_string(), "Green".to_string(), "Red".to_string()]);
}

#[test]
fn unknown_club_is_a_loud_failure() {
    let matches = vec![m(100, "Red", "Blue", Some([2, 1]))];
    let clubs = Clubs::from_matches(&matches);
    assert!(clubs.get_index_by_name(&String::from("Green")).is_none());
    let mut g = generator_for(matches);
    let stray = m(150, "Green", "Blue", Some([1, 0]));
    assert_eq!(g.generate(&stray), Err(GuruError::MissingClub));
}

#[test]
fn unreadable_league_label_is_rejected() {
    let matches = vec![m(100, "Red", "Blue", Some([2, 1]))];
    let mut g = generator_for(matches);
    let bad = Match::new(
        150,
        0,
        String::from("l?1"),
        String::from("Red"),
        String::from("Blue"),
        Some([1, 0]),
    );
    assert_eq!(g.generate(&bad), Err(GuruError::UnparsableRecord));
}

#[test]
fn exhausted_counter_is_a_ledger_invariant_error() {
    let matches = vec![m(100, "Red", "Blue", Some([1, 0]))];
    let mut g = generator_for(matches.clone());
    for _ in 0..255 {
        g.generate(&matches[0]).unwrap();
    }
    assert_eq!(g.generate(&matches[0]), Err(GuruError::LedgerInvariant));
}

#[test]
fn ledger_new_has_one_empty_entry_per_club() {
    let matches = vec![
        m(100, "Red", "Blue", Some([2, 1])),
        m(200, "Green", "Red", None),
    ];
    let clubs = Clubs::from_matches(&matches);
    let l = Ledger::new(&clubs);
    assert_eq!(l.entries.len(), 3);
    for s in &l.entries {
        assert!(s.home_scores.is_empty());
        assert!(s.away_scores.is_empty());
        assert_eq!(s.games_played, [0, 0]);
    }
}

#[test]
fn club_and_match_constructors_keep_fields() {
    let c = Club::new(String::from("Red"));
    assert_eq!(c.name, "Red");
    let mm = Match::new(7, -14400, String::from("l1"), String::from("A"), String::from("B"), None);
    assert_eq!(mm.date, 7);
    assert_eq!(mm.offset, -14400);
    assert_eq!(mm.league, "l1");
    assert_eq!(mm.home, "A");
    assert_eq!(mm.away, "B");
    assert_eq!(mm.result, None);
    let g = Guru::new(vec![mm.clone()]);
    assert_eq!(g.data_set.len(), 1);
}

#[test]
fn stats_update_replaces_entry() {
    let mut s = Stats::default();
    let new = Stats {
        home_scores: vec![2],
        away_scores: vec![1],
        games_played: [1, 1],
    };
    s.update(new.clone());
    assert_eq!(s.home_scores, vec![2]);
    assert_eq!(s.away_scores, vec![1]);
    assert_eq!(s.games_played, [1, 1]);
}
