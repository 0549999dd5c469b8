use guru::models::Match;
use guru::report::{
    dec_string, record_test_result, Markdown, NetworkStats, Prediction, Predictions,
};

fn m(date: i64, home: &str, away: &str, result: Option<[u8; 2]>) -> Match {
    Match::new(date, 0, String::from("l1"), String::from(home), String::from(away), result)
}

#[test]
fn network_stats_tally_hits_and_misses() {
    let mut s = NetworkStats::default();
    assert_eq!((s.tested, s.positive, s.negative), (0, 0, 0));
    s.update(true);
    s.update(false);
    s.update(true);
    assert_eq!((s.tested, s.positive, s.negative), (3, 2, 1));
    let s = NetworkStats::new(4, 3, 1);
    assert_eq!(s.correct_percent(), 75);
    let fresh = NetworkStats::default();
    assert_eq!(fresh.correct_percent(), 0);
}

#[test]
fn decimal_rendering_is_exact() {
    assert_eq!(dec_string(0), "0");
    assert_eq!(dec_string(7), "7");
    assert_eq!(dec_string(42), "42");
    assert_eq!(dec_string(255), "255");
    assert_eq!(dec_string(1000), "1000");
}

#[test]
fn prediction_renders_one_table_row() {
    let p = Prediction {
        date: 0,
        offset: 0,
        teams: (String::from("Red"), String::from("Blue")),
        expected_scores: [2, 1],
        predicted_scores: [3, 0],
    };
    assert_eq!(p.to_table(), "|Red|3 : 0|Blue|");
}

#[test]
fn predictions_render_a_whole_table() {
    let rows = vec![
        Prediction {
            date: 0,
            offset: 0,
            teams: (String::from("Red"), String::from("Blue")),
            expected_scores: [2, 1],
            predicted_scores: [2, 1],
        },
        Prediction {
            date: 1,
            offset: 0,
            teams: (String::from("Blue"), String::from("Red")),
            expected_scores: [0, 0],
            predicted_scores: [1, 1],
        },
    ];
    let table = Predictions(rows).to_table();
    assert_eq!(
        table,
        "|Home|Predicted result|Away|\n|-:|:-:|:-|\n|Red|2 : 1|Blue|\n|Blue|1 : 1|Red|\n"
    );
}

#[test]
fn prediction_text_shows_predicted_and_expected() {
    let p = Prediction {
        date: 0,
        offset: 0,
        teams: (String::from("Red"), String::from("Blue")),
        expected_scores: [2, 1],
        predicted_scores: [3, 0],
    };
    assert_eq!(p.to_text(), "Red 3 : 0 Blue\nExpected: 2 : 1\n");
}

#[test]
fn predictions_text_lists_every_fixture() {
    let rows = vec![Prediction {
        date: 0,
        offset: 0,
        teams: (String::from("Red"), String::from("Blue")),
        expected_scores: [2, 1],
        predicted_scores: [2, 1],
    }];
    let text = Predictions(rows).to_text();
    assert_eq!(text, "Home | Predicted result | Away\nRed 2 : 1 Blue\nExpected: 2 : 1\n");
}

#[test]
fn network_stats_text_reports_the_tally() {
    let s = NetworkStats::new(4, 3, 1);
    assert_eq!(
        s.to_text(),
        "Network Stats\n-------------- \ntested: 4, positive: 3, negative: 1, correct: 75%"
    );
}

#[test]
fn recording_a_tested_fixture_updates_both_tallies() {
    let mut res = NetworkStats::default();
    let mut win = NetworkStats::default();
    let mut preds = Predictions(Vec::new());
    // exact hit
    record_test_result(&m(1, "A", "B", Some([2, 1])), [2, 1], &mut res, &mut win, &mut preds);
    // wrong score, right winner
    record_test_result(&m(2, "A", "B", Some([3, 0])), [1, 0], &mut res, &mut win, &mut preds);
    // wrong winner
    record_test_result(&m(3, "A", "B", Some([0, 2])), [2, 0], &mut res, &mut win, &mut preds);
    // a future fixture is listed but not counted
    record_test_result(&m(4, "A", "B", None), [1, 1], &mut res, &mut win, &mut preds);
    assert_eq!((res.tested, res.positive, res.negative), (3, 1, 2));
    assert_eq!((win.tested, win.positive, win.negative), (3, 2, 1));
    assert_eq!(preds.0.len(), 4);
    assert_eq!(preds.0[0].predicted_scores, [2, 1]);
    assert_eq!(preds.0[3].expected_scores, [0, 0]);
    assert_eq!(preds.0[1].teams.0, "A");
}
