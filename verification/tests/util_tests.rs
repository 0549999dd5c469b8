use guru::models::Match;
use guru::utils::{clone_matches, filter_no_results, filter_results, rand_k_split, sort_by_date};

fn m(date: i64, home: &str, away: &str, result: Option<[u8; 2]>) -> Match {
    Match::new(date, 0, String::from("l1"), String::from(home), String::from(away), result)
}

fn dates(ms: &[Match]) -> Vec<i64> {
    ms.iter().map(|x| x.date).collect()
}

#[test]
fn filters_split_by_result_and_keep_order() {
    let ms = vec![
        m(1, "A", "B", Some([1, 0])),
        m(2, "B", "C", None),
        m(3, "C", "A", Some([2, 2])),
        m(4, "A", "C", None),
    ];
    let trainable = filter_results(&ms);
    assert_eq!(dates(&trainable), vec![1, 3]);
    let predict_only = filter_no_results(&ms);
    assert_eq!(dates(&predict_only), vec![2, 4]);
    assert_eq!(trainable.len() + predict_only.len(), ms.len());
}

#[test]
fn sort_by_date_orders_without_losing_matches() {
    let mut ms = vec![
        m(30, "A", "B", None),
        m(10, "B", "C", Some([1, 1])),
        m(20, "C", "A", None),
        m(10, "D", "E", None),
    ];
    sort_by_date(&mut ms);
    assert_eq!(dates(&ms), vec![10, 10, 20, 30]);
    let homes: Vec<String> = ms.iter().map(|x| x.home.clone()).collect();
    let mut sorted_homes = homes.clone();
    sorted_homes.sort();
    assert_eq!(sorted_homes, vec!["A", "B", "C", "D"]);
}

#[test]
fn rand_k_split_distributes_every_match() {
    let mut ms: Vec<Match> = (0..11).map(|i| m(i, "A", "B", None)).collect();
    let sets = rand_k_split(&mut ms, 3, true);
    // 11 matches in chunks of 3: three subsets, the leftovers spread one
    // each over two of them
    assert_eq!(sets.data.len(), 3);
    let mut sizes: Vec<usize> = sets.data.iter().map(|c| c.len()).collect();
    sizes.sort();
    assert_eq!(sizes, vec![3, 4, 4]);
    let mut seen: Vec<i64> = sets.data.iter().flat_map(|c| c.iter().map(|x| x.date)).collect();
    seen.sort();
    assert_eq!(seen, (0..11).collect::<Vec<i64>>());
    let original = sets.original.unwrap();
    let mut kept = dates(&original);
    kept.sort();
    assert_eq!(kept, (0..11).collect::<Vec<i64>>());
}

#[test]
fn rand_k_split_without_original_copy() {
    let mut ms: Vec<Match> = (0..6).map(|i| m(i, "A", "B", None)).collect();
    let sets = rand_k_split(&mut ms, 2, false);
    assert!(sets.original.is_none());
    assert_eq!(sets.data.len(), 3);
    for c in &sets.data {
        assert_eq!(c.len(), 2);
    }
}

#[test]
fn clone_matches_copies_exactly() {
    let ms = vec![m(1, "A", "B", Some([1, 0])), m(2, "B", "A", None)];
    let copy = clone_matches(&ms);
    assert_eq!(dates(&copy), dates(&ms));
    assert_eq!(copy[0].home, "A");
    assert_eq!(copy[1].result, None);
}
