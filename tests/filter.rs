use breeze::entry::{ObjectType, Path};
use breeze::filter::{rank, FuzzyFilter};

fn files(list: &[&str]) -> Vec<Path> {
    list.iter()
        .map(|n| Path::new(n.to_string(), ObjectType::File))
        .collect()
}

fn names(paths: &[Path]) -> Vec<String> {
    paths.iter().map(|p| p.value.clone()).collect()
}

#[test]
fn rank_orders_by_descending_score_stably() {
    let entries = files(&["a", "b", "c", "d", "e"]);
    let outcomes = vec![
        Some((5, vec![0])),
        None,
        Some((9, vec![1, 2])),
        Some((5, vec![3])),
        Some((7, vec![])),
    ];
    let ranked = rank(&entries, outcomes);
    assert_eq!(names(&ranked), vec!["c", "e", "a", "d"]);
    assert_eq!(ranked[0].match_indices, vec![1, 2]);
    assert_eq!(ranked[2].match_indices, vec![0]);
    assert_eq!(ranked[3].match_indices, vec![3]);
}

#[test]
fn rank_keeps_kind_and_drops_unmatched() {
    let mut entries = files(&["x"]);
    entries.push(Path::new("y".to_string(), ObjectType::Directory));
    let ranked = rank(&entries, vec![None, Some((1, vec![0]))]);
    assert_eq!(names(&ranked), vec!["y"]);
    assert!(matches!(ranked[0].kind, ObjectType::Directory));
    assert!(rank(&entries, vec![None, None]).is_empty());
}

#[test]
fn filter_with_empty_query_clears_positions() {
    let mut entries = files(&["b", "a"]);
    entries[0].match_indices = vec![0];
    let mut filter = FuzzyFilter::new();
    let shown = filter.apply("", &entries);
    assert_eq!(names(&shown), vec!["b", "a"]);
    assert!(shown.iter().all(|p| p.match_indices.is_empty()));
}

#[test]
fn filter_matches_case_insensitively_with_positions() {
    let entries = files(&["alpha.txt", "beta.txt", "gamma.txt"]);
    let mut filter = FuzzyFilter::new();
    let shown = filter.apply("ALP", &entries);
    assert_eq!(names(&shown), vec!["alpha.txt"]);
    assert_eq!(shown[0].match_indices, vec![0, 1, 2]);
}

#[test]
fn filter_drops_every_entry_without_a_match() {
    let entries = files(&["alpha.txt", "beta.txt"]);
    let mut filter = FuzzyFilter::new();
    assert!(filter.apply("xyz", &entries).is_empty());
}

#[test]
fn filter_twice_gives_the_same_result() {
    let entries = files(&["test1.txt", "test2.txt", "other.txt", "notes.md"]);
    let mut filter = FuzzyFilter::new();
    let first = filter.apply("te", &entries);
    let second = filter.apply("te", &entries);
    assert_eq!(names(&first), names(&second));
    let first_positions: Vec<Vec<u32>> = first.iter().map(|p| p.match_indices.clone()).collect();
    let second_positions: Vec<Vec<u32>> = second.iter().map(|p| p.match_indices.clone()).collect();
    assert_eq!(first_positions, second_positions);
}

#[test]
fn filter_narrows_as_the_query_grows() {
    let entries = files(&["alpha.txt", "beta.txt", "gamma.txt", "alps", "palace"]);
    let mut filter = FuzzyFilter::new();
    let mut query = String::new();
    let mut previous = names(&filter.apply("", &entries));
    for c in "alp".chars() {
        query.push(c);
        let current = names(&filter.apply(&query, &entries));
        assert!(current.iter().all(|n| previous.contains(n)));
        previous = current;
    }
    assert!(previous.contains(&"alpha.txt".to_string()));
    assert!(!previous.contains(&"beta.txt".to_string()));
}

#[test]
fn filter_matches_names_at_the_length_limit() {
    let long = "a".repeat(breeze::filter::NAME_LIMIT);
    let entries = vec![Path::new(long.clone(), ObjectType::File)];
    let mut filter = FuzzyFilter::new();
    let shown = filter.apply(&long, &entries);
    assert_eq!(names(&shown), vec![long.clone()]);
    assert_eq!(shown[0].match_indices.len(), breeze::filter::NAME_LIMIT);
    let longer_query = "a".repeat(breeze::filter::NAME_LIMIT + 1);
    assert!(filter.apply(&longer_query, &entries).is_empty());
}
