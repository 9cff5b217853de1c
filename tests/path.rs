use breeze::entry::{sort_by_name, ObjectType, Path};
use breeze::selection::PathList;

fn names(paths: &[Path]) -> Vec<String> {
    paths.iter().map(|p| p.value.clone()).collect()
}

fn files(list: &[&str]) -> Vec<Path> {
    list.iter()
        .map(|n| Path::new(n.to_string(), ObjectType::File))
        .collect()
}

#[test]
fn test_path_new() {
    let path = Path::new("test.txt".to_string(), ObjectType::File);
    assert_eq!(path.value, "test.txt");
    assert!(matches!(path.kind, ObjectType::File));
}

#[test]
fn test_path_with_match_indices_constructor() {
    let indices = vec![0, 2, 4];
    let path = Path::with_match_indices("hello.txt".to_string(), ObjectType::File, indices.clone());

    assert_eq!(path.value, "hello.txt");
    assert_eq!(path.match_indices, indices);
    assert!(matches!(path.kind, ObjectType::File));
}

#[test]
fn test_path_default_constructor_has_empty_indices() {
    let path = Path::new("test.txt".to_string(), ObjectType::Directory);

    assert_eq!(path.value, "test.txt");
    assert_eq!(path.match_indices.len(), 0);
    assert!(matches!(path.kind, ObjectType::Directory));
}

#[test]
fn test_pathlist_initial_state_no_selection() {
    let paths: Vec<Path> = vec![];
    let path_list = PathList::from_iter(paths);
    assert_eq!(path_list.selected(), None);
}

#[test]
fn sort_by_name_orders_alphabetically() {
    let sorted = sort_by_name(files(&["zebra.txt", "apple.txt", "banana.txt", "cherry.txt"]));
    assert_eq!(
        names(&sorted),
        vec!["apple.txt", "banana.txt", "cherry.txt", "zebra.txt"]
    );
}

#[test]
fn sort_by_name_is_case_sensitive() {
    let sorted = sort_by_name(files(&["Zebra.txt", "apple.txt", "Banana.txt"]));
    assert_eq!(names(&sorted), vec!["Banana.txt", "Zebra.txt", "apple.txt"]);
}

#[test]
fn sort_by_name_keeps_every_entry_and_kind() {
    let mut input = files(&[".hidden", "visible.txt", "file with spaces.txt"]);
    input.push(Path::new("dir".to_string(), ObjectType::Directory));
    let sorted = sort_by_name(input);
    assert_eq!(
        names(&sorted),
        vec![".hidden", "dir", "file with spaces.txt", "visible.txt"]
    );
    assert!(matches!(sorted[1].kind, ObjectType::Directory));
    assert!(matches!(sorted[0].kind, ObjectType::File));
}

#[test]
fn sort_by_name_prefix_and_bytes() {
    // a prefix comes first; bytes, not characters' case, decide
    let sorted = sort_by_name(files(&["ab", "a", "b", "B", "é", "z"]));
    assert_eq!(names(&sorted), vec!["B", "a", "ab", "b", "z", "é"]);
}

#[test]
fn sort_by_name_empty() {
    assert!(sort_by_name(Vec::new()).is_empty());
}

#[test]
fn pathlist_selection_moves_clamped() {
    let mut list = PathList::from_iter(files(&["a", "b", "c"]));
    list.select_previous();
    assert_eq!(list.selected(), Some(0));
    list.select_last();
    assert_eq!(list.selected(), Some(2));
    list.select_next();
    assert_eq!(list.selected(), Some(2));
    list.select_previous();
    assert_eq!(list.selected(), Some(1));
    list.select_none();
    assert_eq!(list.selected(), None);
    list.select_next();
    assert_eq!(list.selected(), Some(0));
    list.select_previous();
    assert_eq!(list.selected(), Some(0));
}

#[test]
fn pathlist_empty_selects_nothing() {
    let mut list = PathList::from_iter(Vec::new());
    list.select_first();
    assert_eq!(list.selected(), None);
    list.select_last();
    assert_eq!(list.selected(), None);
    list.select_next();
    assert_eq!(list.selected(), None);
    list.select_previous();
    assert_eq!(list.selected(), None);
}
