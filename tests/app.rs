use breeze::app::{App, Key, Request};
use breeze::entry::{ObjectType, Path};
use breeze::{Explorer, ExplorerError};

fn explorer_at(dir: &str) -> Explorer {
    Explorer { current_dir: dir.to_string() }
}

fn app_with(names: &[&str]) -> App {
    let entries = names
        .iter()
        .map(|n| Path::new(n.to_string(), ObjectType::File))
        .collect();
    App::new(explorer_at("/test/path"), entries)
}

fn shown(app: &App) -> Vec<String> {
    app.path_list().items().iter().map(|p| p.value.clone()).collect()
}

fn type_text(app: &mut App, text: &str) {
    for c in text.chars() {
        app.handle_key(Key::Char(c));
    }
}

#[test]
fn test_app_select_first() {
    let mut app = app_with(&["file1.txt", "file2.txt"]);
    app.select_first();
    assert_eq!(app.path_list().selected(), Some(0));
}

#[test]
fn test_app_select_navigation() {
    let mut app = app_with(&["file1.txt", "file2.txt", "file3.txt"]);

    app.select_first();
    assert_eq!(app.path_list().selected(), Some(0));

    app.select_next();
    assert_eq!(app.path_list().selected(), Some(1));

    app.select_next();
    assert_eq!(app.path_list().selected(), Some(2));

    app.select_previous();
    assert_eq!(app.path_list().selected(), Some(1));

    app.select_previous();
    assert_eq!(app.path_list().selected(), Some(0));
}

#[test]
fn test_app_select_none() {
    let mut app = app_with(&["file.txt"]);
    app.select_first();
    assert_eq!(app.path_list().selected(), Some(0));
    app.select_none();
    assert_eq!(app.path_list().selected(), None);
}

#[test]
fn test_app_update_command_with_selection() {
    let mut app = app_with(&["file.txt"]);
    app.select_first();
    app.update_command("test-cmd".to_string(), false);

    assert_eq!(app.output().command, "test-cmd");
    assert_eq!(app.output().items.len(), 1);
    assert!(app.output().items[0].ends_with("file.txt"));
    assert!(!app.should_exit());
}

#[test]
fn test_app_update_command_with_quit() {
    let mut app = app_with(&["file.txt"]);
    app.select_first();
    app.update_command("test-cmd".to_string(), true);
    assert!(app.should_exit());
}

#[test]
fn test_app_update_command_without_selection() {
    let mut app = app_with(&["file.txt"]);
    app.update_command("test-cmd".to_string(), false);

    assert_eq!(app.output().command, "no-op");
    assert_eq!(app.output().items.len(), 0);
}

#[test]
fn test_app_clear_filter() {
    let mut app = app_with(&["alpha.txt", "beta.txt"]);
    type_text(&mut app, "alpha");
    app.clear_filter();

    assert_eq!(app.filter_string(), "");
    assert_eq!(app.path_list().items().len(), 2);
    assert_eq!(app.path_list().selected(), Some(0));
}

#[test]
fn test_app_filter_paths_single_match() {
    let mut app = app_with(&["alpha.txt", "beta.txt", "gamma.txt"]);
    app.filter_paths('a');
    app.filter_paths('l');
    app.filter_paths('p');

    assert_eq!(app.filter_string(), "alp");
    assert_eq!(app.path_list().items().len(), 1);
    assert_eq!(app.path_list().items()[0].value, "alpha.txt");
    assert_eq!(app.path_list().selected(), Some(0));
}

#[test]
fn test_app_filter_paths_multiple_matches() {
    let mut app = app_with(&["test1.txt", "test2.txt", "other.txt"]);
    app.filter_paths('t');
    app.filter_paths('e');

    assert!(app.path_list().items().len() >= 2);
    let names = shown(&app);
    assert!(names.contains(&"test1.txt".to_string()));
    assert!(names.contains(&"test2.txt".to_string()));
}

#[test]
fn test_app_filter_paths_no_matches() {
    let mut app = app_with(&["alpha.txt", "beta.txt"]);
    app.filter_paths('x');
    app.filter_paths('y');
    app.filter_paths('z');

    assert_eq!(app.path_list().items().len(), 0);
    assert_eq!(app.path_list().selected(), None);
}

#[test]
fn test_app_remove_last_char_from_filter_empty_filter() {
    let mut app = app_with(&["file.txt"]);
    app.remove_last_char_from_filter();
    assert_eq!(app.filter_string(), "");
    assert_eq!(shown(&app), vec!["file.txt"]);
}

#[test]
fn test_app_remove_last_char_from_filter_restores_full_list() {
    let mut app = app_with(&["alpha.txt", "beta.txt"]);
    let initial_count = app.path_list().items().len();
    app.filter_paths('a');
    let filtered_count = app.path_list().items().len();
    assert!(filtered_count <= initial_count);

    app.remove_last_char_from_filter();
    assert_eq!(app.filter_string(), "");
    assert_eq!(app.path_list().items().len(), initial_count);
}

#[test]
fn test_app_remove_last_char_from_filter_with_remaining_chars() {
    let mut app = app_with(&["alpha.txt", "beta.txt"]);
    app.filter_paths('a');
    app.filter_paths('l');
    app.filter_paths('p');
    assert_eq!(app.path_list().items().len(), 1);

    app.remove_last_char_from_filter();
    assert_eq!(app.filter_string(), "al");
    assert_eq!(app.path_list().items().len(), 1);
}

#[test]
fn typing_alp_leaves_alpha_selected() {
    let mut app = app_with(&["gamma.txt", "alpha.txt", "beta.txt"]);
    type_text(&mut app, "alp");
    assert_eq!(shown(&app), vec!["alpha.txt"]);
    assert_eq!(app.path_list().selected(), Some(0));
}

#[test]
fn down_then_up_returns_to_first() {
    let mut app = app_with(&["alpha.txt", "beta.txt", "gamma.txt"]);
    app.handle_key(Key::Home);
    assert_eq!(app.path_list().selected(), Some(0));
    app.handle_key(Key::Down);
    assert_eq!(app.path_list().selected(), Some(1));
    app.handle_key(Key::Up);
    assert_eq!(app.path_list().selected(), Some(0));
    app.handle_key(Key::Up);
    assert_eq!(app.path_list().selected(), Some(0));
}

#[test]
fn backspace_until_empty_restores_listing() {
    let mut app = app_with(&["gamma.txt", "beta.txt", "alpha.txt"]);
    type_text(&mut app, "alp");
    assert_eq!(app.path_list().items().len(), 1);
    for _ in 0..3 {
        app.handle_key(Key::Backspace);
    }
    assert_eq!(app.filter_string(), "");
    assert_eq!(shown(&app), vec!["alpha.txt", "beta.txt", "gamma.txt"]);
    assert!(app.path_list().items().iter().all(|p| p.match_indices.is_empty()));
}

#[test]
fn commit_without_selection_changes_nothing() {
    let mut app = app_with(&["alpha.txt", "beta.txt", "gamma.txt"]);
    let request = app.handle_key(Key::Enter);
    assert!(matches!(request, Request::Stay));
    assert!(app.output().items.is_empty());
    assert_eq!(app.output().command, "no-op");
    assert!(!app.should_exit());
}

#[test]
fn commit_with_selection_records_path_and_ends() {
    let mut app = app_with(&["alpha.txt", "beta.txt"]);
    app.handle_key(Key::Down);
    app.handle_key(Key::Down);
    app.handle_key(Key::Enter);
    assert_eq!(app.output().command, "do-thing");
    assert_eq!(app.output().items, vec!["/test/path/beta.txt"]);
    assert!(app.should_exit());
    assert_eq!(app.output().to_string(), "/test/path do-thing /test/path/beta.txt");
}

#[test]
fn quit_key_ends_without_output() {
    let mut app = app_with(&["alpha.txt"]);
    app.handle_key(Key::Char('Q'));
    assert!(app.should_exit());
    assert_eq!(app.filter_string(), "");
    assert!(app.output().items.is_empty());
}

#[test]
fn clear_after_filter_restores_sorted_listing() {
    let mut app = app_with(&["zebra.txt", "Apple.txt", "banana.txt"]);
    let before = shown(&app);
    assert_eq!(before, vec!["Apple.txt", "banana.txt", "zebra.txt"]);
    type_text(&mut app, "an");
    app.handle_key(Key::Esc);
    assert_eq!(shown(&app), before);
    assert_eq!(app.path_list().selected(), Some(0));
}

#[test]
fn refiltering_same_query_is_idempotent() {
    let mut app = app_with(&["test1.txt", "test2.txt", "other.txt", "readme"]);
    app.handle_key(Key::Esc);
    type_text(&mut app, "te");
    let first = shown(&app);
    app.handle_key(Key::Esc);
    type_text(&mut app, "te");
    assert_eq!(shown(&app), first);
}

#[test]
fn selection_settled_after_transitions() {
    let mut app = app_with(&["alpha.txt", "beta.txt"]);
    let keys = [
        Key::Down,
        Key::Char('z'),
        Key::Up,
        Key::Backspace,
        Key::End,
        Key::Char('b'),
        Key::Esc,
        Key::Other,
    ];
    for key in keys {
        app.handle_key(key);
        let n = app.path_list().items().len();
        match app.path_list().selected() {
            None => assert_eq!(n, 0),
            Some(i) => assert!(i < n),
        }
    }
}

#[test]
fn entering_a_file_stays() {
    let mut app = app_with(&["file.txt"]);
    app.handle_key(Key::Down);
    let request = app.handle_key(Key::Right);
    assert!(matches!(request, Request::Stay));
    assert_eq!(app.cwd(), "/test/path");
    assert_eq!(app.path_list().selected(), Some(0));
}

#[test]
fn entering_a_directory_requests_it() {
    let entries = vec![
        Path::new("sub".to_string(), ObjectType::Directory),
        Path::new("z.txt".to_string(), ObjectType::File),
    ];
    let mut app = App::new(explorer_at("/test/path"), entries);
    assert_eq!(app.enter_directory(), None);
    app.handle_key(Key::Home);
    match app.handle_key(Key::Right) {
        Request::ChangeDirectory(t) => assert_eq!(t, "/test/path/sub"),
        _ => panic!("expected a directory change"),
    }
    app.moved_to("/test/path/sub".to_string());
    app.show_listing(vec![Path::new("inner.txt".to_string(), ObjectType::File)]);
    assert_eq!(app.cwd(), "/test/path/sub");
    assert_eq!(shown(&app), vec!["inner.txt"]);
    assert_eq!(app.path_list().selected(), Some(0));
    assert_eq!(app.output().cwd, "/test/path");
}

#[test]
fn entering_a_directory_from_root() {
    let entries = vec![Path::new("etc".to_string(), ObjectType::Directory)];
    let mut app = App::new(explorer_at("/"), entries);
    app.handle_key(Key::Down);
    assert_eq!(app.enter_directory(), Some("/etc".to_string()));
}

#[test]
fn parent_key_requests_parent_or_root() {
    let mut app = App::new(explorer_at("/test/path"), Vec::new());
    match app.handle_key(Key::Left) {
        Request::ChangeDirectory(t) => assert_eq!(t, "/test"),
        _ => panic!("expected a directory change"),
    }
    app.moved_to("/".to_string());
    assert_eq!(app.change_to_parent(), "/");
}

#[test]
fn show_listing_clears_the_filter() {
    let mut app = app_with(&["alpha.txt", "beta.txt"]);
    type_text(&mut app, "be");
    app.show_listing(vec![
        Path::new("b".to_string(), ObjectType::File),
        Path::new("a".to_string(), ObjectType::Directory),
    ]);
    assert_eq!(app.filter_string(), "");
    assert_eq!(shown(&app), vec!["a", "b"]);
    assert_eq!(app.path_list().selected(), Some(0));
}

#[test]
fn failures_record_key_and_selection() {
    let mut app = app_with(&["alpha.txt"]);
    app.record_failure(Key::Left, ExplorerError::PermissionDenied("/x".to_string()));
    app.handle_key(Key::Down);
    app.record_failure(Key::Right, ExplorerError::InvalidDirectory("/y".to_string()));
    let failures = app.failures();
    assert_eq!(failures.len(), 2);
    assert_eq!(failures[0].key, Key::Left);
    assert_eq!(failures[0].selected, "nothing");
    assert_eq!(failures[1].key, Key::Right);
    assert_eq!(failures[1].selected, "alpha.txt");
    assert_eq!(shown(&app), vec!["alpha.txt"]);
}

#[test]
fn clearing_asks_for_a_fresh_listing() {
    let mut app = app_with(&["alpha.txt", "beta.txt"]);
    assert!(matches!(app.handle_key(Key::Esc), Request::Refresh));
    assert!(matches!(app.handle_key(Key::Char('a')), Request::Stay));
    assert!(matches!(app.handle_key(Key::Char('l')), Request::Stay));
    assert!(matches!(app.handle_key(Key::Backspace), Request::Stay));
    assert_eq!(app.filter_string(), "a");
    assert!(matches!(app.handle_key(Key::Backspace), Request::Refresh));
    assert!(matches!(app.handle_key(Key::Backspace), Request::Refresh));
    app.show_listing(vec![
        Path::new("gamma.txt".to_string(), ObjectType::File),
        Path::new("alpha.txt".to_string(), ObjectType::File),
    ]);
    assert_eq!(shown(&app), vec!["alpha.txt", "gamma.txt"]);
    assert_eq!(app.path_list().selected(), Some(0));
}

#[test]
fn empty_directory_has_no_selection() {
    let mut app = App::new(explorer_at("/empty"), Vec::new());
    app.handle_key(Key::Home);
    assert_eq!(app.path_list().selected(), None);
    app.handle_key(Key::End);
    assert_eq!(app.path_list().selected(), None);
    app.handle_key(Key::Enter);
    assert!(!app.should_exit());
}
