use breeze::output::Output;

#[test]
fn test_output_new() {
    let output = Output::new("/test/path".to_string());
    assert_eq!(output.cwd, "/test/path");
    assert_eq!(output.command, "no-op");
    assert_eq!(output.items.len(), 0);
}

#[test]
fn test_output_display_no_items() {
    let output = Output::new("/test/path".to_string());
    assert_eq!(output.to_string(), "/test/path no-op ");
}

#[test]
fn test_output_display_with_single_item() {
    let mut output = Output::new("/test/path".to_string());
    output.command = "select".to_string();
    output.items = vec!["/test/path/file.txt".to_string()];
    assert_eq!(output.to_string(), "/test/path select /test/path/file.txt");
}

#[test]
fn test_output_display_with_multiple_items() {
    let mut output = Output::new("/test/path".to_string());
    output.command = "select".to_string();
    output.items = vec![
        "/test/path/file1.txt".to_string(),
        "/test/path/file2.txt".to_string(),
        "/test/path/file3.txt".to_string(),
    ];
    assert_eq!(
        output.to_string(),
        "/test/path select /test/path/file1.txt /test/path/file2.txt /test/path/file3.txt"
    );
}

#[test]
fn test_output_display_with_spaces_in_paths() {
    let mut output = Output::new("/test/path with spaces".to_string());
    output.command = "select".to_string();
    output.items = vec!["/test/path with spaces/file with spaces.txt".to_string()];
    assert_eq!(
        output.to_string(),
        "/test/path with spaces select /test/path with spaces/file with spaces.txt"
    );
}
