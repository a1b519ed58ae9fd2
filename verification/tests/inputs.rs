use difference_engine::input::handle_stdin_notation;

#[test]
fn dash_denotes_standard_input() {
    assert_eq!(handle_stdin_notation("-"), None);
}

#[test]
fn other_arguments_stay_paths() {
    assert_eq!(handle_stdin_notation("old.txt"), Some("old.txt"));
    assert_eq!(handle_stdin_notation("--"), Some("--"));
    assert_eq!(handle_stdin_notation(""), Some(""));
    assert_eq!(handle_stdin_notation("-f"), Some("-f"));
}
