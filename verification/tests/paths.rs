use logger::paths::candidate_path;
use logger::paths::dir_prefix;
use logger::paths::path_has_separator;
use logger::paths::path_is_valid;
use logger::paths::suffix_insertion_point;
use logger::AllowedExts;

#[test]
fn candidate_zero_is_the_path_itself() {
    assert_eq!(candidate_path("logs/app.txt", 0), "logs/app.txt");
}

#[test]
fn candidate_splices_suffix_before_extension() {
    assert_eq!(candidate_path("logs/app.txt", 1), "logs/app(1).txt");
    assert_eq!(candidate_path("logs/app.txt", 2), "logs/app(2).txt");
    assert_eq!(candidate_path("logs/app.txt", 10), "logs/app(10).txt");
    assert_eq!(candidate_path("logs/app.txt", 99), "logs/app(99).txt");
    assert_eq!(candidate_path("logs/app.txt", 100), "logs/app(100).txt");
    assert_eq!(candidate_path("logs/app.txt", 12345), "logs/app(12345).txt");
}

#[test]
fn candidate_with_no_extension_appends_at_the_end() {
    assert_eq!(candidate_path("logs/app", 1), "logs/app(1)");
}

#[test]
fn candidate_keeps_hidden_file_marker() {
    // The filename's leading dot is not the extension dot.
    assert_eq!(candidate_path("a/.b.txt", 1), "a/.b(1).txt");
}

#[test]
fn candidate_ignores_dots_in_directory_names() {
    // A dot inside a directory name never becomes the insertion point.
    assert_eq!(candidate_path("my.dir/file.txt", 1), "my.dir/file(1).txt");
}

#[test]
fn candidate_splices_at_first_filename_dot() {
    // With several filename dots, the suffix lands at the first one past
    // the leading character.
    assert_eq!(candidate_path("logs/a.b.txt", 1), "logs/a(1).b.txt");
}

#[test]
fn suffix_insertion_point_values() {
    assert_eq!(suffix_insertion_point("logs/app.txt"), 8);
    assert_eq!(suffix_insertion_point("./existing_file.txt"), 15);
    assert_eq!(suffix_insertion_point("logs/app"), 8);
    assert_eq!(suffix_insertion_point("a/.b.txt"), 4);
}

#[test]
fn dir_prefix_values() {
    assert_eq!(dir_prefix("logs/app.txt"), "logs/");
    assert_eq!(dir_prefix("a/b/c.txt"), "a/b/");
    assert_eq!(dir_prefix("app.txt"), "");
    assert_eq!(dir_prefix("./x.txt"), "./");
}

#[test]
fn separator_detection() {
    assert!(path_has_separator("logs/app.txt"));
    assert!(path_has_separator("./x.txt"));
    assert!(!path_has_separator("app.txt"));
    assert!(!path_has_separator(""));
}

#[test]
fn validation_accepts_allowed_extensions() {
    assert!(path_is_valid("x.txt", AllowedExts::TxtOnly));
    assert!(path_is_valid("logs/app.txt", AllowedExts::TxtOnly));
    assert!(path_is_valid("x.log", AllowedExts::TxtAndLog));
    assert!(!path_is_valid("x.log", AllowedExts::TxtOnly));
}

#[test]
fn validation_rejects_missing_or_foreign_extensions() {
    assert!(!path_is_valid("", AllowedExts::TxtAndLog));
    assert!(!path_is_valid("invalid/path", AllowedExts::TxtAndLog));
    assert!(!path_is_valid("x.md", AllowedExts::TxtAndLog));
    assert!(!path_is_valid("x.", AllowedExts::TxtAndLog));
    // A hidden file's leading dot is no extension marker.
    assert!(!path_is_valid(".txt", AllowedExts::TxtAndLog));
    assert!(path_is_valid(".config.txt", AllowedExts::TxtAndLog));
    // The extension is the part after the last dot.
    assert!(path_is_valid("a.log.txt", AllowedExts::TxtOnly));
    assert!(!path_is_valid("a.txt.md", AllowedExts::TxtAndLog));
}
