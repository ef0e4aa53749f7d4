use logger::append::append_in;
use logger::allocate::allocate_in;
use logger::fs_model::FsModel;
use logger::AllowedExts;
use logger::LogError;

// When the file exists, the message is appended to the end of the file.
#[test]
fn test_append_message_to_existing_file() {
    let mut fs = FsModel::new();
    let path = "./existing_file.txt";
    let message = "Test message";

    fs.write_file(path.to_string(), "Existing content".to_string());

    let result = append_in(&mut fs, path, message, AllowedExts::TxtAndLog);

    assert!(result.is_ok());
    assert_eq!(fs.read_file(path), "Existing contentTest message");
}

// When the file does not exist, it is created and the message is written to it.
#[test]
fn test_create_file_and_write_message() {
    let mut fs = FsModel::new();
    let path = "./new_file.txt";
    let message = "Test message";

    let result = append_in(&mut fs, path, message, AllowedExts::TxtAndLog);

    assert!(result.is_ok());
    assert!(fs.file_exists(path));
    assert_eq!(fs.read_file(path), "Test message");
}

// When the file is empty, the message is written to it.
#[test]
fn test_write_message_to_empty_file() {
    let mut fs = FsModel::new();
    let path = "./empty_file.txt";
    let message = "Test message";

    fs.write_file(path.to_string(), String::new());

    let result = append_in(&mut fs, path, message, AllowedExts::TxtAndLog);

    assert!(result.is_ok());
    assert_eq!(fs.read_file(path), "Test message");
}

// When the path is an empty string, an error is returned.
#[test]
fn test_empty_path_returns_error() {
    let mut fs = FsModel::new();
    let message = "Test message";

    let result = append_in(&mut fs, "", message, AllowedExts::TxtAndLog);

    assert!(result.is_err());
}

// When the path carries no allowed extension, an error is returned.
#[test]
fn test_invalid_path_returns_error() {
    let mut fs = FsModel::new();
    let message = "Test message";

    let result = append_in(&mut fs, "invalid/path", message, AllowedExts::TxtAndLog);

    assert!(result.is_err());
}

// When the path is one long extensionless name, an error is returned.
#[test]
fn test_long_path_returns_error() {
    let mut fs = FsModel::new();
    let message = "Test message";
    let path = "a".repeat(256);

    let result = append_in(&mut fs, &path, message, AllowedExts::TxtAndLog);

    assert!(result.is_err());
}

// A rejected path creates no file and no directory.
#[test]
fn rejected_path_touches_nothing() {
    let mut fs = FsModel::new();

    let r1 = append_in(&mut fs, "", "msg", AllowedExts::TxtOnly);
    assert!(matches!(r1, Err(LogError::InvalidPath)));

    let r2 = append_in(&mut fs, "logs/app.md", "msg", AllowedExts::TxtOnly);
    assert!(matches!(r2, Err(LogError::InvalidPath)));
    assert!(!fs.file_exists("logs/app.md"));
    assert!(!fs.dir_exists("logs/"));

    // The log extension is rejected by the strict set but taken by the
    // permissive one.
    let r3 = append_in(&mut fs, "logs/app.log", "msg", AllowedExts::TxtOnly);
    assert!(matches!(r3, Err(LogError::InvalidPath)));
    let r4 = append_in(&mut fs, "logs/app.log", "msg", AllowedExts::TxtAndLog);
    assert!(r4.is_ok());
}

// Appending to a missing file creates the directory chain and the file.
#[test]
fn append_creates_directory_and_file() {
    let mut fs = FsModel::new();

    let result = append_in(&mut fs, "logs/app.txt", "hello", AllowedExts::TxtOnly);

    assert!(result.is_ok());
    assert!(fs.dir_exists("logs/"));
    assert!(fs.file_exists("logs/app.txt"));
    assert_eq!(fs.read_file("logs/app.txt"), "hello");
}

// Two appends to an initially nonexistent path accumulate both messages.
#[test]
fn append_twice_accumulates() {
    let mut fs = FsModel::new();

    assert!(append_in(&mut fs, "logs/app.txt", "m1", AllowedExts::TxtOnly).is_ok());
    assert!(append_in(&mut fs, "logs/app.txt", "m2", AllowedExts::TxtOnly).is_ok());

    assert_eq!(fs.read_file("logs/app.txt"), "m1m2");
}

// A valid path without a separator cannot be allocated: the append reports
// an allocation failure and writes nothing.
#[test]
fn append_without_separator_fails_allocation() {
    let mut fs = FsModel::new();

    let result = append_in(&mut fs, "app.txt", "msg", AllowedExts::TxtOnly);

    assert!(matches!(result, Err(LogError::AllocationFailure(_))));
    assert!(!fs.file_exists("app.txt"));
}

// Allocation takes the first free candidate: with the literal name and the
// first nine suffixed siblings taken, it creates exactly the tenth.
#[test]
fn allocate_skips_to_first_free_candidate() {
    let mut fs = FsModel::new();

    fs.write_file("logs/data.txt".to_string(), String::new());
    for n in 1..=9 {
        fs.write_file(format!("logs/data({n}).txt"), String::new());
    }

    let resolved = allocate_in(&mut fs, "logs/data.txt").unwrap();

    assert_eq!(resolved, "logs/data(10).txt");
    assert!(fs.file_exists("logs/data(10).txt"));
    assert_eq!(fs.read_file("logs/data(10).txt"), "");
    assert!(!fs.file_exists("logs/data(11).txt"));
}

// Two allocations in a row on a fresh path yield two distinct files: the
// literal name, then its first suffixed sibling.
#[test]
fn allocate_twice_yields_distinct_paths() {
    let mut fs = FsModel::new();

    let first = allocate_in(&mut fs, "logs/data.txt").unwrap();
    let second = allocate_in(&mut fs, "logs/data.txt").unwrap();

    assert_eq!(first, "logs/data.txt");
    assert_eq!(second, "logs/data(1).txt");
    assert_ne!(first, second);
    assert!(fs.file_exists("logs/data.txt"));
    assert!(fs.file_exists("logs/data(1).txt"));
}

// Allocation on a path without a separator fails fast, touching nothing.
#[test]
fn allocate_without_separator_fails() {
    let mut fs = FsModel::new();

    let result = allocate_in(&mut fs, "data.txt");

    assert!(matches!(result, Err(LogError::AllocationFailure(_))));
    assert!(!fs.file_exists("data.txt"));
}

// Allocation does not validate the extension; any name with a separator
// can be allocated.
#[test]
fn allocate_ignores_extension() {
    let mut fs = FsModel::new();

    let resolved = allocate_in(&mut fs, "out/raw.bin").unwrap();

    assert_eq!(resolved, "out/raw.bin");
    assert!(fs.dir_exists("out/"));
}
