use lockdown::paths::{
    check_service_location, get_bundled_service_path, get_data_file_path, get_program_folder,
    get_service_executable_path, join_path,
};
use lockdown::store::{is_unicode_space_char, parse_locked_files, serialize_locked_files};

fn owned(items: &[&str]) -> Vec<String> {
    items.iter().map(|s| s.to_string()).collect()
}

#[test]
fn parse_splits_at_ascii_white_space() {
    assert_eq!(
        parse_locked_files("C:\\a.txt\nC:\\b.txt\r\n  \tD:\\c\x0Cd"),
        owned(&["C:\\a.txt", "C:\\b.txt", "D:\\c", "d"])
    );
}

#[test]
fn parse_of_empty_contents() {
    assert!(parse_locked_files("").is_empty());
    assert!(parse_locked_files(" \n\r\t ").is_empty());
}

#[test]
fn parse_trims_unicode_white_space() {
    assert_eq!(parse_locked_files("\u{a0}x\u{3000}"), owned(&["x"]));
    assert_eq!(parse_locked_files("\u{b}a\u{b}b"), owned(&["a\u{b}b"]));
    assert_eq!(parse_locked_files("a \u{2003} b"), owned(&["a", "", "b"]));
}

#[test]
fn parse_keeps_spaced_paths_apart() {
    assert_eq!(
        parse_locked_files("C:\\Program Files\\x.txt"),
        owned(&["C:\\Program", "Files\\x.txt"])
    );
}

#[test]
fn serialize_joins_with_line_feeds() {
    assert_eq!(serialize_locked_files(&Vec::new()), "");
    assert_eq!(serialize_locked_files(&owned(&["a"])), "a");
    assert_eq!(serialize_locked_files(&owned(&["a", "b", "c"])), "a\nb\nc");
}

#[test]
fn round_trip_of_storable_paths() {
    let paths = owned(&["C:\\a.txt", "D:\\dir\\b.bin", "é"]);
    assert_eq!(parse_locked_files(&serialize_locked_files(&paths)), paths);
}

#[test]
fn unicode_spaces() {
    for c in ['\t', '\n', '\u{b}', '\u{c}', '\r', ' ', '\u{85}', '\u{a0}', '\u{1680}', '\u{2000}', '\u{200a}', '\u{2028}', '\u{2029}', '\u{202f}', '\u{205f}', '\u{3000}'] {
        assert!(is_unicode_space_char(c), "{:?}", c);
        assert!(c.is_whitespace());
    }
    for c in ['a', '\u{200b}', '\u{1}', '\u{180e}', '\u{feff}'] {
        assert!(!is_unicode_space_char(c), "{:?}", c);
        assert!(!c.is_whitespace());
    }
}

#[test]
fn program_folder_paths() {
    assert_eq!(get_program_folder("C:\\ProgramData"), "C:\\ProgramData\\Lockdown.Service");
    assert_eq!(get_program_folder("C:\\ProgramData\\"), "C:\\ProgramData\\Lockdown.Service");
    assert_eq!(get_program_folder("C:\\ProgramData/"), "C:\\ProgramData/Lockdown.Service");
    assert_eq!(get_program_folder("C:"), "C:Lockdown.Service");
    assert_eq!(get_program_folder(""), "Lockdown.Service");
    assert_eq!(get_program_folder("D"), "D\\Lockdown.Service");
}

#[test]
fn program_folder_under_a_verbatim_path() {
    assert_eq!(
        get_program_folder("\\\\?\\C:\\ProgramData/"),
        "\\\\?\\C:\\ProgramData/\\Lockdown.Service"
    );
    assert_eq!(
        get_program_folder("\\\\?\\C:\\a\\\\b\\"),
        "\\\\?\\C:\\a\\b\\Lockdown.Service"
    );
    assert_eq!(get_program_folder("\\\\?\\C:"), "\\\\?\\C:\\Lockdown.Service");
    assert_eq!(
        get_program_folder("\\\\?\\UNC\\srv\\share"),
        "\\\\?\\UNC\\srv\\share\\Lockdown.Service"
    );
    assert_eq!(
        get_program_folder("\\\\?\\Volume{x}\\dir\\"),
        "\\\\?\\Volume{x}\\dir\\Lockdown.Service"
    );
    assert_eq!(
        get_service_executable_path("\\\\?\\C:\\ProgramData"),
        "\\\\?\\C:\\ProgramData\\Lockdown.Service\\lockdown-service.exe"
    );
}

#[test]
fn files_in_the_program_folder() {
    assert_eq!(
        get_service_executable_path("C:\\ProgramData"),
        "C:\\ProgramData\\Lockdown.Service\\lockdown-service.exe"
    );
    assert_eq!(
        get_data_file_path("C:\\ProgramData"),
        "C:\\ProgramData\\Lockdown.Service\\locked_files.txt"
    );
    assert_eq!(get_bundled_service_path(), "Assets\\lockdown-service.exe");
    assert_eq!(join_path("x", "y"), "x\\y");
}

#[test]
fn missing_service_location() {
    assert!(!check_service_location("/nonexistent-lockdown-folder"));
}
