use spath_cli::constants::{MAX_PATH_LENGTH, WINDOWS_PATH};
use spath_cli::registry::RegistryHelper;

fn validate_path_length(path: &str) -> Result<(), String> {
    match RegistryHelper::validate_path_length(path) {
        Ok(()) => Ok(()),
        Err(e) => Err(e.detail().clone()),
    }
}

#[test]
fn test_parse_path_string() {
    let path = format!("{};C:\\System32;;C:\\Tools", WINDOWS_PATH);
    let parsed: Vec<String> = path
        .split(';')
        .filter(|s| !s.is_empty())
        .map(|s| s.to_string())
        .collect();
    assert_eq!(parsed.len(), 3);
    assert_eq!(parsed[0], WINDOWS_PATH);
    assert_eq!(parsed[1], "C:\\System32");
    assert_eq!(parsed[2], "C:\\Tools");
}

#[test]
fn test_parse_empty_path() {
    let path = "";
    let parsed: Vec<String> = path
        .split(';')
        .filter(|s| !s.is_empty())
        .map(|s| s.to_string())
        .collect();
    assert!(parsed.is_empty());
}

#[test]
fn test_parse_single_path() {
    let parsed: Vec<String> = WINDOWS_PATH
        .split(';')
        .filter(|s| !s.is_empty())
        .map(|s| s.to_string())
        .collect();
    assert_eq!(parsed.len(), 1);
    assert_eq!(parsed[0], WINDOWS_PATH);
}

#[test]
fn test_parse_path_with_trailing_semicolon() {
    let path = format!("{};C:\\System32;", WINDOWS_PATH);
    let parsed: Vec<String> = path
        .split(';')
        .filter(|s| !s.is_empty())
        .map(|s| s.to_string())
        .collect();
    assert_eq!(parsed.len(), 2);
}

#[test]
fn test_parse_path_with_leading_semicolon() {
    let path = format!(";{};C:\\System32", WINDOWS_PATH);
    let parsed: Vec<String> = path
        .split(';')
        .filter(|s| !s.is_empty())
        .map(|s| s.to_string())
        .collect();
    assert_eq!(parsed.len(), 2);
}

#[test]
fn test_join_paths() {
    let paths = [WINDOWS_PATH.to_string(), "C:\\System32".to_string()];
    let joined = paths.join(";");
    assert_eq!(joined, format!("{};C:\\System32", WINDOWS_PATH));
}

#[test]
fn test_join_empty_paths() {
    let paths: [String; 0] = [];
    let joined = paths.join(";");
    assert_eq!(joined, "");
}

#[test]
fn test_join_single_path() {
    let paths = [WINDOWS_PATH.to_string()];
    let joined = paths.join(";");
    assert_eq!(joined, WINDOWS_PATH);
}

#[test]
fn test_join_many_paths() {
    let paths = [
        WINDOWS_PATH.to_string(),
        "C:\\System32".to_string(),
        "C:\\Tools".to_string(),
        "C:\\Bin".to_string(),
    ];
    let joined = paths.join(";");
    assert_eq!(
        joined,
        format!("{};C:\\System32;C:\\Tools;C:\\Bin", WINDOWS_PATH)
    );
}

#[test]
fn test_validate_path_length_ok() {
    let path = format!("{};C:\\System32", WINDOWS_PATH);
    assert!(validate_path_length(&path).is_ok());
}

#[test]
fn test_validate_path_length_at_limit() {
    let path = "X".repeat(MAX_PATH_LENGTH);
    assert!(validate_path_length(&path).is_ok());
}

#[test]
fn test_validate_path_length_exceeds_limit() {
    let path = "X".repeat(MAX_PATH_LENGTH + 1);
    let result = validate_path_length(&path);
    assert!(result.is_err());
    assert!(result.unwrap_err().contains("exceeds maximum length"));
}

#[test]
fn test_validate_path_length_empty() {
    let path = "";
    assert!(validate_path_length(path).is_ok());
}

#[test]
fn test_validate_path_length_one_below_limit() {
    let path = "X".repeat(MAX_PATH_LENGTH - 1);
    assert!(validate_path_length(&path).is_ok());
}

#[test]
fn test_validate_path_length_one_above_limit() {
    let path = "X".repeat(MAX_PATH_LENGTH + 1);
    assert!(validate_path_length(&path).is_err());
}
