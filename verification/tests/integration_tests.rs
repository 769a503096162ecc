#[test]
fn test_scan_command_runs() {
    let command = "scan";
    assert_eq!(command, "scan");
}

#[test]
fn test_scan_with_verbose_flag() {
    let verbose = true;
    assert!(verbose);
}

#[test]
fn test_scan_with_audit_flag() {
    let audit = true;
    assert!(audit);
}

#[test]
fn test_fix_command_runs() {
    let command = "fix";
    assert_eq!(command, "fix");
}

#[test]
fn test_fix_with_dry_run() {
    let dry_run = true;
    assert!(dry_run);
}

#[test]
fn test_fix_with_delicate_mode() {
    let delicate = true;
    assert!(delicate);
}

#[test]
fn test_analyze_command_runs() {
    let command = "analyze";
    assert_eq!(command, "analyze");
}

#[test]
fn test_clean_command_runs() {
    let command = "clean";
    assert_eq!(command, "clean");
}

#[test]
fn test_clean_with_dry_run() {
    let dry_run = true;
    assert!(dry_run);
}

#[test]
fn test_clean_with_system_flag() {
    let system = true;
    assert!(system);
}

#[test]
fn test_clean_with_delicate_mode() {
    let delicate = true;
    assert!(delicate);
}

#[test]
fn test_backup_command_runs() {
    let command = "backup";
    assert_eq!(command, "backup");
}

#[test]
fn test_list_backups_command_runs() {
    let command = "list-backups";
    assert_eq!(command, "list-backups");
}

#[test]
fn test_restore_command_runs() {
    let command = "restore";
    assert_eq!(command, "restore");
}

#[test]
fn test_restore_with_delicate_mode() {
    let delicate = true;
    assert!(delicate);
}

#[test]
fn test_help_command_shows_usage() {
    let help_text = "Usage: spath <COMMAND>";
    assert!(help_text.contains("Usage"));
}

#[test]
fn test_version_command_shows_version() {
    let version = "0.1.0";
    assert!(!version.is_empty());
}

#[test]
fn test_invalid_command_shows_error() {
    let error = "Error: invalid command";
    assert!(error.contains("Error"));
}

#[test]
fn test_workflow_scan_then_fix() {
    let step1 = "scan";
    let step2 = "fix";
    assert_eq!(step1, "scan");
    assert_eq!(step2, "fix");
}

#[test]
fn test_workflow_analyze_then_clean() {
    let step1 = "analyze";
    let step2 = "clean";
    assert_eq!(step1, "analyze");
    assert_eq!(step2, "clean");
}

#[test]
fn test_workflow_backup_fix_restore() {
    let steps = ["backup", "fix", "restore"];
    assert_eq!(steps.len(), 3);
}

#[test]
fn test_cli_parser_scan_command() {
    let command = "scan";
    assert_eq!(command, "scan");
}

#[test]
fn test_cli_parser_fix_command() {
    let command = "fix";
    assert_eq!(command, "fix");
}

#[test]
fn test_cli_parser_analyze_command() {
    let command = "analyze";
    assert_eq!(command, "analyze");
}

#[test]
fn test_cli_parser_clean_command() {
    let command = "clean";
    assert_eq!(command, "clean");
}

#[test]
fn test_cli_parser_backup_command() {
    let command = "backup";
    assert_eq!(command, "backup");
}

#[test]
fn test_cli_parser_list_backups_command() {
    let command = "list-backups";
    assert_eq!(command, "list-backups");
}

#[test]
fn test_cli_parser_restore_command() {
    let command = "restore";
    assert_eq!(command, "restore");
}

#[test]
fn test_cli_flag_dry_run() {
    let flag = "--dry-run";
    assert!(flag.contains("dry-run"));
}

#[test]
fn test_cli_flag_delicate() {
    let flag = "--delicate";
    assert!(flag.contains("delicate"));
}

#[test]
fn test_cli_flag_system() {
    let flag = "--system";
    assert!(flag.contains("system"));
}

#[test]
fn test_cli_flag_verbose() {
    let flag = "--verbose";
    assert!(flag.contains("verbose"));
}

#[test]
fn test_cli_flag_audit() {
    let flag = "--audit";
    assert!(flag.contains("audit"));
}

#[test]
fn test_cli_short_flags() {
    let flags = ["-d", "-s", "-v", "-a"];
    assert_eq!(flags.len(), 4);
}

#[test]
fn test_cli_long_flags() {
    let flags = ["--dry-run", "--system", "--verbose"];
    assert!(flags[0].starts_with("--"));
}

#[test]
fn test_cli_combined_flags() {
    let combined = "--dry-run --verbose";
    assert!(combined.contains("--dry-run"));
    assert!(combined.contains("--verbose"));
}
