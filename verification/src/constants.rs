//! Fixed names, roots and limits of the PATH stores.

use vstd::prelude::*;

verus! {

/// Windows system directory, lower-cased for prefix comparisons.
pub const WINDOWS_PATH: &'static str = "c:\\windows";

/// Program Files directory (64-bit).
pub const PROGRAM_FILES: &'static str = "c:\\program files";

/// Program Files directory (32-bit).
pub const PROGRAM_FILES_X86: &'static str = "c:\\program files (x86)";

/// ProgramData directory (shared application data).
pub const PROGRAM_DATA: &'static str = "c:\\programdata";

/// Backup directory name.
pub const BACKUP_DIR_NAME: &'static str = "backups";

/// Maximum number of backup files to keep.
pub const MAX_BACKUPS: usize = 10;

/// Maximum PATH environment variable length (Windows limitation).
pub const MAX_PATH_LENGTH: usize = 2047;

/// Registry key holding the system-wide environment values.
pub const SYSTEM_ENV_KEY: &'static str =
    "SYSTEM\\CurrentControlSet\\Control\\Session Manager\\Environment";

/// Registry key holding the per-user environment values.
pub const USER_ENV_KEY: &'static str = "Environment";

/// Lock file guarding writes to the user store.
pub const USER_PATH_LOCK: &'static str = "user_path.lock";

/// Lock file guarding writes to the system store.
pub const SYSTEM_PATH_LOCK: &'static str = "system_path.lock";

/// Backup file prefix.
pub const BACKUP_FILE_PREFIX: &'static str = "path_backup_";

/// Backup file extension.
pub const BACKUP_FILE_EXTENSION: &'static str = "json";

/// Backup timestamp format.
pub const BACKUP_TIMESTAMP_FORMAT: &'static str = "%Y%m%d_%H%M%S";

/// Maximum single path length (Windows MAX_PATH limitation).
pub const MAX_SINGLE_PATH_LENGTH: usize = 260;

/// Substrings that mark a per-user tool directory, lower-cased.
pub fn user_path_markers() -> (r: Vec<String>)
    ensures
        r.deep_view() == user_path_marker_seqs(),
{
    let mut v: Vec<String> = Vec::new();
    v.push(".cargo".to_owned());
    v.push(".dotnet".to_owned());
    v.push(".npm".to_owned());
    v.push(".bun".to_owned());
    v.push(".local".to_owned());
    v.push("\\appdata\\".to_owned());
    proof {
        assert(v.deep_view() =~~= user_path_marker_seqs());
    }
    v
}

/// The same markers as character sequences, for contracts.
pub open spec fn user_path_marker_seqs() -> Seq<Seq<char>> {
    seq![".cargo"@, ".dotnet"@, ".npm"@, ".bun"@, ".local"@, "\\appdata\\"@]
}

} // verus!
