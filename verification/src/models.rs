//! Data model of a PATH audit: locations, categories, issues and entries.

use vstd::prelude::*;
use vstd::string::StrSliceExecFns;
use crate::constants;
use crate::context::{fs_has, FsSnapshot};
use crate::text;

verus! {

/// Which of the two stores an entry came from.
#[derive(Debug, Clone, Copy, PartialEq, Eq, Hash, Structural)]
pub enum PathLocation {
    System,
    User,
}

/// What kind of software a path points at.
#[derive(Debug, Clone, Copy, PartialEq, Eq, Structural)]
pub enum PathCategory {
    SystemProgram,
    UserProgram,
    ProgramData,
    Ambiguous,
}

/// Severity of a reported issue, ordered `Info < Warning < Critical`.
#[derive(Debug, Clone, Copy, PartialEq, Eq, PartialOrd, Ord, Structural)]
pub enum IssueLevel {
    Info,
    Warning,
    Critical,
}

/// One finding about one entry.
#[derive(Debug, Clone)]
pub struct PathIssue {
    pub path: String,
    pub level: IssueLevel,
    pub message: String,
}

impl PathIssue {
    /// A critical finding.
    pub fn critical(path: &str, message: &str) -> (r: PathIssue)
        ensures
            r.path@ == path@,
            r.level == IssueLevel::Critical,
            r.message@ == message@,
    {
        PathIssue { path: path.to_owned(), level: IssueLevel::Critical, message: message.to_owned() }
    }

    /// A warning.
    pub fn warning(path: &str, message: &str) -> (r: PathIssue)
        ensures
            r.path@ == path@,
            r.level == IssueLevel::Warning,
            r.message@ == message@,
    {
        PathIssue { path: path.to_owned(), level: IssueLevel::Warning, message: message.to_owned() }
    }

    /// An informational note.
    pub fn info(path: &str, message: &str) -> (r: PathIssue)
        ensures
            r.path@ == path@,
            r.level == IssueLevel::Info,
            r.message@ == message@,
    {
        PathIssue { path: path.to_owned(), level: IssueLevel::Info, message: message.to_owned() }
    }
}

/// Counters folded over all entries of one scan.
#[derive(Debug, Default, Clone)]
pub struct AuditStats {
    pub total_paths: usize,
    pub unquoted_with_spaces: usize,
    pub non_existent: usize,
    pub relative_paths: usize,
    pub properly_quoted: usize,
    pub valid_paths: usize,
}

// ---------------------------------------------------------------------------
// Classification
// ---------------------------------------------------------------------------

/// Whether any per-user tool marker occurs in `l` (`l` lower-cased).
pub open spec fn marker_match(l: Seq<char>) -> bool {
    exists|i: int|
        0 <= i < constants::user_path_marker_seqs().len() && text::has_substring(
            l,
            #[trigger] constants::user_path_marker_seqs()[i],
        )
}

/// Whether `l` (lower-cased) points into a user's own directories:
/// the current user's home, any `\users\` segment, or a tool marker.
pub open spec fn user_marked(l: Seq<char>, username: Option<Seq<char>>) -> bool {
    ||| match username {
        Option::Some(u) => text::has_substring(l, "c:\\users\\"@ + text::lower(u)),
        Option::None => false,
    }
    ||| text::has_substring(l, "\\users\\"@)
    ||| marker_match(l)
}

/// The category of a path: system roots first, then user markers, then
/// shared application data, else ambiguous.
pub open spec fn spec_categorize(path: Seq<char>, username: Option<Seq<char>>) -> PathCategory {
    let l = text::lower(path);
    if text::starts_with(l, "c:\\windows"@) || text::starts_with(l, "c:\\program files"@)
        || text::starts_with(l, "c:\\program files (x86)"@) {
        PathCategory::SystemProgram
    } else if user_marked(l, username) {
        PathCategory::UserProgram
    } else if text::starts_with(l, "c:\\programdata"@) {
        PathCategory::ProgramData
    } else {
        PathCategory::Ambiguous
    }
}

fn marker_scan(l: &Vec<char>) -> (r: bool)
    ensures
        r == marker_match(l@),
{
    let markers = constants::user_path_markers();
    let n = markers.len();
    let mut i: usize = 0;
    while i < n
        invariant
            i <= n,
            n == constants::user_path_marker_seqs().len(),
            markers.deep_view() == constants::user_path_marker_seqs(),
            forall|k: int|
                0 <= k < i ==> !text::has_substring(
                    l@,
                    #[trigger] constants::user_path_marker_seqs()[k],
                ),
        decreases n - i,
    {
        let m = text::chars_of(markers[i].as_str());
        assert(m@ == constants::user_path_marker_seqs()[i as int]);
        if text::contains_sub(l, &m) {
            return true;
        }
        i += 1;
    }
    false
}

/// Classifies a path, with an optional current user name.
pub fn categorize_chars(path: &Vec<char>, username: Option<&Vec<char>>) -> (r: PathCategory)
    ensures
        r == spec_categorize(
            path@,
            match username {
                Option::Some(u) => Option::Some(u@),
                Option::None => Option::<Seq<char>>::None,
            },
        ),
{
    let l = text::to_lower(path);
    let windows_root = text::chars_of(constants::WINDOWS_PATH);
    let program_files = text::chars_of(constants::PROGRAM_FILES);
    let program_files_x86 = text::chars_of(constants::PROGRAM_FILES_X86);
    if text::begins_with(&l, &windows_root) || text::begins_with(&l, &program_files)
        || text::begins_with(&l, &program_files_x86) {
        return PathCategory::SystemProgram;
    }
    let user_hit = match username {
        Some(u) => {
            let mut prefix = text::chars_of("c:\\users\\");
            let user_lower = text::to_lower(u);
            let ghost before = prefix@;
            let mut k: usize = 0;
            while k < user_lower.len()
                invariant
                    k <= user_lower@.len(),
                    prefix@ == before + user_lower@.subrange(0, k as int),
                decreases user_lower@.len() - k,
            {
                prefix.push(user_lower[k]);
                assert(prefix@ =~= before + user_lower@.subrange(0, k + 1 as int));
                k += 1;
            }
            proof {
                assert(user_lower@.subrange(0, user_lower@.len() as int) =~= user_lower@);
                assert(prefix@ =~= "c:\\users\\"@ + text::lower(u@));
            }
            text::contains_sub(&l, &prefix)
        },
        None => false,
    };
    if user_hit {
        return PathCategory::UserProgram;
    }
    let users_segment = text::chars_of("\\users\\");
    if text::contains_sub(&l, &users_segment) || marker_scan(&l) {
        return PathCategory::UserProgram;
    }
    let program_data = text::chars_of(constants::PROGRAM_DATA);
    if text::begins_with(&l, &program_data) {
        return PathCategory::ProgramData;
    }
    PathCategory::Ambiguous
}

// ---------------------------------------------------------------------------
// Entries
// ---------------------------------------------------------------------------

/// Whether the entry text is wrapped in double quotes.
pub open spec fn spec_is_quoted(s: Seq<char>) -> bool {
    s.len() >= 1 && s[0] == '"' && s[s.len() - 1] == '"'
}

/// Whether some other entry in `all` normalizes to `norm`.
pub open spec fn spec_is_duplicate(all: Seq<Seq<char>>, index: int, norm: Seq<char>) -> bool {
    exists|j: int|
        0 <= j < all.len() && j != index && text::lower(
            text::strip_quotes(#[trigger] all[j]),
        ) == norm
}

/// One classified entry of a store, with everything derived at
/// construction time.
#[derive(Debug, Clone)]
pub struct PathEntry {
    pub path: String,
    pub index: usize,
    pub location: PathLocation,
    pub category: PathCategory,
    pub exists: bool,
    pub has_spaces: bool,
    pub is_quoted: bool,
    pub is_duplicate: bool,
}

impl Default for PathEntry {
    /// The neutral entry: an empty, ambiguous user-store path.
    fn default() -> (r: PathEntry)
        ensures
            r.path@ == Seq::<char>::empty(),
            r.index == 0,
            r.location == PathLocation::User,
            r.category == PathCategory::Ambiguous,
            !r.exists,
            !r.has_spaces,
            !r.is_quoted,
            !r.is_duplicate,
    {
        PathEntry {
            path: String::new(),
            index: 0,
            location: PathLocation::User,
            category: PathCategory::Ambiguous,
            exists: false,
            has_spaces: false,
            is_quoted: false,
            is_duplicate: false,
        }
    }
}

impl PathEntry {
    /// Derives all flags of one entry from its raw text, its siblings and
    /// the filesystem snapshot.
    pub fn new(path: String, index: usize, location: PathLocation, all_paths: &Vec<String>, fs:
        &FsSnapshot) -> (r: PathEntry)
        ensures
            r.path@ == path@,
            r.index == index,
            r.location == location,
            r.category == spec_categorize(text::strip_quotes(path@), Option::None),
            r.exists == fs_has(fs@, text::strip_quotes(path@)),
            r.has_spaces == text::has_char(text::strip_quotes(path@), ' '),
            r.is_quoted == spec_is_quoted(path@),
            r.is_duplicate == spec_is_duplicate(
                all_paths.deep_view(),
                index as int,
                text::lower(text::strip_quotes(path@)),
            ),
    {
        let chars = text::chars_of(path.as_str());
        let trimmed = text::strip_quote_chars(&chars);
        let exists = fs.exists_chars(&trimmed);
        let has_spaces = text::contains_char(&trimmed, ' ');
        let is_quoted = chars.len() >= 1 && chars[0] == '"' && chars[chars.len() - 1] == '"';
        let category = categorize_chars(&trimmed, None);
        let normalized = text::to_lower(&trimmed);
        let is_duplicate = Self::duplicate_scan(index, &normalized, all_paths);
        PathEntry { path, index, location, category, exists, has_spaces, is_quoted, is_duplicate }
    }

    pub(crate) fn duplicate_scan(index: usize, normalized: &Vec<char>, all_paths: &Vec<String>) -> (r: bool)
        ensures
            r == spec_is_duplicate(all_paths.deep_view(), index as int, normalized@),
    {
        let n = all_paths.len();
        let mut j: usize = 0;
        while j < n
            invariant
                j <= n,
                n == all_paths@.len(),
                forall|k: int|
                    0 <= k < j && k != index ==> text::lower(
                        text::strip_quotes(#[trigger] all_paths.deep_view()[k]),
                    ) != normalized@,
            decreases n - j,
        {
            if j != index {
                let other = text::chars_of(all_paths[j].as_str());
                assert(other@ == all_paths.deep_view()[j as int]);
                let other_norm = text::to_lower(&text::strip_quote_chars(&other));
                if crate::context::eq_chars(&other_norm, normalized) {
                    return true;
                }
            }
            j += 1;
        }
        false
    }

    /// Classifies a path with no user name at hand.
    pub fn categorize(path: &str) -> (r: PathCategory)
        ensures
            r == spec_categorize(path@, Option::None),
    {
        let chars = text::chars_of(path);
        categorize_chars(&chars, None)
    }

    /// A per-user tool directory sitting in the system store.
    pub fn should_be_in_user_path(&self) -> (r: bool)
        ensures
            r == (self.category == PathCategory::UserProgram && self.location
                == PathLocation::System),
    {
        match (self.category, self.location) {
            (PathCategory::UserProgram, PathLocation::System) => true,
            _ => false,
        }
    }

    /// Has spaces but no surrounding quotes.
    pub fn needs_quotes(&self) -> (r: bool)
        ensures
            r == (self.has_spaces && !self.is_quoted),
    {
        self.has_spaces && !self.is_quoted
    }

    /// Anything at all worth reporting.
    pub fn has_issues(&self) -> (r: bool)
        ensures
            r == (!self.exists || (self.has_spaces && !self.is_quoted) || self.is_duplicate),
    {
        !self.exists || self.needs_quotes() || self.is_duplicate
    }

    /// Whether the entry belongs to the current user's own tooling.
    pub fn is_user_specific(&self) -> (r: bool)
        ensures
            r == (self.category == PathCategory::UserProgram),
    {
        match self.category {
            PathCategory::UserProgram => true,
            _ => false,
        }
    }

    /// The warning lines shown for this entry.
    pub fn get_warnings(&self) -> (r: Vec<String>)
        ensures
            r.deep_view() == spec_warnings(self),
    {
        let mut warnings: Vec<String> = Vec::new();
        if !self.exists {
            warnings.push("Path does not exist".to_owned());
        }
        if self.needs_quotes() {
            warnings.push("Contains spaces but not quoted".to_owned());
        }
        if self.is_duplicate {
            warnings.push("Duplicate path".to_owned());
        }
        if self.path.as_str().unicode_len() > constants::MAX_SINGLE_PATH_LENGTH {
            warnings.push("Path exceeds 260 characters".to_owned());
        }
        proof {
            assert(warnings.deep_view() =~~= spec_warnings(self));
        }
        warnings
    }
}

/// The warning lines of an entry, in their fixed order.
pub open spec fn spec_warnings(e: &PathEntry) -> Seq<Seq<char>> {
    (if !e.exists {
        seq!["Path does not exist"@]
    } else {
        Seq::<Seq<char>>::empty()
    }) + (if e.has_spaces && !e.is_quoted {
        seq!["Contains spaces but not quoted"@]
    } else {
        Seq::<Seq<char>>::empty()
    }) + (if e.is_duplicate {
        seq!["Duplicate path"@]
    } else {
        Seq::<Seq<char>>::empty()
    }) + (if e.path@.len() > constants::MAX_SINGLE_PATH_LENGTH {
        seq!["Path exceeds 260 characters"@]
    } else {
        Seq::<Seq<char>>::empty()
    })
}

} // verus!
