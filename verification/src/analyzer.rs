//! The dual-store analyzer: classifies every entry of both stores
//! against the current user's name and a filesystem snapshot.

use vstd::prelude::*;
use crate::context::{fs_has, FsSnapshot};
use crate::models::{
    categorize_chars, spec_categorize, spec_is_duplicate, spec_is_quoted, PathCategory, PathEntry,
    PathLocation,
};
use crate::text;

verus! {

/// Everything one analysis produced: the combined, classified entry
/// list, system store first.
pub struct AnalysisResults {
    pub entries: Vec<PathEntry>,
    pub current_username: String,
}

/// The analyzer, bound to the current user's name.
pub struct SystemAnalyzer {
    pub current_username: String,
}

/// What the analyzer derives for the entry at combined index `k`.
pub open spec fn analyzed_entry(
    e: PathEntry,
    all: Seq<Seq<char>>,
    k: int,
    sys_len: int,
    username: Seq<char>,
    fs: Seq<Seq<char>>,
) -> bool {
    &&& e.path@ == all[k]
    &&& e.index == k
    &&& e.location == (if k < sys_len {
        PathLocation::System
    } else {
        PathLocation::User
    })
    &&& e.category == spec_categorize(text::strip_quotes(all[k]), Option::Some(username))
    &&& e.exists == fs_has(fs, text::strip_quotes(all[k]))
    &&& e.has_spaces == text::has_char(all[k], ' ')
    &&& e.is_quoted == spec_is_quoted(all[k])
    &&& e.is_duplicate == spec_is_duplicate(all, k, text::lower(text::strip_quotes(all[k])))
}

impl SystemAnalyzer {
    /// An analyzer for the given user name.
    pub fn new(current_username: String) -> (r: SystemAnalyzer)
        ensures
            r.current_username@ == current_username@,
    {
        SystemAnalyzer { current_username }
    }

    /// Classifies one path against this user's directories.
    pub fn categorize_path(&self, path: &str) -> (r: PathCategory)
        ensures
            r == spec_categorize(path@, Option::Some(self.current_username@)),
    {
        let chars = text::chars_of(path);
        let user = text::chars_of(self.current_username.as_str());
        categorize_chars(&chars, Some(&user))
    }

    /// Analyzes both stores' entries: system entries first, then user
    /// entries, each classified and flagged against the whole listing.
    pub fn analyze(&self, system_paths: &Vec<String>, user_paths: &Vec<String>, fs: &FsSnapshot)
        -> (r: AnalysisResults)
        ensures
            r.current_username@ == self.current_username@,
            r.entries@.len() == system_paths@.len() + user_paths@.len(),
            forall|k: int|
                0 <= k < r.entries@.len() ==> analyzed_entry(
                    #[trigger] r.entries@[k],
                    system_paths.deep_view() + user_paths.deep_view(),
                    k,
                    system_paths@.len() as int,
                    self.current_username@,
                    fs@,
                ),
    {
        let ghost all = system_paths.deep_view() + user_paths.deep_view();
        let sys_len = system_paths.len();
        let mut combined: Vec<String> = Vec::new();
        let mut i: usize = 0;
        while i < system_paths.len()
            invariant
                i <= system_paths@.len(),
                combined.deep_view() == system_paths.deep_view().subrange(0, i as int),
            decreases system_paths@.len() - i,
        {
            let ghost before = combined.deep_view();
            combined.push(system_paths[i].clone());
            proof {
                assert(combined.deep_view() =~~= before.push(system_paths.deep_view()[i as int]));
                assert(before.push(system_paths.deep_view()[i as int])
                    =~~= system_paths.deep_view().subrange(0, i + 1 as int));
            }
            i += 1;
        }
        proof {
            assert(system_paths.deep_view().subrange(0, system_paths.deep_view().len() as int)
                =~~= system_paths.deep_view());
        }
        let mut i: usize = 0;
        while i < user_paths.len()
            invariant
                i <= user_paths@.len(),
                combined.deep_view() == system_paths.deep_view()
                    + user_paths.deep_view().subrange(0, i as int),
            decreases user_paths@.len() - i,
        {
            let ghost before = combined.deep_view();
            combined.push(user_paths[i].clone());
            proof {
                assert(combined.deep_view() =~~= before.push(user_paths.deep_view()[i as int]));
                assert(before.push(user_paths.deep_view()[i as int]) =~~= system_paths.deep_view()
                    + user_paths.deep_view().subrange(0, i + 1 as int));
            }
            i += 1;
        }
        proof {
            assert(user_paths.deep_view().subrange(0, user_paths.deep_view().len() as int)
                =~~= user_paths.deep_view());
            assert(combined.deep_view() =~~= all);
        }
        let user = text::chars_of(self.current_username.as_str());
        let n = combined.len();
        let mut entries: Vec<PathEntry> = Vec::new();
        let mut k: usize = 0;
        while k < n
            invariant
                k <= n,
                n == combined@.len(),
                combined.deep_view() == all,
                sys_len == system_paths@.len(),
                sys_len <= n,
                user@ == self.current_username@,
                entries@.len() == k,
                forall|j: int|
                    0 <= j < k ==> analyzed_entry(
                        #[trigger] entries@[j],
                        all,
                        j,
                        sys_len as int,
                        self.current_username@,
                        fs@,
                    ),
            decreases n - k,
        {
            let path = combined[k].clone();
            assert(path@ == all[k as int]);
            let chars = text::chars_of(path.as_str());
            let trimmed = text::strip_quote_chars(&chars);
            let has_spaces = text::contains_char(&chars, ' ');
            let is_quoted = chars.len() >= 1 && chars[0] == '"' && chars[chars.len() - 1] == '"';
            let exists = fs.exists_chars(&trimmed);
            let category = categorize_chars(&trimmed, Some(&user));
            let normalized = text::to_lower(&trimmed);
            let is_duplicate = PathEntry::duplicate_scan(k, &normalized, &combined);
            let location = if k < sys_len {
                PathLocation::System
            } else {
                PathLocation::User
            };
            let entry = PathEntry {
                path,
                index: k,
                location,
                category,
                exists,
                has_spaces,
                is_quoted,
                is_duplicate,
            };
            proof {
                assert(analyzed_entry(
                    entry,
                    all,
                    k as int,
                    sys_len as int,
                    self.current_username@,
                    fs@,
                ));
            }
            entries.push(entry);
            k += 1;
        }
        AnalysisResults { entries, current_username: self.current_username.clone() }
    }
}

} // verus!
