//! The store scanner: derives issues and audit counters from one raw
//! store value, an environment snapshot and a filesystem snapshot.

use vstd::prelude::*;
use crate::constants;
use crate::context::{fs_has, EnvVars, FsSnapshot};
use crate::models::{AuditStats, IssueLevel, PathIssue};
use crate::registry::RegistryHelper;
use crate::text;
use crate::utils;

verus! {

// ---------------------------------------------------------------------------
// Per-entry facts
// ---------------------------------------------------------------------------

/// The entry with surrounding whitespace removed.
pub open spec fn entry_trim(e: Seq<char>) -> Seq<char> {
    text::trim(e)
}

/// The trimmed entry with surrounding quotes removed.
pub open spec fn entry_stripped(e: Seq<char>) -> Seq<char> {
    text::strip_quotes(text::trim(e))
}

/// Whether the trimmed entry contains a space.
pub open spec fn entry_has_spaces(e: Seq<char>) -> bool {
    text::has_char(text::trim(e), ' ')
}

/// Whether the trimmed entry is wrapped in quotes.
pub open spec fn entry_is_quoted(e: Seq<char>) -> bool {
    crate::models::spec_is_quoted(text::trim(e))
}

/// The absoluteness heuristic of a scan: a drive separator, quoting, or
/// an unexpanded `%` all count as absolute.
pub open spec fn entry_is_absolute(e: Seq<char>) -> bool {
    text::has_char(text::trim(e), ':') || entry_is_quoted(e) || text::has_char(
        text::trim(e),
        '%',
    )
}

/// What the entry resolves to for the existence check: quote-stripped,
/// and `%VAR%`-expanded when it holds a `%`.
pub open spec fn entry_resolved(e: Seq<char>, env: Seq<(Seq<char>, Seq<char>)>) -> Seq<char> {
    if text::has_char(entry_stripped(e), '%') {
        utils::spec_expand(entry_stripped(e), env)
    } else {
        entry_stripped(e)
    }
}

/// Whether the entry's resolved form exists on the snapshot.
pub open spec fn entry_exists(
    e: Seq<char>,
    env: Seq<(Seq<char>, Seq<char>)>,
    fs: Seq<Seq<char>>,
) -> bool {
    fs_has(fs, entry_resolved(e, env))
}

/// The key under which duplicates are detected: quote-stripped and
/// case-folded.
pub open spec fn entry_norm(e: Seq<char>) -> Seq<char> {
    text::lower(entry_stripped(e))
}

/// Whether the path sits under a root an attacker can plant files in.
pub open spec fn spec_exploitable_root(t: Seq<char>) -> bool {
    let l = text::lower(t);
    text::starts_with(l, "c:\\program files"@) || text::starts_with(
        l,
        "c:\\program files (x86)"@,
    ) || text::starts_with(l, "c:\\windows"@)
}

/// Whether an unquoted path with spaces under this prefix could be
/// hijacked: true under the system and Program Files roots.
pub fn check_path_exploitable(path: &str) -> (r: bool)
    ensures
        r == spec_exploitable_root(path@),
{
    let chars = text::chars_of(path);
    check_exploitable_chars(&chars)
}

fn check_exploitable_chars(t: &Vec<char>) -> (r: bool)
    ensures
        r == spec_exploitable_root(t@),
{
    let l = text::to_lower(t);
    let pf = text::chars_of(constants::PROGRAM_FILES);
    let pfx = text::chars_of(constants::PROGRAM_FILES_X86);
    let win = text::chars_of(constants::WINDOWS_PATH);
    text::begins_with(&l, &pf) || text::begins_with(&l, &pfx) || text::begins_with(&l, &win)
}

// ---------------------------------------------------------------------------
// Issues
// ---------------------------------------------------------------------------

/// A reported issue, as specifications see it.
pub struct IssueSpec {
    pub path: Seq<char>,
    pub level: IssueLevel,
    pub message: Seq<char>,
}

/// The spec-level image of an issue value.
pub open spec fn issue_view(i: PathIssue) -> IssueSpec {
    IssueSpec { path: i.path@, level: i.level, message: i.message@ }
}

/// The issues one entry emits, given whether it repeats an earlier one.
pub open spec fn entry_issues(
    e: Seq<char>,
    env: Seq<(Seq<char>, Seq<char>)>,
    fs: Seq<Seq<char>>,
    dup: bool,
) -> Seq<IssueSpec> {
    let sp = entry_has_spaces(e);
    let q = entry_is_quoted(e);
    let ex = entry_exists(e, env, fs);
    let spaces_part = if sp && !q && ex && spec_exploitable_root(entry_trim(e)) {
        seq![
            IssueSpec {
                path: e,
                level: IssueLevel::Critical,
                message:
                    "Path contains spaces without quotes and could be exploited by creating malicious files/directories"@,
            },
        ]
    } else if sp && !q && ex {
        seq![
            IssueSpec {
                path: e,
                level: IssueLevel::Info,
                message:
                    "Path contains spaces but is not quoted. Consider adding quotes for better compatibility."@,
            },
        ]
    } else if sp && !q {
        seq![
            IssueSpec {
                path: e,
                level: IssueLevel::Warning,
                message: "Path contains spaces, is not quoted, and does not exist"@,
            },
        ]
    } else if sp && q && ex {
        seq![
            IssueSpec { path: e, level: IssueLevel::Info, message: "Path is properly quoted"@ },
        ]
    } else {
        Seq::<IssueSpec>::empty()
    };
    let missing_part = if !ex {
        seq![
            IssueSpec { path: e, level: IssueLevel::Warning, message: "Path does not exist"@ },
        ]
    } else {
        Seq::<IssueSpec>::empty()
    };
    let relative_part = if !entry_is_absolute(e) && entry_trim(e).len() > 0 {
        seq![
            IssueSpec {
                path: e,
                level: IssueLevel::Warning,
                message: "Relative path detected - should use absolute paths"@,
            },
        ]
    } else {
        Seq::<IssueSpec>::empty()
    };
    let dup_part = if dup {
        seq![
            IssueSpec { path: e, level: IssueLevel::Warning, message: "Duplicate path entry"@ },
        ]
    } else {
        Seq::<IssueSpec>::empty()
    };
    spaces_part + missing_part + relative_part + dup_part
}

/// The issues of a whole entry list, threading the set of keys already
/// seen (as the ordered sequence of all earlier keys).
pub open spec fn scan_issues_from(
    es: Seq<Seq<char>>,
    env: Seq<(Seq<char>, Seq<char>)>,
    fs: Seq<Seq<char>>,
    seen: Seq<Seq<char>>,
) -> Seq<IssueSpec>
    decreases es.len(),
{
    if es.len() == 0 {
        Seq::<IssueSpec>::empty()
    } else {
        entry_issues(es[0], env, fs, seen.contains(entry_norm(es[0]))) + scan_issues_from(
            es.drop_first(),
            env,
            fs,
            seen.push(entry_norm(es[0])),
        )
    }
}

/// All issues of a store value's entries.
pub open spec fn scan_issues(
    es: Seq<Seq<char>>,
    env: Seq<(Seq<char>, Seq<char>)>,
    fs: Seq<Seq<char>>,
) -> Seq<IssueSpec> {
    scan_issues_from(es, env, fs, Seq::<Seq<char>>::empty())
}

// ---------------------------------------------------------------------------
// Audit counters
// ---------------------------------------------------------------------------

/// Entries with spaces and no opening quote.
pub open spec fn count_unquoted_spaces(es: Seq<Seq<char>>) -> nat
    decreases es.len(),
{
    if es.len() == 0 {
        0
    } else {
        count_unquoted_spaces(es.drop_last()) + if entry_has_spaces(es.last()) && !entry_is_quoted(
            es.last(),
        ) {
            1nat
        } else {
            0nat
        }
    }
}

/// Entries whose resolved form does not exist.
pub open spec fn count_nonexistent(
    es: Seq<Seq<char>>,
    env: Seq<(Seq<char>, Seq<char>)>,
    fs: Seq<Seq<char>>,
) -> nat
    decreases es.len(),
{
    if es.len() == 0 {
        0
    } else {
        count_nonexistent(es.drop_last(), env, fs) + if !entry_exists(es.last(), env, fs) {
            1nat
        } else {
            0nat
        }
    }
}

/// Non-empty entries that fail the absoluteness heuristic.
pub open spec fn count_relative(es: Seq<Seq<char>>) -> nat
    decreases es.len(),
{
    if es.len() == 0 {
        0
    } else {
        count_relative(es.drop_last()) + if !entry_is_absolute(es.last()) && entry_trim(
            es.last(),
        ).len() > 0 {
            1nat
        } else {
            0nat
        }
    }
}

/// Entries with spaces that are quoted.
pub open spec fn count_properly_quoted(es: Seq<Seq<char>>) -> nat
    decreases es.len(),
{
    if es.len() == 0 {
        0
    } else {
        count_properly_quoted(es.drop_last()) + if entry_has_spaces(es.last()) && entry_is_quoted(
            es.last(),
        ) {
            1nat
        } else {
            0nat
        }
    }
}

/// Entries that exist, look absolute, and are either space-free or quoted.
pub open spec fn count_valid(
    es: Seq<Seq<char>>,
    env: Seq<(Seq<char>, Seq<char>)>,
    fs: Seq<Seq<char>>,
) -> nat
    decreases es.len(),
{
    if es.len() == 0 {
        0
    } else {
        count_valid(es.drop_last(), env, fs) + if entry_exists(es.last(), env, fs)
            && entry_is_absolute(es.last()) && (!entry_has_spaces(es.last())
            || entry_is_quoted(es.last())) {
            1nat
        } else {
            0nat
        }
    }
}

// ---------------------------------------------------------------------------
// The scanner
// ---------------------------------------------------------------------------

/// Everything one scan produced.
pub struct ScanResults {
    pub paths: Vec<String>,
    pub issues: Vec<PathIssue>,
    pub audit: AuditStats,
}

/// A scanner over one raw store value.
pub struct PathScanner {
    pub path_var: String,
}

fn seen_contains(keys: &Vec<Vec<char>>, key: &Vec<char>) -> (r: bool)
    ensures
        r == keys.deep_view().contains(key@),
{
    let n = keys.len();
    let mut i: usize = 0;
    while i < n
        invariant
            i <= n,
            n == keys@.len(),
            forall|k: int| 0 <= k < i ==> keys.deep_view()[k] != key@,
        decreases n - i,
    {
        assert(keys.deep_view()[i as int] == keys@[i as int]@);
        if crate::context::eq_chars(&keys[i], key) {
            return true;
        }
        i += 1;
    }
    assert(forall|k: int| 0 <= k < keys.deep_view().len() ==> keys.deep_view()[k] != key@);
    false
}

/// Appends one issue, extending the spec image by its record.
fn push_issue(issues: &mut Vec<PathIssue>, path: &str, level: IssueLevel, message: &str)
    ensures
        final(issues)@.map_values(|x: PathIssue| issue_view(x)) == old(issues)@.map_values(
            |x: PathIssue| issue_view(x),
        ).push(IssueSpec { path: path@, level, message: message@ }),
{
    let ghost before = issues@.map_values(|x: PathIssue| issue_view(x));
    issues.push(PathIssue { path: path.to_owned(), level, message: message.to_owned() });
    proof {
        assert(issues@.map_values(|x: PathIssue| issue_view(x)) =~= before.push(
            IssueSpec { path: path@, level, message: message@ },
        ));
    }
}

impl PathScanner {
    /// A scanner over the given raw store value.
    pub fn new(path_var: String) -> (r: PathScanner)
        ensures
            r.path_var@ == path_var@,
    {
        PathScanner { path_var }
    }

    /// Scans every entry, in order, against the given snapshots.  The
    /// scan never fails: unresolvable tokens stay literal and unreadable
    /// paths count as missing.
    #[verifier::rlimit(80)]
    pub fn scan(&self, env: &EnvVars, fs: &FsSnapshot) -> (r: ScanResults)
        ensures
            r.paths.deep_view() == text::entries(self.path_var@),
            r.issues@.map_values(|i: PathIssue| issue_view(i)) == scan_issues(
                text::entries(self.path_var@),
                env@,
                fs@,
            ),
            r.audit.total_paths == text::entries(self.path_var@).len(),
            r.audit.unquoted_with_spaces == count_unquoted_spaces(text::entries(self.path_var@)),
            r.audit.non_existent == count_nonexistent(text::entries(self.path_var@), env@, fs@),
            r.audit.relative_paths == count_relative(text::entries(self.path_var@)),
            r.audit.properly_quoted == count_properly_quoted(text::entries(self.path_var@)),
            r.audit.valid_paths == count_valid(text::entries(self.path_var@), env@, fs@),
            r.audit.valid_paths <= r.audit.total_paths,
    {
        let ghost all = text::entries(self.path_var@);
        let paths = RegistryHelper::parse_path_string(self.path_var.as_str());
        let n = paths.len();
        let mut issues: Vec<PathIssue> = Vec::new();
        let mut seen: Vec<Vec<char>> = Vec::new();
        let mut unquoted_with_spaces: usize = 0;
        let mut non_existent: usize = 0;
        let mut relative_paths: usize = 0;
        let mut properly_quoted: usize = 0;
        let mut valid_paths: usize = 0;
        let mut i: usize = 0;
        proof {
            assert(all.skip(0) =~~= all);
            assert(issues@.map_values(|x: PathIssue| issue_view(x)) =~= Seq::<IssueSpec>::empty());
            assert(seen.deep_view() =~~= Seq::<Seq<char>>::empty());
            assert(issues@.map_values(|x: PathIssue| issue_view(x)) + scan_issues_from(
                all.skip(0),
                env@,
                fs@,
                seen.deep_view(),
            ) =~= scan_issues(all, env@, fs@));
            assert(all.subrange(0, 0) =~~= Seq::<Seq<char>>::empty());
            assert(seen.deep_view() =~~= all.subrange(0, 0).map_values(|x: Seq<char>|
                entry_norm(x)));
        }
        while i < n
            invariant
                i <= n,
                n == paths@.len(),
                paths.deep_view() == all,
                scan_issues(all, env@, fs@) == issues@.map_values(|x: PathIssue| issue_view(x))
                    + scan_issues_from(all.skip(i as int), env@, fs@, seen.deep_view()),
                seen.deep_view() == all.subrange(0, i as int).map_values(|x: Seq<char>|
                    entry_norm(x)),
                unquoted_with_spaces == count_unquoted_spaces(all.subrange(0, i as int)),
                non_existent == count_nonexistent(all.subrange(0, i as int), env@, fs@),
                relative_paths == count_relative(all.subrange(0, i as int)),
                properly_quoted == count_properly_quoted(all.subrange(0, i as int)),
                valid_paths == count_valid(all.subrange(0, i as int), env@, fs@),
                unquoted_with_spaces <= i && non_existent <= i && relative_paths <= i
                    && properly_quoted <= i && valid_paths <= i,
            decreases n - i,
        {
            let ghost e = all[i as int];
            let ghost seen0 = seen.deep_view();
            let ghost issues0 = issues@.map_values(|x: PathIssue| issue_view(x));
            let entry = text::chars_of(paths[i].as_str());
            assert(entry@ == e);
            let t = text::trim_chars(&entry);
            let sp = text::contains_char(&t, ' ');
            let q = t.len() >= 1 && t[0] == '"' && t[t.len() - 1] == '"';
            let stripped = text::strip_quote_chars(&t);
            let resolved = if text::contains_char(&stripped, '%') {
                utils::expand_env_chars(&stripped, env)
            } else {
                stripped
            };
            let ex = fs.exists_chars(&resolved);
            let abs = text::contains_char(&t, ':') || q || text::contains_char(&t, '%');
            let ghost tt = text::trim(e);
            proof {
                assert(t@ == tt);
                assert(sp == entry_has_spaces(e));
                assert(q == entry_is_quoted(e));
                assert(resolved@ == entry_resolved(e, env@));
                assert(ex == entry_exists(e, env@, fs@));
                assert(abs == entry_is_absolute(e));
            }
            let norm = {
                let strip2 = text::strip_quote_chars(&t);
                text::to_lower(&strip2)
            };
            assert(norm@ == entry_norm(e));
            let dup = seen_contains(&seen, &norm);
            assert(dup == seen0.contains(entry_norm(e)));

            // Issues of this entry, in their fixed order.
            let ghost batch_expected = entry_issues(e, env@, fs@, dup);
            let path_str = paths[i].as_str();
            assert(path_str@ == e);
            let root = check_exploitable_chars(&t);
            assert(root == spec_exploitable_root(entry_trim(e)));
            if sp && !q {
                if ex {
                    if root {
                        push_issue(
                            &mut issues,
                            path_str,
                            IssueLevel::Critical,
                            "Path contains spaces without quotes and could be exploited by creating malicious files/directories",
                        );
                    } else {
                        push_issue(
                            &mut issues,
                            path_str,
                            IssueLevel::Info,
                            "Path contains spaces but is not quoted. Consider adding quotes for better compatibility.",
                        );
                    }
                } else {
                    push_issue(
                        &mut issues,
                        path_str,
                        IssueLevel::Warning,
                        "Path contains spaces, is not quoted, and does not exist",
                    );
                }
            } else if sp && q && ex {
                push_issue(&mut issues, path_str, IssueLevel::Info, "Path is properly quoted");
            }
            if !ex {
                push_issue(&mut issues, path_str, IssueLevel::Warning, "Path does not exist");
            }
            if !abs && t.len() > 0 {
                push_issue(
                    &mut issues,
                    path_str,
                    IssueLevel::Warning,
                    "Relative path detected - should use absolute paths",
                );
            }
            if dup {
                push_issue(&mut issues, path_str, IssueLevel::Warning, "Duplicate path entry");
            }
            proof {
                assert(issues@.map_values(|x: PathIssue| issue_view(x)) =~= issues0
                    + batch_expected);
            }

            // Counters.
            if sp && !q {
                unquoted_with_spaces += 1;
            }
            if !ex {
                non_existent += 1;
            }
            if !abs && t.len() > 0 {
                relative_paths += 1;
            }
            if sp && q {
                properly_quoted += 1;
            }
            if ex && abs && (!sp || q) {
                valid_paths += 1;
            }
            proof {
                let pre = all.subrange(0, i as int);
                let now = all.subrange(0, i + 1 as int);
                assert(now.drop_last() =~~= pre);
                assert(now.last() == e);
            }

            // The seen keys grow by this entry's key.
            let ghost seen_expected = seen0.push(entry_norm(e));
            seen.push(norm);
            proof {
                assert(seen.deep_view() =~~= seen_expected);
                assert(all.subrange(0, i + 1 as int).map_values(|x: Seq<char>| entry_norm(x))
                    =~~= seen_expected);
                let tail = all.skip(i as int);
                assert(tail[0] == e);
                assert(tail.drop_first() =~~= all.skip(i + 1));
                assert(scan_issues_from(tail, env@, fs@, seen0) == entry_issues(e, env@, fs@, dup)
                    + scan_issues_from(all.skip(i + 1), env@, fs@, seen_expected));
                assert((issues0 + batch_expected) + scan_issues_from(
                    all.skip(i + 1),
                    env@,
                    fs@,
                    seen_expected,
                ) =~= issues0 + (batch_expected + scan_issues_from(
                    all.skip(i + 1),
                    env@,
                    fs@,
                    seen_expected,
                )));
            }
            i += 1;
        }
        proof {
            assert(all.subrange(0, n as int) =~~= all);
            assert(all.skip(n as int) =~~= Seq::<Seq<char>>::empty());
            assert(issues@.map_values(|x: PathIssue| issue_view(x)) + Seq::<IssueSpec>::empty()
                =~= issues@.map_values(|x: PathIssue| issue_view(x)));
        }
        let total = paths.len();
        ScanResults {
            paths,
            issues,
            audit: AuditStats {
                total_paths: total,
                unquoted_with_spaces,
                non_existent,
                relative_paths,
                properly_quoted,
                valid_paths,
            },
        }
    }
}

/// The health score: the share of valid entries, rounded to a whole
/// percentage, and zero for an empty store.
pub open spec fn spec_health_score(valid: nat, total: nat) -> nat {
    if total == 0 {
        0
    } else {
        ((100 * valid + total / 2) / total) as nat
    }
}

/// Computes the health score of a scan.
pub fn health_score(valid: usize, total: usize) -> (r: u32)
    requires
        valid <= total,
    ensures
        r == spec_health_score(valid as nat, total as nat),
        r <= 100,
{
    if total == 0 {
        0
    } else {
        let num: u128 = 100u128 * (valid as u128) + (total as u128) / 2;
        let score = num / (total as u128);
        assert(score <= 100) by (nonlinear_arith)
            requires
                valid <= total,
                total > 0,
                num == 100 * (valid as u128) + (total as u128) / 2,
                score == num / (total as u128),
        ;
        score as u32
    }
}

} // verus!
