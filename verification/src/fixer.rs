//! The fixer: computes a corrected user-store value by dropping
//! duplicates and dead entries and quoting spaced ones.
//!
//! The fixer only computes; reading the store, taking a backup and
//! writing the result back stay with the caller.

use vstd::prelude::*;
use crate::context::{fs_has, EnvVars, FsSnapshot};
use crate::text;
use crate::utils;

verus! {

/// What one fixer run produced.
pub struct FixResults {
    /// Human-readable change log, one line per dropped or quoted entry.
    pub changes: Vec<String>,
    /// Whether this run was only a preview.
    pub dry_run: bool,
    /// Whether the corrected value differs from the input.
    pub changed: bool,
    /// The corrected store value.
    pub new_path: String,
}

/// The duplicate key of an entry: trimmed, quote-stripped, case-folded.
pub open spec fn fix_norm(e: Seq<char>) -> Seq<char> {
    text::lower(text::strip_quotes(text::trim(e)))
}

/// Whether the trimmed entry `t` is dropped as dead: it does not exist,
/// and expanding `%VAR%` tokens either changes nothing or leads nowhere.
pub open spec fn fix_removes(
    t: Seq<char>,
    env: Seq<(Seq<char>, Seq<char>)>,
    fs: Seq<Seq<char>>,
) -> bool {
    if fs_has(fs, text::strip_quotes(t)) {
        false
    } else if text::has_char(t, '%') {
        let x = utils::spec_expand(t, env);
        !(x != t && fs_has(fs, x))
    } else {
        true
    }
}

/// The outputs of a fixer pass, as specifications see them.
pub struct FixSpec {
    pub kept: Seq<Seq<char>>,
    pub log: Seq<Seq<char>>,
}

/// One pass over the entries: duplicates dropped first, then dead
/// entries, then quoting; `seen` holds the keys already taken.
pub open spec fn fix_from(
    es: Seq<Seq<char>>,
    env: Seq<(Seq<char>, Seq<char>)>,
    fs: Seq<Seq<char>>,
    seen: Seq<Seq<char>>,
) -> FixSpec
    decreases es.len(),
{
    if es.len() == 0 {
        FixSpec { kept: Seq::<Seq<char>>::empty(), log: Seq::<Seq<char>>::empty() }
    } else {
        let t = text::trim(es[0]);
        let norm = fix_norm(es[0]);
        if seen.contains(norm) {
            let rest = fix_from(es.drop_first(), env, fs, seen);
            FixSpec { kept: rest.kept, log: seq!["Removed duplicate: "@ + t] + rest.log }
        } else {
            let rest = fix_from(es.drop_first(), env, fs, seen.push(norm));
            if fix_removes(t, env, fs) {
                FixSpec { kept: rest.kept, log: seq!["Removed non-existent: "@ + t] + rest.log }
            } else if text::has_char(t, ' ') && !(t.len() > 0 && t[0] == '"') {
                let q = seq!['"'] + t + seq!['"'];
                FixSpec {
                    kept: seq![q] + rest.kept,
                    log: seq!["Added quotes: "@ + t + " -> "@ + q] + rest.log,
                }
            } else {
                FixSpec { kept: seq![t] + rest.kept, log: rest.log }
            }
        }
    }
}

/// The fixer pass over a whole raw store value.
pub open spec fn spec_fix(
    current: Seq<char>,
    env: Seq<(Seq<char>, Seq<char>)>,
    fs: Seq<Seq<char>>,
) -> FixSpec {
    fix_from(text::entries(current), env, fs, Seq::<Seq<char>>::empty())
}

/// The corrected store value the fixer would write.
pub open spec fn spec_fix_value(
    current: Seq<char>,
    env: Seq<(Seq<char>, Seq<char>)>,
    fs: Seq<Seq<char>>,
) -> Seq<char> {
    text::join_semi(spec_fix(current, env, fs).kept)
}

fn label_entry(label: &str, t: &Vec<char>) -> (r: String)
    ensures
        r@ == label@ + t@,
{
    let mut out = text::chars_of(label);
    let ghost head = out@;
    let mut k: usize = 0;
    while k < t.len()
        invariant
            k <= t@.len(),
            out@ == head + t@.subrange(0, k as int),
        decreases t@.len() - k,
    {
        out.push(t[k]);
        assert(out@ =~= head + t@.subrange(0, k + 1 as int));
        k += 1;
    }
    proof {
        assert(t@.subrange(0, t@.len() as int) =~= t@);
    }
    text::string_from_chars(&out)
}

fn label_quoted(t: &Vec<char>, q: &Vec<char>) -> (r: String)
    ensures
        r@ == "Added quotes: "@ + t@ + " -> "@ + q@,
{
    let mut out = text::chars_of("Added quotes: ");
    let ghost head = out@;
    let mut k: usize = 0;
    while k < t.len()
        invariant
            k <= t@.len(),
            out@ == head + t@.subrange(0, k as int),
        decreases t@.len() - k,
    {
        out.push(t[k]);
        assert(out@ =~= head + t@.subrange(0, k + 1 as int));
        k += 1;
    }
    proof {
        assert(t@.subrange(0, t@.len() as int) =~= t@);
    }
    let arrow = text::chars_of(" -> ");
    let ghost head2 = out@;
    let mut k: usize = 0;
    while k < arrow.len()
        invariant
            k <= arrow@.len(),
            out@ == head2 + arrow@.subrange(0, k as int),
        decreases arrow@.len() - k,
    {
        out.push(arrow[k]);
        assert(out@ =~= head2 + arrow@.subrange(0, k + 1 as int));
        k += 1;
    }
    proof {
        assert(arrow@.subrange(0, arrow@.len() as int) =~= arrow@);
    }
    let ghost head3 = out@;
    let mut k: usize = 0;
    while k < q.len()
        invariant
            k <= q@.len(),
            out@ == head3 + q@.subrange(0, k as int),
        decreases q@.len() - k,
    {
        out.push(q[k]);
        assert(out@ =~= head3 + q@.subrange(0, k + 1 as int));
        k += 1;
    }
    proof {
        assert(q@.subrange(0, q@.len() as int) =~= q@);
        assert(out@ =~= ((("Added quotes: "@ + t@) + " -> "@) + q@));
        assert(((("Added quotes: "@ + t@) + " -> "@) + q@) =~= "Added quotes: "@ + t@ + " -> "@
            + q@);
    }
    text::string_from_chars(&out)
}

/// The fixer itself.
pub struct PathFixer;

impl PathFixer {
    /// Computes the corrected value of the given raw user-store value:
    /// duplicates and dead entries dropped, spaced entries quoted.  The
    /// caller writes the result back only when `changed` and not a dry
    /// run, after taking a backup.
    #[verifier::rlimit(80)]
    pub fn fix_user_path(current: &str, env: &EnvVars, fs: &FsSnapshot, dry_run: bool) -> (r:
        FixResults)
        ensures
            r.changes.deep_view() == spec_fix(current@, env@, fs@).log,
            r.new_path@ == spec_fix_value(current@, env@, fs@),
            r.changed == (spec_fix_value(current@, env@, fs@) != current@),
            r.dry_run == dry_run,
            spec_fix(current@, env@, fs@).kept.len() <= text::entries(current@).len(),
    {
        let ghost all = text::entries(current@);
        let ghost full = spec_fix(current@, env@, fs@);
        let current_chars = text::chars_of(current);
        let fields = text::split_entries(&current_chars);
        let n = fields.len();
        let mut kept: Vec<Vec<char>> = Vec::new();
        let mut changes: Vec<String> = Vec::new();
        let mut seen: Vec<Vec<char>> = Vec::new();
        let mut i: usize = 0;
        proof {
            assert(all.skip(0) =~~= all);
            assert(seen.deep_view() =~~= Seq::<Seq<char>>::empty());
            assert(kept.deep_view() + fix_from(all.skip(0), env@, fs@, seen.deep_view()).kept
                =~~= full.kept);
            assert(changes.deep_view() + fix_from(all.skip(0), env@, fs@, seen.deep_view()).log
                =~~= full.log);
        }
        while i < n
            invariant
                i <= n,
                n == fields@.len(),
                fields.deep_view() == all,
                full == spec_fix(current@, env@, fs@),
                full.kept == kept.deep_view() + fix_from(
                    all.skip(i as int),
                    env@,
                    fs@,
                    seen.deep_view(),
                ).kept,
                full.log == changes.deep_view() + fix_from(
                    all.skip(i as int),
                    env@,
                    fs@,
                    seen.deep_view(),
                ).log,
                kept.deep_view().len() <= i,
            decreases n - i,
        {
            let ghost e = all[i as int];
            let ghost tail = all.skip(i as int);
            let ghost seen0 = seen.deep_view();
            proof {
                assert(tail[0] == e);
                assert(tail.drop_first() =~~= all.skip(i + 1));
            }
            let entry = &fields[i];
            assert(entry@ == e);
            let t = text::trim_chars(entry);
            let stripped = text::strip_quote_chars(&t);
            let norm = text::to_lower(&stripped);
            assert(norm@ == fix_norm(e));
            let ghost kept0 = kept.deep_view();
            let ghost log0 = changes.deep_view();
            if contains_norm(&seen, &norm) {
                changes.push(label_entry("Removed duplicate: ", &t));
                proof {
                    assert(changes.deep_view() =~~= log0.push("Removed duplicate: "@ + t@));
                    assert(log0.push("Removed duplicate: "@ + t@) =~~= log0 + seq![
                        "Removed duplicate: "@ + t@,
                    ]);
                    let rest = fix_from(tail.drop_first(), env@, fs@, seen0);
                    assert(fix_from(tail, env@, fs@, seen0).log == seq![
                        "Removed duplicate: "@ + t@,
                    ] + rest.log);
                    assert((log0 + seq!["Removed duplicate: "@ + t@]) + rest.log =~~= log0 + (seq![
                        "Removed duplicate: "@ + t@,
                    ] + rest.log));
                }
            } else {
                let ghost seen1 = seen0.push(fix_norm(e));
                seen.push(norm);
                proof {
                    assert(seen.deep_view() =~~= seen1);
                }
                let exists_now = fs.exists_chars(&stripped);
                let remove = if exists_now {
                    false
                } else if text::contains_char(&t, '%') {
                    let expanded = utils::expand_env_chars(&t, env);
                    let changed_by_expansion = !crate::context::eq_chars(&expanded, &t);
                    let expanded_exists = fs.exists_chars(&expanded);
                    !(changed_by_expansion && expanded_exists)
                } else {
                    true
                };
                assert(remove == fix_removes(t@, env@, fs@));
                if remove {
                    changes.push(label_entry("Removed non-existent: ", &t));
                    proof {
                        assert(changes.deep_view() =~~= log0.push("Removed non-existent: "@ + t@));
                        assert(log0.push("Removed non-existent: "@ + t@) =~~= log0 + seq![
                            "Removed non-existent: "@ + t@,
                        ]);
                        let rest = fix_from(tail.drop_first(), env@, fs@, seen1);
                        assert(fix_from(tail, env@, fs@, seen0).log == seq![
                            "Removed non-existent: "@ + t@,
                        ] + rest.log);
                        assert((log0 + seq!["Removed non-existent: "@ + t@]) + rest.log
                            =~~= log0 + (seq!["Removed non-existent: "@ + t@] + rest.log));
                    }
                } else if text::contains_char(&t, ' ') && !(t.len() > 0 && t[0] == '"') {
                    let q = utils::quote_if_needed_chars(&t);
                    assert(q@ == seq!['"'] + t@ + seq!['"']);
                    changes.push(label_quoted(&t, &q));
                    kept.push(q);
                    proof {
                        let qs = seq!['"'] + t@ + seq!['"'];
                        assert(kept.deep_view() =~~= kept0.push(qs));
                        assert(kept0.push(qs) =~~= kept0 + seq![qs]);
                        assert(changes.deep_view() =~~= log0.push(
                            "Added quotes: "@ + t@ + " -> "@ + qs,
                        ));
                        assert(log0.push("Added quotes: "@ + t@ + " -> "@ + qs) =~~= log0 + seq![
                            "Added quotes: "@ + t@ + " -> "@ + qs,
                        ]);
                        let rest = fix_from(tail.drop_first(), env@, fs@, seen1);
                        assert(fix_from(tail, env@, fs@, seen0).kept == seq![qs] + rest.kept);
                        assert(fix_from(tail, env@, fs@, seen0).log == seq![
                            "Added quotes: "@ + t@ + " -> "@ + qs,
                        ] + rest.log);
                        assert((kept0 + seq![qs]) + rest.kept =~~= kept0 + (seq![qs] + rest.kept));
                        assert((log0 + seq!["Added quotes: "@ + t@ + " -> "@ + qs]) + rest.log
                            =~~= log0 + (seq!["Added quotes: "@ + t@ + " -> "@ + qs] + rest.log));
                    }
                } else {
                    kept.push(t);
                    proof {
                        assert(kept.deep_view() =~~= kept0.push(text::trim(e)));
                        assert(kept0.push(text::trim(e)) =~~= kept0 + seq![text::trim(e)]);
                        let rest = fix_from(tail.drop_first(), env@, fs@, seen1);
                        assert(fix_from(tail, env@, fs@, seen0).kept == seq![text::trim(e)]
                            + rest.kept);
                        assert((kept0 + seq![text::trim(e)]) + rest.kept =~~= kept0 + (seq![
                            text::trim(e),
                        ] + rest.kept));
                    }
                }
            }
            i += 1;
        }
        proof {
            assert(all.skip(n as int) =~~= Seq::<Seq<char>>::empty());
            assert(kept.deep_view() + Seq::<Seq<char>>::empty() =~~= kept.deep_view());
            assert(changes.deep_view() + Seq::<Seq<char>>::empty() =~~= changes.deep_view());
            assert(kept.deep_view() =~~= full.kept);
            assert(changes.deep_view() =~~= full.log);
        }
        let joined = text::join_fields(&kept);
        let new_path = text::string_from_chars(&joined);
        let changed = !crate::context::eq_chars(&joined, &current_chars);
        FixResults { changes, dry_run, changed, new_path }
    }
}

fn contains_norm(keys: &Vec<Vec<char>>, key: &Vec<char>) -> (r: bool)
    ensures
        r == keys.deep_view().contains(key@),
{
    let n = keys.len();
    let mut i: usize = 0;
    while i < n
        invariant
            i <= n,
            n == keys@.len(),
            forall|k: int| 0 <= k < i ==> keys.deep_view()[k] != key@,
        decreases n - i,
    {
        assert(keys.deep_view()[i as int] == keys@[i as int]@);
        if crate::context::eq_chars(&keys[i], key) {
            return true;
        }
        i += 1;
    }
    assert(forall|k: int| 0 <= k < keys.deep_view().len() ==> keys.deep_view()[k] != key@);
    false
}


// ---------------------------------------------------------------------------
// Laws
// ---------------------------------------------------------------------------

/// The duplicate-removal component of the fixer's pass on its own: the
/// entries whose key has not been taken yet, in order.
pub open spec fn dedup_entries(es: Seq<Seq<char>>, seen: Seq<Seq<char>>) -> Seq<Seq<char>>
    decreases es.len(),
{
    if es.len() == 0 {
        es
    } else if seen.contains(fix_norm(es[0])) {
        dedup_entries(es.drop_first(), seen)
    } else {
        seq![es[0]] + dedup_entries(es.drop_first(), seen.push(fix_norm(es[0])))
    }
}

/// `a` occurs inside `b` in order, possibly with gaps.
pub open spec fn is_subsequence(a: Seq<Seq<char>>, b: Seq<Seq<char>>) -> bool
    decreases b.len(),
{
    if a.len() == 0 {
        true
    } else if b.len() == 0 {
        false
    } else if a[0] == b[0] {
        is_subsequence(a.drop_first(), b.drop_first())
    } else {
        is_subsequence(a, b.drop_first())
    }
}

/// Removing duplicates never grows the list.
pub proof fn lemma_dedup_shrinks(es: Seq<Seq<char>>, seen: Seq<Seq<char>>)
    ensures
        dedup_entries(es, seen).len() <= es.len(),
    decreases es.len(),
{
    if es.len() > 0 {
        if seen.contains(fix_norm(es[0])) {
            lemma_dedup_shrinks(es.drop_first(), seen);
        } else {
            lemma_dedup_shrinks(es.drop_first(), seen.push(fix_norm(es[0])));
        }
    }
}

/// Removing duplicates keeps the surviving first occurrences in their
/// original relative order: the result is a subsequence of the input.
pub proof fn lemma_dedup_preserves_order(es: Seq<Seq<char>>, seen: Seq<Seq<char>>)
    ensures
        is_subsequence(dedup_entries(es, seen), es),
    decreases es.len(),
{
    if es.len() > 0 {
        if seen.contains(fix_norm(es[0])) {
            lemma_dedup_preserves_order(es.drop_first(), seen);
            lemma_subsequence_cons(dedup_entries(es.drop_first(), seen), es.drop_first(), es[0]);
            assert(seq![es[0]] + es.drop_first() =~~= es);
        } else {
            lemma_dedup_preserves_order(es.drop_first(), seen.push(fix_norm(es[0])));
            let d = dedup_entries(es, seen);
            assert(d[0] == es[0]);
            assert(d.drop_first() =~~= dedup_entries(es.drop_first(), seen.push(fix_norm(es[0]))));
        }
    }
}

proof fn lemma_subsequence_tail(a: Seq<Seq<char>>, b: Seq<Seq<char>>)
    requires
        a.len() > 0,
        is_subsequence(a, b),
    ensures
        is_subsequence(a.drop_first(), b),
    decreases b.len(), 0nat,
{
    assert(b.len() > 0);
    if a[0] == b[0] {
        lemma_subsequence_cons(a.drop_first(), b.drop_first(), b[0]);
        assert(seq![b[0]] + b.drop_first() =~~= b);
    } else {
        lemma_subsequence_tail(a, b.drop_first());
        lemma_subsequence_cons(a.drop_first(), b.drop_first(), b[0]);
        assert(seq![b[0]] + b.drop_first() =~~= b);
    }
}

proof fn lemma_subsequence_cons(x: Seq<Seq<char>>, t: Seq<Seq<char>>, h: Seq<char>)
    requires
        is_subsequence(x, t),
    ensures
        is_subsequence(x, seq![h] + t),
    decreases t.len(), 1nat,
{
    let b = seq![h] + t;
    assert(b[0] == h);
    assert(b.drop_first() =~~= t);
    if x.len() > 0 {
        if x[0] == h {
            lemma_subsequence_tail(x, t);
        }
    }
}

/// The fixer's pass never keeps more entries than the duplicate
/// removal alone would: dead-entry pruning only drops further.
pub proof fn lemma_fix_keeps_at_most_first_occurrences(
    es: Seq<Seq<char>>,
    env: Seq<(Seq<char>, Seq<char>)>,
    fs: Seq<Seq<char>>,
    seen: Seq<Seq<char>>,
)
    ensures
        fix_from(es, env, fs, seen).kept.len() <= dedup_entries(es, seen).len(),
    decreases es.len(),
{
    if es.len() > 0 {
        let norm = fix_norm(es[0]);
        if seen.contains(norm) {
            lemma_fix_keeps_at_most_first_occurrences(es.drop_first(), env, fs, seen);
        } else {
            lemma_fix_keeps_at_most_first_occurrences(es.drop_first(), env, fs, seen.push(norm));
        }
    }
}

/// Whether the trimmed entry `t` survives only through expansion: it
/// does not exist itself, but its expansion changes it and exists.
pub open spec fn kept_by_expansion(
    t: Seq<char>,
    env: Seq<(Seq<char>, Seq<char>)>,
    fs: Seq<Seq<char>>,
) -> bool {
    &&& !fs_has(fs, text::strip_quotes(t))
    &&& text::has_char(t, '%')
    &&& utils::spec_expand(t, env) != t
    &&& fs_has(fs, utils::spec_expand(t, env))
}

/// Whether the trimmed entry would be wrapped in quotes when kept.
pub open spec fn needs_wrap(t: Seq<char>) -> bool {
    text::has_char(t, ' ') && !(t.len() > 0 && t[0] == '"')
}

proof fn lemma_fix_outputs(
    es: Seq<Seq<char>>,
    env: Seq<(Seq<char>, Seq<char>)>,
    fs: Seq<Seq<char>>,
    seen: Seq<Seq<char>>,
)
    requires
        !fs_has(fs, Seq::<char>::empty()),
        forall|i: int|
            0 <= i < es.len() ==> !(kept_by_expansion(text::trim(#[trigger] es[i]), env, fs)
                && needs_wrap(text::trim(es[i]))),
        forall|i: int| 0 <= i < es.len() ==> !text::has_char(#[trigger] es[i], ';'),
    ensures
        forall|j: int|
            0 <= j < fix_from(es, env, fs, seen).kept.len() ==> {
                let e = #[trigger] fix_from(es, env, fs, seen).kept[j];
                &&& text::trim(e) == e
                &&& !needs_wrap(e)
                &&& !fix_removes(e, env, fs)
                &&& e.len() > 0
                &&& !text::has_char(e, ';')
                &&& !seen.contains(fix_norm(e))
            },
        forall|j1: int, j2: int|
            0 <= j1 < j2 < fix_from(es, env, fs, seen).kept.len() ==> fix_norm(
                #[trigger] fix_from(es, env, fs, seen).kept[j1],
            ) != fix_norm(#[trigger] fix_from(es, env, fs, seen).kept[j2]),
    decreases es.len(),
{
    if es.len() > 0 {
        let e0 = es[0];
        let t = text::trim(e0);
        let norm = fix_norm(e0);
        let rest = es.drop_first();
        assert forall|i: int|
            0 <= i < rest.len() implies !(kept_by_expansion(text::trim(#[trigger] rest[i]), env, fs)
            && needs_wrap(text::trim(rest[i]))) && !text::has_char(rest[i], ';') by {
            assert(rest[i] == es[i + 1]);
        }
        if seen.contains(norm) {
            lemma_fix_outputs(rest, env, fs, seen);
            assert(fix_from(es, env, fs, seen).kept =~~= fix_from(rest, env, fs, seen).kept);
        } else {
            let seen1 = seen.push(norm);
            lemma_fix_outputs(rest, env, fs, seen1);
            let krest = fix_from(rest, env, fs, seen1).kept;
            if fix_removes(t, env, fs) {
                assert(fix_from(es, env, fs, seen).kept =~~= krest);
                assert forall|j: int|
                    0 <= j < fix_from(es, env, fs, seen).kept.len() implies !seen.contains(
                    fix_norm(#[trigger] fix_from(es, env, fs, seen).kept[j]),
                ) by {
                    assert(fix_from(es, env, fs, seen).kept[j] == krest[j]);
                    assert(!seen1.contains(fix_norm(krest[j])));
                    lemma_contains_weaken(seen, norm, fix_norm(krest[j]));
                }
            } else {
                // Facts about the head output.
                assert(!text::has_char(e0, ';'));
                text::lemma_trim_chars_subset(e0, ';');
                text::lemma_trim_idempotent(e0);
                assert(t.len() > 0) by {
                    if t.len() == 0 {
                        assert(t =~= Seq::<char>::empty());
                        assert(text::strip_quotes(Seq::<char>::empty()) =~= Seq::<char>::empty());
                        assert(!text::has_char(t, '%'));
                        assert(fix_removes(t, env, fs));
                    }
                }
                let head = if needs_wrap(t) {
                    seq!['"'] + t + seq!['"']
                } else {
                    t
                };
                assert(fix_norm(head) == norm && text::trim(head) == head && !needs_wrap(head)
                    && !fix_removes(head, env, fs) && head.len() > 0 && !text::has_char(
                    head,
                    ';',
                )) by {
                    if needs_wrap(t) {
                        let q = seq!['"'] + t + seq!['"'];
                        assert(q[0] == '"');
                        assert(q.last() == '"');
                        assert(!text::is_space_char('"'));
                        text::lemma_trim_noop(q);
                        assert(t[0] != '"');
                        text::lemma_strip_quote_wrap(t);
                        assert(fix_norm(q) == text::lower(text::strip_quotes(text::trim(q))));
                        assert(text::strip_quotes(text::trim(q)) == text::strip_quotes(t));
                        assert(fix_norm(e0) == text::lower(text::strip_quotes(t))) by {
                            text::lemma_trim_idempotent(e0);
                        }
                        // a wrapped entry can only have been kept by presence
                        assert(!kept_by_expansion(t, env, fs));
                        assert(fs_has(fs, text::strip_quotes(t)));
                        assert(!fix_removes(q, env, fs));
                        assert forall|k: int| 0 <= k < q.len() implies q[k] != ';' by {
                            if 1 <= k < q.len() - 1 {
                                assert(q[k] == t[k - 1]);
                                assert(!text::has_char(t, ';'));
                            }
                        }
                    } else {
                        text::lemma_trim_idempotent(e0);
                        assert(fix_norm(t) == text::lower(
                            text::strip_quotes(text::trim(t)),
                        ));
                        assert(text::trim(t) == t);
                    }
                }
                assert(fix_from(es, env, fs, seen).kept =~~= seq![head] + krest);
                assert forall|j: int|
                    0 <= j < fix_from(es, env, fs, seen).kept.len() implies {
                    let e = #[trigger] fix_from(es, env, fs, seen).kept[j];
                    &&& text::trim(e) == e
                    &&& !needs_wrap(e)
                    &&& !fix_removes(e, env, fs)
                    &&& e.len() > 0
                    &&& !text::has_char(e, ';')
                    &&& !seen.contains(fix_norm(e))
                } by {
                    if j == 0 {
                        assert(fix_from(es, env, fs, seen).kept[0] == head);
                    } else {
                        assert(fix_from(es, env, fs, seen).kept[j] == krest[j - 1]);
                        assert(!seen1.contains(fix_norm(krest[j - 1])));
                        lemma_contains_weaken(seen, norm, fix_norm(krest[j - 1]));
                    }
                }
                assert forall|j1: int, j2: int|
                    0 <= j1 < j2 < fix_from(es, env, fs, seen).kept.len() implies fix_norm(
                    #[trigger] fix_from(es, env, fs, seen).kept[j1],
                ) != fix_norm(#[trigger] fix_from(es, env, fs, seen).kept[j2]) by {
                    if j1 == 0 {
                        assert(fix_from(es, env, fs, seen).kept[j1] == head);
                        assert(fix_from(es, env, fs, seen).kept[j2] == krest[j2 - 1]);
                        assert(!seen1.contains(fix_norm(krest[j2 - 1])));
                        assert(seen1.contains(norm)) by {
                            assert(seen1[seen1.len() - 1] == norm);
                        }
                        assert(fix_norm(head) == norm);
                    } else {
                        assert(fix_from(es, env, fs, seen).kept[j1] == krest[j1 - 1]);
                        assert(fix_from(es, env, fs, seen).kept[j2] == krest[j2 - 1]);
                    }
                }
            }
        }
    }
}

proof fn lemma_contains_weaken(seen: Seq<Seq<char>>, x: Seq<char>, y: Seq<char>)
    requires
        !seen.push(x).contains(y),
    ensures
        !seen.contains(y),
{
    if seen.contains(y) {
        let i = choose|i: int| 0 <= i < seen.len() && seen[i] == y;
        assert(seen.push(x)[i] == y);
    }
}

proof fn lemma_fix_stable(
    es: Seq<Seq<char>>,
    env: Seq<(Seq<char>, Seq<char>)>,
    fs: Seq<Seq<char>>,
    seen: Seq<Seq<char>>,
)
    requires
        forall|i: int| 0 <= i < es.len() ==> text::trim(#[trigger] es[i]) == es[i],
        forall|i: int| 0 <= i < es.len() ==> !needs_wrap(#[trigger] es[i]),
        forall|i: int| 0 <= i < es.len() ==> !fix_removes(#[trigger] es[i], env, fs),
        forall|i: int| 0 <= i < es.len() ==> !seen.contains(fix_norm(#[trigger] es[i])),
        forall|i1: int, i2: int|
            0 <= i1 < i2 < es.len() ==> fix_norm(#[trigger] es[i1]) != fix_norm(
                #[trigger] es[i2],
            ),
    ensures
        fix_from(es, env, fs, seen).kept == es,
    decreases es.len(),
{
    if es.len() > 0 {
        let e0 = es[0];
        let norm = fix_norm(e0);
        let rest = es.drop_first();
        let seen1 = seen.push(norm);
        assert forall|i: int| 0 <= i < rest.len() implies text::trim(#[trigger] rest[i]) == rest[i]
            && !needs_wrap(rest[i]) && !fix_removes(rest[i], env, fs) && !seen1.contains(
            fix_norm(rest[i]),
        ) by {
            assert(rest[i] == es[i + 1]);
            assert(!seen.contains(fix_norm(es[i + 1])));
            assert(fix_norm(es[0]) != fix_norm(es[i + 1]));
            if seen1.contains(fix_norm(rest[i])) {
                let k = choose|k: int| 0 <= k < seen1.len() && seen1[k] == fix_norm(rest[i]);
                if k < seen.len() {
                    assert(seen[k] == fix_norm(rest[i]));
                } else {
                    assert(seen1[k] == norm);
                }
            }
        }
        assert forall|i1: int, i2: int|
            0 <= i1 < i2 < rest.len() implies fix_norm(#[trigger] rest[i1]) != fix_norm(
            #[trigger] rest[i2],
        ) by {
            assert(rest[i1] == es[i1 + 1]);
            assert(rest[i2] == es[i2 + 1]);
        }
        lemma_fix_stable(rest, env, fs, seen1);
        assert(!seen.contains(norm));
        assert(!fix_removes(text::trim(e0), env, fs));
        assert(!needs_wrap(text::trim(e0)));
        assert(fix_from(es, env, fs, seen).kept =~~= seq![e0] + rest);
        assert(seq![e0] + rest =~~= es);
    }
}

/// Idempotence of the fixer: running it on its own output is a no-op.
///
/// The one family of inputs left out: an entry that survives only
/// through `%VAR%` expansion while also needing quotes, because the
/// quotes added in the first pass change what the second pass expands.
pub proof fn lemma_fix_idempotent(
    current: Seq<char>,
    env: Seq<(Seq<char>, Seq<char>)>,
    fs: Seq<Seq<char>>,
)
    requires
        !fs_has(fs, Seq::<char>::empty()),
        forall|i: int|
            0 <= i < text::entries(current).len() ==> !(kept_by_expansion(
                text::trim(#[trigger] text::entries(current)[i]),
                env,
                fs,
            ) && needs_wrap(text::trim(text::entries(current)[i]))),
    ensures
        spec_fix_value(spec_fix_value(current, env, fs), env, fs) == spec_fix_value(
            current,
            env,
            fs,
        ),
{
    let es = text::entries(current);
    text::lemma_entries_elements(current);
    let none: Seq<Seq<char>> = Seq::empty();
    lemma_fix_outputs(es, env, fs, none);
    let kept = fix_from(es, env, fs, none).kept;
    assert forall|i: int| 0 <= i < kept.len() implies (#[trigger] kept[i]).len() > 0
        && !text::has_char(kept[i], ';') by {}
    text::lemma_entries_of_join(kept);
    let value = text::join_semi(kept);
    assert(text::entries(value) == kept);
    lemma_fix_stable(kept, env, fs, none);
    assert(fix_from(kept, env, fs, none).kept == kept);
    assert(spec_fix_value(value, env, fs) == value);
}

} // verus!
