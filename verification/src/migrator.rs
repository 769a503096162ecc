//! The migration planner and the pure half of the mutation pipeline.
//!
//! The planner turns a combined two-store analysis into an ordered list
//! of directives; the pipeline helpers partition those directives and
//! compute the new store values.  Reading, locking and writing the
//! stores stay with the caller.

use vstd::prelude::*;
use crate::models::{PathCategory, PathEntry, PathLocation};
use crate::text;
use crate::utils;

verus! {

/// What a single directive does.
#[derive(Debug, Clone, Copy, PartialEq, Eq, Structural)]
pub enum ActionType {
    RemoveDuplicate,
    MoveToUser,
    AddQuotes,
}

/// One directive of a migration plan.
#[derive(Debug, Clone)]
pub struct MigrationAction {
    pub action_type: ActionType,
    pub path: String,
    pub from_location: PathLocation,
    pub to_location: Option<PathLocation>,
    pub reason: String,
}

/// A directive, as specifications see it.
pub struct ActionSpec {
    pub action_type: ActionType,
    pub path: Seq<char>,
    pub from_location: PathLocation,
    pub to_location: Option<PathLocation>,
    pub reason: Seq<char>,
}

/// The spec-level image of a directive.
pub open spec fn action_view(a: MigrationAction) -> ActionSpec {
    ActionSpec {
        action_type: a.action_type,
        path: a.path@,
        from_location: a.from_location,
        to_location: a.to_location,
        reason: a.reason@,
    }
}

/// An ordered plan and whether any of it touches the system store.
pub struct MigrationPlan {
    pub actions: Vec<MigrationAction>,
    pub requires_admin: bool,
}

// ---------------------------------------------------------------------------
// Cross-store duplicate pass
// ---------------------------------------------------------------------------

/// The grouping key of an entry: quote-stripped and case-folded.
pub open spec fn mig_norm(e: PathEntry) -> Seq<char> {
    text::lower(text::strip_quotes(e.path@))
}

/// Whether some entry with this key sits at `loc`.
pub open spec fn group_has_loc(es: Seq<PathEntry>, key: Seq<char>, loc: PathLocation) -> bool {
    exists|i: int|
        0 <= i < es.len() && mig_norm(#[trigger] es[i]) == key && es[i].location == loc
}

/// Whether some entry with this key is categorized as a user program.
pub open spec fn group_is_user(es: Seq<PathEntry>, key: Seq<char>) -> bool {
    exists|i: int|
        0 <= i < es.len() && mig_norm(#[trigger] es[i]) == key && es[i].category
            == PathCategory::UserProgram
}

/// A key whose copies span both stores.
pub open spec fn group_spans(es: Seq<PathEntry>, key: Seq<char>) -> bool {
    group_has_loc(es, key, PathLocation::System) && group_has_loc(es, key, PathLocation::User)
}

/// The removal directive for one surplus copy.
pub open spec fn removal_action(e: PathEntry, keep_user: bool) -> ActionSpec {
    ActionSpec {
        action_type: ActionType::RemoveDuplicate,
        path: e.path@,
        from_location: e.location,
        to_location: Option::None,
        reason: if keep_user {
            "Duplicate - already exists in USER PATH"@
        } else {
            "Duplicate - already exists in SYSTEM PATH"@
        },
    }
}

/// Whether this copy is the one removed: the copy not at the kept store.
pub open spec fn removal_hits(e: PathEntry, key: Seq<char>, keep_user: bool) -> bool {
    mig_norm(e) == key && (if keep_user {
        e.location == PathLocation::System
    } else {
        e.location == PathLocation::User
    })
}

/// The removal directives of one spanning group, in entry order.
pub open spec fn removals_for(es: Seq<PathEntry>, key: Seq<char>, keep_user: bool) -> Seq<
    ActionSpec,
>
    decreases es.len(),
{
    if es.len() == 0 {
        Seq::<ActionSpec>::empty()
    } else {
        (if removal_hits(es[0], key, keep_user) {
            seq![removal_action(es[0], keep_user)]
        } else {
            Seq::<ActionSpec>::empty()
        }) + removals_for(es.drop_first(), key, keep_user)
    }
}

/// Whether index `i` is the first entry carrying its key.
pub open spec fn first_of_key(es: Seq<PathEntry>, i: int) -> bool {
    forall|j: int| 0 <= j < i ==> mig_norm(#[trigger] es[j]) != mig_norm(es[i])
}

/// The whole duplicate pass: for each key, at its first occurrence, the
/// removals of its spanning group; the kept store is User exactly when
/// some copy is a user program.
pub open spec fn dup_actions_from(es: Seq<PathEntry>, i: int) -> Seq<ActionSpec>
    decreases es.len() - i,
{
    if i >= es.len() {
        Seq::<ActionSpec>::empty()
    } else {
        (if first_of_key(es, i) && group_spans(es, mig_norm(es[i])) {
            removals_for(es, mig_norm(es[i]), group_is_user(es, mig_norm(es[i])))
        } else {
            Seq::<ActionSpec>::empty()
        }) + dup_actions_from(es, i + 1)
    }
}

/// The duplicate pass over the whole entry list.
pub open spec fn spec_dup_actions(es: Seq<PathEntry>) -> Seq<ActionSpec> {
    dup_actions_from(es, 0)
}

// ---------------------------------------------------------------------------
// Mis-scope pass
// ---------------------------------------------------------------------------

/// The move directive for one mis-scoped entry.
pub open spec fn move_action(e: PathEntry) -> ActionSpec {
    ActionSpec {
        action_type: ActionType::MoveToUser,
        path: e.path@,
        from_location: PathLocation::System,
        to_location: Option::Some(PathLocation::User),
        reason: "User-specific path should be in USER PATH"@,
    }
}

/// The quoting directive for one unquoted, spaced system entry.
pub open spec fn quote_action(e: PathEntry) -> ActionSpec {
    ActionSpec {
        action_type: ActionType::AddQuotes,
        path: e.path@,
        from_location: PathLocation::System,
        to_location: Option::None,
        reason: "Path contains spaces and should be quoted"@,
    }
}

/// What the mis-scope/quoting pass emits for the entry at index `i`.
///
/// A system entry categorized as a user program becomes a move to the
/// User store — unless a copy of it already stands there, where moving
/// would only manufacture a fresh duplicate; the duplicate pass owns
/// that case.  Any other system entry with unescaped spaces gets its
/// quoting directive.
pub open spec fn move_step(es: Seq<PathEntry>, i: int) -> Seq<ActionSpec> {
    let e = es[i];
    if e.location == PathLocation::System {
        if e.category == PathCategory::UserProgram {
            if group_has_loc(es, mig_norm(e), PathLocation::User) {
                Seq::<ActionSpec>::empty()
            } else {
                seq![move_action(e)]
            }
        } else if e.has_spaces && !e.is_quoted {
            seq![quote_action(e)]
        } else {
            Seq::<ActionSpec>::empty()
        }
    } else {
        Seq::<ActionSpec>::empty()
    }
}

/// The mis-scope/quoting pass from index `i` on, in entry order.
pub open spec fn move_actions_from(es: Seq<PathEntry>, i: int) -> Seq<ActionSpec>
    decreases es.len() - i,
{
    if i >= es.len() {
        Seq::<ActionSpec>::empty()
    } else {
        move_step(es, i) + move_actions_from(es, i + 1)
    }
}

/// The whole mis-scope/quoting pass.
pub open spec fn spec_move_actions(es: Seq<PathEntry>) -> Seq<ActionSpec> {
    move_actions_from(es, 0)
}

/// The full plan for the given switches.
pub open spec fn spec_plan(es: Seq<PathEntry>, remove_duplicates: bool, move_user_paths: bool)
    -> Seq<ActionSpec> {
    (if remove_duplicates {
        spec_dup_actions(es)
    } else {
        Seq::<ActionSpec>::empty()
    }) + (if move_user_paths {
        spec_move_actions(es)
    } else {
        Seq::<ActionSpec>::empty()
    })
}

// ---------------------------------------------------------------------------
// The planner
// ---------------------------------------------------------------------------

/// The migration planner.
pub struct PathMigrator;

fn entry_norm_chars(e: &PathEntry) -> (r: Vec<char>)
    ensures
        r@ == mig_norm(*e),
{
    let chars = text::chars_of(e.path.as_str());
    let stripped = text::strip_quote_chars(&chars);
    text::to_lower(&stripped)
}

fn group_scan(entries: &Vec<PathEntry>, key: &Vec<char>) -> (r: (bool, bool, bool))
    ensures
        r.0 == group_has_loc(entries@, key@, PathLocation::System),
        r.1 == group_has_loc(entries@, key@, PathLocation::User),
        r.2 == group_is_user(entries@, key@),
{
    let n = entries.len();
    let mut has_system = false;
    let mut has_user = false;
    let mut is_user = false;
    let mut j: usize = 0;
    while j < n
        invariant
            j <= n,
            n == entries@.len(),
            has_system == exists|i: int|
                0 <= i < j && mig_norm(#[trigger] entries@[i]) == key@ && entries@[i].location
                    == PathLocation::System,
            has_user == exists|i: int|
                0 <= i < j && mig_norm(#[trigger] entries@[i]) == key@ && entries@[i].location
                    == PathLocation::User,
            is_user == exists|i: int|
                0 <= i < j && mig_norm(#[trigger] entries@[i]) == key@ && entries@[i].category
                    == PathCategory::UserProgram,
        decreases n - j,
    {
        let norm = entry_norm_chars(&entries[j]);
        if crate::context::eq_chars(&norm, key) {
            assert(mig_norm(entries@[j as int]) == key@);
            match entries[j].location {
                PathLocation::System => {
                    has_system = true;
                },
                PathLocation::User => {
                    has_user = true;
                },
            }
            match entries[j].category {
                PathCategory::UserProgram => {
                    is_user = true;
                },
                _ => {},
            }
        }
        j += 1;
    }
    (has_system, has_user, is_user)
}

fn removals_scan(entries: &Vec<PathEntry>, key: &Vec<char>, keep_user: bool) -> (r: Vec<
    MigrationAction,
>)
    ensures
        r@.map_values(|a: MigrationAction| action_view(a)) == removals_for(
            entries@,
            key@,
            keep_user,
        ),
{
    let n = entries.len();
    let mut out: Vec<MigrationAction> = Vec::new();
    let mut j: usize = 0;
    proof {
        assert(entries@.skip(0) =~= entries@);
        assert(out@.map_values(|a: MigrationAction| action_view(a)) =~= Seq::<
            ActionSpec,
        >::empty());
        assert(Seq::<ActionSpec>::empty() + removals_for(entries@, key@, keep_user)
            =~= removals_for(entries@, key@, keep_user));
    }
    while j < n
        invariant
            j <= n,
            n == entries@.len(),
            removals_for(entries@, key@, keep_user) == out@.map_values(
                |a: MigrationAction| action_view(a),
            ) + removals_for(entries@.skip(j as int), key@, keep_user),
        decreases n - j,
    {
        let ghost tail = entries@.skip(j as int);
        proof {
            assert(tail[0] == entries@[j as int]);
            assert(tail.drop_first() =~= entries@.skip(j + 1));
        }
        let norm = entry_norm_chars(&entries[j]);
        let loc_hits = match entries[j].location {
            PathLocation::System => keep_user,
            PathLocation::User => !keep_user,
        };
        if crate::context::eq_chars(&norm, key) && loc_hits {
            let ghost before = out@.map_values(|a: MigrationAction| action_view(a));
            let reason = if keep_user {
                "Duplicate - already exists in USER PATH"
            } else {
                "Duplicate - already exists in SYSTEM PATH"
            };
            let action = MigrationAction {
                action_type: ActionType::RemoveDuplicate,
                path: entries[j].path.clone(),
                from_location: entries[j].location,
                to_location: None,
                reason: reason.to_owned(),
            };
            out.push(action);
            proof {
                assert(out@.map_values(|a: MigrationAction| action_view(a)) =~= before.push(
                    removal_action(entries@[j as int], keep_user),
                ));
                assert(before.push(removal_action(entries@[j as int], keep_user)) =~= before
                    + seq![removal_action(entries@[j as int], keep_user)]);
                assert((before + seq![removal_action(entries@[j as int], keep_user)])
                    + removals_for(tail.drop_first(), key@, keep_user) =~= before + (seq![
                    removal_action(entries@[j as int], keep_user),
                ] + removals_for(tail.drop_first(), key@, keep_user)));
            }
        } else {
            proof {
                assert(!removal_hits(entries@[j as int], key@, keep_user));
            }
        }
        j += 1;
    }
    proof {
        assert(entries@.skip(n as int) =~= Seq::<PathEntry>::empty());
        assert(removals_for(Seq::<PathEntry>::empty(), key@, keep_user) =~= Seq::<
            ActionSpec,
        >::empty());
        assert(out@.map_values(|a: MigrationAction| action_view(a)) + Seq::<ActionSpec>::empty()
            =~= out@.map_values(|a: MigrationAction| action_view(a)));
    }
    out
}

impl PathMigrator {
    /// The cross-store duplicate pass: for every key present in both
    /// stores, keep the User copies when any copy is a user program,
    /// else keep the System copies, and remove the rest.
    pub fn plan_duplicate_removal(entries: &Vec<PathEntry>) -> (r: Vec<MigrationAction>)
        ensures
            r@.map_values(|a: MigrationAction| action_view(a)) == spec_dup_actions(entries@),
    {
        let n = entries.len();
        let mut out: Vec<MigrationAction> = Vec::new();
        let mut i: usize = 0;
        proof {
            assert(out@.map_values(|a: MigrationAction| action_view(a)) =~= Seq::<
                ActionSpec,
            >::empty());
            assert(Seq::<ActionSpec>::empty() + dup_actions_from(entries@, 0)
                =~= dup_actions_from(entries@, 0));
        }
        while i < n
            invariant
                i <= n,
                n == entries@.len(),
                spec_dup_actions(entries@) == out@.map_values(
                    |a: MigrationAction| action_view(a),
                ) + dup_actions_from(entries@, i as int),
            decreases n - i,
        {
            let norm = entry_norm_chars(&entries[i]);
            let mut first = true;
            let mut j: usize = 0;
            while j < i
                invariant
                    j <= i <= n,
                    n == entries@.len(),
                    norm@ == mig_norm(entries@[i as int]),
                    first == (forall|k: int|
                        0 <= k < j ==> mig_norm(#[trigger] entries@[k]) != norm@),
                decreases i - j,
            {
                let other = entry_norm_chars(&entries[j]);
                if crate::context::eq_chars(&other, &norm) {
                    first = false;
                }
                j += 1;
            }
            assert(first == first_of_key(entries@, i as int));
            let ghost before = out@.map_values(|a: MigrationAction| action_view(a));
            if first {
                let (has_system, has_user, is_user) = group_scan(entries, &norm);
                if has_system && has_user {
                    let mut batch = removals_scan(entries, &norm, is_user);
                    let ghost batch_view = batch@.map_values(|a: MigrationAction| action_view(a));
                    let mut bi: usize = 0;
                    while bi < batch.len()
                        invariant
                            bi <= batch@.len(),
                            batch_view == batch@.map_values(|a: MigrationAction| action_view(a)),
                            out@.map_values(|a: MigrationAction| action_view(a)) == before
                                + batch_view.subrange(0, bi as int),
                        decreases batch@.len() - bi,
                    {
                        let ghost mid = out@.map_values(|a: MigrationAction| action_view(a));
                        let a = MigrationAction {
                            action_type: batch[bi].action_type,
                            path: batch[bi].path.clone(),
                            from_location: batch[bi].from_location,
                            to_location: batch[bi].to_location,
                            reason: batch[bi].reason.clone(),
                        };
                        assert(action_view(a) == batch_view[bi as int]);
                        out.push(a);
                        proof {
                            assert(out@.map_values(|x: MigrationAction| action_view(x))
                                =~= mid.push(batch_view[bi as int]));
                            assert(mid.push(batch_view[bi as int]) =~= before
                                + batch_view.subrange(0, bi + 1 as int));
                        }
                        bi += 1;
                    }
                    proof {
                        assert(batch_view.subrange(0, batch_view.len() as int) =~= batch_view);
                        assert(out@.map_values(|a: MigrationAction| action_view(a)) =~= before
                            + batch_view);
                    }
                }
            }
            proof {
                assert(dup_actions_from(entries@, i as int) == (if first_of_key(
                    entries@,
                    i as int,
                ) && group_spans(entries@, mig_norm(entries@[i as int])) {
                    removals_for(
                        entries@,
                        mig_norm(entries@[i as int]),
                        group_is_user(entries@, mig_norm(entries@[i as int])),
                    )
                } else {
                    Seq::<ActionSpec>::empty()
                }) + dup_actions_from(entries@, i + 1));
                if !(first_of_key(entries@, i as int) && group_spans(
                    entries@,
                    mig_norm(entries@[i as int]),
                )) {
                    assert(out@.map_values(|a: MigrationAction| action_view(a)) =~= before);
                    assert(before + (Seq::<ActionSpec>::empty() + dup_actions_from(
                        entries@,
                        i + 1,
                    )) =~= before + dup_actions_from(entries@, i + 1));
                } else {
                    let g = removals_for(
                        entries@,
                        mig_norm(entries@[i as int]),
                        group_is_user(entries@, mig_norm(entries@[i as int])),
                    );
                    assert((before + g) + dup_actions_from(entries@, i + 1) =~= before + (g
                        + dup_actions_from(entries@, i + 1)));
                }
            }
            i += 1;
        }
        proof {
            assert(dup_actions_from(entries@, n as int) =~= Seq::<ActionSpec>::empty());
            assert(out@.map_values(|a: MigrationAction| action_view(a)) + Seq::<
                ActionSpec,
            >::empty() =~= out@.map_values(|a: MigrationAction| action_view(a)));
        }
        out
    }

    /// The mis-scope/quoting pass: a user-program entry in the system
    /// store becomes a move to the user store, unless a copy already
    /// stands there; any other system entry with unescaped spaces gets
    /// a quoting directive.
    pub fn plan_user_path_migration(entries: &Vec<PathEntry>) -> (r: Vec<MigrationAction>)
        ensures
            r@.map_values(|a: MigrationAction| action_view(a)) == spec_move_actions(entries@),
    {
        let n = entries.len();
        let mut out: Vec<MigrationAction> = Vec::new();
        let mut i: usize = 0;
        proof {
            assert(out@.map_values(|a: MigrationAction| action_view(a)) =~= Seq::<
                ActionSpec,
            >::empty());
            assert(Seq::<ActionSpec>::empty() + move_actions_from(entries@, 0)
                =~= move_actions_from(entries@, 0));
        }
        while i < n
            invariant
                i <= n,
                n == entries@.len(),
                spec_move_actions(entries@) == out@.map_values(
                    |a: MigrationAction| action_view(a),
                ) + move_actions_from(entries@, i as int),
            decreases n - i,
        {
            let ghost before = out@.map_values(|a: MigrationAction| action_view(a));
            let is_system = match entries[i].location {
                PathLocation::System => true,
                PathLocation::User => false,
            };
            let is_user_program = match entries[i].category {
                PathCategory::UserProgram => true,
                _ => false,
            };
            if is_system && is_user_program {
                let norm = entry_norm_chars(&entries[i]);
                let (_, has_user_copy, _) = group_scan(entries, &norm);
                if !has_user_copy {
                    let action = MigrationAction {
                        action_type: ActionType::MoveToUser,
                        path: entries[i].path.clone(),
                        from_location: PathLocation::System,
                        to_location: Some(PathLocation::User),
                        reason: "User-specific path should be in USER PATH".to_owned(),
                    };
                    out.push(action);
                    proof {
                        assert(out@.map_values(|a: MigrationAction| action_view(a)) =~= before.push(
                            move_action(entries@[i as int]),
                        ));
                        assert(before.push(move_action(entries@[i as int])) =~= before + move_step(
                            entries@,
                            i as int,
                        ));
                    }
                }
            } else if is_system && entries[i].has_spaces && !entries[i].is_quoted {
                let action = MigrationAction {
                    action_type: ActionType::AddQuotes,
                    path: entries[i].path.clone(),
                    from_location: PathLocation::System,
                    to_location: None,
                    reason: "Path contains spaces and should be quoted".to_owned(),
                };
                out.push(action);
                proof {
                    assert(out@.map_values(|a: MigrationAction| action_view(a)) =~= before.push(
                        quote_action(entries@[i as int]),
                    ));
                    assert(before.push(quote_action(entries@[i as int])) =~= before + move_step(
                        entries@,
                        i as int,
                    ));
                }
            }
            proof {
                assert(move_actions_from(entries@, i as int) == move_step(entries@, i as int)
                    + move_actions_from(entries@, i + 1));
                assert((before + move_step(entries@, i as int)) + move_actions_from(
                    entries@,
                    i + 1,
                ) =~= before + (move_step(entries@, i as int) + move_actions_from(
                    entries@,
                    i + 1,
                )));
                if move_step(entries@, i as int) =~= Seq::<ActionSpec>::empty() {
                    assert(before + move_step(entries@, i as int) =~= before);
                }
            }
            i += 1;
        }
        proof {
            assert(move_actions_from(entries@, n as int) =~= Seq::<ActionSpec>::empty());
            assert(out@.map_values(|a: MigrationAction| action_view(a)) + Seq::<
                ActionSpec,
            >::empty() =~= out@.map_values(|a: MigrationAction| action_view(a)));
        }
        out
    }

    /// Builds the plan for the given switches; administrator rights are
    /// required exactly when some directive touches the system store.
    pub fn plan_migration(entries: &Vec<PathEntry>, remove_duplicates: bool, move_user_paths:
        bool) -> (r: MigrationPlan)
        ensures
            r.actions@.map_values(|a: MigrationAction| action_view(a)) == spec_plan(
                entries@,
                remove_duplicates,
                move_user_paths,
            ),
            r.requires_admin == exists|i: int|
                0 <= i < r.actions@.len() && (#[trigger] r.actions@[i]).from_location
                    == PathLocation::System,
    {
        let mut actions: Vec<MigrationAction> = Vec::new();
        let ghost dup_part = if remove_duplicates {
            spec_dup_actions(entries@)
        } else {
            Seq::<ActionSpec>::empty()
        };
        if remove_duplicates {
            actions = Self::plan_duplicate_removal(entries);
        }
        assert(actions@.map_values(|a: MigrationAction| action_view(a)) =~= dup_part);
        if move_user_paths {
            let ghost before = actions@.map_values(|a: MigrationAction| action_view(a));
            let moves = Self::plan_user_path_migration(entries);
            let ghost moves_view = moves@.map_values(|a: MigrationAction| action_view(a));
            let mut mi: usize = 0;
            let mut moves_vec = moves;
            while mi < moves_vec.len()
                invariant
                    mi <= moves_vec@.len(),
                    moves_view == moves_vec@.map_values(|a: MigrationAction| action_view(a)),
                    actions@.map_values(|a: MigrationAction| action_view(a)) == before
                        + moves_view.subrange(0, mi as int),
                decreases moves_vec@.len() - mi,
            {
                let ghost mid = actions@.map_values(|a: MigrationAction| action_view(a));
                let a = MigrationAction {
                    action_type: moves_vec[mi].action_type,
                    path: moves_vec[mi].path.clone(),
                    from_location: moves_vec[mi].from_location,
                    to_location: moves_vec[mi].to_location,
                    reason: moves_vec[mi].reason.clone(),
                };
                assert(action_view(a) == moves_view[mi as int]);
                actions.push(a);
                proof {
                    assert(actions@.map_values(|x: MigrationAction| action_view(x)) =~= mid.push(
                        moves_view[mi as int],
                    ));
                    assert(mid.push(moves_view[mi as int]) =~= before + moves_view.subrange(
                        0,
                        mi + 1 as int,
                    ));
                }
                mi += 1;
            }
            proof {
                assert(moves_view.subrange(0, moves_view.len() as int) =~= moves_view);
            }
        }
        proof {
            if !move_user_paths {
                assert(actions@.map_values(|a: MigrationAction| action_view(a)) =~= dup_part
                    + Seq::<ActionSpec>::empty());
            }
        }
        let n = actions.len();
        let mut requires_admin = false;
        let mut i: usize = 0;
        while i < n
            invariant
                i <= n,
                n == actions@.len(),
                requires_admin == exists|k: int|
                    0 <= k < i && (#[trigger] actions@[k]).from_location == PathLocation::System,
            decreases n - i,
        {
            match actions[i].from_location {
                PathLocation::System => {
                    requires_admin = true;
                },
                PathLocation::User => {},
            }
            i += 1;
        }
        MigrationPlan { actions, requires_admin }
    }
}


// ---------------------------------------------------------------------------
// The mutation pipeline's pure half
// ---------------------------------------------------------------------------

/// Directives partitioned by the store and edit they demand.
pub struct MigrationBatches {
    pub system_removals: Vec<String>,
    pub system_additions: Vec<String>,
    pub user_removals: Vec<String>,
    pub user_additions: Vec<String>,
}

/// The same partition, as specifications see it.
pub struct BatchSpec {
    pub system_removals: Seq<Seq<char>>,
    pub system_additions: Seq<Seq<char>>,
    pub user_removals: Seq<Seq<char>>,
    pub user_additions: Seq<Seq<char>>,
}

/// How one directive contributes: a removal of its bare form, and for a
/// move or a quoting also an addition of the quoted form.
pub open spec fn partition_from(acts: Seq<ActionSpec>) -> BatchSpec
    decreases acts.len(),
{
    if acts.len() == 0 {
        BatchSpec {
            system_removals: Seq::<Seq<char>>::empty(),
            system_additions: Seq::<Seq<char>>::empty(),
            user_removals: Seq::<Seq<char>>::empty(),
            user_additions: Seq::<Seq<char>>::empty(),
        }
    } else {
        let rest = partition_from(acts.drop_first());
        let a = acts[0];
        match (a.action_type, a.from_location) {
            (ActionType::RemoveDuplicate, PathLocation::System) => BatchSpec {
                system_removals: seq![a.path] + rest.system_removals,
                ..rest
            },
            (ActionType::RemoveDuplicate, PathLocation::User) => BatchSpec {
                user_removals: seq![a.path] + rest.user_removals,
                ..rest
            },
            (ActionType::MoveToUser, PathLocation::System) => BatchSpec {
                system_removals: seq![a.path] + rest.system_removals,
                user_additions: seq![utils::spec_quote_if_needed(a.path)] + rest.user_additions,
                ..rest
            },
            (ActionType::MoveToUser, PathLocation::User) => rest,
            (ActionType::AddQuotes, PathLocation::System) => BatchSpec {
                system_removals: seq![a.path] + rest.system_removals,
                system_additions: seq![utils::spec_quote_if_needed(a.path)]
                    + rest.system_additions,
                ..rest
            },
            (ActionType::AddQuotes, PathLocation::User) => BatchSpec {
                user_removals: seq![a.path] + rest.user_removals,
                user_additions: seq![utils::spec_quote_if_needed(a.path)] + rest.user_additions,
                ..rest
            },
        }
    }
}

/// Partitions a plan's directives into the four edit lists.
pub fn partition_actions(plan: &MigrationPlan) -> (r: MigrationBatches)
    ensures
        r.system_removals.deep_view() == partition_from(
            plan.actions@.map_values(|a: MigrationAction| action_view(a)),
        ).system_removals,
        r.system_additions.deep_view() == partition_from(
            plan.actions@.map_values(|a: MigrationAction| action_view(a)),
        ).system_additions,
        r.user_removals.deep_view() == partition_from(
            plan.actions@.map_values(|a: MigrationAction| action_view(a)),
        ).user_removals,
        r.user_additions.deep_view() == partition_from(
            plan.actions@.map_values(|a: MigrationAction| action_view(a)),
        ).user_additions,
{
    let ghost acts = plan.actions@.map_values(|a: MigrationAction| action_view(a));
    let n = plan.actions.len();
    let mut system_removals: Vec<String> = Vec::new();
    let mut system_additions: Vec<String> = Vec::new();
    let mut user_removals: Vec<String> = Vec::new();
    let mut user_additions: Vec<String> = Vec::new();
    let mut i: usize = 0;
    proof {
        assert(acts.skip(0) =~= acts);
        assert(system_removals.deep_view() =~~= Seq::<Seq<char>>::empty());
        assert(system_additions.deep_view() =~~= Seq::<Seq<char>>::empty());
        assert(user_removals.deep_view() =~~= Seq::<Seq<char>>::empty());
        assert(user_additions.deep_view() =~~= Seq::<Seq<char>>::empty());
        assert(partition_from(acts).system_removals =~~= system_removals.deep_view()
            + partition_from(acts.skip(0)).system_removals);
        assert(partition_from(acts).system_additions =~~= system_additions.deep_view()
            + partition_from(acts.skip(0)).system_additions);
        assert(partition_from(acts).user_removals =~~= user_removals.deep_view()
            + partition_from(acts.skip(0)).user_removals);
        assert(partition_from(acts).user_additions =~~= user_additions.deep_view()
            + partition_from(acts.skip(0)).user_additions);
    }
    while i < n
        invariant
            i <= n,
            n == plan.actions@.len(),
            acts == plan.actions@.map_values(|a: MigrationAction| action_view(a)),
            partition_from(acts).system_removals == system_removals.deep_view()
                + partition_from(acts.skip(i as int)).system_removals,
            partition_from(acts).system_additions == system_additions.deep_view()
                + partition_from(acts.skip(i as int)).system_additions,
            partition_from(acts).user_removals == user_removals.deep_view() + partition_from(
                acts.skip(i as int),
            ).user_removals,
            partition_from(acts).user_additions == user_additions.deep_view() + partition_from(
                acts.skip(i as int),
            ).user_additions,
        decreases n - i,
    {
        let ghost tail = acts.skip(i as int);
        proof {
            assert(tail[0] == acts[i as int]);
            assert(tail.drop_first() =~= acts.skip(i + 1));
        }
        let action_type = plan.actions[i].action_type;
        let from = plan.actions[i].from_location;
        let path = plan.actions[i].path.clone();
        assert(path@ == acts[i as int].path);
        let ghost sr0 = system_removals.deep_view();
        let ghost sa0 = system_additions.deep_view();
        let ghost ur0 = user_removals.deep_view();
        let ghost ua0 = user_additions.deep_view();
        match (action_type, from) {
            (ActionType::RemoveDuplicate, PathLocation::System) => {
                system_removals.push(path);
                proof {
                    assert(system_removals.deep_view() =~~= sr0.push(acts[i as int].path));
                    lemma_head_concat(sr0, acts[i as int].path, partition_from(
                        tail.drop_first(),
                    ).system_removals);
                }
            },
            (ActionType::RemoveDuplicate, PathLocation::User) => {
                user_removals.push(path);
                proof {
                    assert(user_removals.deep_view() =~~= ur0.push(acts[i as int].path));
                    lemma_head_concat(ur0, acts[i as int].path, partition_from(
                        tail.drop_first(),
                    ).user_removals);
                }
            },
            (ActionType::MoveToUser, PathLocation::System) => {
                let quoted = utils::quote_if_needed(path.as_str());
                system_removals.push(path);
                user_additions.push(quoted);
                proof {
                    assert(system_removals.deep_view() =~~= sr0.push(acts[i as int].path));
                    lemma_head_concat(sr0, acts[i as int].path, partition_from(
                        tail.drop_first(),
                    ).system_removals);
                    assert(user_additions.deep_view() =~~= ua0.push(
                        utils::spec_quote_if_needed(acts[i as int].path),
                    ));
                    lemma_head_concat(ua0, utils::spec_quote_if_needed(acts[i as int].path),
                        partition_from(tail.drop_first()).user_additions);
                }
            },
            (ActionType::MoveToUser, PathLocation::User) => {},
            (ActionType::AddQuotes, PathLocation::System) => {
                let quoted = utils::quote_if_needed(path.as_str());
                system_removals.push(path);
                system_additions.push(quoted);
                proof {
                    assert(system_removals.deep_view() =~~= sr0.push(acts[i as int].path));
                    lemma_head_concat(sr0, acts[i as int].path, partition_from(
                        tail.drop_first(),
                    ).system_removals);
                    assert(system_additions.deep_view() =~~= sa0.push(
                        utils::spec_quote_if_needed(acts[i as int].path),
                    ));
                    lemma_head_concat(sa0, utils::spec_quote_if_needed(acts[i as int].path),
                        partition_from(tail.drop_first()).system_additions);
                }
            },
            (ActionType::AddQuotes, PathLocation::User) => {
                let quoted = utils::quote_if_needed(path.as_str());
                user_removals.push(path);
                user_additions.push(quoted);
                proof {
                    assert(user_removals.deep_view() =~~= ur0.push(acts[i as int].path));
                    lemma_head_concat(ur0, acts[i as int].path, partition_from(
                        tail.drop_first(),
                    ).user_removals);
                    assert(user_additions.deep_view() =~~= ua0.push(
                        utils::spec_quote_if_needed(acts[i as int].path),
                    ));
                    lemma_head_concat(ua0, utils::spec_quote_if_needed(acts[i as int].path),
                        partition_from(tail.drop_first()).user_additions);
                }
            },
        }
        i += 1;
    }
    proof {
        assert(acts.skip(n as int) =~= Seq::<ActionSpec>::empty());
        lemma_partition_empty();
        assert(system_removals.deep_view() + Seq::<Seq<char>>::empty()
            =~~= system_removals.deep_view());
        assert(system_additions.deep_view() + Seq::<Seq<char>>::empty()
            =~~= system_additions.deep_view());
        assert(user_removals.deep_view() + Seq::<Seq<char>>::empty()
            =~~= user_removals.deep_view());
        assert(user_additions.deep_view() + Seq::<Seq<char>>::empty()
            =~~= user_additions.deep_view());
    }
    MigrationBatches { system_removals, system_additions, user_removals, user_additions }
}

proof fn lemma_partition_empty()
    ensures
        partition_from(Seq::<ActionSpec>::empty()).system_removals == Seq::<Seq<char>>::empty(),
        partition_from(Seq::<ActionSpec>::empty()).system_additions == Seq::<Seq<char>>::empty(),
        partition_from(Seq::<ActionSpec>::empty()).user_removals == Seq::<Seq<char>>::empty(),
        partition_from(Seq::<ActionSpec>::empty()).user_additions == Seq::<Seq<char>>::empty(),
{
}

proof fn lemma_head_concat(before: Seq<Seq<char>>, x: Seq<char>, rest: Seq<Seq<char>>)
    ensures
        before.push(x) + rest == before + (seq![x] + rest),
{
    assert(before.push(x) + rest =~~= before + (seq![x] + rest));
}

// ---------------------------------------------------------------------------
// Applying edits to one store value
// ---------------------------------------------------------------------------

/// The removal keys: quote-stripped, case-folded.
pub open spec fn removal_keys(rems: Seq<Seq<char>>) -> Seq<Seq<char>> {
    rems.map_values(|r: Seq<char>| text::lower(text::strip_quotes(r)))
}

/// The entries that survive the removals, in order.
pub open spec fn retained(es: Seq<Seq<char>>, keys: Seq<Seq<char>>) -> Seq<Seq<char>>
    decreases es.len(),
{
    if es.len() == 0 {
        es
    } else if keys.contains(text::lower(text::strip_quotes(es[0]))) {
        retained(es.drop_first(), keys)
    } else {
        seq![es[0]] + retained(es.drop_first(), keys)
    }
}

/// The store value after removing the flagged entries and appending the
/// additions.
pub open spec fn spec_apply(
    current: Seq<char>,
    rems: Seq<Seq<char>>,
    adds: Seq<Seq<char>>,
) -> Seq<char> {
    text::join_semi(retained(text::entries(current), removal_keys(rems)) + adds)
}

/// Computes one store's new value: every entry matching a removal key is
/// dropped, then the additions are appended, then everything is joined.
pub fn apply_changes(current: &str, removals: &Vec<String>, additions: &Vec<String>) -> (r:
    String)
    ensures
        r@ == spec_apply(current@, removals.deep_view(), additions.deep_view()),
{
    let ghost all = text::entries(current@);
    let ghost keys = removal_keys(removals.deep_view());
    let current_chars = text::chars_of(current);
    let fields = text::split_entries(&current_chars);
    let mut keyvecs: Vec<Vec<char>> = Vec::new();
    let mut k: usize = 0;
    while k < removals.len()
        invariant
            k <= removals@.len(),
            keyvecs.deep_view() == removal_keys(removals.deep_view()).subrange(0, k as int),
        decreases removals@.len() - k,
    {
        let chars = text::chars_of(removals[k].as_str());
        let stripped = text::strip_quote_chars(&chars);
        let norm = text::to_lower(&stripped);
        let ghost before = keyvecs.deep_view();
        keyvecs.push(norm);
        proof {
            assert(keyvecs.deep_view() =~~= before.push(
                text::lower(text::strip_quotes(removals.deep_view()[k as int])),
            ));
            assert(before.push(text::lower(text::strip_quotes(removals.deep_view()[k as int])))
                =~~= removal_keys(removals.deep_view()).subrange(0, k + 1 as int));
        }
        k += 1;
    }
    proof {
        assert(removal_keys(removals.deep_view()).subrange(
            0,
            removal_keys(removals.deep_view()).len() as int,
        ) =~~= removal_keys(removals.deep_view()));
    }
    let n = fields.len();
    let mut kept: Vec<Vec<char>> = Vec::new();
    let mut i: usize = 0;
    proof {
        assert(all.skip(0) =~~= all);
        assert(kept.deep_view() + retained(all.skip(0), keys) =~~= retained(all, keys));
    }
    while i < n
        invariant
            i <= n,
            n == fields@.len(),
            fields.deep_view() == all,
            keyvecs.deep_view() == keys,
            retained(all, keys) == kept.deep_view() + retained(all.skip(i as int), keys),
        decreases n - i,
    {
        let ghost tail = all.skip(i as int);
        proof {
            assert(tail[0] == all[i as int]);
            assert(tail.drop_first() =~~= all.skip(i + 1));
        }
        let entry = &fields[i];
        assert(entry@ == all[i as int]);
        let stripped = text::strip_quote_chars(entry);
        let norm = text::to_lower(&stripped);
        assert(norm@ == text::lower(text::strip_quotes(all[i as int])));
        if !key_member(&keyvecs, &norm) {
            let ghost before = kept.deep_view();
            let mut cp: Vec<char> = Vec::new();
            let mut c: usize = 0;
            while c < entry.len()
                invariant
                    c <= entry@.len(),
                    cp@ == entry@.subrange(0, c as int),
                decreases entry@.len() - c,
            {
                cp.push(entry[c]);
                assert(cp@ =~= entry@.subrange(0, c + 1 as int));
                c += 1;
            }
            proof {
                assert(entry@.subrange(0, entry@.len() as int) =~= entry@);
            }
            kept.push(cp);
            proof {
                assert(kept.deep_view() =~~= before.push(all[i as int]));
                assert(before.push(all[i as int]) =~~= before + seq![all[i as int]]);
                assert((before + seq![all[i as int]]) + retained(tail.drop_first(), keys)
                    =~~= before + (seq![all[i as int]] + retained(tail.drop_first(), keys)));
            }
        }
        i += 1;
    }
    proof {
        assert(all.skip(n as int) =~~= Seq::<Seq<char>>::empty());
        assert(retained(Seq::<Seq<char>>::empty(), keys) =~~= Seq::<Seq<char>>::empty());
        assert(kept.deep_view() + Seq::<Seq<char>>::empty() =~~= kept.deep_view());
    }
    let ghost kept_done = kept.deep_view();
    let mut a: usize = 0;
    while a < additions.len()
        invariant
            a <= additions@.len(),
            kept.deep_view() == kept_done + additions.deep_view().subrange(0, a as int),
        decreases additions@.len() - a,
    {
        let chars = text::chars_of(additions[a].as_str());
        let ghost before = kept.deep_view();
        kept.push(chars);
        proof {
            assert(kept.deep_view() =~~= before.push(additions.deep_view()[a as int]));
            assert(before.push(additions.deep_view()[a as int]) =~~= kept_done
                + additions.deep_view().subrange(0, a + 1 as int));
        }
        a += 1;
    }
    proof {
        assert(additions.deep_view().subrange(0, additions.deep_view().len() as int)
            =~~= additions.deep_view());
        assert(kept.deep_view() =~~= retained(all, keys) + additions.deep_view());
    }
    let joined = text::join_fields(&kept);
    text::string_from_chars(&joined)
}

fn key_member(keys: &Vec<Vec<char>>, key: &Vec<char>) -> (r: bool)
    ensures
        r == keys.deep_view().contains(key@),
{
    let n = keys.len();
    let mut i: usize = 0;
    while i < n
        invariant
            i <= n,
            n == keys@.len(),
            forall|k: int| 0 <= k < i ==> keys.deep_view()[k] != key@,
        decreases n - i,
    {
        assert(keys.deep_view()[i as int] == keys@[i as int]@);
        if crate::context::eq_chars(&keys[i], key) {
            return true;
        }
        i += 1;
    }
    assert(forall|k: int| 0 <= k < keys.deep_view().len() ==> keys.deep_view()[k] != key@);
    false
}

/// The outcome of one pipeline run: which halves were written, and the
/// captured system-side error when only the user half succeeded.
#[derive(Debug, Clone)]
pub struct MigrationResult {
    pub backup_path: String,
    pub user_updated: bool,
    pub system_updated: bool,
    pub system_error: Option<String>,
}

impl MigrationResult {
    /// The short-circuit result of a dry run: nothing locked, backed up
    /// or written.
    pub fn dry_run() -> (r: MigrationResult)
        ensures
            r.backup_path@ == Seq::<char>::empty(),
            !r.user_updated,
            !r.system_updated,
            r.system_error is None,
    {
        MigrationResult {
            backup_path: String::new(),
            user_updated: false,
            system_updated: false,
            system_error: None,
        }
    }
}

} // verus!
