//! Laws of single calls: when each is accepted, what it then changes, and what it is
//! answered where it is not.

use vstd::prelude::*;

use crate::action_model::ActionView;
use crate::error::{ErrorKind, ErrorView};
use crate::foundation_laws::law_ancestors_are_at_the_end_of_a_path;
use crate::operation_laws::law_fast_forward_goes_to_descendants;
use crate::snapshot::{is_ancestor, nth_ancestor, SnapshotReference, SnapshotRetention};
use crate::table::TableView;
use crate::text::decimal;

verus! {

/// A new action shows every name as its table has it, and touches none.
pub proof fn law_a_new_action_changes_nothing(table: TableView, name: Seq<char>)
    ensures
        ActionView::start(table).original == table,
        !ActionView::start(table).desired.contains_key(name),
        table.metadata.refs.contains_key(name) ==> ActionView::start(table).reference(name) == Some(
            table.metadata.refs[name],
        ),
        !table.metadata.refs.contains_key(name) ==> ActionView::start(table).reference(name)
            is None,
{
}

/// What a name has is what the last call that touched it left it, a removal included;
/// where no call touched it, it is what the table has.
pub proof fn law_the_latest_call_counts(action: ActionView, name: Seq<char>)
    ensures
        action.desired.contains_key(name) ==> action.reference(name) == action.desired[name],
        !action.desired.contains_key(name) && action.original.metadata.refs.contains_key(name)
            ==> action.reference(name) == Some(action.original.metadata.refs[name]),
        !action.desired.contains_key(name) && !action.original.metadata.refs.contains_key(name)
            ==> action.reference(name) is None,
{
}

/// A reference can be created under any name that is not empty and has none, with any
/// snapshot of the table and any retention without a zero or negative limit; only
/// `main` must be a branch. Nothing else stands in the way, and it can be created
/// only so.
pub proof fn law_when_creating_is_accepted(
    action: ActionView,
    name: Seq<char>,
    reference: SnapshotReference,
)
    ensures
        action.create_fault(name, reference) is None <==> {
            &&& name.len() > 0
            &&& action.reference(name) is None
            &&& reference.retention is Tag ==> name != "main"@
            &&& match reference.retention {
                SnapshotRetention::Branch {
                    min_snapshots_to_keep,
                    max_snapshot_age_ms,
                    max_ref_age_ms,
                } => {
                    &&& min_snapshots_to_keep is None || min_snapshots_to_keep->0 > 0
                    &&& max_snapshot_age_ms is None || max_snapshot_age_ms->0 > 0
                    &&& max_ref_age_ms is None || max_ref_age_ms->0 > 0
                },
                SnapshotRetention::Tag { max_ref_age_ms } => max_ref_age_ms is None
                    || max_ref_age_ms->0 > 0,
            }
            &&& action.original.metadata.snapshots.contains_key(reference.snapshot_id)
        },
{
}

/// What a refused creation is answered: first that the name is empty or taken, then
/// that `main` must be a branch, then that a limit is not positive, and last that the
/// snapshot is unknown.
pub proof fn law_what_a_refused_creation_is_answered(
    action: ActionView,
    name: Seq<char>,
    reference: SnapshotReference,
)
    ensures
        name.len() == 0 || action.reference(name) is Some ==> action.create_fault(name, reference)
            == Some(
            ErrorView {
                kind: ErrorKind::DataInvalid,
                message: "Reference name is empty or already exists: "@ + name,
                retryable: false,
            },
        ),
        action.reference("main"@) is None && reference.retention is Tag ==> action.create_fault("main"@, reference) == Some(
            ErrorView {
                kind: ErrorKind::DataInvalid,
                message: "main must be a branch"@,
                retryable: false,
            },
        ),
        name.len() > 0 && action.reference(name) is None && (reference.retention is Tag ==> name
            != "main"@) && !reference.retention.positive() ==> action.create_fault(name, reference)
            == Some(
            ErrorView {
                kind: ErrorKind::DataInvalid,
                message: "Reference retention values must be positive"@,
                retryable: false,
            },
        ),
        name.len() > 0 && action.reference(name) is None && (reference.retention is Tag ==> name
            != "main"@) && reference.retention.positive()
            && !action.original.metadata.snapshots.contains_key(reference.snapshot_id)
            ==> action.create_fault(name, reference) == Some(
            ErrorView {
                kind: ErrorKind::DataInvalid,
                message: "Unknown snapshot: "@ + decimal(reference.snapshot_id as int),
                retryable: false,
            },
        ),
{
    reveal_strlit("main");
    assert("main"@.len() == 4);
}

/// A creation gives the name the reference as it was handed over, and records nothing
/// else.
pub proof fn law_what_creating_changes(
    action: ActionView,
    name: Seq<char>,
    reference: SnapshotReference,
)
    ensures
        action.created(name, reference).original == action.original,
        action.created(name, reference).desired == action.desired.insert(name, Some(reference)),
{
}

/// Everything but `main` can be removed, as long as it is there, whether the table
/// had it or a call made it, and whatever it is.
pub proof fn law_when_removing_is_accepted(action: ActionView, name: Seq<char>)
    ensures
        action.remove_fault(name) is None <==> name != "main"@ && action.reference(name) is Some,
        name == "main"@ || action.reference(name) is None ==> action.remove_fault(name) == Some(
            ErrorView {
                kind: ErrorKind::DataInvalid,
                message: "Cannot remove main or a missing reference: "@ + name,
                retryable: false,
            },
        ),
{
}

/// A removal leaves the name without a reference, and records nothing else.
pub proof fn law_what_removing_changes(action: ActionView, name: Seq<char>)
    ensures
        action.removed(name).original == action.original,
        action.removed(name).desired == action.desired.insert(name, None),
        action.removed(name).reference(name) is None,
{
}

/// Any reference but `main` can be renamed to any name but `main` that is not empty
/// and has no reference at that point, whether it never had one or a call before took
/// it away.
pub proof fn law_when_renaming_is_accepted(
    action: ActionView,
    source: Seq<char>,
    destination: Seq<char>,
)
    ensures
        action.rename_fault(source, destination) is None <==> {
            &&& source != "main"@
            &&& destination != "main"@
            &&& destination.len() > 0
            &&& action.reference(destination) is None
            &&& action.reference(source) is Some
        },
        source == "main"@ || destination == "main"@ || destination.len() == 0 || action.reference(
            destination,
        ) is Some ==> action.rename_fault(source, destination) == Some(
            ErrorView {
                kind: ErrorKind::DataInvalid,
                message: "Cannot rename main, or rename to an empty or existing reference"@,
                retryable: false,
            },
        ),
        source != "main"@ && destination != "main"@ && destination.len() > 0 && action.reference(
            destination,
        ) is None && action.reference(source) is None ==> action.rename_fault(source, destination)
            == Some(
            ErrorView {
                kind: ErrorKind::DataInvalid,
                message: "Reference does not exist: "@ + source,
                retryable: false,
            },
        ),
{
}

/// A renaming that is accepted moves what the source had to the destination, leaves
/// the source without a reference, and records nothing else.
pub proof fn law_what_renaming_changes(
    action: ActionView,
    source: Seq<char>,
    destination: Seq<char>,
)
    requires
        action.reference(source) is Some,
        action.reference(destination) is None,
    ensures
        action.renamed(source, destination).original == action.original,
        action.renamed(source, destination).desired == action.desired.insert(
            destination,
            action.reference(source),
        ).insert(source, None),
{
    assert(source != destination);
    assert(action.renamed(source, destination).desired =~= action.desired.insert(
        destination,
        action.reference(source),
    ).insert(source, None));
}

/// A name that has just been removed is free for another reference to be renamed to.
pub proof fn law_a_removed_name_can_be_renamed_to(
    action: ActionView,
    name: Seq<char>,
    source: Seq<char>,
)
    requires
        action.remove_fault(name) is None,
        action.reference(source) is Some,
        source != "main"@,
        source != name,
        name.len() > 0,
    ensures
        action.removed(name).rename_fault(source, name) is None,
        action.removed(name).renamed(source, name).reference(name) == action.reference(source),
        action.removed(name).renamed(source, name).reference(source) is None,
{
}

/// What has just been created can be removed, and renamed to any free name; only
/// `main` cannot.
pub proof fn law_what_was_created_can_be_removed_or_renamed(
    action: ActionView,
    name: Seq<char>,
    reference: SnapshotReference,
    free: Seq<char>,
)
    requires
        action.create_fault(name, reference) is None,
        name != "main"@,
        free != "main"@,
        free != name,
        free.len() > 0,
        action.reference(free) is None,
    ensures
        action.created(name, reference).remove_fault(name) is None,
        action.created(name, reference).rename_fault(name, free) is None,
        action.created(name, reference).renamed(name, free).reference(free) == Some(reference),
{
}

/// A branch can be set to any snapshot that the table has, forward, back or to
/// another lineage, whether the table had the branch or a call made it. A tag, or a
/// name without a reference, cannot.
pub proof fn law_when_setting_a_branch_is_accepted(
    action: ActionView,
    name: Seq<char>,
    snapshot_id: i64,
)
    ensures
        action.set_branch_fault(name, snapshot_id) is None <==> {
            &&& action.reference(name) is Some
            &&& action.reference(name)->0.retention is Branch
            &&& action.original.metadata.snapshots.contains_key(snapshot_id)
        },
        action.reference(name) is None ==> action.set_branch_fault(name, snapshot_id) == Some(
            ErrorView {
                kind: ErrorKind::DataInvalid,
                message: "Reference does not exist: "@ + name,
                retryable: false,
            },
        ),
        action.reference(name) is Some && action.reference(name)->0.retention is Tag
            ==> action.set_branch_fault(name, snapshot_id) == Some(
            ErrorView {
                kind: ErrorKind::DataInvalid,
                message: "Reference is not a branch: "@ + name,
                retryable: false,
            },
        ),
        action.reference(name) is Some && action.reference(name)->0.retention is Branch
            && !action.original.metadata.snapshots.contains_key(snapshot_id)
            ==> action.set_branch_fault(name, snapshot_id) == Some(
            ErrorView {
                kind: ErrorKind::DataInvalid,
                message: "Unknown snapshot: "@ + decimal(snapshot_id as int),
                retryable: false,
            },
        ),
{
}

/// Setting a branch changes the snapshot that it names and keeps its retention, limit
/// by limit; nothing else is recorded.
pub proof fn law_what_setting_a_branch_changes(
    action: ActionView,
    name: Seq<char>,
    snapshot_id: i64,
    before: SnapshotReference,
)
    requires
        action.reference(name) == Some(before),
    ensures
        action.branch_set(name, snapshot_id).original == action.original,
        action.branch_set(name, snapshot_id).desired == action.desired.insert(
            name,
            Some(SnapshotReference { snapshot_id, retention: before.retention }),
        ),
{
}

/// From any snapshot of the table a branch can be set to any other, and it does not
/// matter where it was set before.
pub proof fn law_the_last_setting_of_a_branch_counts(
    action: ActionView,
    name: Seq<char>,
    first: i64,
    second: i64,
)
    requires
        action.set_branch_fault(name, first) is None,
        action.original.metadata.snapshots.contains_key(second),
    ensures
        action.branch_set(name, first).set_branch_fault(name, second) is None,
        action.set_branch_fault(name, second) is None,
        action.branch_set(name, first).branch_set(name, second) == action.branch_set(name, second),
{
    assert(action.branch_set(name, first).branch_set(name, second).desired
        =~= action.branch_set(name, second).desired);
}

/// A branch can be advanced exactly to the snapshots from which a path of parent
/// links, through snapshots that the table has, leads to the branch's own.
pub proof fn law_when_advancing_is_accepted(
    action: ActionView,
    name: Seq<char>,
    snapshot_id: i64,
)
    ensures
        action.fast_forward_fault(name, snapshot_id) is None <==> {
            let parents = action.original.metadata.snapshots;
            &&& action.reference(name) is Some
            &&& action.reference(name)->0.retention is Branch
            &&& exists|path: Seq<i64>|
                path.len() > 0 && path[0] == snapshot_id && #[trigger] path.last()
                    == action.reference(name)->0.snapshot_id && (forall|i: int|
                    0 <= i < path.len() ==> parents.contains_key(#[trigger] path[i])) && (forall|
                    i: int,
                |
                    1 <= i < path.len() ==> parents[path[i - 1]] == Some(#[trigger] path[i]))
        },
{
    law_fast_forward_goes_to_descendants(action, name, snapshot_id);
    if let Some(reference) = action.reference(name) {
        law_ancestors_are_at_the_end_of_a_path(
            action.original.metadata.snapshots,
            reference.snapshot_id,
            snapshot_id,
        );
    }
}

/// What a refused advance is answered: that there is no such reference, that the
/// snapshot does not descend from it, or that it is no branch.
pub proof fn law_what_a_refused_advance_is_answered(
    action: ActionView,
    name: Seq<char>,
    snapshot_id: i64,
)
    ensures
        action.reference(name) is None ==> action.fast_forward_fault(name, snapshot_id) == Some(
            ErrorView {
                kind: ErrorKind::DataInvalid,
                message: "Reference does not exist: "@ + name,
                retryable: false,
            },
        ),
        action.reference(name) is Some && !is_ancestor(
            action.original.metadata.snapshots,
            action.reference(name)->0.snapshot_id,
            snapshot_id,
        ) ==> action.fast_forward_fault(name, snapshot_id) == Some(
            ErrorView {
                kind: ErrorKind::DataInvalid,
                message: "Snapshot "@ + decimal(snapshot_id as int)
                    + " is not a descendant of branch "@ + name,
                retryable: false,
            },
        ),
        action.reference(name) is Some && is_ancestor(
            action.original.metadata.snapshots,
            action.reference(name)->0.snapshot_id,
            snapshot_id,
        ) && action.reference(name)->0.retention is Tag ==> action.fast_forward_fault(
            name,
            snapshot_id,
        ) == Some(
            ErrorView {
                kind: ErrorKind::DataInvalid,
                message: "Reference is not a branch: "@ + name,
                retryable: false,
            },
        ),
{
}

/// A branch can be advanced from a snapshot to each of its children.
pub proof fn law_a_branch_can_be_advanced_to_a_child(
    action: ActionView,
    name: Seq<char>,
    child: i64,
)
    requires
        action.reference(name) is Some,
        action.reference(name)->0.retention is Branch,
        action.original.metadata.snapshots.contains_key(action.reference(name)->0.snapshot_id),
        action.original.metadata.snapshots.contains_pair(
            child,
            Some(action.reference(name)->0.snapshot_id),
        ),
    ensures
        action.fast_forward_fault(name, child) is None,
{
    let parents = action.original.metadata.snapshots;
    assert(nth_ancestor(parents, child, 0) == Some(child));
    assert(nth_ancestor(parents, child, 1) == Some(action.reference(name)->0.snapshot_id));
}

} // verus!
