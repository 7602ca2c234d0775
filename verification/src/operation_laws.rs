//! Laws of the operations: what every sequence of them keeps, what each leaves
//! alone, and what undoes what.

use vstd::prelude::*;

use crate::action_model::ActionView;
use crate::error::{ErrorKind, ErrorView};
use crate::snapshot::{is_ancestor, lemma_chain_continues, nth_ancestor, SnapshotReference};
use crate::table::{TableView, MAIN_BRANCH};

verus! {

/// A call of one of the operations.
pub enum Operation {
    Create { name: Seq<char>, reference: SnapshotReference },
    Remove { name: Seq<char> },
    Rename { source: Seq<char>, destination: Seq<char> },
    FastForward { name: Seq<char>, snapshot_id: i64 },
    SetBranch { name: Seq<char>, snapshot_id: i64 },
}

impl Operation {
    /// The call speaks of `n`.
    pub open spec fn names(self, n: Seq<char>) -> bool {
        match self {
            Operation::Create { name, .. } => n == name,
            Operation::Remove { name } => n == name,
            Operation::Rename { source, destination } => n == source || n == destination,
            Operation::FastForward { name, .. } => n == name,
            Operation::SetBranch { name, .. } => n == name,
        }
    }

    /// Why the call is refused, if it is.
    pub open spec fn fault(self, action: ActionView) -> Option<ErrorView> {
        match self {
            Operation::Create { name, reference } => action.create_fault(name, reference),
            Operation::Remove { name } => action.remove_fault(name),
            Operation::Rename { source, destination } => action.rename_fault(source, destination),
            Operation::FastForward { name, snapshot_id } => action.fast_forward_fault(
                name,
                snapshot_id,
            ),
            Operation::SetBranch { name, snapshot_id } => action.set_branch_fault(name, snapshot_id),
        }
    }

    /// The action that the call gives back where it is not refused.
    pub open spec fn step(self, action: ActionView) -> ActionView {
        match self {
            Operation::Create { name, reference } => action.created(name, reference),
            Operation::Remove { name } => action.removed(name),
            Operation::Rename { source, destination } => action.renamed(source, destination),
            Operation::FastForward { name, snapshot_id } => action.branch_set(name, snapshot_id),
            Operation::SetBranch { name, snapshot_id } => action.branch_set(name, snapshot_id),
        }
    }
}

/// What a chain of calls gives back: the first refusal, or the action after all of
/// them.
pub open spec fn run(action: ActionView, calls: Seq<Operation>) -> Result<ActionView, ErrorView>
    decreases calls.len(),
{
    if calls.len() == 0 {
        Ok(action)
    } else {
        match run(action, calls.drop_last()) {
            Ok(before) => match calls.last().fault(before) {
                None => Ok(calls.last().step(before)),
                Some(error) => Err(error),
            },
            Err(error) => Err(error),
        }
    }
}

/// Both actions have the same references, name by name.
pub open spec fn same_references(a: ActionView, b: ActionView) -> bool {
    forall|n: Seq<char>| #[trigger] a.reference(n) == b.reference(n)
}

/// Calls compose in order: a chain of calls does what its first part and then, on
/// what that gave, its second part do.
pub proof fn law_calls_compose(action: ActionView, first: Seq<Operation>, second: Seq<Operation>)
    ensures
        run(action, first + second) == (match run(action, first) {
            Ok(between) => run(between, second),
            Err(error) => Err(error),
        }),
    decreases second.len(),
{
    if second.len() == 0 {
        assert(first + second =~= first);
    } else {
        law_calls_compose(action, first, second.drop_last());
        assert((first + second).drop_last() =~= first + second.drop_last());
        assert((first + second).last() == second.last());
    }
}

/// A call that is not refused leaves every reference alone that it does not name,
/// touches all that it names, and forgets none that was touched before.
pub proof fn law_calls_touch_only_what_they_name(action: ActionView, call: Operation)
    requires
        call.fault(action) is None,
    ensures
        call.step(action).original == action.original,
        forall|n: Seq<char>|
            !call.names(n) ==> #[trigger] call.step(action).reference(n) == action.reference(n),
        forall|n: Seq<char>| #[trigger]
            call.step(action).desired.contains_key(n) <==> action.desired.contains_key(n)
                || call.names(n),
        action.desired.dom().finite() ==> call.step(action).desired.dom().finite(),
{
}

/// A refused call is refused for good, as a mistake of the caller.
pub proof fn law_refusals_are_final(action: ActionView, call: Operation)
    ensures
        call.fault(action) matches Some(error) ==> error.kind == ErrorKind::DataInvalid
            && !error.retryable,
{
}

/// Whatever calls are made, the action stays with its table and touches finitely
/// many names.
pub proof fn law_actions_stay_with_their_table(table: TableView, calls: Seq<Operation>)
    ensures
        run(ActionView::start(table), calls) matches Ok(action) ==> action.original == table
            && action.desired.dom().finite(),
    decreases calls.len(),
{
    if calls.len() > 0 {
        law_actions_stay_with_their_table(table, calls.drop_last());
        if let Ok(before) = run(ActionView::start(table), calls.drop_last()) {
            if calls.last().fault(before) is None {
                law_calls_touch_only_what_they_name(before, calls.last());
            }
        }
    }
}

/// Whatever calls are made, `main` is never to be removed and never to become a tag.
pub proof fn law_main_stays_a_branch(table: TableView, calls: Seq<Operation>)
    ensures
        run(ActionView::start(table), calls) matches Ok(action) ==> action.desired.contains_key(
            MAIN_BRANCH@,
        ) ==> action.desired[MAIN_BRANCH@] is Some && action.desired[MAIN_BRANCH@]->0.is_branch(),
    decreases calls.len(),
{
    if calls.len() > 0 {
        law_main_stays_a_branch(table, calls.drop_last());
    }
}

/// Whatever calls are made on a table all of whose references name snapshots that
/// it has, every reference names such a snapshot.
pub proof fn law_references_keep_naming_known_snapshots(table: TableView, calls: Seq<Operation>)
    requires
        table.metadata.references_resolve(),
    ensures
        run(ActionView::start(table), calls) matches Ok(action) ==> forall|n: Seq<char>|
            (#[trigger] action.reference(n)) matches Some(reference) ==> action.knows(
                reference.snapshot_id,
            ),
    decreases calls.len(),
{
    law_actions_stay_with_their_table(table, calls);
    let start = ActionView::start(table);
    if calls.len() == 0 {
        assert forall|n: Seq<char>| (#[trigger] start.reference(n)) is Some implies start.knows(
            start.reference(n)->0.snapshot_id,
        ) by {
            assert(table.metadata.refs.contains_key(n));
        }
    } else {
        law_references_keep_naming_known_snapshots(table, calls.drop_last());
        law_actions_stay_with_their_table(table, calls.drop_last());
        if let Ok(action) = run(start, calls) {
            let before = run(start, calls.drop_last())->Ok_0;
            let call = calls.last();
            law_calls_touch_only_what_they_name(before, call);
            assert forall|n: Seq<char>|
                (#[trigger] action.reference(n)) is Some implies action.knows(
                action.reference(n)->0.snapshot_id,
            ) by {
                if !call.names(n) {
                    assert(action.reference(n) == before.reference(n));
                } else if let Operation::Rename { source, .. } = call {
                    assert(before.reference(source) is Some);
                }
            }
        }
    }
}

/// Whatever calls are made on a table whose references have positive retention
/// limits, all references have positive retention limits.
pub proof fn law_retention_stays_positive(table: TableView, calls: Seq<Operation>)
    requires
        forall|n: Seq<char>|
            (#[trigger] table.metadata.reference(n)) matches Some(reference)
                ==> reference.retention.positive(),
    ensures
        run(ActionView::start(table), calls) matches Ok(action) ==> forall|n: Seq<char>|
            (#[trigger] action.reference(n)) matches Some(reference)
                ==> reference.retention.positive(),
    decreases calls.len(),
{
    let start = ActionView::start(table);
    if calls.len() == 0 {
        assert forall|n: Seq<char>| (#[trigger] start.reference(n)) is Some implies start.reference(
            n,
        )->0.retention.positive() by {
            assert(table.metadata.reference(n) is Some);
        }
    } else {
        law_retention_stays_positive(table, calls.drop_last());
        if let Ok(action) = run(start, calls) {
            let before = run(start, calls.drop_last())->Ok_0;
            let call = calls.last();
            law_calls_touch_only_what_they_name(before, call);
            assert forall|n: Seq<char>|
                (#[trigger] action.reference(n)) is Some implies action.reference(
                n,
            )->0.retention.positive() by {
                if !call.names(n) {
                    assert(action.reference(n) == before.reference(n));
                } else {
                    match call {
                        Operation::Rename { source, .. } => {
                            assert(before.reference(source) is Some);
                        },
                        _ => {
                            assert(before.reference(n) is Some ==> before.reference(
                                n,
                            )->0.retention.positive());
                        },
                    }
                }
            }
        }
    }
}

/// Creating never overwrites: where it is not refused, the name was free, and has
/// the new reference afterwards.
pub proof fn law_creating_never_overwrites(
    action: ActionView,
    name: Seq<char>,
    reference: SnapshotReference,
)
    requires
        action.create_fault(name, reference) is None,
    ensures
        action.reference(name) is None,
        action.created(name, reference).reference(name) == Some(reference),
{
}

/// Renaming passes the reference on, retention and all: the new name has it, the old
/// name has none.
pub proof fn law_renaming_passes_the_reference_on(
    action: ActionView,
    source: Seq<char>,
    destination: Seq<char>,
)
    requires
        action.rename_fault(source, destination) is None,
    ensures
        source != destination,
        action.reference(source) is Some,
        action.reference(destination) is None,
        action.renamed(source, destination).reference(destination) == action.reference(source),
        action.renamed(source, destination).reference(source) is None,
{
}

/// Renaming back undoes a renaming.
pub proof fn law_renaming_back_undoes(
    action: ActionView,
    source: Seq<char>,
    destination: Seq<char>,
)
    requires
        action.rename_fault(source, destination) is None,
        source.len() > 0,
    ensures
        action.renamed(source, destination).rename_fault(destination, source) is None,
        same_references(
            action.renamed(source, destination).renamed(destination, source),
            action,
        ),
{
}

/// Removing undoes a creation, of any reference but `main`.
pub proof fn law_removing_undoes_creating(
    action: ActionView,
    name: Seq<char>,
    reference: SnapshotReference,
)
    requires
        action.create_fault(name, reference) is None,
        name != MAIN_BRANCH@,
    ensures
        action.created(name, reference).remove_fault(name) is None,
        same_references(action.created(name, reference).removed(name), action),
{
}

/// Creating what was removed undoes the removal, where the reference could have been
/// created in the first place.
pub proof fn law_creating_undoes_removing(action: ActionView, name: Seq<char>)
    requires
        action.remove_fault(name) is None,
        name.len() > 0,
        action.reference(name)->0.retention.positive(),
        action.knows(action.reference(name)->0.snapshot_id),
    ensures
        action.removed(name).create_fault(name, action.reference(name)->0) is None,
        same_references(
            action.removed(name).created(name, action.reference(name)->0),
            action,
        ),
{
}

/// Setting a branch keeps it a branch with the same retention, and setting it back
/// to a snapshot that the table still has undoes it.
pub proof fn law_setting_a_branch_back_undoes(
    action: ActionView,
    name: Seq<char>,
    snapshot_id: i64,
)
    requires
        action.set_branch_fault(name, snapshot_id) is None,
    ensures
        action.branch_set(name, snapshot_id).reference(name) == Some(
            SnapshotReference {
                snapshot_id,
                retention: action.reference(name)->0.retention,
            },
        ),
        action.branch_set(name, snapshot_id).reference(name)->0.is_branch(),
        action.knows(action.reference(name)->0.snapshot_id) ==> {
            let head = action.reference(name)->0.snapshot_id;
            &&& action.branch_set(name, snapshot_id).set_branch_fault(name, head) is None
            &&& same_references(
                action.branch_set(name, snapshot_id).branch_set(name, head),
                action,
            )
        },
{
}

/// A fast-forward moves a branch, and no tag, to a descendant of its snapshot, and
/// is then the same as setting it there.
pub proof fn law_fast_forward_goes_to_descendants(
    action: ActionView,
    name: Seq<char>,
    snapshot_id: i64,
)
    ensures
        action.fast_forward_fault(name, snapshot_id) is None <==> {
            &&& action.reference(name) matches Some(reference)
            &&& reference.is_branch()
            &&& is_ancestor(
                action.original.metadata.snapshots,
                reference.snapshot_id,
                snapshot_id,
            )
        },
        action.fast_forward_fault(name, snapshot_id) is None ==> action.set_branch_fault(
            name,
            snapshot_id,
        ) is None,
{
    lemma_descendant_is_known(action, name, snapshot_id);
}

proof fn lemma_descendant_is_known(action: ActionView, name: Seq<char>, snapshot_id: i64)
    ensures
        action.reference(name) matches Some(reference) ==> is_ancestor(
            action.original.metadata.snapshots,
            reference.snapshot_id,
            snapshot_id,
        ) ==> action.knows(snapshot_id),
{
    let parents = action.original.metadata.snapshots;
    if let Some(reference) = action.reference(name) {
        if is_ancestor(parents, reference.snapshot_id, snapshot_id) {
            let n = choose|n: nat|
                nth_ancestor(parents, snapshot_id, n) == Some(reference.snapshot_id);
            lemma_chain_continues(parents, snapshot_id, 0, n);
        }
    }
}

/// A branch can be advanced to its current snapshot, which changes nothing.
pub proof fn law_fast_forward_to_the_head_changes_nothing(
    action: ActionView,
    name: Seq<char>,
    reference: SnapshotReference,
)
    requires
        action.reference(name) == Some(reference),
        reference.is_branch(),
        action.knows(reference.snapshot_id),
    ensures
        action.fast_forward_fault(name, reference.snapshot_id) is None,
        same_references(action.branch_set(name, reference.snapshot_id), action),
{
    assert(nth_ancestor(
        action.original.metadata.snapshots,
        reference.snapshot_id,
        0,
    ) == Some(reference.snapshot_id));
}

/// Advancing a branch in two moves does what advancing it in one does.
pub proof fn law_fast_forwards_compose(
    action: ActionView,
    name: Seq<char>,
    first: i64,
    second: i64,
)
    requires
        action.fast_forward_fault(name, first) is None,
        action.branch_set(name, first).fast_forward_fault(name, second) is None,
    ensures
        action.fast_forward_fault(name, second) is None,
        action.branch_set(name, first).branch_set(name, second) == action.branch_set(name, second),
{
    let parents = action.original.metadata.snapshots;
    let head = action.reference(name)->0.snapshot_id;
    let m = choose|m: nat| nth_ancestor(parents, second, m) == Some(first);
    let n = choose|n: nat| nth_ancestor(parents, first, n) == Some(head);
    lemma_chain_continues(parents, second, m, n);
    assert(nth_ancestor(parents, second, m + n) == Some(head));
    assert(action.branch_set(name, first).branch_set(name, second).desired
        =~= action.branch_set(name, second).desired);
}

/// No snapshot descends from itself.
pub open spec fn acyclic(parents: Map<i64, Option<i64>>) -> bool {
    forall|id: i64, n: nat| n > 0 ==> #[trigger] nth_ancestor(parents, id, n) != Some(id)
}

/// Once a branch has been advanced to another snapshot, it cannot be advanced back.
pub proof fn law_fast_forward_does_not_go_back(
    action: ActionView,
    name: Seq<char>,
    snapshot_id: i64,
)
    requires
        acyclic(action.original.metadata.snapshots),
        action.fast_forward_fault(name, snapshot_id) is None,
        action.reference(name)->0.snapshot_id != snapshot_id,
    ensures
        action.branch_set(name, snapshot_id).fast_forward_fault(
            name,
            action.reference(name)->0.snapshot_id,
        ) is Some,
{
    let parents = action.original.metadata.snapshots;
    let head = action.reference(name)->0.snapshot_id;
    let n = choose|n: nat| nth_ancestor(parents, snapshot_id, n) == Some(head);
    if is_ancestor(parents, snapshot_id, head) {
        let m = choose|m: nat| nth_ancestor(parents, head, m) == Some(snapshot_id);
        lemma_chain_continues(parents, snapshot_id, n, m);
        assert(n + m > 0);
    }
}

} // verus!
