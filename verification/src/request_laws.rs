//! Laws of what a commit holds and what it is answered, said of the references and
//! snapshots themselves.

use vstd::prelude::*;

use crate::action_model::ActionView;
use crate::catalog::{TableRequirementView, TableUpdateView};
use crate::commit_laws::{
    law_one_requirement_for_each_touched_name, law_one_update_for_each_changed_name,
    law_when_a_commit_is_accepted, lemma_entry, lemma_entry_for, lemma_filtered,
};
use crate::error::{ErrorKind, ErrorView};
use crate::foundation_laws::law_a_listing_has_every_entry_once;
use crate::name_map::lemma_finite_map_has_listing;
use crate::table::{FormatVersion, TableView};
use crate::text::{decimal, name_before};

verus! {

/// The requirements are: the UUID of the original table; and for each touched name,
/// and for no other, the snapshot that its reference names in the original table,
/// branch or tag and whatever its retention, or that it has none there.
pub proof fn law_what_a_commit_requires(action: ActionView)
    requires
        action.desired.dom().finite(),
    ensures
        ({
            let refs = action.original.metadata.refs;
            let requirements = action.commit().requirements;
            &&& requirements.len() == action.desired.dom().len() + 1
            &&& requirements[0] == TableRequirementView::UuidMatch {
                uuid: action.original.metadata.table_uuid,
            }
            &&& forall|n: Seq<char>| #[trigger]
                action.desired.contains_key(n) && refs.contains_key(n) ==> exists|i: int|
                    1 <= i < requirements.len() && #[trigger] requirements[i]
                        == (TableRequirementView::RefSnapshotIdMatch {
                        ref_name: n,
                        snapshot_id: Some(refs[n].snapshot_id),
                    })
            &&& forall|n: Seq<char>| #[trigger]
                action.desired.contains_key(n) && !refs.contains_key(n) ==> exists|i: int|
                    1 <= i < requirements.len() && #[trigger] requirements[i]
                        == (TableRequirementView::RefSnapshotIdMatch {
                        ref_name: n,
                        snapshot_id: None,
                    })
            &&& forall|i: int|
                1 <= i < requirements.len() ==> (#[trigger] requirements[i]) is RefSnapshotIdMatch
                    && action.desired.contains_key(requirements[i]->ref_name)
            &&& forall|i: int, j: int|
                1 <= i < j < requirements.len() ==> #[trigger] name_before(
                    requirements[i]->ref_name,
                    requirements[j]->ref_name,
                )
        }),
{
    let refs = action.original.metadata.refs;
    let entries = action.entries();
    let requirements = action.commit().requirements;
    law_a_listing_has_every_entry_once(action.desired);
    law_one_requirement_for_each_touched_name(action);
    assert(requirements.len() == entries.len() + 1);
    assert forall|n: Seq<char>| #[trigger] action.desired.contains_key(n) implies exists|i: int|
        1 <= i < requirements.len() && #[trigger] requirements[i]
            == (TableRequirementView::RefSnapshotIdMatch {
            ref_name: n,
            snapshot_id: if refs.contains_key(n) {
                Some(refs[n].snapshot_id)
            } else {
                None
            },
        }) by {
        let i = lemma_entry_for(action, n);
        assert(requirements[i + 1] == action.requirement_for(entries[i]));
    }
}

/// The requirement on a name is on the snapshot of its original reference.
pub proof fn law_a_requirement_is_on_the_original_snapshot(action: ActionView, i: int)
    requires
        action.desired.dom().finite(),
        1 <= i < action.commit().requirements.len(),
    ensures
        ({
            let refs = action.original.metadata.refs;
            let requirement = action.commit().requirements[i];
            &&& requirement is RefSnapshotIdMatch
            &&& requirement->snapshot_id is Some <==> refs.contains_key(requirement->ref_name)
            &&& requirement->snapshot_id is Some ==> requirement->snapshot_id->0
                == refs[requirement->ref_name].snapshot_id
        }),
{
    lemma_entry(action, i - 1);
    assert(action.commit().requirements[i] == action.requirement_for(action.entries()[i - 1]));
}

/// The updates are: for each touched name that is to have a reference which it does
/// not have in the original table, to set exactly that reference; for each touched
/// name that is to have none but has one there, to remove it; and nothing else.
pub proof fn law_what_a_commit_updates(action: ActionView)
    requires
        action.desired.dom().finite(),
    ensures
        ({
            let refs = action.original.metadata.refs;
            let updates = action.commit().updates;
            &&& forall|n: Seq<char>| #[trigger]
                action.desired.contains_key(n) && action.desired[n] is Some && !refs.contains_pair(
                    n,
                    action.desired[n]->0,
                ) ==> exists|i: int|
                    0 <= i < updates.len() && #[trigger] updates[i]
                        == (TableUpdateView::SetSnapshotRef {
                        ref_name: n,
                        reference: action.desired[n]->0,
                    })
            &&& forall|n: Seq<char>| #[trigger]
                action.desired.contains_key(n) && action.desired[n] is None && refs.contains_key(n)
                    ==> exists|i: int|
                    0 <= i < updates.len() && #[trigger] updates[i]
                        == (TableUpdateView::RemoveSnapshotRef { ref_name: n })
            &&& forall|i: int|
                0 <= i < updates.len() ==> match #[trigger] updates[i] {
                    TableUpdateView::SetSnapshotRef { ref_name, reference } => {
                        &&& action.desired.contains_pair(ref_name, Some(reference))
                        &&& !refs.contains_pair(ref_name, reference)
                    },
                    TableUpdateView::RemoveSnapshotRef { ref_name } => {
                        &&& action.desired.contains_pair(ref_name, None)
                        &&& refs.contains_key(ref_name)
                    },
                }
            &&& forall|i: int, j: int|
                0 <= i < j < updates.len() ==> #[trigger] name_before(
                    updates[i].ref_name(),
                    updates[j].ref_name(),
                )
        }),
{
    let refs = action.original.metadata.refs;
    let updates = action.commit().updates;
    law_one_update_for_each_changed_name(action);
    assert forall|n: Seq<char>| #[trigger]
        action.desired.contains_key(n) && action.reference(n)
            != action.original.metadata.reference(n) implies exists|i: int|
        0 <= i < updates.len() && #[trigger] updates[i] == ActionView::update_for(
            (n, action.desired[n]),
        ) by {
        assert(action.reference(n) != action.original.metadata.reference(n));
        let i = choose|i: int| 0 <= i < updates.len() && (#[trigger] updates[i]).ref_name() == n;
        assert(updates[i].value() == action.reference(n));
        assert(updates[i] == ActionView::update_for((n, action.desired[n])));
    }
    assert forall|n: Seq<char>| #[trigger]
        action.desired.contains_key(n) && action.desired[n] is Some && !refs.contains_pair(
            n,
            action.desired[n]->0,
        ) implies exists|i: int|
        0 <= i < updates.len() && #[trigger] updates[i] == (TableUpdateView::SetSnapshotRef {
            ref_name: n,
            reference: action.desired[n]->0,
        }) by {
        assert(action.reference(n) != action.original.metadata.reference(n));
    }
    assert forall|n: Seq<char>| #[trigger]
        action.desired.contains_key(n) && action.desired[n] is None && refs.contains_key(
            n,
        ) implies exists|i: int|
        0 <= i < updates.len() && #[trigger] updates[i] == (TableUpdateView::RemoveSnapshotRef {
            ref_name: n,
        }) by {
        assert(action.reference(n) != action.original.metadata.reference(n));
    }
    assert forall|i: int| 0 <= i < updates.len() implies match #[trigger] updates[i] {
        TableUpdateView::SetSnapshotRef { ref_name, reference } => {
            &&& action.desired.contains_pair(ref_name, Some(reference))
            &&& !refs.contains_pair(ref_name, reference)
        },
        TableUpdateView::RemoveSnapshotRef { ref_name } => {
            &&& action.desired.contains_pair(ref_name, None)
            &&& refs.contains_key(ref_name)
        },
    } by {
        assert(action.desired.contains_key(updates[i].ref_name()));
        assert(updates[i].value() == action.reference(updates[i].ref_name()));
    }
}

/// A table under another name or with another UUID is answered that the action is for
/// a different table, whatever else holds.
pub proof fn law_what_another_table_is_answered(action: ActionView, table: TableView)
    requires
        table.identifier != action.original.identifier || table.metadata.table_uuid
            != action.original.metadata.table_uuid,
    ensures
        action.commit_fault(table) == Some(
            ErrorView {
                kind: ErrorKind::CatalogCommitConflicts,
                message: "Snapshot reference action belongs to a different table"@,
                retryable: false,
            },
        ),
{
}

/// The first touched name, in name order, that stands in the way of a commit is what
/// it is answered: as changed, if the table has anything else under the name than the
/// original one had; and otherwise as unknown, if the table lacks the snapshot that
/// the name is to have.
pub proof fn law_what_the_first_faulty_name_is_answered(
    action: ActionView,
    table: TableView,
    name: Seq<char>,
)
    requires
        action.desired.dom().finite(),
        table.identifier == action.original.identifier,
        table.metadata.table_uuid == action.original.metadata.table_uuid,
        action.desired.contains_key(name),
        forall|m: Seq<char>| #[trigger]
            action.desired.contains_key(m) && name_before(m, name) ==> {
                &&& table.metadata.refs.contains_key(m)
                    == action.original.metadata.refs.contains_key(m)
                &&& table.metadata.refs.contains_key(m) ==> table.metadata.refs[m]
                    == action.original.metadata.refs[m]
                &&& action.desired[m] is Some ==> table.metadata.snapshots.contains_key(
                    action.desired[m]->0.snapshot_id,
                )
            },
    ensures
        ({
            let refs = action.original.metadata.refs;
            let unchanged = {
                &&& table.metadata.refs.contains_key(name) == refs.contains_key(name)
                &&& refs.contains_key(name) ==> table.metadata.refs[name] == refs[name]
            };
            &&& !unchanged ==> action.commit_fault(table) == Some(
                ErrorView {
                    kind: ErrorKind::CatalogCommitConflicts,
                    message: "Snapshot reference changed since action creation: "@ + name,
                    retryable: false,
                },
            )
            &&& unchanged && action.desired[name] is Some
                && !table.metadata.snapshots.contains_key(action.desired[name]->0.snapshot_id)
                ==> action.commit_fault(table) == Some(
                ErrorView {
                    kind: ErrorKind::DataInvalid,
                    message: "Unknown snapshot: "@ + decimal(
                        action.desired[name]->0.snapshot_id as int,
                    ),
                    retryable: false,
                },
            )
        }),
{
    let entries = action.entries();
    let faulty = action.is_faulty(table);
    let found = entries.filter(faulty);
    lemma_finite_map_has_listing(action.desired);
    lemma_filtered(entries, faulty);
    let k = lemma_entry_for(action, name);
    if faulty(entries[k]) {
        let i = choose|i: int| 0 <= i < found.len() && found[i] == entries[k];
        assert(faulty(found[0]) && entries.contains(found[0]));
        let l = choose|l: int| 0 <= l < entries.len() && entries[l] == found[0];
        lemma_entry(action, l);
        assert(action.desired.contains_key(found[0].0));
        if i > 0 {
            assert(name_before(found[0].0, found[i].0));
        }
        assert(found[0] == entries[k]);
    }
}

/// Where no touched name stands in the way, a commit is accepted in every format
/// version but the first, and there too if nothing changes; otherwise it is answered
/// that a later format is needed.
pub proof fn law_what_an_unhindered_commit_is_answered(action: ActionView, table: TableView)
    requires
        action.desired.dom().finite(),
        table.identifier == action.original.identifier,
        table.metadata.table_uuid == action.original.metadata.table_uuid,
        forall|m: Seq<char>| #[trigger]
            action.desired.contains_key(m) ==> {
                &&& table.metadata.refs.contains_key(m)
                    == action.original.metadata.refs.contains_key(m)
                &&& table.metadata.refs.contains_key(m) ==> table.metadata.refs[m]
                    == action.original.metadata.refs[m]
                &&& action.desired[m] is Some ==> table.metadata.snapshots.contains_key(
                    action.desired[m]->0.snapshot_id,
                )
            },
    ensures
        ({
            let refs = action.original.metadata.refs;
            let changes = exists|n: Seq<char>| #[trigger]
                action.desired.contains_key(n) && match action.desired[n] {
                    Some(reference) => !refs.contains_pair(n, reference),
                    None => refs.contains_key(n),
                };
            &&& table.metadata.format_version != FormatVersion::V1 || !changes
                ==> action.commit_fault(table) is None
            &&& table.metadata.format_version == FormatVersion::V1 && changes
                ==> action.commit_fault(table) == Some(
                ErrorView {
                    kind: ErrorKind::DataInvalid,
                    message: "Snapshot reference mutations require format version V2 or later"@,
                    retryable: false,
                },
            )
        }),
{
    let refs = action.original.metadata.refs;
    let updates = action.commit().updates;
    let entries = action.entries();
    let faulty = action.is_faulty(table);
    law_what_a_commit_updates(action);
    law_when_a_commit_is_accepted(action, table);
    lemma_filtered(entries, faulty);
    if entries.filter(faulty).len() > 0 {
        let entry = entries.filter(faulty)[0];
        assert(faulty(entry) && entries.contains(entry));
        let l = choose|l: int| 0 <= l < entries.len() && entries[l] == entry;
        lemma_entry(action, l);
        assert(action.desired.contains_key(entry.0));
    }
    if updates.len() > 0 {
        let n = updates[0].ref_name();
        assert(action.desired.contains_key(n));
    }
}

} // verus!
