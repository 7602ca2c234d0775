//! Laws of the commit: what its updates make of a table, what its requirements
//! assert, and which tables it is refused for.

use vstd::prelude::*;

use crate::action_model::{ActionView, Entry};
use crate::catalog::{all_met, head_of, updated_refs, TableRequirementView};
use crate::error::{data_invalid, ErrorKind};
use crate::name_map::{
    in_name_order, is_listing, lemma_finite_map_has_listing, lemma_listed, lemma_listing_tells_map,
    lemma_name_order_has_no_repeats, listed, place_of,
};
use crate::operation_laws::{
    law_actions_stay_with_their_table, law_main_stays_a_branch, run, Operation,
};
use crate::snapshot::SnapshotReference;
use crate::table::{reference_in, FormatVersion, TableMetadataView, TableView, MAIN_BRANCH};
use crate::text::name_before;

verus! {

/// The action touches finitely many names, as every action does.
pub open spec fn finite(action: ActionView) -> bool {
    action.desired.dom().finite()
}

/// Every snapshot that a touched name is to have is one that `table` has.
pub open spec fn snapshots_known(action: ActionView, table: TableView) -> bool {
    forall|n: Seq<char>| #[trigger]
        action.desired.contains_key(n) ==> (action.desired[n] matches Some(reference)
            ==> table.metadata.snapshots.contains_key(reference.snapshot_id))
}

/// Every touched name has in `table` the reference that it had in the original one.
pub open spec fn touched_unchanged(action: ActionView, table: TableView) -> bool {
    forall|n: Seq<char>| #[trigger]
        action.desired.contains_key(n) ==> table.metadata.reference(n)
            == action.original.metadata.reference(n)
}

/// The table with `refs` for its references.
pub open spec fn with_refs(
    table: TableView,
    refs: Map<Seq<char>, SnapshotReference>,
) -> TableView {
    TableView {
        identifier: table.identifier,
        metadata: TableMetadataView { refs, ..table.metadata },
    }
}

/// The table in another format version.
pub open spec fn with_version(table: TableView, format_version: FormatVersion) -> TableView {
    TableView {
        identifier: table.identifier,
        metadata: TableMetadataView { format_version, ..table.metadata },
    }
}

proof fn lemma_entries(action: ActionView)
    requires
        finite(action),
    ensures
        is_listing(action.entries(), action.desired),
        listed(action.entries()) == action.desired,
{
    lemma_finite_map_has_listing(action.desired);
    lemma_listing_tells_map(action.entries(), action.desired);
}

/// The name of a touched entry is touched, and to have what the entry says.
pub proof fn lemma_entry(action: ActionView, i: int)
    requires
        finite(action),
        0 <= i < action.entries().len(),
    ensures
        action.desired.contains_key(action.entries()[i].0),
        action.desired[action.entries()[i].0] == action.entries()[i].1,
{
    lemma_entries(action);
}

/// The place of a touched name among the entries.
pub proof fn lemma_entry_for(action: ActionView, name: Seq<char>) -> (i: int)
    requires
        finite(action),
        action.desired.contains_key(name),
    ensures
        0 <= i < action.entries().len(),
        action.entries()[i] == (name, action.desired[name]),
{
    lemma_entries(action);
    let i = place_of(action.entries(), name);
    lemma_entry(action, i);
    i
}

/// Where the entries that pass a test come from.
pub proof fn lemma_filtered(entries: Seq<Entry>, test: spec_fn(Entry) -> bool)
    ensures
        forall|k: int|
            0 <= k < entries.filter(test).len() ==> test(#[trigger] entries.filter(test)[k])
                && entries.contains(entries.filter(test)[k]),
        forall|i: int|
            0 <= i < entries.len() && test(#[trigger] entries[i]) ==> entries.filter(test).contains(
                entries[i],
            ),
        in_name_order(entries) ==> in_name_order(entries.filter(test)),
    decreases entries.len(),
{
    reveal(Seq::filter);
    let out = entries.filter(test);
    if entries.len() > 0 {
        let front = entries.drop_last();
        let last = entries.last();
        let rest = front.filter(test);
        lemma_filtered(front, test);
        assert forall|k: int| 0 <= k < out.len() implies test(#[trigger] out[k])
            && entries.contains(out[k]) by {
            if k < rest.len() {
                assert(out[k] == rest[k]);
                let i = choose|i: int| 0 <= i < front.len() && front[i] == rest[k];
                assert(entries[i] == out[k]);
            } else {
                assert(entries[entries.len() - 1] == out[k]);
            }
        }
        assert forall|i: int| 0 <= i < entries.len() && test(#[trigger] entries[i]) implies out.contains(
            entries[i],
        ) by {
            if i < front.len() {
                assert(front[i] == entries[i]);
                let k = choose|k: int| 0 <= k < rest.len() && rest[k] == front[i];
                assert(out[k] == entries[i]);
            } else {
                assert(out[out.len() - 1] == entries[i]);
            }
        }
        if in_name_order(entries) {
            assert forall|i: int, j: int| 0 <= i < j < front.len() implies #[trigger] name_before(
                front[i].0,
                front[j].0,
            ) by {
                assert(name_before(entries[i].0, entries[j].0));
            }
            assert forall|i: int, j: int| 0 <= i < j < out.len() implies #[trigger] name_before(
                out[i].0,
                out[j].0,
            ) by {
                assert(out[i] == rest[i]);
                if j < rest.len() {
                    assert(name_before(rest[i].0, rest[j].0));
                } else {
                    let l = choose|l: int| 0 <= l < front.len() && front[l] == rest[i];
                    assert(name_before(entries[l].0, entries[entries.len() - 1].0));
                }
            }
        }
    }
}

/// A commit is refused exactly for another table, for a touched name that has
/// changed or is to name an unknown snapshot, and for updates before format version
/// V2.
pub proof fn law_when_a_commit_is_accepted(action: ActionView, table: TableView)
    requires
        finite(action),
    ensures
        action.commit_fault(table) is None <==> {
            &&& action.belongs_to(table)
            &&& touched_unchanged(action, table)
            &&& snapshots_known(action, table)
            &&& action.commit().updates.len() == 0 || table.metadata.format_version.number()
                >= FormatVersion::V2.number()
        },
{
    let entries = action.entries();
    let faulty = action.is_faulty(table);
    lemma_filtered(entries, faulty);
    if entries.filter(faulty).len() == 0 {
        assert forall|n: Seq<char>| #[trigger] action.desired.contains_key(n) implies {
            &&& table.metadata.reference(n) == action.original.metadata.reference(n)
            &&& action.desired[n] matches Some(reference)
                ==> table.metadata.snapshots.contains_key(reference.snapshot_id)
        } by {
            let i = lemma_entry_for(action, n);
            if faulty(entries[i]) {
                assert(entries.filter(faulty).contains(entries[i]));
            }
        }
    } else {
        let entry = entries.filter(faulty)[0];
        assert(faulty(entry));
        let i = choose|i: int| 0 <= i < entries.len() && entries[i] == entry;
        lemma_entry(action, i);
        assert(action.desired.contains_key(entry.0));
    }
}

/// Every refusal of a commit is final.
pub proof fn law_refused_commits_are_final(action: ActionView, table: TableView)
    ensures
        action.commit_fault(table) matches Some(error) ==> !error.retryable,
{
    lemma_filtered(action.entries(), action.is_faulty(table));
}

/// An action is not committed to a table that has another identifier or UUID.
pub proof fn law_another_table_is_a_conflict(action: ActionView, table: TableView)
    requires
        !action.belongs_to(table),
    ensures
        action.commit_fault(table) matches Some(error) && error.kind
            == ErrorKind::CatalogCommitConflicts && !error.retryable,
{
}

/// An action whose touched names have changed in any way since it was made is not
/// rebased: it conflicts. It is reported as such unless a name that comes earlier is
/// to have a snapshot that is gone.
pub proof fn law_a_changed_reference_is_a_conflict(
    action: ActionView,
    table: TableView,
    name: Seq<char>,
)
    requires
        finite(action),
        action.desired.contains_key(name),
        table.metadata.reference(name) != action.original.metadata.reference(name),
    ensures
        action.commit_fault(table) is Some,
        !action.commit_fault(table)->0.retryable,
        snapshots_known(action, table) ==> action.commit_fault(table)->0.kind
            == ErrorKind::CatalogCommitConflicts,
{
    law_when_a_commit_is_accepted(action, table);
    law_refused_commits_are_final(action, table);
    let entries = action.entries();
    let faulty = action.is_faulty(table);
    lemma_filtered(entries, faulty);
    let i = lemma_entry_for(action, name);
    assert(faulty(entries[i]));
    let entry = entries.filter(faulty)[0];
    let k = choose|k: int| 0 <= k < entries.len() && entries[k] == entry;
    lemma_entry(action, k);
    assert(action.desired.contains_key(entry.0));
}

/// A commit to a table that lacks a snapshot which a touched name is to have is
/// refused.
pub proof fn law_a_missing_snapshot_is_refused(
    action: ActionView,
    table: TableView,
    name: Seq<char>,
    reference: SnapshotReference,
)
    requires
        finite(action),
        action.desired.contains_key(name),
        action.desired[name] == Some(reference),
        !table.metadata.snapshots.contains_key(reference.snapshot_id),
    ensures
        action.commit_fault(table) is Some,
        action.belongs_to(table) && touched_unchanged(action, table) ==> action.commit_fault(
            table,
        )->0.kind == ErrorKind::DataInvalid,
{
    law_when_a_commit_is_accepted(action, table);
    let entries = action.entries();
    let faulty = action.is_faulty(table);
    lemma_filtered(entries, faulty);
    let i = lemma_entry_for(action, name);
    assert(faulty(entries[i]));
    let entry = entries.filter(faulty)[0];
    assert(faulty(entry));
    let k = choose|k: int| 0 <= k < entries.len() && entries[k] == entry;
    lemma_entry(action, k);
    assert(action.desired.contains_key(entry.0));
}

proof fn lemma_filters_agree(
    entries: Seq<Entry>,
    one: spec_fn(Entry) -> bool,
    other: spec_fn(Entry) -> bool,
)
    requires
        forall|i: int| 0 <= i < entries.len() ==> one(#[trigger] entries[i]) == other(entries[i]),
    ensures
        entries.filter(one) == entries.filter(other),
    decreases entries.len(),
{
    reveal(Seq::filter);
    if entries.len() > 0 {
        let front = entries.drop_last();
        assert forall|i: int| 0 <= i < front.len() implies one(#[trigger] front[i]) == other(
            front[i],
        ) by {
            assert(front[i] == entries[i]);
        }
        lemma_filters_agree(front, one, other);
        assert(one(entries[entries.len() - 1]) == other(entries[entries.len() - 1]));
    }
}

/// What else has changed in the table does not matter: a commit is answered alike for
/// tables that agree on identity, format version, touched references and the
/// snapshots that these are to have.
pub proof fn law_unrelated_changes_do_not_matter(
    action: ActionView,
    table: TableView,
    other: TableView,
)
    requires
        finite(action),
        table.identifier == other.identifier,
        table.metadata.table_uuid == other.metadata.table_uuid,
        table.metadata.format_version == other.metadata.format_version,
        forall|n: Seq<char>| #[trigger]
            action.desired.contains_key(n) ==> table.metadata.reference(n)
                == other.metadata.reference(n),
        forall|n: Seq<char>| #[trigger]
            action.desired.contains_key(n) ==> (action.desired[n] matches Some(reference)
                ==> table.metadata.snapshots.contains_key(reference.snapshot_id)
                == other.metadata.snapshots.contains_key(reference.snapshot_id)),
    ensures
        action.commit_fault(table) == action.commit_fault(other),
{
    let entries = action.entries();
    assert forall|i: int| 0 <= i < entries.len() implies action.entry_fault(
        table,
        #[trigger] entries[i],
    ) == action.entry_fault(other, entries[i]) by {
        lemma_entry(action, i);
        assert(action.desired.contains_key(entries[i].0));
    }
    lemma_filters_agree(entries, action.is_faulty(table), action.is_faulty(other));
    let faulty = entries.filter(action.is_faulty(table));
    lemma_filtered(entries, action.is_faulty(table));
    if faulty.len() > 0 {
        assert(entries.contains(faulty[0]));
    }
}

/// No update is committed to a table whose format does not keep references.
pub proof fn law_no_update_before_version_two(action: ActionView, table: TableView)
    requires
        table.metadata.format_version == FormatVersion::V1,
        action.commit_fault(table) is None,
    ensures
        action.commit().updates.len() == 0,
{
}

/// Where only the format version stood in the way, upgrading it is enough.
pub proof fn law_an_upgrade_is_enough(
    action: ActionView,
    table: TableView,
    format_version: FormatVersion,
)
    requires
        finite(action),
        action.belongs_to(table),
        touched_unchanged(action, table),
        snapshots_known(action, table),
        format_version.number() >= FormatVersion::V2.number(),
    ensures
        action.commit_fault(with_version(table, format_version)) is None,
        table.metadata.format_version == FormatVersion::V1 && action.commit().updates.len() > 0
            ==> action.commit_fault(table) == Some(
            data_invalid("Snapshot reference mutations require format version V2 or later"@),
        ),
{
    let upgraded = with_version(table, format_version);
    assert forall|n: Seq<char>| #[trigger]
        action.desired.contains_key(n) implies upgraded.metadata.reference(n)
        == action.original.metadata.reference(n) by {
        assert(table.metadata.reference(n) == action.original.metadata.reference(n));
    }
    law_when_a_commit_is_accepted(action, upgraded);
    law_when_a_commit_is_accepted(action, with_version(table, FormatVersion::V2));
    let v2 = with_version(table, FormatVersion::V2);
    assert(touched_unchanged(action, v2));
    let entries = action.entries();
    lemma_filters_agree(entries, action.is_faulty(table), action.is_faulty(v2));
    lemma_filtered(entries, action.is_faulty(v2));
}

/// What making the updates among `entries` does to the reference of each name.
proof fn lemma_updates_make_entries(
    action: ActionView,
    refs: Map<Seq<char>, SnapshotReference>,
    entries: Seq<Entry>,
    name: Seq<char>,
)
    requires
        in_name_order(entries),
    ensures
        reference_in(updated_refs(refs, action.updates_among(entries)), name) == (if listed(
            entries,
        ).contains_key(name) && listed(entries)[name] != action.original.metadata.reference(name) {
            listed(entries)[name]
        } else {
            reference_in(refs, name)
        }),
    decreases entries.len(),
{
    reveal(Seq::filter);
    let updates = action.updates_among(entries);
    if entries.len() == 0 {
        assert(updates.len() == 0);
    } else {
        let front = entries.drop_last();
        let last = entries.last();
        assert(last == entries[entries.len() - 1]);
        assert forall|i: int, j: int| 0 <= i < j < front.len() implies #[trigger] name_before(
            front[i].0,
            front[j].0,
        ) by {
            assert(name_before(entries[i].0, entries[j].0));
        }
        lemma_updates_make_entries(action, refs, front, name);
        lemma_listed(entries);
        lemma_listed(front);
        let earlier = action.updates_among(front);
        if (action.is_change())(last) {
            assert(updates =~= earlier.push(ActionView::update_for(last)));
            assert(updates.drop_last() =~= earlier);
        } else {
            assert(updates =~= earlier);
        }
        if listed(front).contains_key(name) {
            let i = place_of(front, name);
            assert(entries[i] == front[i]);
            if name == last.0 {
                lemma_name_order_has_no_repeats(entries, i, entries.len() - 1);
            }
        } else if name != last.0 && listed(entries).contains_key(name) {
            let i = place_of(entries, name);
            assert(front[i] == entries[i]);
        }
    }
}

/// Whatever references the updates are made on, they give each name whose reference
/// changes its final value, and change no other.
pub proof fn law_updates_set_final_values_only(
    action: ActionView,
    refs: Map<Seq<char>, SnapshotReference>,
)
    requires
        finite(action),
    ensures
        forall|n: Seq<char>| #[trigger]
            reference_in(updated_refs(refs, action.commit().updates), n) == (if action.reference(n)
                != action.original.metadata.reference(n) {
                action.reference(n)
            } else {
                reference_in(refs, n)
            }),
{
    lemma_entries(action);
    assert forall|n: Seq<char>| #[trigger]
        reference_in(updated_refs(refs, action.commit().updates), n) == (if action.reference(n)
            != action.original.metadata.reference(n) {
            action.reference(n)
        } else {
            reference_in(refs, n)
        }) by {
        lemma_updates_make_entries(action, refs, action.entries(), n);
    }
}

/// On a table that the action is accepted for, the updates give every touched name
/// what it is to have, and change no other.
pub proof fn law_a_commit_makes_the_desired_references(action: ActionView, table: TableView)
    requires
        finite(action),
        action.commit_fault(table) is None,
    ensures
        forall|n: Seq<char>| #[trigger]
            reference_in(updated_refs(table.metadata.refs, action.commit().updates), n) == (
            if action.desired.contains_key(n) {
                action.desired[n]
            } else {
                table.metadata.reference(n)
            }),
{
    law_when_a_commit_is_accepted(action, table);
    law_updates_set_final_values_only(action, table.metadata.refs);
}

/// A commit to the very table that the action was made for is accepted if the format
/// keeps references and the snapshots are there, and makes the table's references
/// those that the action shows.
pub proof fn law_a_commit_to_the_original_table(action: ActionView)
    requires
        finite(action),
    ensures
        action.commit_fault(action.original) is None <==> snapshots_known(action, action.original)
            && (action.commit().updates.len() == 0
            || action.original.metadata.format_version.number() >= FormatVersion::V2.number()),
        action.commit_fault(action.original) is None ==> forall|n: Seq<char>| #[trigger]
            reference_in(updated_refs(action.original.metadata.refs, action.commit().updates), n)
                == action.reference(n),
{
    law_when_a_commit_is_accepted(action, action.original);
    if action.commit_fault(action.original) is None {
        law_a_commit_makes_the_desired_references(action, action.original);
        let refs = updated_refs(action.original.metadata.refs, action.commit().updates);
        assert forall|n: Seq<char>| #[trigger] reference_in(refs, n) == action.reference(n) by {}
    }
}

/// The updates are normalized. There is one for each name whose reference is in the
/// end another than in the original table, it gives the name its final value, and the
/// updates stand in name order.
pub proof fn law_one_update_for_each_changed_name(action: ActionView)
    requires
        finite(action),
    ensures
        forall|i: int|
            0 <= i < action.commit().updates.len() ==> {
                let update = #[trigger] action.commit().updates[i];
                &&& action.desired.contains_key(update.ref_name())
                &&& update.value() == action.reference(update.ref_name())
                &&& update.value() != action.original.metadata.reference(update.ref_name())
            },
        forall|n: Seq<char>|
            (#[trigger] action.reference(n)) != action.original.metadata.reference(n) ==> exists|
                i: int,
            |
                0 <= i < action.commit().updates.len() && (
                #[trigger] action.commit().updates[i]).ref_name() == n,
        forall|i: int, j: int|
            0 <= i < j < action.commit().updates.len() ==> #[trigger] name_before(
                action.commit().updates[i].ref_name(),
                action.commit().updates[j].ref_name(),
            ),
{
    let entries = action.entries();
    let changes = entries.filter(action.is_change());
    let updates = action.commit().updates;
    lemma_entries(action);
    lemma_filtered(entries, action.is_change());
    assert forall|i: int| 0 <= i < updates.len() implies {
        let update = #[trigger] updates[i];
        &&& action.desired.contains_key(update.ref_name())
        &&& update.value() == action.reference(update.ref_name())
        &&& update.value() != action.original.metadata.reference(update.ref_name())
    } by {
        assert(updates[i] == ActionView::update_for(changes[i]));
        assert(entries.contains(changes[i]) && (action.is_change())(changes[i]));
        let k = choose|k: int| 0 <= k < entries.len() && entries[k] == changes[i];
        lemma_entry(action, k);
    }
    assert forall|n: Seq<char>|
        (#[trigger] action.reference(n)) != action.original.metadata.reference(n) implies exists|
        i: int,
    |
        0 <= i < updates.len() && (#[trigger] updates[i]).ref_name() == n by {
        let k = lemma_entry_for(action, n);
        assert((action.is_change())(entries[k]));
        let i = choose|i: int| 0 <= i < changes.len() && changes[i] == entries[k];
        assert(updates[i] == ActionView::update_for(changes[i]));
        assert(updates[i].ref_name() == n);
    }
    assert forall|i: int, j: int| 0 <= i < j < updates.len() implies #[trigger] name_before(
        updates[i].ref_name(),
        updates[j].ref_name(),
    ) by {
        assert(updates[i] == ActionView::update_for(changes[i]));
        assert(updates[j] == ActionView::update_for(changes[j]));
        assert(name_before(changes[i].0, changes[j].0));
    }
}

/// What is done and undone again is not committed.
pub proof fn law_no_net_change_no_update(action: ActionView)
    requires
        finite(action),
        forall|n: Seq<char>| #[trigger]
            action.reference(n) == action.original.metadata.reference(n),
    ensures
        action.commit().updates.len() == 0,
{
    law_one_update_for_each_changed_name(action);
    if action.commit().updates.len() > 0 {
        let update = action.commit().updates[0];
        assert(action.reference(update.ref_name()) == action.original.metadata.reference(
            update.ref_name(),
        ));
    }
}

/// The requirements assert the original UUID, and of each touched name the snapshot
/// that it had in the original table, or that it was free. They assert nothing else:
/// a change of type or retention that keeps the snapshot meets them.
pub proof fn law_requirements_assert_uuid_and_heads(
    action: ActionView,
    metadata: TableMetadataView,
)
    requires
        finite(action),
    ensures
        all_met(action.commit().requirements, metadata) <==> {
            &&& metadata.table_uuid == action.original.metadata.table_uuid
            &&& forall|n: Seq<char>| #[trigger]
                action.desired.contains_key(n) ==> head_of(metadata.reference(n)) == head_of(
                    action.original.metadata.reference(n),
                )
        },
{
    let entries = action.entries();
    let requirements = action.commit().requirements;
    assert(requirements[0] == TableRequirementView::UuidMatch {
        uuid: action.original.metadata.table_uuid,
    });
    assert forall|i: int| 0 <= i < entries.len() implies #[trigger] requirements[i + 1]
        == action.requirement_for(entries[i]) by {}
    if all_met(requirements, metadata) {
        assert(requirements[0].is_met(metadata));
        assert forall|n: Seq<char>| #[trigger] action.desired.contains_key(n) implies head_of(
            metadata.reference(n),
        ) == head_of(action.original.metadata.reference(n)) by {
            let i = lemma_entry_for(action, n);
            assert(requirements[i + 1].is_met(metadata));
        }
    }
    if metadata.table_uuid == action.original.metadata.table_uuid && (forall|n: Seq<char>|
        #[trigger]
        action.desired.contains_key(n) ==> head_of(metadata.reference(n)) == head_of(
            action.original.metadata.reference(n),
        )) {
        assert forall|i: int| 0 <= i < requirements.len() implies (#[trigger] requirements[i]).is_met(
            metadata,
        ) by {
            if i > 0 {
                lemma_entry(action, i - 1);
                assert(requirements[(i - 1) + 1] == action.requirement_for(entries[i - 1]));
                assert(action.desired.contains_key(entries[i - 1].0));
            }
        }
    }
}

/// A table that the action is accepted for meets the requirements.
pub proof fn law_requirements_hold_where_accepted(action: ActionView, table: TableView)
    requires
        finite(action),
        action.commit_fault(table) is None,
    ensures
        all_met(action.commit().requirements, table.metadata),
{
    law_when_a_commit_is_accepted(action, table);
    law_requirements_assert_uuid_and_heads(action, table.metadata);
}

/// The requirements stand in name order, after the one on the UUID: one for each
/// touched name, changed in the end or not.
pub proof fn law_one_requirement_for_each_touched_name(action: ActionView)
    requires
        finite(action),
    ensures
        action.commit().requirements.len() > 0,
        action.commit().requirements[0] == (TableRequirementView::UuidMatch {
            uuid: action.original.metadata.table_uuid,
        }),
        forall|i: int|
            1 <= i < action.commit().requirements.len() ==> (
            #[trigger] action.commit().requirements[i]) is RefSnapshotIdMatch,
        forall|i: int, j: int|
            1 <= i < j < action.commit().requirements.len() ==> #[trigger] name_before(
                action.commit().requirements[i]->ref_name,
                action.commit().requirements[j]->ref_name,
            ),
        forall|n: Seq<char>| #[trigger]
            action.desired.contains_key(n) <==> exists|i: int|
                1 <= i < action.commit().requirements.len() && (
                #[trigger] action.commit().requirements[i])->ref_name == n,
{
    let entries = action.entries();
    let requirements = action.commit().requirements;
    lemma_entries(action);
    assert forall|i: int| 1 <= i < requirements.len() implies #[trigger] requirements[i]
        == action.requirement_for(entries[i - 1]) by {}
    assert forall|i: int, j: int| 1 <= i < j < requirements.len() implies #[trigger] name_before(
        requirements[i]->ref_name,
        requirements[j]->ref_name,
    ) by {
        assert(name_before(entries[i - 1].0, entries[j - 1].0));
    }
    assert forall|n: Seq<char>| #[trigger] action.desired.contains_key(n) implies exists|i: int|
        1 <= i < requirements.len() && (#[trigger] requirements[i])->ref_name == n by {
        let i = lemma_entry_for(action, n);
        assert(requirements[i + 1]->ref_name == n);
    }
    assert forall|n: Seq<char>|
        (exists|i: int|
            1 <= i < requirements.len() && (#[trigger] requirements[i])->ref_name
                == n) implies #[trigger] action.desired.contains_key(n) by {
        let i = choose|i: int|
            1 <= i < requirements.len() && (#[trigger] requirements[i])->ref_name == n;
        lemma_entry(action, i - 1);
    }
}

/// Whatever calls are made, no commit removes `main` or makes it a tag.
pub proof fn law_no_commit_takes_main(table: TableView, calls: Seq<Operation>)
    ensures
        run(ActionView::start(table), calls) matches Ok(action) ==> forall|i: int|
            0 <= i < action.commit().updates.len() && (
            #[trigger] action.commit().updates[i]).ref_name() == MAIN_BRANCH@
                ==> action.commit().updates[i].value() is Some
                && action.commit().updates[i].value()->0.is_branch(),
{
    law_main_stays_a_branch(table, calls);
    law_actions_stay_with_their_table(table, calls);
    if let Ok(action) = run(ActionView::start(table), calls) {
        law_one_update_for_each_changed_name(action);
    }
}

/// Only what the calls come to counts: two chains of calls on one table that touch
/// the same names and leave them with the same references are committed alike.
pub proof fn law_only_final_values_are_committed(
    table: TableView,
    some: Seq<Operation>,
    others: Seq<Operation>,
    now: TableView,
)
    requires
        run(ActionView::start(table), some) is Ok,
        run(ActionView::start(table), others) is Ok,
        forall|n: Seq<char>| #[trigger]
            run(ActionView::start(table), some)->Ok_0.desired.contains_key(n) <==> run(
                ActionView::start(table),
                others,
            )->Ok_0.desired.contains_key(n),
        forall|n: Seq<char>| #[trigger]
            run(ActionView::start(table), some)->Ok_0.reference(n) == run(
                ActionView::start(table),
                others,
            )->Ok_0.reference(n),
    ensures
        run(ActionView::start(table), some)->Ok_0.commit() == run(
            ActionView::start(table),
            others,
        )->Ok_0.commit(),
        run(ActionView::start(table), some)->Ok_0.commit_fault(now) == run(
            ActionView::start(table),
            others,
        )->Ok_0.commit_fault(now),
{
    law_actions_stay_with_their_table(table, some);
    law_actions_stay_with_their_table(table, others);
    let a = run(ActionView::start(table), some)->Ok_0;
    let b = run(ActionView::start(table), others)->Ok_0;
    assert forall|n: Seq<char>| a.desired.contains_key(n) implies #[trigger] a.desired[n]
        == b.desired[n] by {
        assert(a.reference(n) == b.reference(n));
    }
    assert(a.desired =~= b.desired);
    assert(a == b);
}

/// A renaming is atomic. Committed where it is accepted, the source is gone and the
/// destination has its whole reference; and the requirements assert that the source
/// still has its original snapshot and the destination is still free.
pub proof fn law_a_renaming_is_atomic(
    table: TableView,
    now: TableView,
    source: Seq<char>,
    destination: Seq<char>,
)
    requires
        ActionView::start(table).rename_fault(source, destination) is None,
    ensures
        ({
            let action = ActionView::start(table).renamed(source, destination);
            let refs = updated_refs(now.metadata.refs, action.commit().updates);
            &&& action.commit_fault(now) is None ==> {
                &&& reference_in(refs, source) is None
                &&& reference_in(refs, destination) == table.metadata.reference(source)
            }
            &&& all_met(action.commit().requirements, now.metadata) <==> {
                &&& now.metadata.table_uuid == table.metadata.table_uuid
                &&& head_of(now.metadata.reference(source)) == head_of(
                    table.metadata.reference(source),
                )
                &&& now.metadata.reference(destination) is None
            }
        }),
{
    let start = ActionView::start(table);
    let action = start.renamed(source, destination);
    assert(start.reference(source) == table.metadata.reference(source));
    assert(start.reference(destination) == table.metadata.reference(destination));
    assert(action.desired.contains_key(source));
    assert(action.desired.contains_key(destination));
    assert(forall|n: Seq<char>| #[trigger]
        action.desired.contains_key(n) ==> n == source || n == destination);
    assert(finite(action));
    if action.commit_fault(now) is None {
        law_a_commit_makes_the_desired_references(action, now);
        let refs = updated_refs(now.metadata.refs, action.commit().updates);
        assert(reference_in(refs, source) == action.desired[source]);
        assert(reference_in(refs, destination) == action.desired[destination]);
    }
    law_requirements_assert_uuid_and_heads(action, now.metadata);
}

/// An action that depends on what another action for the same table changes first is
/// refused, rather than made to assert what the other left.
pub proof fn law_dependent_actions_conflict(
    first: ActionView,
    second: ActionView,
    name: Seq<char>,
)
    requires
        finite(first),
        finite(second),
        first.original == second.original,
        first.commit_fault(first.original) is None,
        first.reference(name) != first.original.metadata.reference(name),
        second.desired.contains_key(name),
    ensures
        ({
            let after = with_refs(
                first.original,
                updated_refs(first.original.metadata.refs, first.commit().updates),
            );
            &&& second.commit_fault(after) is Some
            &&& !second.commit_fault(after)->0.retryable
            &&& snapshots_known(second, first.original) ==> second.commit_fault(after)->0.kind
                == ErrorKind::CatalogCommitConflicts
        }),
{
    let refs = updated_refs(first.original.metadata.refs, first.commit().updates);
    let after = with_refs(first.original, refs);
    law_a_commit_to_the_original_table(first);
    assert(reference_in(refs, name) == first.reference(name));
    law_a_changed_reference_is_a_conflict(second, after, name);
    if snapshots_known(second, first.original) {
        assert(snapshots_known(second, after));
    }
}

/// Actions for one table that touch different names do not disturb each other.
pub proof fn law_independent_actions_do_not_conflict(first: ActionView, second: ActionView)
    requires
        finite(first),
        finite(second),
        first.original == second.original,
        first.commit_fault(first.original) is None,
        forall|n: Seq<char>|
            !(#[trigger] first.desired.contains_key(n) && second.desired.contains_key(n)),
    ensures
        second.commit_fault(
            with_refs(
                first.original,
                updated_refs(first.original.metadata.refs, first.commit().updates),
            ),
        ) == second.commit_fault(first.original),
{
    let refs = updated_refs(first.original.metadata.refs, first.commit().updates);
    let after = with_refs(first.original, refs);
    law_a_commit_to_the_original_table(first);
    assert forall|n: Seq<char>| #[trigger]
        second.desired.contains_key(n) implies after.metadata.reference(n)
        == first.original.metadata.reference(n) by {
        assert(!first.desired.contains_key(n));
        assert(reference_in(refs, n) == first.reference(n));
    }
    law_unrelated_changes_do_not_matter(second, after, first.original);
}

} // verus!
