//! What an action on references is, and what each operation and the commit do,
//! as mathematics.

use vstd::prelude::*;

use crate::catalog::{head_of, ActionCommitView, TableRequirementView, TableUpdateView};
use crate::error::{commit_conflict, data_invalid, ErrorView};
use crate::name_map::listing;
use crate::snapshot::{is_ancestor, SnapshotReference};
use crate::table::{FormatVersion, TableView, MAIN_BRANCH};
use crate::text::decimal;

verus! {

/// A name that an action touches, and the reference that it is to have.
pub type Entry = (Seq<char>, Option<SnapshotReference>);

/// The state of an action: the table that it was made for, and for each name
/// touched so far the reference that it is to have, or that it is to have none.
#[verifier::ext_equal]
pub struct ActionView {
    pub original: TableView,
    pub desired: Map<Seq<char>, Option<SnapshotReference>>,
}

/// The message for a snapshot that the table does not have.
pub open spec fn unknown_snapshot(snapshot_id: i64) -> ErrorView {
    data_invalid("Unknown snapshot: "@ + decimal(snapshot_id as int))
}

/// The message for a name without a reference.
pub open spec fn missing_reference(name: Seq<char>) -> ErrorView {
    data_invalid("Reference does not exist: "@ + name)
}

impl ActionView {
    /// An action on `table` that changes nothing yet.
    pub open spec fn start(table: TableView) -> Self {
        ActionView { original: table, desired: Map::empty() }
    }

    /// The reference that `name` has once the operations so far have been made.
    pub open spec fn reference(self, name: Seq<char>) -> Option<SnapshotReference> {
        if self.desired.contains_key(name) {
            self.desired[name]
        } else {
            self.original.metadata.reference(name)
        }
    }

    /// The action with `name` to have `value`.
    pub open spec fn with(self, name: Seq<char>, value: Option<SnapshotReference>) -> Self {
        ActionView { original: self.original, desired: self.desired.insert(name, value) }
    }

    /// The original table has the snapshot.
    pub open spec fn knows(self, snapshot_id: i64) -> bool {
        self.original.metadata.snapshots.contains_key(snapshot_id)
    }

    /// Why a reference to the snapshot is refused, if it is.
    pub open spec fn snapshot_fault(self, snapshot_id: i64) -> Option<ErrorView> {
        if self.knows(snapshot_id) {
            None
        } else {
            Some(unknown_snapshot(snapshot_id))
        }
    }

    /// Why `name` cannot be created as `reference`, if it cannot.
    pub open spec fn create_fault(self, name: Seq<char>, reference: SnapshotReference) -> Option<
        ErrorView,
    > {
        if name.len() == 0 || self.reference(name) is Some {
            Some(data_invalid("Reference name is empty or already exists: "@ + name))
        } else if name == MAIN_BRANCH@ && !reference.is_branch() {
            Some(data_invalid("main must be a branch"@))
        } else if !reference.retention.positive() {
            Some(data_invalid("Reference retention values must be positive"@))
        } else {
            self.snapshot_fault(reference.snapshot_id)
        }
    }

    /// The action once `name` is created as `reference`.
    pub open spec fn created(self, name: Seq<char>, reference: SnapshotReference) -> Self {
        self.with(name, Some(reference))
    }

    /// Why `name` cannot be removed, if it cannot.
    pub open spec fn remove_fault(self, name: Seq<char>) -> Option<ErrorView> {
        if name == MAIN_BRANCH@ || self.reference(name) is None {
            Some(data_invalid("Cannot remove main or a missing reference: "@ + name))
        } else {
            None
        }
    }

    /// The action once `name` is removed.
    pub open spec fn removed(self, name: Seq<char>) -> Self {
        self.with(name, None)
    }

    /// Why `source` cannot be renamed to `destination`, if it cannot.
    pub open spec fn rename_fault(self, source: Seq<char>, destination: Seq<char>) -> Option<
        ErrorView,
    > {
        if source == MAIN_BRANCH@ || destination == MAIN_BRANCH@ || destination.len() == 0
            || self.reference(destination) is Some {
            Some(data_invalid("Cannot rename main, or rename to an empty or existing reference"@))
        } else if self.reference(source) is None {
            Some(missing_reference(source))
        } else {
            None
        }
    }

    /// The action once `source` is renamed to `destination`: the reference of the
    /// one passes, whole, to the other.
    pub open spec fn renamed(self, source: Seq<char>, destination: Seq<char>) -> Self {
        self.with(source, None).with(destination, self.reference(source))
    }

    /// Why the branch `name` cannot be set to the snapshot, if it cannot.
    pub open spec fn set_branch_fault(self, name: Seq<char>, snapshot_id: i64) -> Option<
        ErrorView,
    > {
        match self.reference(name) {
            None => Some(missing_reference(name)),
            Some(reference) => if !reference.is_branch() {
                Some(data_invalid("Reference is not a branch: "@ + name))
            } else {
                self.snapshot_fault(snapshot_id)
            },
        }
    }

    /// The action once the branch `name` is set to the snapshot; its retention stays.
    pub open spec fn branch_set(self, name: Seq<char>, snapshot_id: i64) -> Self {
        let reference = self.reference(name)->0;
        self.with(name, Some(SnapshotReference { snapshot_id, retention: reference.retention }))
    }

    /// Why the branch `name` cannot be advanced to the snapshot, if it cannot: it has
    /// to descend from the branch's own snapshot, or to be that one.
    pub open spec fn fast_forward_fault(self, name: Seq<char>, snapshot_id: i64) -> Option<
        ErrorView,
    > {
        match self.reference(name) {
            None => Some(missing_reference(name)),
            Some(reference) => if !is_ancestor(
                self.original.metadata.snapshots,
                reference.snapshot_id,
                snapshot_id,
            ) {
                Some(
                    data_invalid(
                        "Snapshot "@ + decimal(snapshot_id as int)
                            + " is not a descendant of branch "@ + name,
                    ),
                )
            } else {
                self.set_branch_fault(name, snapshot_id)
            },
        }
    }

    /// The names that the action touches, in name order, each with what it is to have.
    pub open spec fn entries(self) -> Seq<Entry> {
        listing(self.desired)
    }

    /// The table is the one that the action was made for.
    pub open spec fn belongs_to(self, table: TableView) -> bool {
        table.identifier == self.original.identifier && table.metadata.table_uuid
            == self.original.metadata.table_uuid
    }

    /// Why a touched name keeps the action from being committed to `table`, if it
    /// does: its reference is no longer the original one, or it is to name a snapshot
    /// that the table does not have.
    pub open spec fn entry_fault(self, table: TableView, entry: Entry) -> Option<ErrorView> {
        if table.metadata.reference(entry.0) != self.original.metadata.reference(entry.0) {
            Some(
                commit_conflict("Snapshot reference changed since action creation: "@ + entry.0),
            )
        } else {
            match entry.1 {
                Some(reference) => if table.metadata.snapshots.contains_key(reference.snapshot_id) {
                    None
                } else {
                    Some(unknown_snapshot(reference.snapshot_id))
                },
                None => None,
            }
        }
    }

    /// The entries that [`Self::entry_fault`] finds fault with.
    pub open spec fn is_faulty(self, table: TableView) -> spec_fn(Entry) -> bool {
        |entry: Entry| self.entry_fault(table, entry) is Some
    }

    /// The entries whose name is to have another reference than in the original table.
    pub open spec fn is_change(self) -> spec_fn(Entry) -> bool {
        |entry: Entry| entry.1 != self.original.metadata.reference(entry.0)
    }

    /// The update that makes an entry so.
    pub open spec fn update_for(entry: Entry) -> TableUpdateView {
        match entry.1 {
            Some(reference) => TableUpdateView::SetSnapshotRef { ref_name: entry.0, reference },
            None => TableUpdateView::RemoveSnapshotRef { ref_name: entry.0 },
        }
    }

    /// The requirement that a touched name still has its original snapshot, or
    /// still has none.
    pub open spec fn requirement_for(self, entry: Entry) -> TableRequirementView {
        TableRequirementView::RefSnapshotIdMatch {
            ref_name: entry.0,
            snapshot_id: head_of(self.original.metadata.reference(entry.0)),
        }
    }

    /// The updates among `entries`: one for each name whose reference changes.
    pub open spec fn updates_among(self, entries: Seq<Entry>) -> Seq<TableUpdateView> {
        entries.filter(self.is_change()).map_values(|entry: Entry| Self::update_for(entry))
    }

    /// The requirements of `entries`: the original table's UUID, then one for each
    /// name.
    pub open spec fn requirements_among(self, entries: Seq<Entry>) -> Seq<TableRequirementView> {
        seq![TableRequirementView::UuidMatch { uuid: self.original.metadata.table_uuid }]
            + entries.map_values(|entry: Entry| self.requirement_for(entry))
    }

    /// What the action asks of the catalog.
    pub open spec fn commit(self) -> ActionCommitView {
        ActionCommitView {
            updates: self.updates_among(self.entries()),
            requirements: self.requirements_among(self.entries()),
        }
    }

    /// Why the action cannot be committed to `table`, if it cannot. Of several
    /// faulty names the first, in name order, is reported.
    pub open spec fn commit_fault(self, table: TableView) -> Option<ErrorView> {
        let faulty = self.entries().filter(self.is_faulty(table));
        if !self.belongs_to(table) {
            Some(commit_conflict("Snapshot reference action belongs to a different table"@))
        } else if faulty.len() > 0 {
            self.entry_fault(table, faulty[0])
        } else if self.commit().updates.len() > 0 && table.metadata.format_version.number()
            < FormatVersion::V2.number() {
            Some(
                data_invalid("Snapshot reference mutations require format version V2 or later"@),
            )
        } else {
            None
        }
    }
}

} // verus!
