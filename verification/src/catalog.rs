//! What a commit asks of a catalog: updates, and the requirements under which they
//! may be made.

use vstd::prelude::*;

use crate::snapshot::SnapshotReference;
use crate::table::{reference_in, TableMetadataView};

verus! {

/// One change to the references of a table.
#[derive(Debug, PartialEq, Eq)]
pub enum TableUpdate {
    /// Give a name this reference, in place of any that it has.
    SetSnapshotRef { ref_name: String, reference: SnapshotReference },
    /// Take away the reference of a name.
    RemoveSnapshotRef { ref_name: String },
}

/// What a [`TableUpdate`] says.
pub enum TableUpdateView {
    SetSnapshotRef { ref_name: Seq<char>, reference: SnapshotReference },
    RemoveSnapshotRef { ref_name: Seq<char> },
}

impl View for TableUpdate {
    type V = TableUpdateView;

    open spec fn view(&self) -> TableUpdateView {
        match *self {
            TableUpdate::SetSnapshotRef { ref_name, reference } => TableUpdateView::SetSnapshotRef {
                ref_name: ref_name@,
                reference,
            },
            TableUpdate::RemoveSnapshotRef { ref_name } => TableUpdateView::RemoveSnapshotRef {
                ref_name: ref_name@,
            },
        }
    }
}

impl TableUpdateView {
    /// The name whose reference the update changes.
    pub open spec fn ref_name(self) -> Seq<char> {
        match self {
            TableUpdateView::SetSnapshotRef { ref_name, .. } => ref_name,
            TableUpdateView::RemoveSnapshotRef { ref_name } => ref_name,
        }
    }

    /// The reference that the name has after the update.
    pub open spec fn value(self) -> Option<SnapshotReference> {
        match self {
            TableUpdateView::SetSnapshotRef { reference, .. } => Some(reference),
            TableUpdateView::RemoveSnapshotRef { .. } => None,
        }
    }

    /// The references of a table after the update.
    pub open spec fn apply(self, refs: Map<Seq<char>, SnapshotReference>) -> Map<
        Seq<char>,
        SnapshotReference,
    > {
        match self {
            TableUpdateView::SetSnapshotRef { ref_name, reference } => refs.insert(
                ref_name,
                reference,
            ),
            TableUpdateView::RemoveSnapshotRef { ref_name } => refs.remove(ref_name),
        }
    }
}

/// The references of a table after `updates`, made in order.
pub open spec fn updated_refs(
    refs: Map<Seq<char>, SnapshotReference>,
    updates: Seq<TableUpdateView>,
) -> Map<Seq<char>, SnapshotReference>
    decreases updates.len(),
{
    if updates.len() == 0 {
        refs
    } else {
        updates.last().apply(updated_refs(refs, updates.drop_last()))
    }
}

/// A condition on the table under which a commit may be made.
#[derive(Debug, PartialEq, Eq)]
pub enum TableRequirement {
    /// The table has this UUID.
    UuidMatch { uuid: u128 },
    /// The name refers to this snapshot; where none is given, the name is free.
    RefSnapshotIdMatch { ref_name: String, snapshot_id: Option<i64> },
}

/// What a [`TableRequirement`] says.
pub enum TableRequirementView {
    UuidMatch { uuid: u128 },
    RefSnapshotIdMatch { ref_name: Seq<char>, snapshot_id: Option<i64> },
}

impl View for TableRequirement {
    type V = TableRequirementView;

    open spec fn view(&self) -> TableRequirementView {
        match *self {
            TableRequirement::UuidMatch { uuid } => TableRequirementView::UuidMatch { uuid },
            TableRequirement::RefSnapshotIdMatch { ref_name, snapshot_id } =>
                TableRequirementView::RefSnapshotIdMatch { ref_name: ref_name@, snapshot_id },
        }
    }
}

/// The snapshot that a reference names.
pub open spec fn head_of(reference: Option<SnapshotReference>) -> Option<i64> {
    match reference {
        Some(r) => Some(r.snapshot_id),
        None => None,
    }
}

impl TableRequirementView {
    /// The table meets the requirement.
    pub open spec fn is_met(self, metadata: TableMetadataView) -> bool {
        match self {
            TableRequirementView::UuidMatch { uuid } => metadata.table_uuid == uuid,
            TableRequirementView::RefSnapshotIdMatch { ref_name, snapshot_id } => head_of(
                reference_in(metadata.refs, ref_name),
            ) == snapshot_id,
        }
    }
}

/// The table meets every one of the requirements.
pub open spec fn all_met(
    requirements: Seq<TableRequirementView>,
    metadata: TableMetadataView,
) -> bool {
    forall|i: int| 0 <= i < requirements.len() ==> (#[trigger] requirements[i]).is_met(metadata)
}

/// What each of the updates says.
pub open spec fn update_views(updates: Seq<TableUpdate>) -> Seq<TableUpdateView> {
    updates.map_values(|u: TableUpdate| u@)
}

/// What each of the requirements says.
pub open spec fn requirement_views(requirements: Seq<TableRequirement>) -> Seq<
    TableRequirementView,
> {
    requirements.map_values(|r: TableRequirement| r@)
}

/// What an action asks of a catalog.
pub struct ActionCommit {
    updates: Vec<TableUpdate>,
    requirements: Vec<TableRequirement>,
}

/// What an [`ActionCommit`] holds.
pub struct ActionCommitView {
    pub updates: Seq<TableUpdateView>,
    pub requirements: Seq<TableRequirementView>,
}

impl View for ActionCommit {
    type V = ActionCommitView;

    closed spec fn view(&self) -> ActionCommitView {
        ActionCommitView {
            updates: update_views(self.updates@),
            requirements: requirement_views(self.requirements@),
        }
    }
}

impl ActionCommit {
    pub fn new(updates: Vec<TableUpdate>, requirements: Vec<TableRequirement>) -> (res: Self)
        ensures
            res@ == (ActionCommitView {
                updates: update_views(updates@),
                requirements: requirement_views(requirements@),
            }),
    {
        ActionCommit { updates, requirements }
    }

    /// Takes the updates out of the commit.
    pub fn take_updates(&mut self) -> (res: Vec<TableUpdate>)
        ensures
            update_views(res@) == old(self)@.updates,
            final(self)@ == (ActionCommitView { updates: seq![], ..old(self)@ }),
    {
        let mut updates: Vec<TableUpdate> = Vec::new();
        std::mem::swap(&mut updates, &mut self.updates);
        assert(self@.updates =~= seq![]);
        updates
    }

    /// Takes the requirements out of the commit.
    pub fn take_requirements(&mut self) -> (res: Vec<TableRequirement>)
        ensures
            requirement_views(res@) == old(self)@.requirements,
            final(self)@ == (ActionCommitView { requirements: seq![], ..old(self)@ }),
    {
        let mut requirements: Vec<TableRequirement> = Vec::new();
        std::mem::swap(&mut requirements, &mut self.requirements);
        assert(self@.requirements =~= seq![]);
        requirements
    }
}

} // verus!
