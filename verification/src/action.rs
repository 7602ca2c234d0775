//! The action that changes branches and tags.

use vstd::prelude::*;
use vstd::string::*;

use crate::action_model::{ActionView, Entry};
use crate::catalog::{
    requirement_views, update_views, ActionCommit, TableRequirement, TableUpdate,
};
use crate::error::Error;
use crate::name_map::{listing, IntoName, NameMap};
use crate::snapshot::{same_reference, SnapshotReference};
use crate::table::{FormatVersion, Table, TableView, MAIN_BRANCH};
use crate::text::{decimal_text, joined, same_text};

verus! {

/// Updates snapshot branches and tags without writing snapshot or manifest files.
///
/// Mutations require format version V2 or later, since V1 does not persist references.
/// An earlier format upgrade in the same transaction satisfies this requirement.
///
/// Calls compose in order within this action, but only the final reference values
/// are committed. Snapshots must exist in the original table and at commit time.
/// Nothing earlier in the transaction may change references touched by this action;
/// put dependent reference operations in a single action instead.
///
/// On refresh, changes to any touched reference (including type and retention)
/// cause a non-retryable conflict rather than rebasing the operation. Catalog
/// requirements assert the original table UUID and reference heads or absence.
/// They cannot detect same-head type or retention changes after refresh, or assert
/// the full metadata version.
pub struct UpdateSnapshotReferencesAction {
    original: Table,
    desired: NameMap<Option<SnapshotReference>>,
}

impl View for UpdateSnapshotReferencesAction {
    type V = ActionView;

    closed spec fn view(&self) -> ActionView {
        ActionView { original: self.original@, desired: self.desired@ }
    }
}

impl UpdateSnapshotReferencesAction {
    /// An action on `table` that changes nothing yet.
    pub fn new(table: &Table) -> (res: Self)
        ensures
            res@ == ActionView::start(table@),
    {
        UpdateSnapshotReferencesAction { original: table.clone(), desired: NameMap::new() }
    }

    /// Create an absent branch or tag with its typed retention policy.
    /// `main` may only be a branch. Existing references are never overwritten.
    pub fn create_ref<N: IntoName>(self, name: N, reference: SnapshotReference) -> (res: Result<
        Self,
        Error,
    >)
        ensures
            match res {
                Ok(action) => self@.create_fault(name.name(), reference) is None && action@
                    == self@.created(name.name(), reference),
                Err(error) => self@.create_fault(name.name(), reference) == Some(error@),
            },
    {
        let name = name.into_name();
        if name.as_str().is_empty() || self.reference(name.as_str()).is_some() {
            return Err(
                Error::invalid_at("Reference name is empty or already exists: ", name.as_str()),
            );
        }
        if same_text(name.as_str(), MAIN_BRANCH) && !reference.is_branch() {
            return Err(Error::invalid("main must be a branch"));
        }
        if !reference.retention.is_positive() {
            return Err(Error::invalid("Reference retention values must be positive"));
        }
        match self.check_snapshot(reference.snapshot_id) {
            Ok(()) => {},
            Err(error) => {
                return Err(error);
            },
        }
        let mut action = self;
        action.desired.insert(name, Some(reference));
        Ok(action)
    }

    /// Remove an existing branch or tag. Removing `main` is not allowed.
    pub fn remove_ref<N: IntoName>(self, name: N) -> (res: Result<Self, Error>)
        ensures
            match res {
                Ok(action) => self@.remove_fault(name.name()) is None && action@ == self@.removed(
                    name.name(),
                ),
                Err(error) => self@.remove_fault(name.name()) == Some(error@),
            },
    {
        let name = name.into_name();
        if same_text(name.as_str(), MAIN_BRANCH) || self.reference(name.as_str()).is_none() {
            return Err(
                Error::invalid_at("Cannot remove main or a missing reference: ", name.as_str()),
            );
        }
        let mut action = self;
        action.desired.insert(name, None);
        Ok(action)
    }

    /// Atomically rename an existing branch or tag to an absent name, preserving retention.
    /// Neither name may be `main`.
    pub fn rename_ref<S: IntoName, D: IntoName>(self, source: S, destination: D) -> (res: Result<
        Self,
        Error,
    >)
        ensures
            match res {
                Ok(action) => self@.rename_fault(source.name(), destination.name()) is None
                    && action@ == self@.renamed(source.name(), destination.name()),
                Err(error) => self@.rename_fault(source.name(), destination.name()) == Some(error@),
            },
    {
        let source = source.into_name();
        let destination = destination.into_name();
        if same_text(source.as_str(), MAIN_BRANCH) || same_text(destination.as_str(), MAIN_BRANCH)
            || destination.as_str().is_empty() || self.reference(destination.as_str()).is_some() {
            return Err(
                Error::invalid("Cannot rename main, or rename to an empty or existing reference"),
            );
        }
        let reference = match self.reference(source.as_str()) {
            Some(reference) => *reference,
            None => {
                return Err(Error::invalid_at("Reference does not exist: ", source.as_str()));
            },
        };
        let mut action = self;
        action.desired.insert(source, None);
        action.desired.insert(destination, Some(reference));
        Ok(action)
    }

    /// Advance an existing branch to a descendant snapshot (or its current head).
    /// The branch's retention policy is preserved; tags cannot be advanced.
    pub fn fast_forward_branch<N: IntoName>(self, name: N, snapshot_id: i64) -> (res: Result<
        Self,
        Error,
    >)
        ensures
            match res {
                Ok(action) => self@.fast_forward_fault(name.name(), snapshot_id) is None && action@
                    == self@.branch_set(name.name(), snapshot_id),
                Err(error) => self@.fast_forward_fault(name.name(), snapshot_id) == Some(error@),
            },
    {
        let name = name.into_name();
        let head: i64 = match self.reference(name.as_str()) {
            Some(reference) => reference.snapshot_id,
            None => {
                return Err(Error::invalid_at("Reference does not exist: ", name.as_str()));
            },
        };
        if !self.original.metadata().snapshots.is_ancestor(head, snapshot_id) {
            let mut message = joined("Snapshot ", decimal_text(snapshot_id).as_str());
            message.append(" is not a descendant of branch ");
            return Err(Error::invalid_at(message.as_str(), name.as_str()));
        }
        self.set_branch_snapshot(name, snapshot_id)
    }

    /// Set an existing branch to any existing snapshot, preserving retention.
    /// Unlike fast-forward, this permits rollback or switching lineage. Tags are rejected.
    pub fn set_branch_snapshot<N: IntoName>(self, name: N, snapshot_id: i64) -> (res: Result<
        Self,
        Error,
    >)
        ensures
            match res {
                Ok(action) => self@.set_branch_fault(name.name(), snapshot_id) is None && action@
                    == self@.branch_set(name.name(), snapshot_id),
                Err(error) => self@.set_branch_fault(name.name(), snapshot_id) == Some(error@),
            },
    {
        let name = name.into_name();
        let mut reference = match self.reference(name.as_str()) {
            Some(reference) => *reference,
            None => {
                return Err(Error::invalid_at("Reference does not exist: ", name.as_str()));
            },
        };
        if !reference.is_branch() {
            return Err(Error::invalid_at("Reference is not a branch: ", name.as_str()));
        }
        match self.check_snapshot(snapshot_id) {
            Ok(()) => {},
            Err(error) => {
                return Err(error);
            },
        }
        reference.snapshot_id = snapshot_id;
        let mut action = self;
        action.desired.insert(name, Some(reference));
        Ok(action)
    }

    /// The reference that `name` has once the operations so far have been made.
    pub fn reference(&self, name: &str) -> (res: Option<&SnapshotReference>)
        ensures
            match res {
                Some(reference) => self@.reference(name@) == Some(*reference),
                None => self@.reference(name@) is None,
            },
    {
        match self.desired.get(name) {
            Some(reference) => reference.as_ref(),
            None => self.original.metadata().refs.get(name),
        }
    }

    fn check_snapshot(&self, snapshot_id: i64) -> (res: Result<(), Error>)
        ensures
            match res {
                Ok(()) => self@.snapshot_fault(snapshot_id) is None,
                Err(error) => self@.snapshot_fault(snapshot_id) == Some(error@),
            },
    {
        if self.original.metadata().snapshot_by_id(snapshot_id).is_none() {
            return Err(
                Error::invalid_at("Unknown snapshot: ", decimal_text(snapshot_id).as_str()),
            );
        }
        Ok(())
    }

    /// What the action asks of the catalog, given the table as it stands now: the
    /// updates that make the touched references what they are to be, where they are
    /// not so already, and the requirements under which that is still right.
    pub fn commit(&self, table: &Table) -> (res: Result<ActionCommit, Error>)
        ensures
            self@.desired.dom().finite(),
            match res {
                Ok(commit) => self@.commit_fault(table@) is None && commit@ == self@.commit(),
                Err(error) => self@.commit_fault(table@) == Some(error@),
            },
    {
        let original = self.original.metadata();
        let current = table.metadata();
        let touched: usize = self.desired.len();
        if !table.identifier().same_as(self.original.identifier()) || current.uuid()
            != original.uuid() {
            return Err(Error::conflict("Snapshot reference action belongs to a different table"));
        }
        let ghost entries: Seq<Entry> = self@.entries();
        let ghost faulty = self@.is_faulty(table@);
        let mut requirements: Vec<TableRequirement> = Vec::new();
        requirements.push(TableRequirement::UuidMatch { uuid: original.uuid() });
        let mut updates: Vec<TableUpdate> = Vec::new();
        let mut i: usize = 0;
        proof {
            assert(entries.take(0).filter(faulty) =~= seq![]) by {
                reveal(Seq::filter);
            }
            assert(entries.take(0).filter(self@.is_change()) =~= seq![]) by {
                reveal(Seq::filter);
            }
            assert(update_views(updates@) =~= self@.updates_among(entries.take(0)));
            assert(requirement_views(requirements@) =~= self@.requirements_among(entries.take(0)));
        }
        while i < touched
            invariant
                i <= entries.len(),
                touched == entries.len(),
                self@.desired.dom().finite(),
                entries == self@.entries(),
                entries == listing(self.desired@),
                original@ == self@.original.metadata,
                current@ == table@.metadata,
                self@.belongs_to(table@),
                faulty == self@.is_faulty(table@),
                entries.take(i as int).filter(faulty).len() == 0,
                update_views(updates@) == self@.updates_among(entries.take(i as int)),
                requirement_views(requirements@) == self@.requirements_among(
                    entries.take(i as int),
                ),
            decreases entries.len() - i,
        {
            let (name, desired) = self.desired.entry(i);
            let ghost entry: Entry = entries[i as int];
            proof {
                lemma_next_entry(self@, table@, entries, i as int);
            }
            let expected = original.refs.get(name);
            if !same_reference(current.refs.get(name), expected) {
                return Err(
                    Error::conflict_at(
                        "Snapshot reference changed since action creation: ",
                        name,
                    ),
                );
            }
            let head: Option<i64> = match expected {
                Some(reference) => Some(reference.snapshot_id),
                None => None,
            };
            let ghost requirements_before = requirements@;
            requirements.push(
                TableRequirement::RefSnapshotIdMatch {
                    ref_name: String::from_str(name),
                    snapshot_id: head,
                },
            );
            assert(requirement_views(requirements@) =~= requirement_views(requirements_before).push(
                self@.requirement_for(entry),
            ));
            if let Some(reference) = desired {
                if current.snapshot_by_id(reference.snapshot_id).is_none() {
                    return Err(
                        Error::invalid_at(
                            "Unknown snapshot: ",
                            decimal_text(reference.snapshot_id).as_str(),
                        ),
                    );
                }
            }
            if !same_reference(desired.as_ref(), expected) {
                let ghost updates_before = updates@;
                updates.push(
                    match desired {
                        Some(reference) => TableUpdate::SetSnapshotRef {
                            ref_name: String::from_str(name),
                            reference: *reference,
                        },
                        None => TableUpdate::RemoveSnapshotRef { ref_name: String::from_str(name) },
                    },
                );
                assert(update_views(updates@) =~= update_views(updates_before).push(
                    ActionView::update_for(entry),
                ));
            }
            i = i + 1;
        }
        assert(entries.take(i as int) =~= entries);
        if !updates.is_empty() && current.format_version().number() < FormatVersion::V2.number() {
            return Err(
                Error::invalid("Snapshot reference mutations require format version V2 or later"),
            );
        }
        Ok(ActionCommit::new(updates, requirements))
    }
}

/// What one more entry adds to the updates, the requirements and the faults.
proof fn lemma_next_entry(action: ActionView, table: TableView, entries: Seq<Entry>, i: int)
    requires
        0 <= i < entries.len(),
        entries.take(i).filter(action.is_faulty(table)).len() == 0,
    ensures
        action.requirements_among(entries.take(i + 1)) == action.requirements_among(
            entries.take(i),
        ).push(action.requirement_for(entries[i])),
        action.updates_among(entries.take(i + 1)) == (if (action.is_change())(entries[i]) {
            action.updates_among(entries.take(i)).push(ActionView::update_for(entries[i]))
        } else {
            action.updates_among(entries.take(i))
        }),
        action.entry_fault(table, entries[i]) is None ==> entries.take(i + 1).filter(
            action.is_faulty(table),
        ).len() == 0,
        action.entry_fault(table, entries[i]) is Some ==> {
            let faulty = entries.filter(action.is_faulty(table));
            faulty.len() > 0 && faulty[0] == entries[i]
        },
{
    let before = entries.take(i);
    let after = entries.take(i + 1);
    assert(after.drop_last() =~= before);
    assert(after.last() == entries[i]);
    assert(action.requirements_among(after) =~= action.requirements_among(before).push(
        action.requirement_for(entries[i]),
    ));
    reveal(Seq::filter);
    if (action.is_change())(entries[i]) {
        assert(action.updates_among(after) =~= action.updates_among(before).push(
            ActionView::update_for(entries[i]),
        ));
    } else {
        assert(action.updates_among(after) =~= action.updates_among(before));
    }
    if action.entry_fault(table, entries[i]) is Some {
        let faulty = action.is_faulty(table);
        assert(faulty(entries[i]));
        assert(after.filter(faulty) =~= before.filter(faulty).push(entries[i]));
        Seq::filter_distributes_over_add(after, entries.skip(i + 1), faulty);
        assert(after + entries.skip(i + 1) =~= entries);
        assert(entries.filter(faulty)[0] == after.filter(faulty)[0]);
    }
}

} // verus!
