//! Scenarios: an action against a table, a refreshed table, and a catalog that
//! checks requirements before it makes updates.

use snapshot_references::action::UpdateSnapshotReferencesAction;
use snapshot_references::catalog::{TableRequirement, TableUpdate};
use snapshot_references::error::{Error, ErrorKind};
use snapshot_references::name_map::NameMap;
use snapshot_references::snapshot::{Snapshot, SnapshotReference, SnapshotRetention, Snapshots};
use snapshot_references::table::{FormatVersion, Table, TableIdent, TableMetadata, MAIN_BRANCH};

const OLD: i64 = 3051729675574597004;
const HEAD: i64 = 3055729675574597004;
const UUID: u128 = 0x9c12d441_03fe_4693_9a96_a0705ddf69c1;

fn ident() -> TableIdent {
    TableIdent {
        namespace: vec!["ns1".to_string()],
        name: "test1".to_string(),
    }
}

fn make_v1_table() -> Table {
    let mut snapshots = Snapshots::new();
    snapshots.insert(Snapshot { snapshot_id: OLD, parent_snapshot_id: None });
    Table::new(
        ident(),
        TableMetadata {
            format_version: FormatVersion::V1,
            table_uuid: UUID,
            snapshots,
            refs: NameMap::new(),
        },
    )
}

fn make_v2_table() -> Table {
    let mut snapshots = Snapshots::new();
    snapshots.insert(Snapshot { snapshot_id: OLD, parent_snapshot_id: None });
    snapshots.insert(Snapshot { snapshot_id: HEAD, parent_snapshot_id: Some(OLD) });
    let mut refs = NameMap::new();
    refs.insert(
        MAIN_BRANCH.to_string(),
        SnapshotReference::new(HEAD, SnapshotRetention::branch(None, None, None)),
    );
    Table::new(
        ident(),
        TableMetadata { format_version: FormatVersion::V2, table_uuid: UUID, snapshots, refs },
    )
}

fn branch(snapshot_id: i64) -> SnapshotReference {
    SnapshotReference::new(
        snapshot_id,
        SnapshotRetention::branch(Some(3), Some(1000), Some(2000)),
    )
}

fn tag(snapshot_id: i64) -> SnapshotReference {
    SnapshotReference::new(snapshot_id, SnapshotRetention::Tag { max_ref_age_ms: Some(3000) })
}

/// The table with its metadata changed.
fn changed(table: &Table, change: impl FnOnce(&mut TableMetadata)) -> Table {
    let mut metadata = table.metadata().clone();
    change(&mut metadata);
    Table::new(table.identifier().clone(), metadata)
}

fn with_ref(table: &Table, name: &str, reference: SnapshotReference) -> Table {
    changed(table, |metadata| metadata.refs.insert(name.to_string(), reference))
}

fn without_ref(table: &Table, name: &str) -> Table {
    changed(table, |metadata| metadata.refs.remove(name))
}

/// The snapshot that the table is read at: that of `main`.
fn current_snapshot_id(table: &Table) -> Option<i64> {
    table.metadata().refs.get(MAIN_BRANCH).map(|reference| reference.snapshot_id)
}

fn action(table: &Table) -> UpdateSnapshotReferencesAction {
    UpdateSnapshotReferencesAction::new(table)
}

struct TableCommit {
    updates: Vec<TableUpdate>,
    requirements: Vec<TableRequirement>,
}

fn commit_of(table: &Table, action: UpdateSnapshotReferencesAction) -> TableCommit {
    let mut commit = match action.commit(table) {
        Ok(commit) => commit,
        Err(error) => panic!("{}", error.message()),
    };
    TableCommit {
        updates: commit.take_updates(),
        requirements: commit.take_requirements(),
    }
}

impl TableCommit {
    /// Makes the updates, or hands back the first requirement that is not met.
    fn apply(self, table: &Table) -> Result<Table, TableRequirement> {
        for requirement in self.requirements {
            let met = match &requirement {
                TableRequirement::UuidMatch { uuid } => table.metadata().uuid() == *uuid,
                TableRequirement::RefSnapshotIdMatch { ref_name, snapshot_id } => {
                    table.metadata().refs.get(ref_name).map(|reference| reference.snapshot_id)
                        == *snapshot_id
                }
            };
            if !met {
                return Err(requirement);
            }
        }
        let updates = self.updates;
        Ok(changed(table, move |metadata| {
            for update in updates {
                match update {
                    TableUpdate::SetSnapshotRef { ref_name, reference } => {
                        metadata.refs.insert(ref_name, reference)
                    }
                    TableUpdate::RemoveSnapshotRef { ref_name } => metadata.refs.remove(&ref_name),
                }
            }
        }))
    }
}

/// A catalog that holds one table and counts the updates it is asked for.
struct Catalog {
    table: Table,
    update_requests: usize,
}

impl Catalog {
    fn new(table: &Table) -> Catalog {
        Catalog { table: table.clone(), update_requests: 0 }
    }

    /// Commits the action to the table as the catalog has it.
    fn commit(&mut self, action: UpdateSnapshotReferencesAction) -> Result<Table, Error> {
        let refreshed = self.table.clone();
        let mut commit = action.commit(&refreshed)?;
        self.update_requests += 1;
        let commit = TableCommit {
            updates: commit.take_updates(),
            requirements: commit.take_requirements(),
        };
        self.table = commit.apply(&self.table).unwrap();
        Ok(self.table.clone())
    }
}

fn refusal(result: Result<UpdateSnapshotReferencesAction, Error>) -> Error {
    match result {
        Ok(_) => panic!("accepted"),
        Err(error) => error,
    }
}

#[test]
fn v1_mutation_rejected_without_catalog_update() {
    let table = make_v1_table();
    let mut catalog = Catalog::new(&table);
    let error = catalog
        .commit(action(&table).create_ref("tag", tag(OLD)).unwrap())
        .err()
        .unwrap();
    assert_eq!(error.kind(), ErrorKind::DataInvalid);
    assert!(!error.retryable());
    assert!(error.message().contains("require format version V2 or later"));
    assert_eq!(catalog.update_requests, 0);
}

#[test]
fn v1_upgrade_then_create_tag_survives_metadata_roundtrip() {
    let table = make_v1_table();
    let reference = tag(OLD);
    let creation = action(&table).create_ref("tag", reference.clone()).unwrap();
    let upgraded = changed(&table, |metadata| metadata.format_version = FormatVersion::V2);
    let table = commit_of(&upgraded, creation).apply(&upgraded).unwrap();
    assert_eq!(table.metadata().format_version(), FormatVersion::V2);
    assert_eq!(table.metadata().refs.get("tag"), Some(&reference));
}

#[test]
fn typed_creation_and_normalized_batch() {
    let table = make_v2_table();
    let action = action(&table)
        .create_ref("temporary", branch(OLD))
        .unwrap()
        .fast_forward_branch("temporary", HEAD)
        .unwrap()
        .rename_ref("temporary", "branch")
        .unwrap()
        .create_ref("tag", tag(OLD))
        .unwrap();
    let mut commit = action.commit(&table).ok().unwrap();
    assert_eq!(commit.take_updates(), vec![
        TableUpdate::SetSnapshotRef {
            ref_name: "branch".into(),
            reference: branch(HEAD)
        },
        TableUpdate::SetSnapshotRef {
            ref_name: "tag".into(),
            reference: tag(OLD)
        },
    ]);
    assert_eq!(commit.take_requirements(), vec![
        TableRequirement::UuidMatch {
            uuid: table.metadata().uuid()
        },
        TableRequirement::RefSnapshotIdMatch {
            ref_name: "branch".into(),
            snapshot_id: None
        },
        TableRequirement::RefSnapshotIdMatch {
            ref_name: "tag".into(),
            snapshot_id: None
        },
        TableRequirement::RefSnapshotIdMatch {
            ref_name: "temporary".into(),
            snapshot_id: None
        },
    ]);
    assert!(commit.take_updates().is_empty());
    assert!(commit.take_requirements().is_empty());
}

#[test]
fn rename_is_atomic_and_asserts_both_original_heads() {
    for reference in [branch(OLD), tag(OLD)] {
        let table = with_ref(&make_v2_table(), "source", reference.clone());
        let renaming = || action(&table).rename_ref("source", "destination").unwrap();
        let updated = commit_of(&table, renaming()).apply(&table).unwrap();
        assert!(!updated.metadata().refs.contains_key("source"));
        assert_eq!(updated.metadata().refs.get("destination"), Some(&reference));
        for (raced, unmet) in [
            (
                with_ref(&table, "source", branch(HEAD)),
                TableRequirement::RefSnapshotIdMatch {
                    ref_name: "source".into(),
                    snapshot_id: Some(OLD),
                },
            ),
            (
                with_ref(&table, "destination", tag(HEAD)),
                TableRequirement::RefSnapshotIdMatch {
                    ref_name: "destination".into(),
                    snapshot_id: None,
                },
            ),
        ] {
            let before = raced.metadata().clone();
            let refused = commit_of(&table, renaming()).apply(&raced).err().unwrap();
            assert_eq!(refused, unmet);
            assert_eq!(raced.metadata(), &before);
        }
    }
}

#[test]
fn refresh_rejects_full_ref_changes_without_catalog_update() {
    let table = with_ref(&make_v2_table(), "branch", branch(OLD));
    for reference in [
        branch(HEAD),
        SnapshotReference::new(OLD, SnapshotRetention::branch(None, None, None)),
        tag(OLD),
    ] {
        let refreshed = with_ref(&table, "branch", reference);
        let mut catalog = Catalog::new(&refreshed);
        let error = catalog
            .commit(action(&table).fast_forward_branch("branch", HEAD).unwrap())
            .err()
            .unwrap();
        assert_eq!(error.kind(), ErrorKind::CatalogCommitConflicts);
        assert!(!error.retryable());
        assert_eq!(catalog.update_requests, 0);
    }
}

#[test]
fn refresh_rejects_created_or_removed_refs_and_wrong_table() {
    let table = make_v2_table();
    let creation = action(&table).create_ref("new", tag(OLD)).unwrap();
    let error = creation.commit(&with_ref(&table, "new", tag(HEAD))).err().unwrap();
    assert_eq!(error.kind(), ErrorKind::CatalogCommitConflicts);
    assert!(!error.retryable());
    let referenced = with_ref(&table, "gone", tag(OLD));
    let removal = action(&referenced).remove_ref("gone").unwrap();
    assert!(removal.commit(&table).is_err());
    let other = changed(&table, |metadata| metadata.table_uuid = 0x0123_4567_89ab_cdef);
    let creation = action(&table).create_ref("new", tag(OLD)).unwrap();
    assert!(creation.commit(&other).is_err());
}

#[test]
fn catalog_race_is_not_rebased_on_retry() {
    let table = with_ref(&make_v2_table(), "source", branch(OLD));
    let raced = with_ref(&table, "source", branch(HEAD));
    let renaming = action(&table).rename_ref("source", "dest").unwrap();
    let mut first = renaming.commit(&table).ok().unwrap();
    let attempt = TableCommit {
        updates: first.take_updates(),
        requirements: first.take_requirements(),
    };
    assert!(attempt.apply(&raced).is_err());
    let error = renaming.commit(&raced).err().unwrap();
    assert_eq!(error.kind(), ErrorKind::CatalogCommitConflicts);
    assert!(!error.retryable());
    assert!(error.message().contains("changed since action creation"));
}

#[test]
fn unrelated_refresh_is_allowed_but_protocol_cannot_assert_retention() {
    let table = with_ref(&make_v2_table(), "source", branch(OLD));
    let renaming = || action(&table).rename_ref("source", "dest").unwrap();
    let refreshed = with_ref(&table, "unrelated", tag(HEAD));
    assert!(renaming().commit(&refreshed).is_ok());
    let raced = with_ref(&table, "source", tag(OLD));
    // Requirements compare heads, not the full reference value.
    assert!(commit_of(&table, renaming()).apply(&raced).is_ok());
}

#[test]
fn target_snapshot_must_still_exist_at_refresh() {
    let table = make_v2_table();
    let creation = action(&table).create_ref("tag", tag(OLD)).unwrap();
    let refreshed = changed(&table, |metadata| metadata.snapshots.remove(OLD));
    let error = creation.commit(&refreshed).err().unwrap();
    assert_eq!(error.kind(), ErrorKind::DataInvalid);
    assert_eq!(error.message(), "Unknown snapshot: 3051729675574597004");
    assert!(!error.retryable());
}

#[test]
fn branch_moves_preserve_retention_and_validate_ancestry() {
    let table = with_ref(&make_v2_table(), "branch", branch(OLD));
    let forward = action(&table).fast_forward_branch("branch", HEAD).unwrap();
    let updated = commit_of(&table, forward).apply(&table).unwrap();
    assert_eq!(updated.metadata().refs.get("branch"), Some(&branch(HEAD)));
    assert_eq!(current_snapshot_id(&updated), Some(HEAD));
    assert!(action(&updated).fast_forward_branch("branch", OLD).is_err());
    assert!(action(&updated).fast_forward_branch("branch", HEAD).is_ok());
    let reset = action(&updated).set_branch_snapshot("branch", OLD).unwrap();
    let updated = commit_of(&updated, reset).apply(&updated).unwrap();
    assert_eq!(updated.metadata().refs.get("branch"), Some(&branch(OLD)));
    let reset = action(&updated).set_branch_snapshot(MAIN_BRANCH, OLD).unwrap();
    let updated = commit_of(&updated, reset).apply(&updated).unwrap();
    assert_eq!(current_snapshot_id(&updated), Some(OLD));

    let table = changed(&updated, |metadata| {
        metadata.snapshots.insert(Snapshot { snapshot_id: 123, parent_snapshot_id: None })
    });
    assert!(action(&table).fast_forward_branch("branch", 123).is_err());
    assert!(action(&table).set_branch_snapshot("branch", 123).is_ok());
}

#[test]
fn invalid_operations() {
    let table = with_ref(&make_v2_table(), "tag", tag(OLD));
    assert!(action(&table).create_ref("tag", branch(HEAD)).is_err());
    assert!(action(&table).create_ref("", tag(OLD)).is_err());
    assert!(action(&table).create_ref("missing", tag(-123)).is_err());
    assert!(
        action(&table)
            .create_ref(
                "invalid",
                SnapshotReference::new(OLD, SnapshotRetention::Tag {
                    max_ref_age_ms: Some(0)
                })
            )
            .is_err()
    );
    assert!(action(&table).remove_ref(MAIN_BRANCH).is_err());
    assert!(action(&table).remove_ref("missing").is_err());
    assert!(action(&table).rename_ref(MAIN_BRANCH, "other").is_err());
    assert!(action(&table).rename_ref("tag", MAIN_BRANCH).is_err());
    assert!(action(&table).rename_ref("tag", "tag").is_err());
    assert!(action(&table).rename_ref("missing", "other").is_err());
    assert!(action(&table).set_branch_snapshot("tag", HEAD).is_err());
    assert!(action(&table).fast_forward_branch("tag", HEAD).is_err());
    assert!(action(&table).set_branch_snapshot("missing", HEAD).is_err());
    assert!(action(&table).set_branch_snapshot(MAIN_BRANCH, -123).is_err());
    assert!(action(&table).fast_forward_branch(MAIN_BRANCH, -123).is_err());
    let empty = without_ref(&table, MAIN_BRANCH);
    assert!(action(&empty).create_ref(MAIN_BRANCH, tag(OLD)).is_err());
}

#[test]
fn dependent_actions_fail_instead_of_asserting_intermediate_heads() {
    let table = with_ref(&make_v2_table(), "branch", branch(OLD));
    let first = action(&table).set_branch_snapshot("branch", HEAD).unwrap();
    let second = action(&table).rename_ref("branch", "renamed").unwrap();
    let between = commit_of(&table, first).apply(&table).unwrap();
    let error = second.commit(&between).err().unwrap();
    assert_eq!(error.kind(), ErrorKind::CatalogCommitConflicts);
    assert!(!error.retryable());
}

#[test]
fn memory_catalog_roundtrip() {
    let mut catalog = Catalog::new(&without_ref(&make_v2_table(), MAIN_BRANCH));
    let table = catalog.table.clone();
    let table = catalog
        .commit(
            action(&table)
                .create_ref(MAIN_BRANCH, branch(HEAD))
                .unwrap()
                .create_ref("branch", branch(OLD))
                .unwrap()
                .create_ref("tag", tag(OLD))
                .unwrap(),
        )
        .ok()
        .unwrap();
    let table = catalog
        .commit(
            action(&table)
                .fast_forward_branch("branch", HEAD)
                .unwrap()
                .rename_ref("branch", "renamed")
                .unwrap()
                .remove_ref("tag")
                .unwrap(),
        )
        .ok()
        .unwrap();
    let loaded = catalog.table.clone();
    assert_eq!(loaded.metadata(), table.metadata());
    assert_eq!(loaded.metadata().refs.get("renamed"), Some(&branch(HEAD)));
    assert!(!loaded.metadata().refs.contains_key("branch"));
    assert!(!loaded.metadata().refs.contains_key("tag"));
    assert_eq!(current_snapshot_id(&loaded), Some(HEAD));
    assert_eq!(catalog.update_requests, 2);
}

#[test]
fn refusals_say_what_is_wrong() {
    let table = with_ref(&make_v2_table(), "tag", tag(OLD));
    let cases = [
        (
            action(&table).create_ref("", tag(OLD)),
            "Reference name is empty or already exists: ",
        ),
        (
            action(&table).create_ref("tag", tag(OLD)),
            "Reference name is empty or already exists: tag",
        ),
        (
            action(&table).create_ref("new", branch(-123)),
            "Unknown snapshot: -123",
        ),
        (
            action(&table).create_ref("new", branch(i64::MIN)),
            "Unknown snapshot: -9223372036854775808",
        ),
        (
            action(&table).create_ref("new", branch(0)),
            "Unknown snapshot: 0",
        ),
        (
            action(&without_ref(&table, MAIN_BRANCH)).create_ref(MAIN_BRANCH, tag(OLD)),
            "main must be a branch",
        ),
        (
            action(&table).remove_ref(MAIN_BRANCH),
            "Cannot remove main or a missing reference: main",
        ),
        (
            action(&table).remove_ref("missing"),
            "Cannot remove main or a missing reference: missing",
        ),
        (
            action(&table).rename_ref("missing", "tag"),
            "Cannot rename main, or rename to an empty or existing reference",
        ),
        (
            action(&table).rename_ref("tag", ""),
            "Cannot rename main, or rename to an empty or existing reference",
        ),
        (
            action(&table).rename_ref("missing", "other"),
            "Reference does not exist: missing",
        ),
        (
            action(&table).set_branch_snapshot("missing", OLD),
            "Reference does not exist: missing",
        ),
        (
            action(&table).set_branch_snapshot("tag", OLD),
            "Reference is not a branch: tag",
        ),
        (
            action(&table).set_branch_snapshot(MAIN_BRANCH, 77),
            "Unknown snapshot: 77",
        ),
        (
            action(&table).fast_forward_branch("missing", OLD),
            "Reference does not exist: missing",
        ),
        (
            action(&table).fast_forward_branch(MAIN_BRANCH, OLD),
            "Snapshot 3051729675574597004 is not a descendant of branch main",
        ),
        (
            action(&table).fast_forward_branch("tag", HEAD),
            "Reference is not a branch: tag",
        ),
    ];
    for (result, message) in cases {
        let error = refusal(result);
        assert_eq!(error.message(), message);
        assert_eq!(error.kind(), ErrorKind::DataInvalid);
        assert!(!error.retryable());
    }
}

#[test]
fn retention_limits_must_be_positive() {
    let table = make_v2_table();
    for retention in [
        SnapshotRetention::branch(Some(0), None, None),
        SnapshotRetention::branch(None, Some(-1), None),
        SnapshotRetention::branch(Some(1), Some(1), Some(0)),
        SnapshotRetention::Tag { max_ref_age_ms: Some(-5) },
    ] {
        let error = refusal(
            action(&table).create_ref("new", SnapshotReference::new(OLD, retention)),
        );
        assert_eq!(error.message(), "Reference retention values must be positive");
    }
    for retention in [
        SnapshotRetention::branch(None, None, None),
        SnapshotRetention::branch(Some(1), Some(1), Some(1)),
        SnapshotRetention::Tag { max_ref_age_ms: None },
    ] {
        let reference = SnapshotReference::new(OLD, retention);
        let created = action(&table).create_ref("new", reference).unwrap();
        assert_eq!(created.reference("new"), Some(&reference));
        assert_eq!(created.reference(MAIN_BRANCH).unwrap().snapshot_id, HEAD);
    }
}

#[test]
fn names_may_be_owned_or_borrowed() {
    let table = make_v2_table();
    let owned = "renamed".to_string();
    let renamed = action(&table)
        .create_ref("tag".to_string(), tag(OLD))
        .unwrap()
        .rename_ref("tag", &owned)
        .unwrap();
    assert_eq!(renamed.reference("tag"), None);
    assert_eq!(renamed.reference(&owned), Some(&tag(OLD)));
}

#[test]
fn a_commit_to_another_table_conflicts() {
    let table = make_v2_table();
    let creation = action(&table).create_ref("new", tag(OLD)).unwrap();
    let metadata = table.metadata();
    let others = [
        Table::new(
            TableIdent { namespace: vec!["ns1".to_string()], name: "test2".to_string() },
            metadata.clone(),
        ),
        Table::new(
            TableIdent { namespace: vec!["ns2".to_string()], name: "test1".to_string() },
            metadata.clone(),
        ),
        Table::new(
            TableIdent {
                namespace: vec!["ns1".to_string(), "ns1".to_string()],
                name: "test1".to_string(),
            },
            metadata.clone(),
        ),
        changed(&table, |metadata| metadata.table_uuid += 1),
    ];
    for other in others {
        let error = creation.commit(&other).err().unwrap();
        assert_eq!(error.kind(), ErrorKind::CatalogCommitConflicts);
        assert_eq!(
            error.message(),
            "Snapshot reference action belongs to a different table"
        );
        assert!(!error.retryable());
    }
}

#[test]
fn the_first_faulty_name_is_reported() {
    let table = with_ref(&make_v2_table(), "b", branch(OLD));
    let action = action(&table)
        .set_branch_snapshot("b", HEAD)
        .unwrap()
        .create_ref("a", tag(OLD))
        .unwrap()
        .create_ref("c", tag(OLD))
        .unwrap();
    let conflicting = with_ref(&with_ref(&table, "c", tag(OLD)), "b", tag(OLD));
    let error = action.commit(&conflicting).err().unwrap();
    assert_eq!(error.message(), "Snapshot reference changed since action creation: b");
    assert_eq!(error.kind(), ErrorKind::CatalogCommitConflicts);
    let lacking = changed(&conflicting, |metadata| metadata.snapshots.remove(OLD));
    let error = action.commit(&lacking).err().unwrap();
    assert_eq!(error.message(), "Unknown snapshot: 3051729675574597004");
    assert_eq!(error.kind(), ErrorKind::DataInvalid);
}

#[test]
fn what_is_undone_is_not_committed() {
    let table = with_ref(&make_v2_table(), "b", branch(OLD));
    let undone = action(&table)
        .create_ref("new", tag(OLD))
        .unwrap()
        .remove_ref("new")
        .unwrap()
        .set_branch_snapshot("b", HEAD)
        .unwrap()
        .set_branch_snapshot("b", OLD)
        .unwrap()
        .rename_ref("b", "c")
        .unwrap()
        .rename_ref("c", "b")
        .unwrap()
        .remove_ref("b")
        .unwrap()
        .create_ref("b", branch(OLD))
        .unwrap()
        .fast_forward_branch(MAIN_BRANCH, HEAD)
        .unwrap();
    let old_format = changed(&table, |metadata| metadata.format_version = FormatVersion::V1);
    let mut commit = undone.commit(&old_format).ok().unwrap();
    assert!(commit.take_updates().is_empty());
    let heads: Vec<(String, Option<i64>)> = commit
        .take_requirements()
        .into_iter()
        .filter_map(|requirement| match requirement {
            TableRequirement::RefSnapshotIdMatch { ref_name, snapshot_id } => {
                Some((ref_name, snapshot_id))
            }
            TableRequirement::UuidMatch { .. } => None,
        })
        .collect();
    assert_eq!(heads, vec![
        ("b".to_string(), Some(OLD)),
        ("c".to_string(), None),
        ("main".to_string(), Some(HEAD)),
        ("new".to_string(), None),
    ]);
}

#[test]
fn removal_is_committed_as_such() {
    let table = with_ref(&make_v2_table(), "b", branch(OLD));
    let commit = commit_of(&table, action(&table).remove_ref("b").unwrap());
    assert_eq!(commit.updates, vec![TableUpdate::RemoveSnapshotRef { ref_name: "b".into() }]);
    let updated = commit.apply(&table).unwrap();
    assert_eq!(updated.metadata(), make_v2_table().metadata());
}

#[test]
fn actions_on_different_names_do_not_disturb_each_other() {
    let table = make_v2_table();
    let first = action(&table).create_ref("a", tag(OLD)).unwrap();
    let second = action(&table).create_ref("b", tag(HEAD)).unwrap();
    let between = commit_of(&table, first).apply(&table).unwrap();
    let after = commit_of(&between, second).apply(&between).unwrap();
    assert_eq!(after.metadata().refs.get("a"), Some(&tag(OLD)));
    assert_eq!(after.metadata().refs.get("b"), Some(&tag(HEAD)));
    assert_eq!(after.metadata().refs.len(), 3);
}

#[test]
fn fast_forwards_compose_along_the_lineage() {
    let table = changed(&make_v2_table(), |metadata| {
        metadata.snapshots.insert(Snapshot { snapshot_id: 5, parent_snapshot_id: Some(HEAD) });
        metadata.refs.insert("b".to_string(), branch(OLD));
    });
    let stepwise = action(&table)
        .fast_forward_branch("b", HEAD)
        .unwrap()
        .fast_forward_branch("b", 5)
        .unwrap();
    let direct = action(&table).fast_forward_branch("b", 5).unwrap();
    assert_eq!(stepwise.reference("b"), Some(&branch(5)));
    assert_eq!(direct.reference("b"), Some(&branch(5)));
    assert!(stepwise.fast_forward_branch("b", HEAD).is_err());
    let broken = changed(&table, |metadata| metadata.snapshots.remove(HEAD));
    assert!(action(&broken).fast_forward_branch("b", 5).is_err());
}

#[test]
fn main_is_only_ever_a_branch() {
    let table = without_ref(&make_v2_table(), MAIN_BRANCH);
    let created = action(&table).create_ref(MAIN_BRANCH, branch(OLD)).unwrap();
    let moved = created.fast_forward_branch(MAIN_BRANCH, HEAD).unwrap();
    assert_eq!(moved.reference(MAIN_BRANCH), Some(&branch(HEAD)));
    assert!(moved.remove_ref(MAIN_BRANCH).is_err());
    let tagged = with_ref(&table, MAIN_BRANCH, tag(OLD));
    assert!(action(&tagged).set_branch_snapshot(MAIN_BRANCH, HEAD).is_err());
}
