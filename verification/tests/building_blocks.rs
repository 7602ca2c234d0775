//! Name order, name maps, lineage and small values.

use snapshot_references::error::{Error, ErrorKind};
use snapshot_references::name_map::NameMap;
use snapshot_references::snapshot::{
    same_reference, Snapshot, SnapshotReference, SnapshotRetention, Snapshots,
};
use snapshot_references::table::{FormatVersion, TableIdent};
use snapshot_references::text::{compare_names, decimal_text, joined, same_text, NameOrder};

#[test]
fn numbers_are_written_in_decimal() {
    for n in [0, 7, 10, 123, -1, -40, i64::MAX, i64::MIN] {
        assert_eq!(decimal_text(n), n.to_string());
    }
}

#[test]
fn names_are_ordered_by_their_bytes() {
    let names = ["", "Z", "a", "aa", "ab", "b", "z", "\u{e9}", "\u{ffff}", "\u{10000}"];
    for a in names {
        for b in names {
            let expected = if a < b {
                NameOrder::Before
            } else if a == b {
                NameOrder::Same
            } else {
                NameOrder::After
            };
            assert_eq!(compare_names(a, b), expected);
            assert_eq!(same_text(a, b), a == b);
        }
    }
    assert_eq!(joined("a", "b"), "ab");
}

#[test]
fn a_name_map_keeps_each_name_once_in_order() {
    let mut map: NameMap<u32> = NameMap::new();
    assert_eq!(map.len(), 0);
    for (name, value) in [("m", 1), ("a", 2), ("z", 3), ("m", 4), ("b", 5)] {
        map.insert(name.to_string(), value);
    }
    let copy = map.clone();
    assert_eq!(copy, map);
    map.remove("b");
    map.remove("absent");
    assert_eq!(map.len(), 3);
    assert_eq!(map.entry(0), ("a", &2));
    assert_eq!(map.entry(1), ("m", &4));
    assert_eq!(map.entry(2), ("z", &3));
    assert_eq!(map.get("b"), None);
    assert_eq!(copy.get("b"), Some(&5));
    assert!(map.contains_key("z"));
    assert!(!map.contains_key("b"));
}

#[test]
fn lineage_follows_parents() {
    let mut snapshots = Snapshots::new();
    for (snapshot_id, parent_snapshot_id) in [(1, None), (2, Some(1)), (3, Some(2)), (9, Some(8))] {
        snapshots.insert(Snapshot { snapshot_id, parent_snapshot_id });
    }
    assert!(snapshots.is_ancestor(1, 3));
    assert!(snapshots.is_ancestor(3, 3));
    assert!(!snapshots.is_ancestor(3, 1));
    assert!(!snapshots.is_ancestor(8, 9));
    assert!(!snapshots.is_ancestor(7, 7));
    assert_eq!(snapshots.get(9).unwrap().parent_snapshot_id, Some(8));
    assert_eq!(snapshots.get(8), None);
}

#[test]
fn lineage_ends_in_a_cycle() {
    let mut snapshots = Snapshots::new();
    for (snapshot_id, parent) in [(1, 3), (2, 1), (3, 2), (4, 3)] {
        snapshots.insert(Snapshot { snapshot_id, parent_snapshot_id: Some(parent) });
    }
    assert!(snapshots.is_ancestor(1, 4));
    assert!(snapshots.is_ancestor(2, 1));
    assert!(!snapshots.is_ancestor(4, 1));
    assert!(!snapshots.is_ancestor(5, 4));
}

#[test]
fn references_differ_by_retention_too() {
    let a = SnapshotReference::new(1, SnapshotRetention::branch(None, None, None));
    let b = SnapshotReference::new(1, SnapshotRetention::branch(Some(1), None, None));
    let c = SnapshotReference::new(1, SnapshotRetention::Tag { max_ref_age_ms: None });
    assert!(same_reference(Some(&a), Some(&a)));
    assert!(same_reference(None, None));
    assert!(!same_reference(Some(&a), Some(&b)));
    assert!(!same_reference(Some(&a), Some(&c)));
    assert!(!same_reference(Some(&a), None));
    assert!(a.is_branch());
    assert!(!c.is_branch());
}

#[test]
fn identifiers_are_compared_level_by_level() {
    let ident = |namespace: &[&str], name: &str| TableIdent {
        namespace: namespace.iter().map(|level| level.to_string()).collect(),
        name: name.to_string(),
    };
    assert!(ident(&["a", "b"], "t").same_as(&ident(&["a", "b"], "t").clone()));
    assert!(!ident(&["a", "b"], "t").same_as(&ident(&["a"], "t")));
    assert!(!ident(&["a", "b"], "t").same_as(&ident(&["b", "a"], "t")));
    assert!(!ident(&["a"], "t").same_as(&ident(&["a"], "u")));
}

#[test]
fn versions_are_numbered_in_order() {
    assert_eq!(FormatVersion::V1.number(), 1);
    assert_eq!(FormatVersion::V2.number(), 2);
    assert_eq!(FormatVersion::V3.number(), 3);
}

#[test]
fn a_new_error_is_not_retryable() {
    let error = Error::new(ErrorKind::CatalogCommitConflicts, "changed".to_string());
    assert_eq!(error.kind(), ErrorKind::CatalogCommitConflicts);
    assert_eq!(error.message(), "changed");
    assert!(!error.retryable());
}
