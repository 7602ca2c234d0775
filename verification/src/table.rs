//! Tables: what identifies them, and the part of their metadata that references
//! depend on.

use vstd::prelude::*;
use vstd::string::*;

use crate::name_map::NameMap;
use crate::snapshot::{Snapshot, SnapshotReference, Snapshots};
use crate::text::same_text;

verus! {

/// The name of the branch that every reader follows by default.
pub const MAIN_BRANCH: &'static str = "main";

/// The version of the metadata format.
#[derive(Clone, Copy, Debug, PartialEq, Eq, Structural)]
pub enum FormatVersion {
    V1,
    V2,
    V3,
}

impl FormatVersion {
    /// The number of the version.
    pub open spec fn spec_number(self) -> u8 {
        match self {
            FormatVersion::V1 => 1,
            FormatVersion::V2 => 2,
            FormatVersion::V3 => 3,
        }
    }

    /// The number of the version; a later version has a greater one.
    #[verifier::when_used_as_spec(spec_number)]
    pub fn number(self) -> (res: u8)
        ensures
            res == self.number(),
    {
        match self {
            FormatVersion::V1 => 1,
            FormatVersion::V2 => 2,
            FormatVersion::V3 => 3,
        }
    }
}

/// What a table is called in a catalog: its namespace, level by level, and its name.
#[derive(Debug, PartialEq, Eq)]
pub struct TableIdent {
    pub namespace: Vec<String>,
    pub name: String,
}

/// The characters of a [`TableIdent`].
pub struct TableIdentView {
    pub namespace: Seq<Seq<char>>,
    pub name: Seq<char>,
}

/// The characters of each string.
pub open spec fn text_views(texts: Seq<String>) -> Seq<Seq<char>> {
    texts.map_values(|t: String| t@)
}

impl View for TableIdent {
    type V = TableIdentView;

    open spec fn view(&self) -> TableIdentView {
        TableIdentView { namespace: text_views(self.namespace@), name: self.name@ }
    }
}

impl Clone for TableIdent {
    fn clone(&self) -> (res: Self)
        ensures
            res@ == self@,
    {
        let mut namespace: Vec<String> = Vec::new();
        let mut i: usize = 0;
        while i < self.namespace.len()
            invariant
                i <= self.namespace@.len(),
                namespace@.len() == i,
                forall|j: int| 0 <= j < i ==> namespace@[j]@ == self.namespace@[j]@,
            decreases self.namespace@.len() - i,
        {
            namespace.push(self.namespace[i].clone());
            i = i + 1;
        }
        assert(text_views(namespace@) =~= text_views(self.namespace@));
        TableIdent { namespace, name: self.name.clone() }
    }
}

impl TableIdent {
    /// Whether both identify the same table.
    pub fn same_as(&self, other: &TableIdent) -> (res: bool)
        ensures
            res == (self@ == other@),
    {
        if self.namespace.len() != other.namespace.len() {
            assert(self@.namespace.len() != other@.namespace.len());
            return false;
        }
        let mut i: usize = 0;
        while i < self.namespace.len()
            invariant
                i <= self.namespace@.len(),
                self.namespace@.len() == other.namespace@.len(),
                forall|j: int| 0 <= j < i ==> self.namespace@[j]@ == other.namespace@[j]@,
            decreases self.namespace@.len() - i,
        {
            if !same_text(self.namespace[i].as_str(), other.namespace[i].as_str()) {
                assert(self@.namespace[i as int] != other@.namespace[i as int]);
                return false;
            }
            i = i + 1;
        }
        assert(self@.namespace =~= other@.namespace);
        same_text(self.name.as_str(), other.name.as_str())
    }
}

/// The metadata of a table, as far as references depend on it.
#[derive(Debug, PartialEq, Eq)]
pub struct TableMetadata {
    pub format_version: FormatVersion,
    pub table_uuid: u128,
    pub snapshots: Snapshots,
    pub refs: NameMap<SnapshotReference>,
}

/// What [`TableMetadata`] holds: of each known snapshot its parent, and of each
/// branch and tag its reference.
pub struct TableMetadataView {
    pub format_version: FormatVersion,
    pub table_uuid: u128,
    pub snapshots: Map<i64, Option<i64>>,
    pub refs: Map<Seq<char>, SnapshotReference>,
}

/// The reference that `refs` holds under `name`.
pub open spec fn reference_in(
    refs: Map<Seq<char>, SnapshotReference>,
    name: Seq<char>,
) -> Option<SnapshotReference> {
    if refs.contains_key(name) {
        Some(refs[name])
    } else {
        None
    }
}

impl TableMetadataView {
    /// The reference that the table has under `name`.
    pub open spec fn reference(self, name: Seq<char>) -> Option<SnapshotReference> {
        reference_in(self.refs, name)
    }

    /// Every reference names a snapshot that the table has.
    pub open spec fn references_resolve(self) -> bool {
        forall|name: Seq<char>| #[trigger]
            self.refs.contains_key(name) ==> self.snapshots.contains_key(self.refs[name].snapshot_id)
    }
}

impl View for TableMetadata {
    type V = TableMetadataView;

    open spec fn view(&self) -> TableMetadataView {
        TableMetadataView {
            format_version: self.format_version,
            table_uuid: self.table_uuid,
            snapshots: self.snapshots@,
            refs: self.refs@,
        }
    }
}

impl Clone for TableMetadata {
    fn clone(&self) -> (res: Self)
        ensures
            res@ == self@,
    {
        TableMetadata {
            format_version: self.format_version,
            table_uuid: self.table_uuid,
            snapshots: self.snapshots.clone(),
            refs: self.refs.clone(),
        }
    }
}

impl TableMetadata {
    pub fn uuid(&self) -> (res: u128)
        ensures
            res == self@.table_uuid,
    {
        self.table_uuid
    }

    pub fn format_version(&self) -> (res: FormatVersion)
        ensures
            res == self@.format_version,
    {
        self.format_version
    }

    /// The snapshot with that id, where the table has it.
    pub fn snapshot_by_id(&self, snapshot_id: i64) -> (res: Option<&Snapshot>)
        ensures
            match res {
                Some(s) => self@.snapshots.contains_key(snapshot_id) && s.snapshot_id
                    == snapshot_id && s.parent_snapshot_id == self@.snapshots[snapshot_id],
                None => !self@.snapshots.contains_key(snapshot_id),
            },
    {
        self.snapshots.get(snapshot_id)
    }
}

/// A table of a catalog.
#[derive(Debug)]
pub struct Table {
    identifier: TableIdent,
    metadata: TableMetadata,
}

/// What a [`Table`] is called, and what its metadata holds.
pub struct TableView {
    pub identifier: TableIdentView,
    pub metadata: TableMetadataView,
}

impl View for Table {
    type V = TableView;

    closed spec fn view(&self) -> TableView {
        TableView { identifier: self.identifier@, metadata: self.metadata@ }
    }
}

impl Clone for Table {
    fn clone(&self) -> (res: Self)
        ensures
            res@ == self@,
    {
        Table { identifier: self.identifier.clone(), metadata: self.metadata.clone() }
    }
}

impl Table {
    pub fn new(identifier: TableIdent, metadata: TableMetadata) -> (res: Self)
        ensures
            res@ == (TableView { identifier: identifier@, metadata: metadata@ }),
    {
        Table { identifier, metadata }
    }

    pub fn identifier(&self) -> (res: &TableIdent)
        ensures
            res@ == self@.identifier,
    {
        &self.identifier
    }

    pub fn metadata(&self) -> (res: &TableMetadata)
        ensures
            res@ == self@.metadata,
    {
        &self.metadata
    }
}

} // verus!
