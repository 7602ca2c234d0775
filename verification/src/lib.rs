//! Branches and tags of a snapshot-based table: composing changes to them, and
//! turning the composed change into what a catalog is asked to commit.
//!
//! [`action::UpdateSnapshotReferencesAction`] is made for a table and takes changes
//! one after another. Its contracts speak of [`action_model::ActionView`], which
//! says what each change and the commit do. What that comes to is stated as laws:
//! [`foundation_laws`] of text, order, lineage and requests, [`call_laws`] of single
//! calls, [`operation_laws`] of calls one after another, [`request_laws`] of what a
//! commit holds and is answered, and [`commit_laws`] of what it does to tables.

pub mod action;
pub mod action_model;
pub mod call_laws;
pub mod catalog;
pub mod commit_laws;
pub mod error;
pub mod foundation_laws;
pub mod name_map;
pub mod operation_laws;
pub mod request_laws;
pub mod snapshot;
pub mod table;
pub mod text;
