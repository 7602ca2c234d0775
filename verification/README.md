# snapshot_references

Changes to the branches and tags of a snapshot-based table, verified with Verus.

An `UpdateSnapshotReferencesAction` is made for a table. References are created,
removed, renamed and moved through it, one call after another; the calls compose,
and only what they come to is committed. The commit compares the table as it stands
then with the table the action was made for, and gives back the updates and
requirements for the catalog, or says why there can be none.

- `src/action.rs`: the action. Its contracts say for every call when it is accepted,
  what it then gives back, and with which error it is refused.
- `src/action_model.rs`: the state of an action, and what each call and the commit do
  to it, as specification functions.
- `src/operation_laws.rs`, `src/commit_laws.rs`: what holds of every chain of calls
  and of every commit.
- `src/name_map.rs`, `src/text.rs`: maps that keep their names in order, the order
  itself, and decimal numbers.
- `src/snapshot.rs`, `src/table.rs`, `src/catalog.rs`, `src/error.rs`: snapshots with
  their lineage, references, tables, catalog requests and errors.
- `app/`: the asynchronous trait through which a transaction commits the action.

Nothing in the library is trusted beyond Verus and its standard library.
