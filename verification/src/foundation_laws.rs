//! Laws of what everything else is built on: text, order, lineage, and what the
//! values of a table, a request and a name stand for.

use vstd::prelude::*;
use vstd::utf8::*;

use crate::catalog::{
    all_met, head_of, requirement_views, update_views, updated_refs, TableRequirement,
    TableRequirementView, TableUpdate, TableUpdateView,
};
use crate::name_map::{
    lemma_finite_map_has_listing, lemma_listed_is_finite, lemma_listing_tells_map, listing,
    IntoName,
};
use crate::snapshot::{
    is_ancestor, lemma_ancestors_are_known, lemma_chain_continues, nth_ancestor, SnapshotReference,
    SnapshotRetention,
};
use crate::table::{
    reference_in, FormatVersion, TableIdent, TableMetadata, TableMetadataView, MAIN_BRANCH,
};
use crate::text::{
    bytes_part_at, decimal, decimal_nat, lemma_name_order_is_strict, name_before,
};

verus! {

/// Reading the digits of a decimal number from the left gives the number back, and
/// no number begins with a superfluous zero.
pub proof fn law_decimal_numbers_read_back(n: nat)
    ensures
        decimal(n as int).len() > 0,
        forall|i: int|
            0 <= i < decimal(n as int).len() ==> '0' <= #[trigger] decimal(n as int)[i] <= '9',
        decimal(n as int).len() > 1 ==> decimal(n as int)[0] != '0',
        decimal(n as int).fold_left(0int, |v: int, c: char| 10 * v + (c as int - '0' as int)) == n,
{
    lemma_digits_read_back(n);
}

proof fn lemma_digits_read_back(n: nat)
    ensures
        decimal_nat(n).len() > 0,
        forall|i: int| 0 <= i < decimal_nat(n).len() ==> '0' <= #[trigger] decimal_nat(n)[i] <= '9',
        decimal_nat(n).len() > 1 ==> decimal_nat(n)[0] != '0',
        n > 0 ==> decimal_nat(n)[0] != '0',
        decimal_nat(n).fold_left(0int, |v: int, c: char| 10 * v + (c as int - '0' as int)) == n,
    decreases n,
{
    let read = |v: int, c: char| 10 * v + (c as int - '0' as int);
    let s = decimal_nat(n);
    if n < 10 {
        assert(s.drop_last() =~= seq![]);
        assert(s.drop_last().fold_left(0int, read) == 0);
        assert(s.last() as int == '0' as int + n);
    } else {
        lemma_digits_read_back(n / 10);
        let front = decimal_nat(n / 10);
        assert(s.drop_last() =~= front);
        assert(s.last() as int == '0' as int + n % 10);
        assert(s[0] == front[0]);
        assert forall|i: int| 0 <= i < s.len() implies '0' <= #[trigger] s[i] <= '9' by {
            if i < front.len() {
                assert(s[i] == front[i]);
            }
        }
    }
}

/// A negative number is its positive counterpart behind a minus sign.
pub proof fn law_negative_numbers_have_a_sign(n: int)
    requires
        n < 0,
    ensures
        decimal(n) == seq!['-'] + decimal(-n),
{
}

/// Of two names the one whose bytes are a proper beginning of the other's comes first.
pub proof fn law_a_beginning_comes_first(a: Seq<char>, b: Seq<char>, rest: Seq<u8>)
    requires
        encode_utf8(b) == encode_utf8(a) + rest,
        rest.len() > 0,
    ensures
        name_before(a, b),
        !name_before(b, a),
{
    assert(bytes_part_at(encode_utf8(a), encode_utf8(b), encode_utf8(a).len() as int));
    lemma_name_order_is_strict(a, b);
}

/// Otherwise the first byte in which they differ decides, the smaller one first.
pub proof fn law_the_first_different_byte_decides(
    a: Seq<char>,
    b: Seq<char>,
    common: Seq<u8>,
    x: u8,
    y: u8,
    rest_of_a: Seq<u8>,
    rest_of_b: Seq<u8>,
)
    requires
        encode_utf8(a) == common.push(x) + rest_of_a,
        encode_utf8(b) == common.push(y) + rest_of_b,
        x < y,
    ensures
        name_before(a, b),
        !name_before(b, a),
{
    let p = encode_utf8(a);
    let q = encode_utf8(b);
    let i = common.len() as int;
    assert(p[i] == x && q[i] == y);
    assert forall|j: int| 0 <= j < i implies p[j] == q[j] by {
        assert(p[j] == common[j] && q[j] == common[j]);
    }
    assert(bytes_part_at(p, q, i));
    lemma_name_order_is_strict(a, b);
}

/// No name comes before itself.
pub proof fn law_no_name_comes_before_itself(a: Seq<char>)
    ensures
        !name_before(a, a),
{
    if name_before(a, a) {
        lemma_name_order_is_strict(a, a);
    }
}

/// A finite map is listed name by name: as many entries as names, each with its
/// value, in ascending order.
pub proof fn law_a_listing_has_every_entry_once<V>(m: Map<Seq<char>, V>)
    requires
        m.dom().finite(),
    ensures
        listing(m).len() == m.dom().len(),
        forall|i: int|
            0 <= i < listing(m).len() ==> m.contains_key((#[trigger] listing(m)[i]).0)
                && listing(m)[i].1 == m[listing(m)[i].0],
        forall|n: Seq<char>| #[trigger]
            m.contains_key(n) ==> exists|i: int|
                0 <= i < listing(m).len() && #[trigger] listing(m)[i] == (n, m[n]),
        forall|i: int, j: int|
            0 <= i < j < listing(m).len() ==> #[trigger] name_before(
                listing(m)[i].0,
                listing(m)[j].0,
            ),
{
    lemma_finite_map_has_listing(m);
    let s = listing(m);
    lemma_listing_tells_map(s, m);
    lemma_listed_is_finite(s);
    assert forall|n: Seq<char>| #[trigger] m.contains_key(n) implies exists|i: int|
        0 <= i < s.len() && #[trigger] s[i] == (n, m[n]) by {
        let i = choose|i: int| 0 <= i < s.len() && (#[trigger] s[i]).0 == n;
        assert(s[i] == (n, m[n]));
    }
}

/// An ancestor of a snapshot is what a path of parent links leads to, from known
/// snapshot to known snapshot, of whatever length.
pub proof fn law_ancestors_are_at_the_end_of_a_path(
    parents: Map<i64, Option<i64>>,
    ancestor: i64,
    id: i64,
)
    ensures
        is_ancestor(parents, ancestor, id) <==> exists|path: Seq<i64>|
            path.len() > 0 && path[0] == id && #[trigger] path.last() == ancestor && (forall|i: int|
                0 <= i < path.len() ==> parents.contains_key(#[trigger] path[i])) && (forall|i: int|
                1 <= i < path.len() ==> parents[path[i - 1]] == Some(#[trigger] path[i])),
{
    if is_ancestor(parents, ancestor, id) {
        let n = choose|n: nat| nth_ancestor(parents, id, n) == Some(ancestor);
        let path = Seq::new(n + 1, |k: int| nth_ancestor(parents, id, k as nat)->0);
        assert forall|k: int| 0 <= k < path.len() implies nth_ancestor(parents, id, k as nat)
            is Some && parents.contains_key(#[trigger] path[k]) by {
            lemma_chain_continues(parents, id, k as nat, (n - k) as nat);
            lemma_ancestors_are_known(parents, id, k as nat);
        }
        assert forall|i: int| 1 <= i < path.len() implies parents[path[i - 1]] == Some(
            #[trigger] path[i],
        ) by {
            assert(parents.contains_key(path[i - 1]));
            assert(parents.contains_key(path[i]));
            assert(nth_ancestor(parents, id, i as nat) is Some);
        }
        assert(path[0] == id) by {
            assert(parents.contains_key(path[0]));
        }
        assert(path.last() == ancestor);
    }
    assert forall|path: Seq<i64>|
        path.len() > 0 && path[0] == id && #[trigger] path.last() == ancestor && (forall|i: int|
            0 <= i < path.len() ==> parents.contains_key(#[trigger] path[i])) && (forall|i: int|
            1 <= i < path.len() ==> parents[path[i - 1]] == Some(
                #[trigger] path[i],
            )) implies is_ancestor(parents, ancestor, id) by {
        lemma_path_is_a_chain(parents, id, path, path.len() - 1);
    }
}

proof fn lemma_path_is_a_chain(
    parents: Map<i64, Option<i64>>,
    id: i64,
    path: Seq<i64>,
    k: int,
)
    requires
        0 <= k < path.len(),
        path[0] == id,
        forall|i: int| 0 <= i < path.len() ==> parents.contains_key(#[trigger] path[i]),
        forall|i: int| 1 <= i < path.len() ==> parents[path[i - 1]] == Some(#[trigger] path[i]),
    ensures
        nth_ancestor(parents, id, k as nat) == Some(path[k]),
    decreases k,
{
    assert(parents.contains_key(path[k]));
    if k > 0 {
        lemma_path_is_a_chain(parents, id, path, k - 1);
        assert(parents[path[k - 1]] == Some(path[k]));
    }
}

/// A reference is a branch by its retention alone.
pub proof fn law_retention_tells_branches_from_tags(
    id: i64,
    keep: Option<i32>,
    age: Option<i64>,
    ref_age: Option<i64>,
)
    ensures
        (SnapshotReference {
            snapshot_id: id,
            retention: SnapshotRetention::Branch {
                min_snapshots_to_keep: keep,
                max_snapshot_age_ms: age,
                max_ref_age_ms: ref_age,
            },
        }).is_branch(),
        !(SnapshotReference {
            snapshot_id: id,
            retention: SnapshotRetention::Tag { max_ref_age_ms: ref_age },
        }).is_branch(),
{
}

/// Retention is positive unless a limit is set that is zero or less.
pub proof fn law_only_set_limits_must_be_positive(
    keep: Option<i32>,
    age: Option<i64>,
    ref_age: Option<i64>,
)
    ensures
        !(SnapshotRetention::Branch {
            min_snapshots_to_keep: keep,
            max_snapshot_age_ms: age,
            max_ref_age_ms: ref_age,
        }).positive() <==> (keep is Some && keep->0 <= 0) || (age is Some && age->0 <= 0) || (
        ref_age is Some && ref_age->0 <= 0),
        !(SnapshotRetention::Tag { max_ref_age_ms: ref_age }).positive() <==> ref_age is Some
            && ref_age->0 <= 0,
{
}

/// The versions are numbered from one.
pub proof fn law_versions_are_numbered_from_one()
    ensures
        FormatVersion::V1.number() == 1,
        FormatVersion::V2.number() == 2,
        FormatVersion::V3.number() == 3,
{
}

/// The default branch is called `main`.
pub proof fn law_the_default_branch_is_main()
    ensures
        MAIN_BRANCH@ == "main"@,
{
}

/// A name is the text that was handed over, owned or borrowed.
pub proof fn law_names_are_the_text_handed_over(owned: String, lent: &String, text: &str)
    ensures
        owned.name() == owned@,
        lent.name() == lent@,
        text.name() == text@,
{
}

/// Two identifiers stand for the same table exactly if they have the same name and
/// the same levels of namespace, level by level.
pub proof fn law_identifiers_agree_in_every_part(a: TableIdent, b: TableIdent)
    ensures
        a@ == b@ <==> {
            &&& a.name@ == b.name@
            &&& a.namespace@.len() == b.namespace@.len()
            &&& forall|i: int|
                0 <= i < a.namespace@.len() ==> (#[trigger] a.namespace@[i])@ == b.namespace@[i]@
        },
{
    if a@ == b@ {
        assert(a@.namespace.len() == a.namespace@.len());
        assert(b@.namespace.len() == b.namespace@.len());
        assert forall|i: int| 0 <= i < a.namespace@.len() implies (#[trigger] a.namespace@[i])@
            == b.namespace@[i]@ by {
            assert(a@.namespace[i] == a.namespace@[i]@);
            assert(b@.namespace[i] == b.namespace@[i]@);
        }
    }
    if a.name@ == b.name@ && a.namespace@.len() == b.namespace@.len() && (forall|i: int|
        0 <= i < a.namespace@.len() ==> (#[trigger] a.namespace@[i])@ == b.namespace@[i]@) {
        assert(a@.namespace =~= b@.namespace);
    }
}

/// What metadata stands for is what its fields hold, all of it.
pub proof fn law_metadata_is_what_its_fields_hold(metadata: TableMetadata)
    ensures
        metadata@.format_version == metadata.format_version,
        metadata@.table_uuid == metadata.table_uuid,
        metadata@.snapshots == metadata.snapshots@,
        metadata@.refs == metadata.refs@,
{
}

/// A table has under a name what its references have there, and nothing else.
pub proof fn law_a_table_has_its_references(
    metadata: TableMetadataView,
    name: Seq<char>,
    reference: SnapshotReference,
)
    ensures
        metadata.reference(name) == Some(reference) <==> metadata.refs.contains_pair(
            name,
            reference,
        ),
        metadata.reference(name) is None <==> !metadata.refs.dom().contains(name),
        reference_in(metadata.refs, name) == metadata.reference(name),
{
}

/// The head of a name is the snapshot that its reference names, for branches and
/// tags alike and whatever their retention.
pub proof fn law_the_head_is_the_snapshot_named(reference: SnapshotReference)
    ensures
        head_of(Some(reference)) == Some(reference.snapshot_id),
        head_of(None) is None,
{
}

/// A requirement on a name is met exactly by tables in which the name has a reference
/// to that snapshot, or, where none is given, has no reference; one on the UUID
/// exactly by tables with that UUID.
pub proof fn law_when_a_requirement_is_met(
    metadata: TableMetadataView,
    name: Seq<char>,
    snapshot_id: i64,
    uuid: u128,
)
    ensures
        (TableRequirementView::RefSnapshotIdMatch {
            ref_name: name,
            snapshot_id: Some(snapshot_id),
        }).is_met(metadata) <==> metadata.refs.contains_key(name) && metadata.refs[name].snapshot_id
            == snapshot_id,
        (TableRequirementView::RefSnapshotIdMatch { ref_name: name, snapshot_id: None }).is_met(
            metadata,
        ) <==> !metadata.refs.contains_key(name),
        (TableRequirementView::UuidMatch { uuid }).is_met(metadata) <==> uuid
            == metadata.table_uuid,
{
}

/// Requirements are met together exactly if each is met.
pub proof fn law_requirements_are_met_one_by_one(
    requirements: Seq<TableRequirementView>,
    requirement: TableRequirementView,
    metadata: TableMetadataView,
)
    ensures
        all_met(seq![], metadata),
        all_met(requirements.push(requirement), metadata) <==> all_met(requirements, metadata)
            && requirement.is_met(metadata),
{
    let longer = requirements.push(requirement);
    if all_met(longer, metadata) {
        assert forall|i: int| 0 <= i < requirements.len() implies (
        #[trigger] requirements[i]).is_met(metadata) by {
            assert(longer[i].is_met(metadata));
        }
        assert(longer[requirements.len() as int].is_met(metadata));
    }
}

/// Setting a reference puts it under its name and removing takes the name away;
/// nothing else changes. Updates are made one after the other.
pub proof fn law_updates_change_one_name_each(
    refs: Map<Seq<char>, SnapshotReference>,
    updates: Seq<TableUpdateView>,
    update: TableUpdateView,
    name: Seq<char>,
    reference: SnapshotReference,
)
    ensures
        (TableUpdateView::SetSnapshotRef { ref_name: name, reference }).apply(refs) == refs.insert(
            name,
            reference,
        ),
        (TableUpdateView::RemoveSnapshotRef { ref_name: name }).apply(refs) == refs.remove(name),
        (TableUpdateView::SetSnapshotRef { ref_name: name, reference }).ref_name() == name,
        (TableUpdateView::RemoveSnapshotRef { ref_name: name }).ref_name() == name,
        (TableUpdateView::SetSnapshotRef { ref_name: name, reference }).value() == Some(reference),
        (TableUpdateView::RemoveSnapshotRef { ref_name: name }).value() is None,
        updated_refs(refs, seq![]) == refs,
        updated_refs(refs, updates.push(update)) == update.apply(updated_refs(refs, updates)),
{
    assert(updates.push(update).drop_last() =~= updates);
}

/// What a request stands for is what it holds: the same names, references, snapshots
/// and UUIDs, in the same places.
pub proof fn law_requests_are_what_they_hold(
    updates: Seq<TableUpdate>,
    requirements: Seq<TableRequirement>,
)
    ensures
        update_views(updates).len() == updates.len(),
        forall|i: int|
            0 <= i < updates.len() ==> #[trigger] update_views(updates)[i] == (match updates[i] {
                TableUpdate::SetSnapshotRef { ref_name, reference } =>
                    TableUpdateView::SetSnapshotRef { ref_name: ref_name@, reference },
                TableUpdate::RemoveSnapshotRef { ref_name } => TableUpdateView::RemoveSnapshotRef {
                    ref_name: ref_name@,
                },
            }),
        requirement_views(requirements).len() == requirements.len(),
        forall|i: int|
            0 <= i < requirements.len() ==> #[trigger] requirement_views(requirements)[i] == (
            match requirements[i] {
                TableRequirement::UuidMatch { uuid } => TableRequirementView::UuidMatch { uuid },
                TableRequirement::RefSnapshotIdMatch { ref_name, snapshot_id } =>
                    TableRequirementView::RefSnapshotIdMatch { ref_name: ref_name@, snapshot_id },
            }),
{
}

} // verus!
