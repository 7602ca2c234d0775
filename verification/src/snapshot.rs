//! Snapshots, their lineage, and the references that name them.

use std::collections::HashMap;

use vstd::prelude::*;

verus! {

broadcast use vstd::std_specs::hash::group_hash_axioms;

/// A snapshot of a table: its id, and that of the snapshot it was made from.
#[derive(Clone, Copy, Debug, PartialEq, Eq, Structural)]
pub struct Snapshot {
    pub snapshot_id: i64,
    pub parent_snapshot_id: Option<i64>,
}

/// How long the snapshots that a reference keeps alive are retained, and whether
/// the reference is a branch or a tag.
#[derive(Clone, Copy, Debug, PartialEq, Eq, Structural)]
pub enum SnapshotRetention {
    /// A branch moves from snapshot to snapshot.
    Branch {
        min_snapshots_to_keep: Option<i32>,
        max_snapshot_age_ms: Option<i64>,
        max_ref_age_ms: Option<i64>,
    },
    /// A tag stays at the snapshot that it was made for.
    Tag { max_ref_age_ms: Option<i64> },
}

/// A limit is absent or positive.
pub open spec fn positive_i32(limit: Option<i32>) -> bool {
    limit matches Some(value) ==> value > 0
}

/// A limit is absent or positive.
pub open spec fn positive_i64(limit: Option<i64>) -> bool {
    limit matches Some(value) ==> value > 0
}

fn is_positive_i32(limit: Option<i32>) -> (res: bool)
    ensures
        res == positive_i32(limit),
{
    match limit {
        Some(value) => value > 0,
        None => true,
    }
}

fn is_positive_i64(limit: Option<i64>) -> (res: bool)
    ensures
        res == positive_i64(limit),
{
    match limit {
        Some(value) => value > 0,
        None => true,
    }
}

impl SnapshotRetention {
    /// The retention of a branch.
    pub fn branch(
        min_snapshots_to_keep: Option<i32>,
        max_snapshot_age_ms: Option<i64>,
        max_ref_age_ms: Option<i64>,
    ) -> (res: Self)
        ensures
            res == (SnapshotRetention::Branch {
                min_snapshots_to_keep,
                max_snapshot_age_ms,
                max_ref_age_ms,
            }),
    {
        SnapshotRetention::Branch { min_snapshots_to_keep, max_snapshot_age_ms, max_ref_age_ms }
    }

    /// Every limit that is set is positive.
    pub open spec fn positive(self) -> bool {
        match self {
            SnapshotRetention::Branch {
                min_snapshots_to_keep,
                max_snapshot_age_ms,
                max_ref_age_ms,
            } => positive_i32(min_snapshots_to_keep) && positive_i64(max_snapshot_age_ms)
                && positive_i64(max_ref_age_ms),
            SnapshotRetention::Tag { max_ref_age_ms } => positive_i64(max_ref_age_ms),
        }
    }

    /// Whether every limit that is set is positive.
    pub fn is_positive(&self) -> (res: bool)
        ensures
            res == self.positive(),
    {
        match *self {
            SnapshotRetention::Branch {
                min_snapshots_to_keep,
                max_snapshot_age_ms,
                max_ref_age_ms,
            } => is_positive_i32(min_snapshots_to_keep) && is_positive_i64(max_snapshot_age_ms)
                && is_positive_i64(max_ref_age_ms),
            SnapshotRetention::Tag { max_ref_age_ms } => is_positive_i64(max_ref_age_ms),
        }
    }
}

/// A branch or tag: the snapshot that it names and its retention.
#[derive(Clone, Copy, Debug, PartialEq, Eq, Structural)]
pub struct SnapshotReference {
    pub snapshot_id: i64,
    pub retention: SnapshotRetention,
}

impl SnapshotReference {
    pub fn new(snapshot_id: i64, retention: SnapshotRetention) -> (res: Self)
        ensures
            res == (SnapshotReference { snapshot_id, retention }),
    {
        SnapshotReference { snapshot_id, retention }
    }

    /// The reference is a branch, not a tag.
    pub open spec fn spec_is_branch(&self) -> bool {
        self.retention is Branch
    }

    /// Whether the reference is a branch.
    #[verifier::when_used_as_spec(spec_is_branch)]
    pub fn is_branch(&self) -> (res: bool)
        ensures
            res == self.is_branch(),
    {
        matches!(self.retention, SnapshotRetention::Branch { .. })
    }
}

/// Whether two optional references are the same, retention included.
pub fn same_reference(a: Option<&SnapshotReference>, b: Option<&SnapshotReference>) -> (res: bool)
    ensures
        res == (a == b),
{
    match (a, b) {
        (Some(x), Some(y)) => *x == *y,
        (None, None) => true,
        _ => false,
    }
}

/// The id found by following `n` parent links from `id`, as long as each step
/// arrives at a snapshot that `parents` knows.
pub open spec fn nth_ancestor(parents: Map<i64, Option<i64>>, id: i64, n: nat) -> Option<i64>
    decreases n,
{
    if n == 0 {
        if parents.contains_key(id) {
            Some(id)
        } else {
            None
        }
    } else {
        match nth_ancestor(parents, id, (n - 1) as nat) {
            Some(x) => match parents[x] {
                Some(p) => if parents.contains_key(p) {
                    Some(p)
                } else {
                    None
                },
                None => None,
            },
            None => None,
        }
    }
}

/// `ancestor` is `id` itself or lies on its chain of parents. Nothing is an
/// ancestor of an id that `parents` does not know.
pub open spec fn is_ancestor(parents: Map<i64, Option<i64>>, ancestor: i64, id: i64) -> bool {
    exists|n: nat| nth_ancestor(parents, id, n) == Some(ancestor)
}

/// Every id on a chain of parents is known.
pub proof fn lemma_ancestors_are_known(parents: Map<i64, Option<i64>>, id: i64, n: nat)
    ensures
        nth_ancestor(parents, id, n) matches Some(x) ==> parents.contains_key(x),
    decreases n,
{
    if n > 0 {
        lemma_ancestors_are_known(parents, id, (n - 1) as nat);
    }
}

/// Following `m` links and then `n` more is following `m + n` links.
pub proof fn lemma_chain_continues(parents: Map<i64, Option<i64>>, id: i64, m: nat, n: nat)
    ensures
        nth_ancestor(parents, id, m + n) == (match nth_ancestor(parents, id, m) {
            Some(x) => nth_ancestor(parents, x, n),
            None => None,
        }),
    decreases n,
{
    if n == 0 {
        lemma_ancestors_are_known(parents, id, m);
    } else {
        lemma_chain_continues(parents, id, m, (n - 1) as nat);
    }
}

/// Where the chain comes back to an id after `j - i` links, it holds nothing that
/// its first `j` ids do not hold.
proof fn lemma_repeated_chain(parents: Map<i64, Option<i64>>, id: i64, i: nat, j: nat, n: nat)
    requires
        i < j,
        nth_ancestor(parents, id, i) is Some,
        nth_ancestor(parents, id, i) == nth_ancestor(parents, id, j),
    ensures
        exists|k: nat| k < j && #[trigger] nth_ancestor(parents, id, k) == nth_ancestor(parents, id, n),
    decreases n,
{
    if n < j {
        assert(nth_ancestor(parents, id, n) == nth_ancestor(parents, id, n));
    } else {
        let rest = (n - j) as nat;
        lemma_chain_continues(parents, id, j, rest);
        lemma_chain_continues(parents, id, i, rest);
        assert(j + rest == n);
        lemma_repeated_chain(parents, id, i, j, i + rest);
        let k = choose|k: nat|
            k < j && #[trigger] nth_ancestor(parents, id, k) == nth_ancestor(parents, id, i + rest);
        assert(nth_ancestor(parents, id, k) == nth_ancestor(parents, id, n));
    }
}

/// Where a chain ends, it does not go on.
proof fn lemma_ended_chain(parents: Map<i64, Option<i64>>, id: i64, m: nat, n: nat)
    requires
        nth_ancestor(parents, id, m) is None,
        m <= n,
    ensures
        nth_ancestor(parents, id, n) is None,
{
    lemma_chain_continues(parents, id, m, (n - m) as nat);
}

/// Every ancestor is found in fewer steps than there are snapshots.
proof fn lemma_ancestor_is_near(parents: Map<i64, Option<i64>>, id: i64, n: nat)
    requires
        parents.dom().finite(),
        nth_ancestor(parents, id, n) is Some,
    ensures
        exists|k: nat|
            k < parents.dom().len() && #[trigger] nth_ancestor(parents, id, k) == nth_ancestor(
                parents,
                id,
                n,
            ),
{
    let size = parents.dom().len();
    if n < size {
        assert(nth_ancestor(parents, id, n) == nth_ancestor(parents, id, n));
    } else {
        let chain = Seq::new(size + 1, |k: int| nth_ancestor(parents, id, k as nat)->0);
        assert forall|k: int| 0 <= k < chain.len() implies nth_ancestor(parents, id, k as nat)
            is Some && parents.dom().contains(#[trigger] chain[k]) by {
            if nth_ancestor(parents, id, k as nat) is None {
                lemma_ended_chain(parents, id, k as nat, n);
            }
            lemma_ancestors_are_known(parents, id, k as nat);
        }
        if chain.no_duplicates() {
            chain.unique_seq_to_set();
            assert(chain.to_set().subset_of(parents.dom()));
            vstd::set_lib::lemma_len_subset(chain.to_set(), parents.dom());
            assert(false);
        }
        let (i, j) = choose|i: int, j: int|
            0 <= i < chain.len() && 0 <= j < chain.len() && i != j && chain[i] == chain[j];
        let lo = if i < j {
            i
        } else {
            j
        };
        let hi = if i < j {
            j
        } else {
            i
        };
        assert(nth_ancestor(parents, id, lo as nat) is Some) by {
            assert(parents.dom().contains(chain[lo]));
        }
        assert(nth_ancestor(parents, id, hi as nat) is Some) by {
            assert(parents.dom().contains(chain[hi]));
        }
        lemma_repeated_chain(parents, id, lo as nat, hi as nat, n);
    }
}

/// The snapshots of a table, each found by its id.
#[derive(Debug, PartialEq, Eq)]
pub struct Snapshots {
    by_id: HashMap<i64, Snapshot>,
}

impl View for Snapshots {
    /// The parent of each known snapshot.
    type V = Map<i64, Option<i64>>;

    closed spec fn view(&self) -> Map<i64, Option<i64>> {
        self.by_id@.map_values(|s: Snapshot| s.parent_snapshot_id)
    }
}

impl Clone for Snapshots {
    fn clone(&self) -> (res: Self)
        ensures
            res@ == self@,
    {
        proof {
            use_type_invariant(self);
        }
        Snapshots { by_id: self.by_id.clone() }
    }
}

impl Snapshots {
    #[verifier::type_invariant]
    spec fn keyed_by_id(self) -> bool {
        forall|id: i64| #[trigger]
            self.by_id@.contains_key(id) ==> self.by_id@[id].snapshot_id == id
    }

    pub fn new() -> (res: Self)
        ensures
            res@ == Map::<i64, Option<i64>>::empty(),
    {
        let res = Snapshots { by_id: HashMap::new() };
        assert(res@ =~= Map::<i64, Option<i64>>::empty());
        res
    }

    /// Adds a snapshot, in place of any with the same id.
    pub fn insert(&mut self, snapshot: Snapshot)
        ensures
            final(self)@ == old(self)@.insert(snapshot.snapshot_id, snapshot.parent_snapshot_id),
    {
        proof {
            use_type_invariant(&*self);
        }
        let mut by_id: HashMap<i64, Snapshot> = HashMap::new();
        std::mem::swap(&mut by_id, &mut self.by_id);
        by_id.insert(snapshot.snapshot_id, snapshot);
        self.by_id = by_id;
        assert(self@ =~= old(self)@.insert(snapshot.snapshot_id, snapshot.parent_snapshot_id));
    }

    /// Takes away the snapshot with that id, where there is one.
    pub fn remove(&mut self, snapshot_id: i64)
        ensures
            final(self)@ == old(self)@.remove(snapshot_id),
    {
        proof {
            use_type_invariant(&*self);
        }
        let mut by_id: HashMap<i64, Snapshot> = HashMap::new();
        std::mem::swap(&mut by_id, &mut self.by_id);
        by_id.remove(&snapshot_id);
        self.by_id = by_id;
        assert(self@ =~= old(self)@.remove(snapshot_id));
    }

    /// The snapshot with that id, where it is known.
    pub fn get(&self, snapshot_id: i64) -> (res: Option<&Snapshot>)
        ensures
            match res {
                Some(s) => self@.contains_key(snapshot_id) && s.snapshot_id == snapshot_id
                    && s.parent_snapshot_id == self@[snapshot_id],
                None => !self@.contains_key(snapshot_id),
            },
    {
        proof {
            use_type_invariant(self);
        }
        self.by_id.get(&snapshot_id)
    }

    /// Whether `ancestor` is the snapshot `snapshot_id` or one of those that it
    /// descends from. The walk ends even where parent links form a cycle: it takes
    /// no more steps than there are snapshots.
    pub fn is_ancestor(&self, ancestor: i64, snapshot_id: i64) -> (res: bool)
        ensures
            res == is_ancestor(self@, ancestor, snapshot_id),
    {
        let ghost parents = self@;
        let size = self.by_id.len();
        assert(parents.dom() =~= self.by_id@.dom());
        let mut steps: usize = 0;
        let mut current = self.get(snapshot_id);
        while steps < size
            invariant
                parents == self@,
                parents.dom().finite(),
                size == parents.dom().len(),
                steps <= size,
                match current {
                    Some(s) => nth_ancestor(parents, snapshot_id, steps as nat) == Some(
                        s.snapshot_id,
                    ) && parents.contains_key(s.snapshot_id) && parents[s.snapshot_id]
                        == s.parent_snapshot_id,
                    None => nth_ancestor(parents, snapshot_id, steps as nat) is None,
                },
                forall|k: nat|
                    k < steps ==> #[trigger] nth_ancestor(parents, snapshot_id, k) != Some(ancestor),
            decreases size - steps,
        {
            match current {
                None => {
                    proof {
                        if is_ancestor(parents, ancestor, snapshot_id) {
                            let n = choose|n: nat|
                                nth_ancestor(parents, snapshot_id, n) == Some(ancestor);
                            if steps <= n {
                                lemma_ended_chain(parents, snapshot_id, steps as nat, n);
                            }
                        }
                    }
                    return false;
                },
                Some(snapshot) => {
                    if snapshot.snapshot_id == ancestor {
                        return true;
                    }
                    current = match snapshot.parent_snapshot_id {
                        Some(parent) => self.get(parent),
                        None => None,
                    };
                    steps = steps + 1;
                },
            }
        }
        proof {
            if is_ancestor(parents, ancestor, snapshot_id) {
                let n = choose|n: nat| nth_ancestor(parents, snapshot_id, n) == Some(ancestor);
                lemma_ancestor_is_near(parents, snapshot_id, n);
            }
        }
        false
    }
}

} // verus!
