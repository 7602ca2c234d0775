//! Maps from names to values, kept in name order.

use vstd::prelude::*;
use vstd::string::*;

use crate::text::{
    compare_names, lemma_name_order_is_strict, lemma_name_order_is_total,
    lemma_name_order_is_transitive, name_before, NameOrder,
};

verus! {

/// What can be handed over as a name: anything that turns into a `String` whose
/// characters are known beforehand.
pub trait IntoName: Sized {
    /// The characters of the name.
    spec fn name(&self) -> Seq<char>;

    fn into_name(self) -> (res: String)
        ensures
            res@ == self.name(),
    ;
}

impl IntoName for String {
    open spec fn name(&self) -> Seq<char> {
        self@
    }

    fn into_name(self) -> String {
        self
    }
}

impl<'a> IntoName for &'a String {
    open spec fn name(&self) -> Seq<char> {
        self@
    }

    fn into_name(self) -> String {
        self.clone()
    }
}

impl<'a> IntoName for &'a str {
    open spec fn name(&self) -> Seq<char> {
        self@
    }

    fn into_name(self) -> String {
        String::from_str(self)
    }
}

/// The entries of `s` stand in strictly ascending name order, so no name occurs
/// twice.
pub open spec fn in_name_order<V>(s: Seq<(Seq<char>, V)>) -> bool {
    forall|i: int, j: int| 0 <= i < j < s.len() ==> #[trigger] name_before(s[i].0, s[j].0)
}

/// `s` lists the entries of `m`, each once, in name order.
pub open spec fn is_listing<V>(s: Seq<(Seq<char>, V)>, m: Map<Seq<char>, V>) -> bool {
    &&& in_name_order(s)
    &&& forall|i: int|
        0 <= i < s.len() ==> m.contains_key((#[trigger] s[i]).0) && m[s[i].0] == s[i].1
    &&& forall|n: Seq<char>| #[trigger]
        m.contains_key(n) ==> exists|i: int| 0 <= i < s.len() && (#[trigger] s[i]).0 == n
}

/// The entries of `m` in name order. [`lemma_listing_is_unique`] says that a
/// finite map has only one such listing.
pub open spec fn listing<V>(m: Map<Seq<char>, V>) -> Seq<(Seq<char>, V)> {
    choose|s: Seq<(Seq<char>, V)>| is_listing(s, m)
}

/// The place of an entry of `s` for `n`, where there is one.
pub open spec fn place_of<V>(s: Seq<(Seq<char>, V)>, n: Seq<char>) -> int {
    choose|i: int| 0 <= i < s.len() && (#[trigger] s[i]).0 == n
}

/// The map that `s` lists.
pub open spec fn listed<V>(s: Seq<(Seq<char>, V)>) -> Map<Seq<char>, V> {
    Map::new(
        |n: Seq<char>| exists|i: int| 0 <= i < s.len() && (#[trigger] s[i]).0 == n,
        |n: Seq<char>| s[place_of(s, n)].1,
    )
}

/// Two places of a list in name order hold the same name only if they are one.
pub proof fn lemma_name_order_has_no_repeats<V>(s: Seq<(Seq<char>, V)>, i: int, j: int)
    requires
        in_name_order(s),
        0 <= i < s.len(),
        0 <= j < s.len(),
        s[i].0 == s[j].0,
    ensures
        i == j,
{
    if i < j {
        assert(name_before(s[i].0, s[j].0));
        lemma_name_order_is_strict(s[i].0, s[j].0);
    } else if j < i {
        assert(name_before(s[j].0, s[i].0));
        lemma_name_order_is_strict(s[j].0, s[i].0);
    }
}

/// A list in name order lists the map that is read off it.
pub proof fn lemma_listed<V>(s: Seq<(Seq<char>, V)>)
    requires
        in_name_order(s),
    ensures
        is_listing(s, listed(s)),
{
    let m = listed(s);
    assert forall|i: int| 0 <= i < s.len() implies m.contains_key((#[trigger] s[i]).0)
        && m[s[i].0] == s[i].1 by {
        lemma_name_order_has_no_repeats(s, i, place_of(s, s[i].0));
    }
}

/// A list that lists a map tells the map.
pub proof fn lemma_listing_tells_map<V>(s: Seq<(Seq<char>, V)>, m: Map<Seq<char>, V>)
    requires
        is_listing(s, m),
    ensures
        m == listed(s),
{
    lemma_listed(s);
    assert forall|n: Seq<char>| m.contains_key(n) implies #[trigger] m[n] == listed(s)[n] by {
        let i = choose|i: int| 0 <= i < s.len() && (#[trigger] s[i]).0 == n;
        assert(m[s[i].0] == s[i].1);
    }
    assert(m =~= listed(s));
}

/// What a list in name order lists has as many names as the list has entries.
pub proof fn lemma_listed_is_finite<V>(s: Seq<(Seq<char>, V)>)
    requires
        in_name_order(s),
    ensures
        listed(s).dom().finite(),
        listed(s).dom().len() == s.len(),
{
    let names = s.map_values(|e: (Seq<char>, V)| e.0);
    assert forall|i: int, j: int| 0 <= i < names.len() && 0 <= j < names.len() && i != j implies names[i]
        != names[j] by {
        if s[i].0 == s[j].0 {
            lemma_name_order_has_no_repeats(s, i, j);
        }
    }
    names.unique_seq_to_set();
    assert forall|n: Seq<char>| listed(s).contains_key(n) implies names.contains(n) by {
        assert(names[place_of(s, n)] == n);
    }
    assert forall|n: Seq<char>| names.contains(n) implies listed(s).contains_key(n) by {
        let i = choose|i: int| 0 <= i < names.len() && names[i] == n;
        assert(s[i].0 == n);
    }
    assert(names.to_set() =~= listed(s).dom());
}

proof fn lemma_listings_agree_up_to<V>(
    s: Seq<(Seq<char>, V)>,
    t: Seq<(Seq<char>, V)>,
    m: Map<Seq<char>, V>,
    k: int,
)
    requires
        is_listing(s, m),
        is_listing(t, m),
        0 <= k <= s.len(),
    ensures
        k <= t.len(),
        forall|i: int| 0 <= i < k ==> s[i] == t[i],
    decreases k,
{
    if k > 0 {
        let i = k - 1;
        lemma_listings_agree_up_to(s, t, m, i);
        assert(m.contains_key(s[i].0));
        let j = choose|j: int| 0 <= j < t.len() && (#[trigger] t[j]).0 == s[i].0;
        if j < i {
            assert(s[j] == t[j]);
            lemma_name_order_has_no_repeats(s, i, j);
        }
        assert(m.contains_key(t[i].0));
        let l = choose|l: int| 0 <= l < s.len() && (#[trigger] s[l]).0 == t[i].0;
        if l < i {
            assert(s[l] == t[l]);
            lemma_name_order_has_no_repeats(t, i, l);
        }
        if i < j {
            assert(name_before(t[i].0, t[j].0));
            lemma_name_order_is_strict(t[i].0, t[j].0);
            if i < l {
                assert(name_before(s[i].0, s[l].0));
            }
        }
    }
}

/// A map has only one listing.
pub proof fn lemma_listing_is_unique<V>(s: Seq<(Seq<char>, V)>, m: Map<Seq<char>, V>)
    requires
        is_listing(s, m),
    ensures
        listing(m) == s,
{
    let t = listing(m);
    assert(is_listing(t, m));
    lemma_listings_agree_up_to(s, t, m, s.len() as int);
    lemma_listings_agree_up_to(t, s, m, t.len() as int);
    assert(t =~= s);
}

/// Where `name` would have to be put into a list in name order that does not have it.
proof fn lemma_place_for<V>(s: Seq<(Seq<char>, V)>, name: Seq<char>) -> (place: int)
    requires
        in_name_order(s),
        !listed(s).contains_key(name),
    ensures
        0 <= place <= s.len(),
        forall|i: int| 0 <= i < place ==> name_before(#[trigger] s[i].0, name),
        forall|i: int| place <= i < s.len() ==> name_before(name, #[trigger] s[i].0),
    decreases s.len(),
{
    if s.len() == 0 {
        0
    } else {
        let last = s.len() - 1;
        assert(s[last].0 != name);
        lemma_name_order_is_total(s[last].0, name);
        if name_before(s[last].0, name) {
            assert forall|i: int| 0 <= i < s.len() implies name_before(#[trigger] s[i].0, name) by {
                if i < last {
                    assert(name_before(s[i].0, s[last].0));
                    lemma_name_order_is_transitive(s[i].0, s[last].0, name);
                }
            }
            s.len() as int
        } else {
            let front = s.drop_last();
            assert forall|i: int, j: int| 0 <= i < j < front.len() implies #[trigger] name_before(
                front[i].0,
                front[j].0,
            ) by {
                assert(name_before(s[i].0, s[j].0));
            }
            assert(!listed(front).contains_key(name)) by {
                if listed(front).contains_key(name) {
                    let i = place_of(front, name);
                    assert(s[i].0 == name);
                }
            }
            let place = lemma_place_for(front, name);
            assert forall|i: int| 0 <= i < place implies name_before(#[trigger] s[i].0, name) by {
                assert(front[i] == s[i]);
            }
            assert forall|i: int| place <= i < s.len() implies name_before(
                name,
                #[trigger] s[i].0,
            ) by {
                if i < last {
                    assert(front[i] == s[i]);
                }
            }
            place
        }
    }
}

/// A finite map has a listing.
pub proof fn lemma_finite_map_has_listing<V>(m: Map<Seq<char>, V>)
    requires
        m.dom().finite(),
    ensures
        is_listing(listing(m), m),
    decreases m.dom().len(),
{
    if m.dom().len() == 0 {
        let none = Seq::<(Seq<char>, V)>::empty();
        assert(m.dom() =~= Set::empty());
        assert forall|n: Seq<char>| !m.contains_key(n) by {
            assert(!m.dom().contains(n));
        }
        assert(is_listing(none, m));
    } else {
        let n = m.dom().choose();
        let rest = m.remove(n);
        lemma_finite_map_has_listing(rest);
        let s = listing(rest);
        lemma_listing_tells_map(s, rest);
        let place = lemma_place_for(s, n);
        let t = s.insert(place, (n, m[n]));
        lemma_inserted(s, place, (n, m[n]));
        assert(rest.insert(n, m[n]) =~= m);
        lemma_listed(t);
    }
}

/// A map from names to values. Its entries stand in name order, each name once.
#[derive(Debug, PartialEq, Eq)]
pub struct NameMap<V> {
    entries: Vec<(String, V)>,
}

/// The names and values of `entries`, in the order in which they stand.
pub closed spec fn entry_views<V>(entries: Seq<(String, V)>) -> Seq<(Seq<char>, V)> {
    entries.map_values(|e: (String, V)| (e.0@, e.1))
}

impl<V> View for NameMap<V> {
    type V = Map<Seq<char>, V>;

    closed spec fn view(&self) -> Map<Seq<char>, V> {
        listed(entry_views(self.entries@))
    }
}

impl<V: Copy> Clone for NameMap<V> {
    fn clone(&self) -> (res: Self)
        ensures
            res@ == self@,
    {
        proof {
            use_type_invariant(self);
        }
        let mut entries: Vec<(String, V)> = Vec::new();
        let mut i: usize = 0;
        while i < self.entries.len()
            invariant
                i <= self.entries@.len(),
                entry_views(entries@) == entry_views(self.entries@).take(i as int),
            decreases self.entries@.len() - i,
        {
            let entry = &self.entries[i];
            let ghost before = entries@;
            entries.push((entry.0.clone(), entry.1));
            assert(entry_views(entries@) =~= entry_views(before).push((entry.0@, entry.1)));
            i = i + 1;
            assert(entry_views(self.entries@).take(i as int) =~= entry_views(self.entries@).take(
                i - 1,
            ).push((entry.0@, entry.1)));
        }
        assert(entry_views(self.entries@).take(i as int) =~= entry_views(self.entries@));
        NameMap { entries }
    }
}

impl<V> NameMap<V> {
    #[verifier::type_invariant]
    spec fn sorted(self) -> bool {
        in_name_order(entry_views(self.entries@))
    }

    /// A map without entries.
    pub fn new() -> (res: Self)
        ensures
            res@ == Map::<Seq<char>, V>::empty(),
    {
        let res = NameMap { entries: Vec::new() };
        assert(res@ =~= Map::<Seq<char>, V>::empty());
        res
    }

    /// The number of entries.
    pub fn len(&self) -> (res: usize)
        ensures
            self@.dom().finite(),
            res == self@.dom().len(),
            res == listing(self@).len(),
    {
        proof {
            use_type_invariant(self);
            lemma_listed(entry_views(self.entries@));
            lemma_listing_is_unique(entry_views(self.entries@), self@);
            lemma_listed_is_finite(entry_views(self.entries@));
        }
        self.entries.len()
    }

    /// The entry at place `i` in name order.
    pub fn entry(&self, i: usize) -> (res: (&str, &V))
        requires
            i < listing(self@).len(),
        ensures
            (res.0@, *res.1) == listing(self@)[i as int],
            self@.contains_key(res.0@),
            self@[res.0@] == *res.1,
    {
        proof {
            use_type_invariant(self);
            lemma_listed(entry_views(self.entries@));
            lemma_listing_is_unique(entry_views(self.entries@), self@);
        }
        let entry = &self.entries[i];
        assert(entry_views(self.entries@)[i as int] == (entry.0@, entry.1));
        (entry.0.as_str(), &entry.1)
    }

    /// Where `name` stands: whether the map has it, and at which place, or else at
    /// which place it would have to be put.
    fn locate(&self, name: &str) -> (res: (bool, usize))
        ensures
            res.1 <= self.entries@.len(),
            forall|i: int|
                0 <= i < res.1 ==> name_before(#[trigger] entry_views(self.entries@)[i].0, name@),
            res.0 ==> res.1 < self.entries@.len() && self.entries@[res.1 as int].0@ == name@,
            !res.0 ==> forall|i: int|
                res.1 <= i < self.entries@.len() ==> name_before(
                    name@,
                    #[trigger] entry_views(self.entries@)[i].0,
                ),
    {
        proof {
            use_type_invariant(self);
        }
        let ghost s = entry_views(self.entries@);
        let mut lo: usize = 0;
        let mut hi: usize = self.entries.len();
        while lo < hi
            invariant
                lo <= hi <= self.entries@.len(),
                s == entry_views(self.entries@),
                in_name_order(s),
                forall|i: int| 0 <= i < lo ==> name_before(#[trigger] s[i].0, name@),
                forall|i: int| hi <= i < s.len() ==> name_before(name@, #[trigger] s[i].0),
            decreases hi - lo,
        {
            let mid: usize = lo + (hi - lo) / 2;
            assert(s[mid as int].0 == self.entries@[mid as int].0@);
            match compare_names(self.entries[mid].0.as_str(), name) {
                NameOrder::Same => {
                    assert forall|i: int| 0 <= i < mid implies name_before(
                        #[trigger] s[i].0,
                        name@,
                    ) by {
                        assert(name_before(s[i].0, s[mid as int].0));
                    }
                    return (true, mid);
                },
                NameOrder::Before => {
                    assert forall|i: int| 0 <= i < mid + 1 implies name_before(
                        #[trigger] s[i].0,
                        name@,
                    ) by {
                        if i < mid {
                            assert(name_before(s[i].0, s[mid as int].0));
                            lemma_name_order_is_transitive(s[i].0, s[mid as int].0, name@);
                        }
                    }
                    lo = mid + 1;
                },
                NameOrder::After => {
                    assert forall|i: int| mid <= i < s.len() implies name_before(
                        name@,
                        #[trigger] s[i].0,
                    ) by {
                        if mid < i {
                            assert(name_before(s[mid as int].0, s[i].0));
                            lemma_name_order_is_transitive(name@, s[mid as int].0, s[i].0);
                        }
                    }
                    hi = mid;
                },
            }
        }
        (false, lo)
    }

    /// The value of `name`, where the map has one.
    pub fn get(&self, name: &str) -> (res: Option<&V>)
        ensures
            match res {
                Some(v) => self@.contains_key(name@) && self@[name@] == *v,
                None => !self@.contains_key(name@),
            },
    {
        let (found, place) = self.locate(name);
        let ghost s = entry_views(self.entries@);
        proof {
            use_type_invariant(self);
            lemma_listed(s);
        }
        if found {
            assert(s[place as int] == (name@, self.entries@[place as int].1));
            Some(&self.entries[place].1)
        } else {
            proof {
                lemma_absent(s, name@, place as int);
            }
            None
        }
    }

    /// Whether the map has an entry for `name`.
    pub fn contains_key(&self, name: &str) -> (res: bool)
        ensures
            res == self@.contains_key(name@),
    {
        self.get(name).is_some()
    }

    /// Gives `name` the value `value`, in place of any that it had.
    pub fn insert(&mut self, name: String, value: V)
        ensures
            final(self)@ == old(self)@.insert(name@, value),
    {
        let (found, place) = self.locate(name.as_str());
        let ghost s = entry_views(self.entries@);
        proof {
            use_type_invariant(&*self);
            lemma_listed(s);
        }
        let mut entries: Vec<(String, V)> = Vec::new();
        std::mem::swap(&mut entries, &mut self.entries);
        if found {
            let ghost t = s.update(place as int, (name@, value));
            entries.set(place, (name, value));
            assert(entry_views(entries@) =~= t);
            proof {
                assert(s[place as int].0 == name@);
                lemma_replaced(s, place as int, (name@, value));
            }
        } else {
            let ghost t = s.insert(place as int, (name@, value));
            entries.insert(place, (name, value));
            assert(entry_views(entries@) =~= t);
            proof {
                lemma_inserted(s, place as int, (name@, value));
            }
        }
        self.entries = entries;
    }

    /// Takes away the entry for `name`, where there is one.
    pub fn remove(&mut self, name: &str)
        ensures
            final(self)@ == old(self)@.remove(name@),
    {
        let (found, place) = self.locate(name);
        let ghost s = entry_views(self.entries@);
        proof {
            use_type_invariant(&*self);
            lemma_listed(s);
        }
        if found {
            let mut entries: Vec<(String, V)> = Vec::new();
            std::mem::swap(&mut entries, &mut self.entries);
            entries.remove(place);
            proof {
                assert(s[place as int].0 == name@);
                lemma_removed(s, place as int);
                assert(entry_views(entries@) =~= s.remove(place as int));
            }
            self.entries = entries;
        } else {
            proof {
                lemma_absent(s, name@, place as int);
                assert(self@ =~= self@.remove(name@));
            }
        }
    }
}

proof fn lemma_absent<V>(s: Seq<(Seq<char>, V)>, name: Seq<char>, place: int)
    requires
        0 <= place <= s.len(),
        forall|i: int| 0 <= i < place ==> name_before(#[trigger] s[i].0, name),
        forall|i: int| place <= i < s.len() ==> name_before(name, #[trigger] s[i].0),
    ensures
        !listed(s).contains_key(name),
{
    if listed(s).contains_key(name) {
        let i = choose|i: int| 0 <= i < s.len() && (#[trigger] s[i]).0 == name;
        lemma_name_order_is_strict(name, name);
    }
}

proof fn lemma_replaced<V>(s: Seq<(Seq<char>, V)>, place: int, entry: (Seq<char>, V))
    requires
        in_name_order(s),
        0 <= place < s.len(),
        s[place].0 == entry.0,
    ensures
        in_name_order(s.update(place, entry)),
        listed(s.update(place, entry)) == listed(s).insert(entry.0, entry.1),
{
    let t = s.update(place, entry);
    assert forall|i: int, j: int| 0 <= i < j < t.len() implies #[trigger] name_before(
        t[i].0,
        t[j].0,
    ) by {
        assert(name_before(s[i].0, s[j].0));
    }
    lemma_listed(s);
    let m = listed(s).insert(entry.0, entry.1);
    assert forall|i: int| 0 <= i < t.len() implies m.contains_key((#[trigger] t[i]).0)
        && m[t[i].0] == t[i].1 by {
        assert(s[i] == s[i]);
        if i != place && t[i].0 == entry.0 {
            lemma_name_order_has_no_repeats(s, i, place);
        }
    }
    assert forall|n: Seq<char>| #[trigger] m.contains_key(n) implies exists|i: int|
        0 <= i < t.len() && (#[trigger] t[i]).0 == n by {
        if n == entry.0 {
            assert(t[place].0 == n);
        } else {
            let i = choose|i: int| 0 <= i < s.len() && (#[trigger] s[i]).0 == n;
            assert(t[i].0 == n);
        }
    }
    lemma_listing_tells_map(t, m);
}

proof fn lemma_inserted<V>(s: Seq<(Seq<char>, V)>, place: int, entry: (Seq<char>, V))
    requires
        in_name_order(s),
        0 <= place <= s.len(),
        forall|i: int| 0 <= i < place ==> name_before(#[trigger] s[i].0, entry.0),
        forall|i: int| place <= i < s.len() ==> name_before(entry.0, #[trigger] s[i].0),
    ensures
        in_name_order(s.insert(place, entry)),
        listed(s.insert(place, entry)) == listed(s).insert(entry.0, entry.1),
{
    let t = s.insert(place, entry);
    assert forall|i: int, j: int| 0 <= i < j < t.len() implies #[trigger] name_before(
        t[i].0,
        t[j].0,
    ) by {
        let k = if i < place {
            i
        } else {
            i - 1
        };
        let l = if j < place {
            j
        } else {
            j - 1
        };
        if i != place {
            assert(t[i] == s[k]);
        }
        if j != place {
            assert(t[j] == s[l]);
        }
        if i != place && j != place {
            assert(name_before(s[k].0, s[l].0));
        }
    }
    lemma_listed(s);
    lemma_absent(s, entry.0, place);
    let m = listed(s).insert(entry.0, entry.1);
    assert forall|i: int| 0 <= i < t.len() implies m.contains_key((#[trigger] t[i]).0)
        && m[t[i].0] == t[i].1 by {
        if i < place {
            assert(t[i] == s[i]);
        } else if place < i {
            assert(t[i] == s[i - 1]);
        }
    }
    assert forall|n: Seq<char>| #[trigger] m.contains_key(n) implies exists|i: int|
        0 <= i < t.len() && (#[trigger] t[i]).0 == n by {
        if n == entry.0 {
            assert(t[place].0 == n);
        } else {
            let i = choose|i: int| 0 <= i < s.len() && (#[trigger] s[i]).0 == n;
            if i < place {
                assert(t[i].0 == n);
            } else {
                assert(t[i + 1].0 == n);
            }
        }
    }
    lemma_listing_tells_map(t, m);
}

proof fn lemma_removed<V>(s: Seq<(Seq<char>, V)>, place: int)
    requires
        in_name_order(s),
        0 <= place < s.len(),
    ensures
        in_name_order(s.remove(place)),
        listed(s.remove(place)) == listed(s).remove(s[place].0),
{
    let t = s.remove(place);
    assert forall|i: int, j: int| 0 <= i < j < t.len() implies #[trigger] name_before(
        t[i].0,
        t[j].0,
    ) by {
        let k = if i < place {
            i
        } else {
            i + 1
        };
        let l = if j < place {
            j
        } else {
            j + 1
        };
        assert(t[i] == s[k] && t[j] == s[l]);
        assert(name_before(s[k].0, s[l].0));
    }
    lemma_listed(s);
    let m = listed(s).remove(s[place].0);
    assert forall|i: int| 0 <= i < t.len() implies m.contains_key((#[trigger] t[i]).0)
        && m[t[i].0] == t[i].1 by {
        let k = if i < place {
            i
        } else {
            i + 1
        };
        assert(t[i] == s[k]);
        if s[k].0 == s[place].0 {
            lemma_name_order_has_no_repeats(s, k, place);
        }
    }
    assert forall|n: Seq<char>| #[trigger] m.contains_key(n) implies exists|i: int|
        0 <= i < t.len() && (#[trigger] t[i]).0 == n by {
        let i = choose|i: int| 0 <= i < s.len() && (#[trigger] s[i]).0 == n;
        if i < place {
            assert(t[i].0 == n);
        } else {
            assert(t[i - 1].0 == n);
        }
    }
    lemma_listing_tells_map(t, m);
}

} // verus!
