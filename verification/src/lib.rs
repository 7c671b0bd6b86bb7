//! A hash set with constant-time uniform random element access.
//!
//! `RandSet` keeps every element in two cooperating structures: a hash map
//! from each value to its current position, and a dense vector holding the
//! values themselves. The map gives O(1) membership queries; the vector gives
//! O(1) access to a uniformly drawn element. The two are kept in sync by a
//! swap-and-pop removal, so removal is O(1) as well, at the price of not
//! preserving the relative order of surviving elements.

use vstd::prelude::*;
use vstd::set_lib::lemma_subset_equality;

mod rng;

verus! {

use std::collections::HashMap;
use std::collections::hash_map::RandomState;
use vstd::std_specs::cmp::PartialEqSpec;

/// A set of `u64` values supporting O(1) membership tests and O(1) uniform
/// random sampling.
///
/// Invariant: `values_to_index` maps exactly the values stored in
/// `items_vector`, each to the position where it currently resides.
pub struct RandSet {
    values_to_index: HashMap<u64, usize>,
    items_vector: Vec<u64>,
}

impl View for RandSet {
    type V = Set<u64>;

    open spec fn view(&self) -> Set<u64> {
        self.positions().dom()
    }
}

impl RandSet {
    /// The value-to-position index, as a mathematical map.
    pub closed spec fn positions(self) -> Map<u64, usize> {
        self.values_to_index@
    }

    /// The dense store, as a mathematical sequence of values in positional
    /// order.
    pub closed spec fn elems(self) -> Seq<u64> {
        self.items_vector@
    }

    /// The bijection invariant: the index map and the dense store have the
    /// same cardinality, every mapped position indexes an equal element, and
    /// every element's position maps back to it. Every public operation
    /// preserves this.
    pub open spec fn inv(self) -> bool {
        &&& self.positions().dom().finite()
        &&& self.positions().dom().len() == self.elems().len()
        &&& forall|v: u64| #[trigger] self.positions().contains_key(v)
                ==> self.positions()[v] < self.elems().len()
                    && self.elems()[self.positions()[v] as int] == v
        &&& forall|i: int| 0 <= i < self.elems().len()
                ==> self.positions().contains_key(#[trigger] self.elems()[i])
                    && self.positions()[self.elems()[i]] == i
    }

    /// Creates an empty set.
    pub fn new() -> (r: RandSet)
        ensures
            r.inv(),
            r@ == Set::<u64>::empty(),
            r.elems() == Seq::<u64>::empty(),
    {
        let r = RandSet { values_to_index: HashMap::new(), items_vector: Vec::new() };
        proof {
            assert(r@ =~= Set::<u64>::empty());
        }
        r
    }

    /// The number of elements currently stored.
    pub fn len(&self) -> (r: usize)
        requires
            self.inv(),
        ensures
            r == self@.len(),
    {
        self.items_vector.len()
    }

    /// True iff the set holds no element.
    pub fn is_empty(&self) -> (r: bool)
        requires
            self.inv(),
        ensures
            r == (self@.len() == 0),
    {
        proof {
            if self.values_to_index@.dom().len() == 0 {
                self.values_to_index@.dom().lemma_len0_is_empty();
            }
        }
        self.values_to_index.is_empty()
    }

    /// True iff `value` is currently a member of the set.
    pub fn contains(&self, value: &u64) -> (r: bool)
        ensures
            r == self@.contains(*value),
    {
        self.values_to_index.contains_key(value)
    }

    /// Adds `value` to the set. Returns true if it was newly inserted, false
    /// if it was already present (in which case nothing changes).
    pub fn insert(&mut self, value: u64) -> (r: bool)
        requires
            old(self).inv(),
        ensures
            final(self).inv(),
            r == !old(self)@.contains(value),
            final(self)@ == old(self)@.insert(value),
            final(self)@.len() == old(self)@.len()
                + if old(self)@.contains(value) { 0int } else { 1int },
            r ==> final(self).elems() == old(self).elems().push(value),
            !r ==> *final(self) == *old(self),
    {
        if self.values_to_index.contains_key(&value) {
            proof {
                assert(self@ =~= self@.insert(value));
            }
            return false;
        }
        let pos = self.items_vector.len();
        self.values_to_index.insert(value, pos);
        self.items_vector.push(value);
        proof {
            assert(self@ =~= old(self)@.insert(value));
        }
        true
    }

    /// Removes `value` from the set. Returns true if it was present, false
    /// if not (in which case nothing changes).
    ///
    /// Removal is swap-and-pop: the value's slot is filled with the last
    /// element of the dense store, whose index entry is redirected, and the
    /// store shrinks by one. No other element moves, so removal is O(1) but
    /// the relative order of survivors is not preserved.
    pub fn remove(&mut self, value: &u64) -> (r: bool)
        requires
            old(self).inv(),
        ensures
            final(self).inv(),
            r == old(self)@.contains(*value),
            final(self)@ == old(self)@.remove(*value),
            !final(self)@.contains(*value),
            r ==> final(self)@.len() == old(self)@.len() - 1,
            r ==> final(self).elems() == old(self).elems().update(
                old(self).positions()[*value] as int,
                old(self).elems().last(),
            ).drop_last(),
            !r ==> *final(self) == *old(self),
    {
        let matching_index: usize = match self.values_to_index.get(value) {
            Some(i) => *i,
            None => {
                proof {
                    assert(self@ =~= self@.remove(*value));
                }
                return false;
            },
        };
        let last_index = self.items_vector.len() - 1;

        proof {
            assert(old(self).positions()[*value] == matching_index);
        }
        if matching_index != last_index {
            let swapped_value = self.items_vector[last_index];
            proof {
                // The index map is injective on live values: each maps to a
                // position holding exactly that value, so the value at the
                // last slot differs from the one being removed.
                assert(self.elems()[matching_index as int] == *value);
                assert(self.positions()[swapped_value] == last_index);
            }
            self.items_vector.swap_remove(matching_index);
            self.values_to_index.insert(swapped_value, matching_index);
        } else {
            self.items_vector.pop();
            proof {
                let olde = old(self).elems();
                assert(olde.update(last_index as int, olde.last()) =~= olde);
            }
        }
        self.values_to_index.remove(value);

        proof {
            assert(self@ =~= old(self)@.remove(*value));
            let oldp = old(self).positions();
            let olde = old(self).elems();
            let p = matching_index as int;
            let last = last_index as int;
            assert forall|i: int| 0 <= i < self.elems().len()
                implies self.positions().contains_key(#[trigger] self.elems()[i])
                    && self.positions()[self.elems()[i]] == i by {
                if p != last && i == p {
                    assert(self.elems()[i] == olde[last]);
                } else {
                    assert(self.elems()[i] == olde[i]);
                    assert(oldp[olde[i]] == i);
                }
            }
            assert forall|v: u64| #[trigger] self.positions().contains_key(v)
                implies self.positions()[v] < self.elems().len()
                    && self.elems()[self.positions()[v] as int] == v by {
                if p != last && v == olde[last] {
                    assert(self.positions()[v] == p);
                } else {
                    assert(oldp.contains_key(v) && oldp[v] == self.positions()[v]);
                    assert(oldp[v] != p && oldp[v] != last);
                }
            }
        }
        true
    }

    /// Empties the set; afterwards it is indistinguishable from a freshly
    /// constructed one.
    pub fn clear(&mut self)
        ensures
            final(self).inv(),
            final(self)@ == Set::<u64>::empty(),
            final(self)@.len() == 0,
            final(self).elems() == Seq::<u64>::empty(),
    {
        self.values_to_index.clear();
        self.items_vector.clear();
        proof {
            assert(self@ =~= Set::<u64>::empty());
        }
    }

    /// Returns a reference to the stored copy equal to `value`, if one is
    /// present.
    pub fn get(&self, value: &u64) -> (r: Option<&u64>)
        requires
            self.inv(),
        ensures
            r is Some <==> self@.contains(*value),
            r is Some ==> *r->Some_0 == *value,
    {
        if self.items_vector.is_empty() {
            return None;
        }
        match self.values_to_index.get(value) {
            Some(i) => Some(&self.items_vector[*i]),
            None => None,
        }
    }

    /// Returns a reference to an element drawn uniformly from the set, or
    /// nothing iff the set is empty.
    pub fn get_rand(&self) -> (r: Option<&u64>)
        requires
            self.inv(),
        ensures
            r is None <==> self@.len() == 0,
            r is Some ==> self@.contains(*r->Some_0),
    {
        if self.items_vector.is_empty() {
            return None;
        }
        let random_index = rng::random_index_below(self.items_vector.len());
        Some(&self.items_vector[random_index])
    }

    /// Moves the stored values out, in positional order.
    pub fn into_values(self) -> (r: Vec<u64>)
        ensures
            r@ == self.elems(),
    {
        self.items_vector
    }

    /// Creates an empty set with room for at least `capacity` elements in
    /// both internal structures.
    pub fn with_capacity(capacity: usize) -> (r: RandSet)
        ensures
            r.inv(),
            r@ == Set::<u64>::empty(),
            r.elems() == Seq::<u64>::empty(),
    {
        let r = RandSet {
            values_to_index: HashMap::with_capacity(capacity),
            items_vector: Vec::with_capacity(capacity),
        };
        proof {
            assert(r@ =~= Set::<u64>::empty());
        }
        r
    }

    /// Creates an empty set whose index map uses the given hash builder.
    pub fn with_hasher(hash_builder: RandomState) -> (r: RandSet)
        ensures
            r.inv(),
            r@ == Set::<u64>::empty(),
            r.elems() == Seq::<u64>::empty(),
    {
        let r = RandSet { values_to_index: map_with_hasher(hash_builder), items_vector: Vec::new() };
        proof {
            assert(r@ =~= Set::<u64>::empty());
        }
        r
    }

    /// Creates an empty set with the given capacity hint, whose index map
    /// uses the given hash builder.
    pub fn with_capacity_and_hasher(capacity: usize, hash_builder: RandomState) -> (r: RandSet)
        ensures
            r.inv(),
            r@ == Set::<u64>::empty(),
            r.elems() == Seq::<u64>::empty(),
    {
        let r = RandSet {
            values_to_index: map_with_capacity_and_hasher(capacity, hash_builder),
            items_vector: Vec::with_capacity(capacity),
        };
        proof {
            assert(r@ =~= Set::<u64>::empty());
        }
        r
    }

    /// Returns a copy of the stored values in their current positional
    /// order. After removals this order is not the insertion order.
    pub fn iter(&self) -> (r: Vec<u64>)
        ensures
            r@ == self.elems(),
    {
        let mut out: Vec<u64> = Vec::new();
        let mut i: usize = 0;
        while i < self.items_vector.len()
            invariant
                i <= self.items_vector.len(),
                out@ == self.elems().take(i as int),
            decreases self.items_vector.len() - i,
        {
            out.push(self.items_vector[i]);
            proof {
                assert(out@ =~= self.elems().take(i as int + 1));
            }
            i += 1;
        }
        proof {
            assert(out@ =~= self.elems());
        }
        out
    }

    /// Builds a set holding exactly the given values, inserting each in
    /// turn. Duplicates are silently deduplicated: a later occurrence of a
    /// value already inserted is a no-op.
    pub fn from_values(values: Vec<u64>) -> (r: RandSet)
        ensures
            r.inv(),
            r@ == values@.to_set(),
    {
        let mut set = RandSet::new();
        let mut i: usize = 0;
        proof {
            assert(set@ =~= values@.take(0).to_set());
        }
        while i < values.len()
            invariant
                set.inv(),
                i <= values.len(),
                set@ == values@.take(i as int).to_set(),
            decreases values.len() - i,
        {
            set.insert(values[i]);
            proof {
                lemma_take_to_set_step(values@, i as int);
            }
            i += 1;
        }
        proof {
            assert(values@.take(values.len() as int) == values@);
        }
        set
    }

    /// Returns a reference to the index map's hash builder.
    pub fn hasher(&self) -> &RandomState {
        map_hasher(&self.values_to_index)
    }

    /// The number of elements the index map can hold without reallocating; a
    /// best-effort allocation hint, nothing is promised of it.
    pub fn capacity(&self) -> usize {
        map_capacity(&self.values_to_index)
    }
}

/// Relies on `HashMap::with_hasher`: creates an empty map that will use the
/// given hash builder.
#[verifier::external_body]
fn map_with_hasher(hash_builder: RandomState) -> (r: HashMap<u64, usize>)
    ensures
        r@.dom() == Set::<u64>::empty(),
{
    HashMap::with_hasher(hash_builder)
}

/// Relies on `HashMap::with_capacity_and_hasher`: creates an empty map with
/// a capacity hint that will use the given hash builder.
#[verifier::external_body]
fn map_with_capacity_and_hasher(capacity: usize, hash_builder: RandomState) -> (r: HashMap<
    u64,
    usize,
>)
    ensures
        r@.dom() == Set::<u64>::empty(),
{
    HashMap::with_capacity_and_hasher(capacity, hash_builder)
}

/// Relies on `HashMap::hasher`: returns a reference to the map's hash
/// builder. Nothing is stated of the opaque builder.
#[verifier::external_body]
fn map_hasher(m: &HashMap<u64, usize>) -> &RandomState {
    m.hasher()
}

/// Relies on `HashMap::capacity`: returns how many elements the map can hold
/// without reallocating. The documentation gives only a best-effort lower
/// bound, so nothing is stated of the result.
#[verifier::external_body]
fn map_capacity(m: &HashMap<u64, usize>) -> usize {
    m.capacity()
}

impl PartialEq for RandSet {
    /// Set equality: same cardinality, and every element of one is a member
    /// of the other. Internal element order plays no part.
    fn eq(&self, other: &RandSet) -> (r: bool) {
        if self.items_vector.len() != other.items_vector.len() {
            return false;
        }
        let mut i: usize = 0;
        while i < self.items_vector.len()
            invariant
                i <= self.elems().len(),
                self.elems().len() == other.elems().len(),
                forall|j: int| 0 <= j < i ==> other@.contains(#[trigger] self.elems()[j]),
            decreases self.items_vector.len() - i,
        {
            if !other.contains(&self.items_vector[i]) {
                return false;
            }
            i += 1;
        }
        true
    }
}

impl vstd::std_specs::cmp::PartialEqSpecImpl for RandSet {
    open spec fn obeys_eq_spec() -> bool {
        true
    }

    open spec fn eq_spec(&self, other: &RandSet) -> bool {
        self.elems().len() == other.elems().len() && forall|i: int|
            0 <= i < self.elems().len() ==> other@.contains(#[trigger] self.elems()[i])
    }
}

impl Eq for RandSet {

}

/// Taking one more element of a sequence grows the set of taken elements by
/// exactly that element.
proof fn lemma_take_to_set_step(s: Seq<u64>, i: int)
    requires
        0 <= i < s.len(),
    ensures
        s.take(i + 1).to_set() == s.take(i).to_set().insert(s[i]),
{
    let shorter = s.take(i);
    let longer = s.take(i + 1);
    assert forall|a: u64| longer.to_set().contains(a)
        implies shorter.to_set().contains(a) || a == s[i] by {
        let idx = choose|idx: int| 0 <= idx < longer.len() && longer[idx] == a;
        if idx < i {
            assert(shorter[idx] == a);
        }
    }
    assert forall|a: u64| shorter.to_set().contains(a) implies longer.to_set().contains(a) by {
        let idx = choose|idx: int| 0 <= idx < shorter.len() && shorter[idx] == a;
        assert(longer[idx] == a);
    }
    assert(longer[i] == s[i]);
    assert(longer.to_set() =~= shorter.to_set().insert(s[i]));
}

/// Inserting the same value twice in a row is idempotent: the second
/// insertion finds the value already present, so it is a no-op, and the
/// membership set has grown by exactly one element overall, not two.
pub proof fn lemma_insert_idempotent(s: Set<u64>, v: u64)
    requires
        s.finite(),
    ensures
        s.insert(v).insert(v) == s.insert(v),
        s.insert(v).contains(v),
        !s.contains(v) ==> s.insert(v).len() == s.len() + 1,
        s.contains(v) ==> s.insert(v).len() == s.len(),
{
    assert(s.insert(v).insert(v) =~= s.insert(v));
}

/// Round trip: inserting a value that is not yet present and then removing
/// it restores the membership set exactly, cardinality included.
pub proof fn lemma_insert_remove_round_trip(s: Set<u64>, v: u64)
    requires
        s.finite(),
        !s.contains(v),
    ensures
        s.insert(v).remove(v) == s,
        s.insert(v).remove(v).len() == s.len(),
{
    assert(s.insert(v).remove(v) =~= s);
}

/// Equality is set equality, independent of internal order: for well-formed
/// instances, `eq` decides exactly whether the two membership sets agree,
/// whatever positions the elements occupy in either dense store — so two
/// instances built by inserting the same values in different orders, and
/// thinned by different removals that leave the same survivors, compare
/// equal.
pub proof fn lemma_eq_is_set_equality(a: RandSet, b: RandSet)
    requires
        a.inv(),
        b.inv(),
    ensures
        a.eq_spec(&b) <==> a@ == b@,
{
    if a.eq_spec(&b) {
        assert forall|v: u64| a@.contains(v) implies b@.contains(v) by {
            assert(a.elems()[a.positions()[v] as int] == v);
        }
        lemma_subset_equality(a@, b@);
        assert(a@ =~= b@);
    }
    if a@ == b@ {
        assert forall|i: int| 0 <= i < a.elems().len() implies b@.contains(a.elems()[i]) by {
            assert(a@.contains(a.elems()[i]));
        }
    }
}

} // verus!
