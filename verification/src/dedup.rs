//! A bounded set that remembers the order in which its items came.
//!
//! The set is kept twice: in a queue, oldest item first, and in a membership
//! index that answers `contains` without walking the queue. The index files
//! each item under a 64-bit digest of its value. The two are in step as long
//! as no item is inserted while it is already a member; the model below says
//! what happens in either case.

use std::collections::{HashMap, VecDeque};
use vstd::prelude::*;

verus! {

/// What an item of the set must offer: a digest that depends on its value
/// alone, a test for equal values, and a copy of itself.
pub trait DedupKey: View + Sized {
    /// The digest of the value `v`.
    spec fn digest_of(v: Self::V) -> u64;

    fn digest(&self) -> (d: u64)
        ensures
            d == Self::digest_of(self@),
    ;

    fn same(&self, other: &Self) -> (r: bool)
        ensures
            r == (self@ == other@),
    ;

    fn duplicate(&self) -> (r: Self)
        ensures
            r@ == self@,
    ;
}

/// The values of a sequence of items.
pub open spec fn views<T: View>(s: Seq<T>) -> Seq<T::V> {
    Seq::new(s.len(), |i: int| s[i]@)
}

/// The value of an optional item.
pub open spec fn opt_view<T: View>(item: Option<T>) -> Option<T::V> {
    match item {
        Some(x) => Some(x@),
        None => None,
    }
}

/// The set as a mathematical value: the queue, the membership index and the
/// capacity it was made with.
#[verifier::reject_recursive_types(V)]
pub struct DedupView<V> {
    pub order: Seq<V>,
    pub members: Set<V>,
    pub capacity: nat,
}

impl<V> DedupView<V> {
    /// The set without items.
    pub open spec fn empty(capacity: nat) -> Self {
        DedupView { order: Seq::empty(), members: Set::empty(), capacity }
    }

    /// The most items that the set holds after an insertion: one less than
    /// the capacity, but never less than one.
    pub open spec fn retention(self) -> nat {
        if self.capacity <= 1 {
            1
        } else {
            (self.capacity - 1) as nat
        }
    }

    /// The queue is no longer than `retention`.
    pub open spec fn bounded(self) -> bool {
        self.order.len() <= self.retention()
    }

    /// The queue and the index hold the same items, each once.
    pub open spec fn in_sync(self) -> bool {
        self.order.no_duplicates() && self.members == self.order.to_set()
    }

    /// One more item would bring the set to its capacity.
    pub open spec fn full(self) -> bool {
        self.order.len() + 1 >= self.capacity
    }

    /// The oldest item.
    pub open spec fn front(self) -> Option<V> {
        if self.order.len() > 0 {
            Some(self.order[0])
        } else {
            None
        }
    }

    /// The oldest item, if there is one, is in the index.
    pub open spec fn front_is_member(self) -> bool {
        self.order.len() > 0 ==> self.members.contains(self.order[0])
    }

    /// The set without its oldest item.
    pub open spec fn pop_front(self) -> Self {
        if self.order.len() > 0 {
            DedupView {
                order: self.order.drop_first(),
                members: self.members.remove(self.order[0]),
                capacity: self.capacity,
            }
        } else {
            self
        }
    }

    /// The item that leaves the set when another is inserted.
    pub open spec fn evicted(self) -> Option<V> {
        if self.full() {
            self.front()
        } else {
            None
        }
    }

    /// The set after `v` was inserted: a full set first loses its oldest
    /// item; then `v` joins the queue at its end and the index, whether or
    /// not it is a member already.
    pub open spec fn insert(self, v: V) -> Self {
        let base = if self.full() {
            self.pop_front()
        } else {
            self
        };
        DedupView {
            order: base.order.push(v),
            members: base.members.insert(v),
            capacity: self.capacity,
        }
    }

    /// The set after the `items` were inserted one after the other.
    pub open spec fn insert_all(self, items: Seq<V>) -> Self
        decreases items.len(),
    {
        if items.len() == 0 {
            self
        } else {
            self.insert_all(items.drop_last()).insert(items.last())
        }
    }
}

/// Whether the bucket filed under `h` holds items of that digest only, and
/// none twice.
pub open spec fn bucket_ok<T: DedupKey>(bucket: Seq<T>, h: u64) -> bool {
    &&& forall|i: int| 0 <= i < bucket.len() ==> T::digest_of(#[trigger] bucket[i]@) == h
    &&& views(bucket).no_duplicates()
}

/// Whether every bucket of the index is in order.
pub open spec fn index_ok<T: DedupKey>(index: Map<u64, Vec<T>>) -> bool {
    forall|h: u64| #[trigger] index.contains_key(h) ==> bucket_ok::<T>(index[h]@, h)
}

/// Whether the index holds an item of value `v`.
pub open spec fn index_has<T: DedupKey>(index: Map<u64, Vec<T>>, v: T::V) -> bool {
    index.contains_key(T::digest_of(v)) && views(index[T::digest_of(v)]@).contains(v)
}

/// The values that the index holds.
pub open spec fn index_members<T: DedupKey>(index: Map<u64, Vec<T>>) -> Set<T::V> {
    Set::new(|v: T::V| index_has::<T>(index, v))
}

/// A set of bounded size that evicts its oldest item to make room.
#[derive(Debug, Clone)]
pub struct FixedSizeSortedHashSet<T> {
    hash_set: HashMap<u64, Vec<T>>,
    deque: VecDeque<T>,
    capacity: usize,
}

impl<T: DedupKey> View for FixedSizeSortedHashSet<T> {
    type V = DedupView<T::V>;

    closed spec fn view(&self) -> DedupView<T::V> {
        DedupView {
            order: views(self.deque@),
            members: index_members::<T>(self.hash_set@),
            capacity: self.capacity as nat,
        }
    }
}

fn bucket_position<T: DedupKey>(bucket: &Vec<T>, value: &T) -> (r: Option<usize>)
    ensures
        match r {
            Some(i) => i < bucket.len() && bucket[i as int]@ == value@,
            None => !views(bucket@).contains(value@),
        },
{
    let mut i: usize = 0;
    while i < bucket.len()
        invariant
            i <= bucket.len(),
            forall|j: int| 0 <= j < i ==> views(bucket@)[j] != value@,
        decreases bucket.len() - i,
    {
        if bucket[i].same(value) {
            return Some(i);
        }
        i += 1;
    }
    None
}

fn index_insert<T: DedupKey>(index: &mut HashMap<u64, Vec<T>>, value: T)
    requires
        index_ok::<T>(old(index)@),
    ensures
        index_ok::<T>(final(index)@),
        index_members::<T>(final(index)@) == index_members::<T>(old(index)@).insert(value@),
{
    let h = value.digest();
    let ghost before = index@;
    let ghost v0 = value@;
    let mut bucket: Vec<T> = match index.remove(&h) {
        Some(b) => b,
        None => Vec::new(),
    };
    let ghost b0 = bucket@;
    assert(bucket_ok::<T>(b0, h)) by {
        if before.contains_key(h) {
            assert(b0 == before[h]@);
        } else {
            assert(views(b0) =~= Seq::empty());
        }
    }
    match bucket_position(&bucket, &value) {
        Some(i) => {
            assert(views(b0)[i as int] == v0);
        },
        None => {
            bucket.push(value);
            assert(views(bucket@) =~= views(b0).push(v0));
            assert(views(bucket@)[b0.len() as int] == v0);
        },
    }
    let ghost b1 = bucket@;
    assert(views(b1).contains(v0));
    assert forall|v: T::V| views(b1).contains(v) <==> (views(b0).contains(v) || v == v0) by {
        if views(b0).contains(v) {
            let i = choose|i: int| 0 <= i < views(b0).len() && views(b0)[i] == v;
            assert(views(b1)[i] == v);
        }
        if views(b1).contains(v) && v != v0 {
            let i = choose|i: int| 0 <= i < views(b1).len() && views(b1)[i] == v;
            assert(views(b0)[i] == v);
        }
    }
    index.insert(h, bucket);
    assert(index@ =~= before.insert(h, bucket));
    assert forall|k: u64| #[trigger] index@.contains_key(k) implies bucket_ok::<T>(
        index@[k]@,
        k,
    ) by {
        if k != h {
            assert(before.contains_key(k));
        }
    }
    assert forall|v: T::V|
        index_has::<T>(index@, v) <==> (index_has::<T>(before, v) || v == v0) by {
        let k = T::digest_of(v);
        if k == h {
            if !before.contains_key(h) {
                assert(views(b0) =~= Seq::empty());
            }
        } else {
            assert(index@.contains_key(k) == before.contains_key(k));
        }
    }
    assert(index_members::<T>(index@) =~= index_members::<T>(before).insert(v0));
}

fn index_remove<T: DedupKey>(index: &mut HashMap<u64, Vec<T>>, value: &T) -> (r: bool)
    requires
        index_ok::<T>(old(index)@),
    ensures
        index_ok::<T>(final(index)@),
        index_members::<T>(final(index)@) == index_members::<T>(old(index)@).remove(value@),
        r == index_members::<T>(old(index)@).contains(value@),
{
    let h = value.digest();
    let ghost before = index@;
    let ghost v0 = value@;
    match index.remove(&h) {
        None => {
            assert(index@ =~= before);
            assert(index_members::<T>(index@) =~= index_members::<T>(before).remove(v0));
            false
        },
        Some(bucket) => {
            let mut bucket = bucket;
            let ghost b0 = bucket@;
            assert(bucket_ok::<T>(b0, h));
            match bucket_position(&bucket, value) {
                Some(i) => {
                    bucket.remove(i);
                    let ghost b1 = bucket@;
                    assert(views(b1) =~= views(b0).remove(i as int));
                    assert forall|v: T::V| views(b1).contains(v) <==> (views(b0).contains(v) && v
                        != v0) by {
                        assert(views(b0)[i as int] == v0);
                        if views(b1).contains(v) {
                            let j = choose|j: int| 0 <= j < views(b1).len() && views(b1)[j] == v;
                            if j < i {
                                assert(views(b0)[j] == v);
                            } else {
                                assert(views(b0)[j + 1] == v);
                            }
                        }
                        if views(b0).contains(v) && v != v0 {
                            let j = choose|j: int| 0 <= j < views(b0).len() && views(b0)[j] == v;
                            if j < i {
                                assert(views(b1)[j] == v);
                            } else {
                                assert(views(b1)[j - 1] == v);
                            }
                        }
                    }
                    assert(views(b1).no_duplicates()) by {
                        assert forall|a: int, b: int|
                            0 <= a < views(b1).len() && 0 <= b < views(b1).len() && a
                                != b implies views(b1)[a] != views(b1)[b] by {
                            let a0 = if a < i { a } else { a + 1 };
                            let c0 = if b < i { b } else { b + 1 };
                            assert(views(b1)[a] == views(b0)[a0]);
                            assert(views(b1)[b] == views(b0)[c0]);
                        }
                    }
                    assert forall|j: int| 0 <= j < b1.len() implies T::digest_of(
                        #[trigger] b1[j]@,
                    ) == h by {
                        if j < i {
                            assert(b1[j] == b0[j]);
                        } else {
                            assert(b1[j] == b0[j + 1]);
                        }
                    }
                    assert(views(b0).contains(v0)) by {
                        assert(views(b0)[i as int] == v0);
                    }
                    if bucket.len() > 0 {
                        index.insert(h, bucket);
                        assert(index@ =~= before.insert(h, bucket));
                    } else {
                        assert(views(b1) =~= Seq::empty());
                        assert(index@ =~= before.remove(h));
                    }
                    assert forall|k: u64| #[trigger] index@.contains_key(k) implies bucket_ok::<T>(
                        index@[k]@,
                        k,
                    ) by {
                        if k != h {
                            assert(before.contains_key(k));
                        }
                    }
                    assert forall|v: T::V|
                        index_has::<T>(index@, v) <==> (index_has::<T>(before, v) && v != v0) by {
                        let k = T::digest_of(v);
                        if k != h {
                            assert(index@.contains_key(k) == before.contains_key(k));
                        }
                    }
                    assert(index_members::<T>(index@) =~= index_members::<T>(before).remove(v0));
                    true
                },
                None => {
                    index.insert(h, bucket);
                    assert(index@ =~= before);
                    assert(index_members::<T>(index@) =~= index_members::<T>(before).remove(v0));
                    false
                },
            }
        },
    }
}

impl<T: DedupKey> FixedSizeSortedHashSet<T> {
    /// The buckets of the index are in order.
    pub closed spec fn index_wf(&self) -> bool {
        index_ok::<T>(self.hash_set@)
    }

    /// What every set that this module hands out satisfies.
    pub open spec fn wf(&self) -> bool {
        self.index_wf() && self@.bounded()
    }

    /// An empty set that holds fewer than `capacity` items, but at least one.
    pub fn with_capacity(capacity: usize) -> (set: FixedSizeSortedHashSet<T>)
        ensures
            set.wf(),
            set@.in_sync(),
            set@ == DedupView::<T::V>::empty(capacity as nat),
    {
        let set = FixedSizeSortedHashSet { hash_set: HashMap::new(), deque: VecDeque::new(), capacity };
        assert(set@.order =~= Seq::empty());
        assert(set@.members =~= Set::empty());
        assert(set@.members =~= set@.order.to_set());
        set
    }

    /// Whether the index holds an item of the value of `value`.
    pub fn contains(&self, value: &T) -> (r: bool)
        requires
            self.wf(),
        ensures
            r == self@.members.contains(value@),
    {
        let h = value.digest();
        match self.hash_set.get(&h) {
            Some(bucket) => {
                match bucket_position(bucket, value) {
                    Some(i) => {
                        assert(views(bucket@)[i as int] == value@);
                        true
                    },
                    None => false,
                }
            },
            None => false,
        }
    }

    /// Takes the oldest item out of the queue and out of the index.
    pub fn pop_front(&mut self) -> (r: Option<T>)
        requires
            old(self).wf(),
            old(self)@.front_is_member(),
        ensures
            final(self).wf(),
            final(self)@ == old(self)@.pop_front(),
            opt_view(r) == old(self)@.front(),
            old(self)@.in_sync() ==> final(self)@.in_sync(),
    {
        proof {
            if self@.in_sync() {
                lemma_pop_front_keeps_sync(self@);
            }
        }
        match self.deque.pop_front() {
            Some(item) => {
                let removed = index_remove(&mut self.hash_set, &item);
                assert(removed);
                assert(self@.order =~= old(self)@.order.drop_first());
                Some(item)
            },
            None => None,
        }
    }

    /// Inserts `value`, whether or not it is a member, and hands back the
    /// item that had to leave for it.
    pub fn insert(&mut self, value: T) -> (r: Option<T>)
        requires
            old(self).wf(),
            old(self)@.full() ==> old(self)@.front_is_member(),
        ensures
            final(self).wf(),
            final(self)@ == old(self)@.insert(value@),
            opt_view(r) == old(self)@.evicted(),
            old(self)@.in_sync() && !old(self)@.members.contains(value@) ==> final(self)@.in_sync(),
    {
        proof {
            if self@.in_sync() && !self@.members.contains(value@) {
                lemma_insert_keeps_sync(self@, value@);
            }
        }
        let mut popped: Option<T> = None;
        if self.deque.len() + 1 >= self.capacity {
            popped = self.pop_front();
        }
        let ghost base = self@;
        let copy = value.duplicate();
        self.deque.push_back(copy);
        index_insert(&mut self.hash_set, value);
        assert(self@.order =~= base.order.push(value@));
        popped
    }
}

impl DedupKey for u64 {
    open spec fn digest_of(v: u64) -> u64 {
        v
    }

    fn digest(&self) -> (d: u64) {
        *self
    }

    fn same(&self, other: &Self) -> (r: bool) {
        *self == *other
    }

    fn duplicate(&self) -> (r: Self) {
        *self
    }
}

/// While the queue and the index are in step, they hold equally many items.
pub proof fn lemma_in_sync_counts<V>(s: DedupView<V>)
    requires
        s.in_sync(),
    ensures
        s.members.finite(),
        s.members.len() == s.order.len(),
{
    s.order.unique_seq_to_set();
    vstd::seq_lib::seq_to_set_is_finite(s.order);
}

/// A set within its bound holds no more items than its capacity, unless the
/// capacity is zero: such a set still holds the item that came last.
pub proof fn lemma_bounded_by_capacity<V>(s: DedupView<V>)
    requires
        s.bounded(),
    ensures
        s.capacity >= 1 ==> s.order.len() <= s.capacity,
        s.capacity == 0 ==> s.order.len() <= 1,
{
}

/// Taking the oldest item out of a set in step leaves it in step; the item
/// is in the index before and no longer after.
pub proof fn lemma_pop_front_keeps_sync<V>(s: DedupView<V>)
    requires
        s.in_sync(),
    ensures
        s.front_is_member(),
        s.pop_front().in_sync(),
        s.front() matches Some(x) ==> !s.pop_front().members.contains(x),
        s.bounded() ==> s.pop_front().bounded(),
{
    if s.order.len() > 0 {
        let rest = s.order.drop_first();
        assert(s.order[0] == s.order[0] && s.order.to_set().contains(s.order[0]));
        assert forall|x: V| rest.to_set().contains(x) <==> (s.order.to_set().contains(x) && x
            != s.order[0]) by {
            if rest.to_set().contains(x) {
                let i = choose|i: int| 0 <= i < rest.len() && rest[i] == x;
                assert(s.order[i + 1] == x);
            }
            if s.order.to_set().contains(x) && x != s.order[0] {
                let i = choose|i: int| 0 <= i < s.order.len() && s.order[i] == x;
                assert(rest[i - 1] == x);
            }
        }
        assert(s.pop_front().members =~= rest.to_set());
        assert forall|i: int, j: int| 0 <= i < rest.len() && 0 <= j < rest.len() && i
            != j implies rest[i] != rest[j] by {
            assert(rest[i] == s.order[i + 1] && rest[j] == s.order[j + 1]);
        }
    }
}

/// Inserting an item that is no member into a set in step leaves it in
/// step and within its bound: afterwards the item that had to leave is no
/// member, and every item that the queue holds is one.
pub proof fn lemma_insert_keeps_sync<V>(s: DedupView<V>, v: V)
    requires
        s.in_sync(),
        !s.members.contains(v),
    ensures
        s.front_is_member(),
        s.insert(v).in_sync(),
        s.insert(v).members.contains(v),
        s.evicted() matches Some(x) ==> !s.insert(v).members.contains(x),
        forall|i: int|
            0 <= i < s.insert(v).order.len() ==> s.insert(v).members.contains(
                #[trigger] s.insert(v).order[i],
            ),
        s.bounded() ==> s.insert(v).bounded(),
{
    lemma_pop_front_keeps_sync(s);
    let base = if s.full() {
        s.pop_front()
    } else {
        s
    };
    let after = s.insert(v);
    assert(base.in_sync());
    assert(!base.members.contains(v));
    assert forall|x: V| after.order.to_set().contains(x) <==> (base.order.to_set().contains(x) || x
        == v) by {
        if base.order.to_set().contains(x) {
            let i = choose|i: int| 0 <= i < base.order.len() && base.order[i] == x;
            assert(after.order[i] == x);
        }
        if x == v {
            assert(after.order[base.order.len() as int] == v);
        }
        if after.order.to_set().contains(x) && x != v {
            let i = choose|i: int| 0 <= i < after.order.len() && after.order[i] == x;
            assert(base.order[i] == x);
        }
    }
    assert(after.members =~= after.order.to_set());
    assert forall|i: int, j: int| 0 <= i < after.order.len() && 0 <= j < after.order.len() && i
        != j implies after.order[i] != after.order[j] by {
        if i < base.order.len() {
            assert(base.order.to_set().contains(base.order[i]));
        }
        if j < base.order.len() {
            assert(base.order.to_set().contains(base.order[j]));
        }
    }
    assert forall|i: int| 0 <= i < after.order.len() implies after.members.contains(
        #[trigger] after.order[i],
    ) by {
        assert(after.order.to_set().contains(after.order[i]));
    }
}

/// How many of `n` items inserted one after the other a set of this
/// capacity still holds.
pub open spec fn kept(capacity: nat, n: nat) -> nat {
    let retention = DedupView::<int>::empty(capacity).retention();
    if n <= retention {
        n
    } else {
        retention
    }
}

/// After distinct items were inserted into an empty set, it holds the most
/// recent of them, as many as its bound allows, in the order in which they
/// came, and exactly those are its members.
pub proof fn lemma_distinct_inserts<V>(capacity: nat, items: Seq<V>)
    requires
        items.no_duplicates(),
    ensures
        ({
            let s = DedupView::<V>::empty(capacity).insert_all(items);
            let recent = items.skip(items.len() - kept(capacity, items.len()));
            &&& s.capacity == capacity
            &&& s.order == recent
            &&& s.members == recent.to_set()
            &&& s.in_sync()
            &&& s.bounded()
        }),
    decreases items.len(),
{
    let empty = DedupView::<V>::empty(capacity);
    let s = empty.insert_all(items);
    let recent = items.skip(items.len() - kept(capacity, items.len()));
    if items.len() == 0 {
        assert(recent =~= Seq::empty());
        assert(s.members =~= recent.to_set());
    } else {
        let front = items.drop_last();
        let v = items.last();
        assert forall|i: int, j: int| 0 <= i < front.len() && 0 <= j < front.len() && i
            != j implies front[i] != front[j] by {
            assert(front[i] == items[i] && front[j] == items[j]);
        }
        lemma_distinct_inserts(capacity, front);
        let before = empty.insert_all(front);
        let old_recent = front.skip(front.len() - kept(capacity, front.len()));
        assert(!before.members.contains(v)) by {
            if old_recent.to_set().contains(v) {
                let i = choose|i: int| 0 <= i < old_recent.len() && old_recent[i] == v;
                assert(items[front.len() - kept(capacity, front.len()) + i] == v);
            }
        }
        lemma_insert_keeps_sync(before, v);
        assert(s == before.insert(v));
        assert(s.order =~= recent);
    }
}

} // verus!
