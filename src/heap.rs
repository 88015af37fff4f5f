use vstd::prelude::*;

use vstd::multiset::Multiset;

use crate::order::{beats, improves, precedes, HeapProperty};

verus! {

/// Index of the parent of slot `i` (for `i > 0`).
pub open spec fn parent(i: int) -> int {
    (i - 1) / 2
}

/// Slots `0..n` of `s` obey the ordering: no element beats its parent.
pub open spec fn heap_ordered(p: HeapProperty, s: Seq<i32>, n: int) -> bool {
    forall|j: int| 0 < j < n ==> #[trigger] precedes(p, s[parent(j)], s[j])
}

/// `s` with the elements at `i` and `j` exchanged.
pub open spec fn swapped(s: Seq<i32>, i: int, j: int) -> Seq<i32> {
    s.update(i, s[j]).update(j, s[i])
}

/// The storage after moving the element at `k` up: while it beats its
/// parent, exchange the two and go on from the parent's slot.
pub open spec fn sift_up(p: HeapProperty, s: Seq<i32>, k: int) -> Seq<i32>
    decreases k,
{
    if 0 < k < s.len() && beats(p, s[k], s[parent(k)]) {
        sift_up(p, swapped(s, k, parent(k)), parent(k))
    } else {
        s
    }
}

/// Slots `0..n` are ordered but for the element at `k`, which may beat its
/// parent; the parent of `k` may still stand above the children of `k`.
pub open spec fn ordered_but_up(p: HeapProperty, s: Seq<i32>, n: int, k: int) -> bool {
    &&& forall|j: int| 0 < j < n && j != k ==> #[trigger] precedes(p, s[parent(j)], s[j])
    &&& forall|j: int|
        0 < j < n && parent(j) == k && k > 0 ==> precedes(p, s[parent(k)], #[trigger] s[j])
}

/// The child of `k` that would win against its sibling: the right one only
/// when it exists and strictly beats the left one.
pub open spec fn best_child(p: HeapProperty, s: Seq<i32>, n: int, k: int) -> int {
    if 2 * k + 2 < n && beats(p, s[2 * k + 2], s[2 * k + 1]) {
        2 * k + 2
    } else {
        2 * k + 1
    }
}

/// The storage after moving the element at `k` down within slots `0..n`:
/// while its best child strictly beats it, exchange the two and go on from
/// the child's slot.
pub open spec fn sift_down(p: HeapProperty, s: Seq<i32>, n: int, k: int) -> Seq<i32>
    decreases n - k,
{
    if 0 <= k && 2 * k + 1 < n && n <= s.len() {
        let c = best_child(p, s, n, k);
        if beats(p, s[c], s[k]) {
            sift_down(p, swapped(s, k, c), n, c)
        } else {
            s
        }
    } else {
        s
    }
}

/// Slots `0..n` are ordered but for the element at `k`, which its children
/// may beat; the parent of `k` may still stand above the children of `k`.
pub open spec fn ordered_but_down(p: HeapProperty, s: Seq<i32>, n: int, k: int) -> bool {
    &&& forall|j: int| 0 < j < n && parent(j) != k ==> #[trigger] precedes(p, s[parent(j)], s[j])
    &&& forall|j: int|
        0 < j < n && parent(j) == k && k > 0 ==> precedes(p, s[parent(k)], #[trigger] s[j])
}

/// `x` is an element of `m` that may stand above every element of `m`:
/// the minimum of `m` for `Min`, its maximum for `Max`.
pub open spec fn is_top(p: HeapProperty, x: i32, m: Multiset<i32>) -> bool {
    &&& m.contains(x)
    &&& forall|y: i32| #[trigger] m.contains(y) ==> precedes(p, x, y)
}

/// The text of the error that `peek` and `pop` return on an empty heap.
pub open spec fn empty_heap_message() -> Seq<char> {
    "Empty heap."@
}

/// The text of the error that `add` returns on a full heap.
pub open spec fn full_heap_message() -> Seq<char> {
    "Full heap."@
}

/// A binary heap of `i32` with a capacity fixed at construction.
///
/// Slots `0..size` of `elements` hold the heap in the usual array layout;
/// the slots past `size` hold whatever was last written there.
pub struct Heap {
    elements: Vec<i32>,
    size: usize,
    property: HeapProperty,
}

impl View for Heap {
    type V = Seq<i32>;

    /// The active elements, in array order.
    open spec fn view(&self) -> Seq<i32> {
        self.backing().subrange(0, self.count() as int)
    }
}

impl Heap {
    /// The whole backing storage, active slots and stale ones.
    pub closed spec fn backing(&self) -> Seq<i32> {
        self.elements@
    }

    /// The number of active elements.
    pub closed spec fn count(&self) -> nat {
        self.size as nat
    }

    /// The ordering this heap keeps.
    pub closed spec fn mode(&self) -> HeapProperty {
        self.property
    }

    /// The number of elements the heap can hold.
    pub open spec fn capacity_spec(&self) -> nat {
        self.backing().len()
    }

    /// The active slots fit in the storage and are heap-ordered.
    pub open spec fn wf(&self) -> bool {
        &&& self.count() <= self.capacity_spec()
        &&& heap_ordered(self.mode(), self.backing(), self.count() as int)
    }

    /// An empty min-heap that can hold `size` elements.
    pub fn new(size: usize) -> (r: Heap)
        ensures
            r.wf(),
            r@.len() == 0,
            r.mode() == HeapProperty::Min,
            r.backing() == Seq::new(size as nat, |i: int| 0i32),
    {
        Heap::new_as(size, HeapProperty::Min)
    }

    /// An empty heap of the given ordering that can hold `size` elements.
    pub fn new_as(size: usize, property: HeapProperty) -> (r: Heap)
        ensures
            r.wf(),
            r@.len() == 0,
            r.mode() == property,
            r.backing() == Seq::new(size as nat, |i: int| 0i32),
    {
        let elements: Vec<i32> = vec![0; size];
        assert(elements@ =~= Seq::new(size as nat, |i: int| 0i32));
        Heap { elements, size: 0, property }
    }

    /// Whether the heap holds no element.
    pub fn is_empty(&self) -> (r: bool)
        requires
            self.wf(),
        ensures
            r == (self@.len() == 0),
    {
        self.size == 0
    }

    /// The element on top: the minimum for `Min`, the maximum for `Max`.
    pub fn peek(&self) -> (r: Result<i32, String>)
        requires
            self.wf(),
        ensures
            self@.len() == 0 ==> r is Err && r->Err_0@ == empty_heap_message(),
            self@.len() > 0 ==> r == Ok::<i32, String>(self@[0]),
            r is Ok ==> is_top(self.mode(), r->Ok_0, self@.to_multiset()),
    {
        self.validate_non_empty_heap()?;
        proof {
            lemma_root_is_top(self.mode(), self.backing(), self.count() as int);
        }
        Ok(self.elements[0])
    }

    /// Removes and returns the element on top; fails when the heap is empty.
    pub fn pop(&mut self) -> (r: Result<i32, String>)
        requires
            old(self).wf(),
        ensures
            final(self).wf(),
            final(self).mode() == old(self).mode(),
            final(self).capacity_spec() == old(self).capacity_spec(),
            old(self)@.len() == 0 ==> {
                &&& r is Err
                &&& r->Err_0@ == empty_heap_message()
                &&& *final(self) == *old(self)
            },
            old(self)@.len() > 0 ==> {
                &&& r == Ok::<i32, String>(old(self)@[0])
                &&& is_top(old(self).mode(), old(self)@[0], old(self)@.to_multiset())
                &&& final(self)@.to_multiset() == old(self)@.to_multiset().remove(old(self)@[0])
                &&& final(self).backing() == sift_down(
                    old(self).mode(),
                    old(self).backing().update(0, old(self).backing()[old(self).count() - 1]),
                    old(self).count() - 1,
                    0,
                )
            },
    {
        self.validate_non_empty_heap()?;
        proof {
            lemma_root_is_top(self.mode(), self.backing(), self.count() as int);
        }
        let result = self.elements[0];
        self.elements[0] = self.elements[self.size - 1];
        self.size -= 1;
        proof {
            broadcast use vstd::seq_lib::group_to_multiset_ensures;
            broadcast use vstd::seq_lib::to_multiset_update;

            let v = old(self)@;
            let n = v.len() as int;
            let u = v.update(0, v[n - 1]);
            assert(self@ =~= u.remove(n - 1));
            assert(self@.to_multiset() =~= v.to_multiset().remove(v[0]));
            assert forall|j: int| 0 < j < n - 1 && parent(j) != 0 implies #[trigger] precedes(
                self.mode(),
                self.backing()[parent(j)],
                self.backing()[j],
            ) by {
                assert(precedes(
                    old(self).mode(),
                    old(self).backing()[parent(j)],
                    old(self).backing()[j],
                ));
            }
            lemma_sift_down(self.mode(), self.backing(), n - 1, 0);
        }
        self.recalculate_down();
        Ok(result)
    }

    /// Adds `element`; fails when the heap is full.
    pub fn add(&mut self, element: i32) -> (r: Result<(), String>)
        requires
            old(self).wf(),
        ensures
            final(self).wf(),
            final(self).mode() == old(self).mode(),
            final(self).capacity_spec() == old(self).capacity_spec(),
            old(self).count() == old(self).capacity_spec() ==> {
                &&& r is Err
                &&& r->Err_0@ == full_heap_message()
                &&& *final(self) == *old(self)
            },
            old(self).count() < old(self).capacity_spec() ==> {
                &&& r == Ok::<(), String>(())
                &&& final(self)@.to_multiset() == old(self)@.to_multiset().insert(element)
                &&& final(self).backing() == sift_up(
                    old(self).mode(),
                    old(self).backing().update(old(self).count() as int, element),
                    old(self).count() as int,
                )
            },
    {
        if self.size == self.elements.len() {
            return Err("Full heap.".to_owned());
        }
        let ghost before = self@;
        self.elements[self.size] = element;
        self.size += 1;
        assert(self@ =~= before.push(element));
        proof {
            broadcast use vstd::seq_lib::group_to_multiset_ensures;

            let n = self.count() as int;
            assert forall|j: int| 0 < j < n && j != n - 1 implies #[trigger] precedes(
                self.mode(),
                self.backing()[parent(j)],
                self.backing()[j],
            ) by {
                assert(precedes(old(self).mode(), old(self).backing()[parent(j)], old(self).backing()[j]));
            }
            lemma_sift_up(self.mode(), self.backing(), n, n - 1);
        }
        self.recalculate_up();
        Ok(())
    }

    fn get_parent_index(&self, index: usize) -> (r: usize)
        requires
            index > 0,
        ensures
            r == parent(index as int),
    {
        (index - 1) / 2
    }

    fn get_left_child_index(&self, index: usize) -> (r: usize)
        requires
            2 * index + 1 <= usize::MAX,
        ensures
            r == 2 * index + 1,
    {
        2 * index + 1
    }

    fn get_right_child_index(&self, index: usize) -> (r: usize)
        requires
            2 * index + 2 <= usize::MAX,
        ensures
            r == 2 * index + 2,
    {
        2 * index + 2
    }

    fn is_root(&self, index: usize) -> (r: bool)
        ensures
            r == (index == 0),
    {
        index == 0
    }

    /// Whether slot `2 * index + 1` is active, written so that it cannot
    /// overflow.
    fn has_left_child(&self, index: usize) -> (r: bool)
        ensures
            r == (2 * index + 1 < self.size),
    {
        index < self.size / 2
    }

    /// Whether slot `2 * index + 2` is active, written so that it cannot
    /// overflow.
    fn has_right_child(&self, index: usize) -> (r: bool)
        ensures
            r == (2 * index + 2 < self.size),
    {
        self.size > 0 && index < (self.size - 1) / 2
    }

    fn get_parent(&self, index: usize) -> (r: i32)
        requires
            0 < index < self.elements.len(),
        ensures
            r == self.elements@[parent(index as int)],
    {
        self.elements[self.get_parent_index(index)]
    }

    fn get_left_child(&self, index: usize) -> (r: i32)
        requires
            2 * index + 1 < self.elements.len(),
        ensures
            r == self.elements@[2 * index + 1],
    {
        self.elements[self.get_left_child_index(index)]
    }

    fn get_right_child(&self, index: usize) -> (r: i32)
        requires
            2 * index + 2 < self.elements.len(),
        ensures
            r == self.elements@[2 * index + 2],
    {
        self.elements[self.get_right_child_index(index)]
    }

    /// Exchanges the elements at two slots of the storage.
    fn swap(&mut self, index1: usize, index2: usize)
        requires
            index1 < old(self).elements.len(),
            index2 < old(self).elements.len(),
        ensures
            final(self).elements@ == swapped(old(self).elements@, index1 as int, index2 as int),
            final(self).size == old(self).size,
            final(self).property == old(self).property,
    {
        let first = self.elements[index1];
        let second = self.elements[index2];
        self.elements[index1] = second;
        self.elements[index2] = first;
    }

    /// Moves the root element down to its place.
    fn recalculate_down(&mut self)
        requires
            old(self).size <= old(self).elements.len(),
        ensures
            final(self).elements@ == sift_down(
                old(self).property,
                old(self).elements@,
                old(self).size as int,
                0,
            ),
            final(self).size == old(self).size,
            final(self).property == old(self).property,
    {
        let mut index: usize = 0;
        while self.has_left_child(index)
            invariant
                index <= self.size <= self.elements.len(),
                self.size == old(self).size,
                self.property == old(self).property,
                sift_down(self.property, self.elements@, self.size as int, index as int)
                    == sift_down(old(self).property, old(self).elements@, old(self).size as int, 0),
            ensures
                self.elements@ == sift_down(
                    old(self).property,
                    old(self).elements@,
                    old(self).size as int,
                    0,
                ),
            decreases self.size - index,
        {
            let candidate_index = if self.has_right_child(index) && improves(
                self.property,
                self.get_right_child(index),
                self.get_left_child(index),
            ) {
                self.get_right_child_index(index)
            } else {
                self.get_left_child_index(index)
            };
            assert(candidate_index == best_child(
                self.property,
                self.elements@,
                self.size as int,
                index as int,
            ));
            if !improves(self.property, self.elements[candidate_index], self.elements[index]) {
                break;
            }
            assert(swapped(self.elements@, candidate_index as int, index as int) =~= swapped(
                self.elements@,
                index as int,
                candidate_index as int,
            ));
            self.swap(candidate_index, index);
            index = candidate_index;
        }
    }

    /// Moves the last active element up to its place.
    fn recalculate_up(&mut self)
        requires
            0 < old(self).size <= old(self).elements.len(),
        ensures
            final(self).elements@ == sift_up(
                old(self).property,
                old(self).elements@,
                old(self).size - 1,
            ),
            final(self).size == old(self).size,
            final(self).property == old(self).property,
    {
        let mut index: usize = self.size - 1;
        while !self.is_root(index) && improves(
            self.property,
            self.elements[index],
            self.get_parent(index),
        )
            invariant
                index < self.size <= self.elements.len(),
                self.size == old(self).size,
                self.property == old(self).property,
                sift_up(self.property, self.elements@, index as int) == sift_up(
                    old(self).property,
                    old(self).elements@,
                    old(self).size - 1,
                ),
            decreases index,
        {
            let parent_index = self.get_parent_index(index);
            assert(swapped(self.elements@, parent_index as int, index as int) =~= swapped(
                self.elements@,
                index as int,
                parent_index as int,
            ));
            self.swap(parent_index, index);
            index = parent_index;
        }
    }

    /// The number of active elements.
    pub fn size(&self) -> (r: usize)
        ensures
            r == self.count(),
    {
        self.size
    }

    /// The number of elements the heap can hold.
    pub fn capacity(&self) -> (r: usize)
        ensures
            r == self.capacity_spec(),
    {
        self.elements.len()
    }

    /// The ordering this heap keeps.
    pub fn property(&self) -> (r: HeapProperty)
        ensures
            r == self.mode(),
    {
        self.property
    }

    /// The whole backing storage, stale slots included.
    pub fn elements(&self) -> (r: &Vec<i32>)
        ensures
            r@ == self.backing(),
    {
        &self.elements
    }

    fn validate_non_empty_heap(&self) -> (r: Result<(), String>)
        requires
            self.wf(),
        ensures
            r is Ok <==> self@.len() > 0,
            r is Err ==> r->Err_0@ == empty_heap_message(),
    {
        if self.size == 0 {
            return Err("Empty heap.".to_owned());
        }
        Ok(())
    }
}

/// Exchanging two active slots keeps the active elements.
proof fn lemma_swap_keeps_elements(s: Seq<i32>, n: int, i: int, j: int)
    requires
        0 <= i < n,
        0 <= j < n,
        n <= s.len(),
    ensures
        swapped(s, i, j).subrange(0, n).to_multiset() == s.subrange(0, n).to_multiset(),
{
    broadcast use vstd::seq_lib::group_to_multiset_ensures;
    broadcast use vstd::seq_lib::to_multiset_update;

    let v = s.subrange(0, n);
    assert(swapped(s, i, j).subrange(0, n) =~= swapped(v, i, j));
    let w = v.update(i, v[j]);
    assert(w.to_multiset() == v.to_multiset().insert(v[j]).remove(v[i]));
    assert(w.update(j, v[i]).to_multiset() == w.to_multiset().insert(v[i]).remove(w[j]));
    if i == j {
        assert(swapped(v, i, j) =~= v);
    } else {
        assert(w[j] == v[j]);
        assert(w.update(j, v[i]).to_multiset() =~= v.to_multiset());
    }
}

/// Moving an element up from `k` restores the order of slots `0..n`, keeps
/// the active elements and leaves the other slots alone.
proof fn lemma_sift_up(p: HeapProperty, s: Seq<i32>, n: int, k: int)
    requires
        0 <= k < n <= s.len(),
        ordered_but_up(p, s, n, k),
    ensures
        sift_up(p, s, k).len() == s.len(),
        heap_ordered(p, sift_up(p, s, k), n),
        sift_up(p, s, k).subrange(0, n).to_multiset() == s.subrange(0, n).to_multiset(),
        forall|i: int| n <= i < s.len() ==> #[trigger] sift_up(p, s, k)[i] == s[i],
    decreases k,
{
    if k > 0 && beats(p, s[k], s[parent(k)]) {
        let q = parent(k);
        let t = swapped(s, k, q);
        assert forall|j: int| 0 < j < n && j != q implies #[trigger] precedes(
            p,
            t[parent(j)],
            t[j],
        ) by {
            if j == k {
            } else if parent(j) == k {
                assert(precedes(p, s[parent(k)], s[j]));
            } else if parent(j) == q {
                assert(precedes(p, s[parent(j)], s[j]));
            } else {
                assert(precedes(p, s[parent(j)], s[j]));
            }
        }
        assert forall|j: int| 0 < j < n && parent(j) == q && q > 0 implies precedes(
            p,
            t[parent(q)],
            #[trigger] t[j],
        ) by {
            assert(precedes(p, s[parent(q)], s[q]));
            if j != k {
                assert(precedes(p, s[parent(j)], s[j]));
            }
        }
        lemma_sift_up(p, t, n, q);
        lemma_swap_keeps_elements(s, n, k, q);
    } else {
        assert forall|j: int| 0 < j < n implies #[trigger] precedes(p, s[parent(j)], s[j]) by {
            if j != k {
                assert(precedes(p, s[parent(j)], s[j]));
            }
        }
    }
}

/// Moving an element down from `k` restores the order of slots `0..n`,
/// keeps the active elements and leaves the other slots alone.
proof fn lemma_sift_down(p: HeapProperty, s: Seq<i32>, n: int, k: int)
    requires
        0 <= k,
        n <= s.len(),
        ordered_but_down(p, s, n, k),
    ensures
        sift_down(p, s, n, k).len() == s.len(),
        heap_ordered(p, sift_down(p, s, n, k), n),
        sift_down(p, s, n, k).subrange(0, n).to_multiset() == s.subrange(0, n).to_multiset(),
        forall|i: int| n <= i < s.len() ==> #[trigger] sift_down(p, s, n, k)[i] == s[i],
    decreases n - k,
{
    if 2 * k + 1 < n && beats(p, s[best_child(p, s, n, k)], s[k]) {
        let c = best_child(p, s, n, k);
        let t = swapped(s, k, c);
        assert forall|j: int| 0 < j < n && parent(j) != c implies #[trigger] precedes(
            p,
            t[parent(j)],
            t[j],
        ) by {
            if j == c {
            } else if parent(j) == k {
            } else if j == k {
                assert(precedes(p, s[parent(k)], s[c]));
            } else {
                assert(precedes(p, s[parent(j)], s[j]));
            }
        }
        assert forall|j: int| 0 < j < n && parent(j) == c && c > 0 implies precedes(
            p,
            t[parent(c)],
            #[trigger] t[j],
        ) by {
            assert(precedes(p, s[parent(j)], s[j]));
        }
        lemma_sift_down(p, t, n, c);
        lemma_swap_keeps_elements(s, n, k, c);
    } else {
        assert forall|j: int| 0 < j < n implies #[trigger] precedes(p, s[parent(j)], s[j]) by {
            if parent(j) != k {
                assert(precedes(p, s[parent(j)], s[j]));
            }
        }
    }
}

/// In a heap-ordered prefix, the root stands above every slot.
proof fn lemma_root_precedes(p: HeapProperty, s: Seq<i32>, n: int, j: int)
    requires
        heap_ordered(p, s, n),
        0 <= j < n <= s.len(),
    ensures
        precedes(p, s[0], s[j]),
    decreases j,
{
    if j > 0 {
        lemma_root_precedes(p, s, n, parent(j));
        assert(precedes(p, s[parent(j)], s[j]));
    }
}

/// The root of a non-empty heap-ordered prefix is its top.
proof fn lemma_root_is_top(p: HeapProperty, s: Seq<i32>, n: int)
    requires
        heap_ordered(p, s, n),
        0 < n <= s.len(),
    ensures
        is_top(p, s[0], s.subrange(0, n).to_multiset()),
{
    broadcast use vstd::seq_lib::group_to_multiset_ensures;

    let v = s.subrange(0, n);
    assert(v[0] == s[0]);
    assert(v.contains(s[0]));
    assert forall|y: i32| #[trigger] v.to_multiset().contains(y) implies precedes(p, s[0], y) by {
        assert(v.contains(y));
        let j = choose|j: int| 0 <= j < v.len() && v[j] == y;
        lemma_root_precedes(p, s, n, j);
    }
}

} // verus!
