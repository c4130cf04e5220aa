//! A binary min-heap whose contents are a multiset.
use vstd::multiset::Multiset;
use vstd::prelude::*;
use vstd::seq_lib::{to_multiset_contains, to_multiset_insert, to_multiset_len, to_multiset_remove};

verus! {

/// Items with a total preorder that decides who leaves the heap first.
pub trait Ranked: Copy {
    /// Whether `self` may leave before `other`.
    spec fn rank_le(self, other: Self) -> bool;

    /// Of two items one may leave before the other.
    proof fn rank_total(a: Self, b: Self)
        ensures
            a.rank_le(b) || b.rank_le(a),
    ;

    proof fn rank_transitive(a: Self, b: Self, c: Self)
        requires
            a.rank_le(b),
            b.rank_le(c),
        ensures
            a.rank_le(c),
    ;

    fn may_leave_before(&self, other: &Self) -> (r: bool)
        ensures
            r == self.rank_le(*other),
    ;
}

spec fn parent(i: int) -> int {
    (i - 1) / 2
}

/// Every item ranks no earlier than its parent.
spec fn heap_ordered<T: Ranked>(s: Seq<T>) -> bool {
    forall|i: int| 0 < i < s.len() ==> (#[trigger] s[parent(i)]).rank_le(s[i])
}

/// Heap order, but for the edge above `k`.
spec fn ordered_but_above<T: Ranked>(s: Seq<T>, k: int) -> bool {
    &&& forall|i: int| 0 < i < s.len() && i != k ==> (#[trigger] s[parent(i)]).rank_le(s[i])
    &&& forall|i: int|
        0 < i < s.len() && k > 0 && #[trigger] parent(i) == k ==> s[parent(k)].rank_le(s[i])
}

/// Heap order, but for the edges below `k`.
spec fn ordered_but_below<T: Ranked>(s: Seq<T>, k: int) -> bool {
    &&& forall|i: int|
        0 < i < s.len() && parent(i) != k ==> (#[trigger] s[parent(i)]).rank_le(s[i])
    &&& forall|i: int|
        0 < i < s.len() && k > 0 && #[trigger] parent(i) == k ==> s[parent(k)].rank_le(s[i])
}

proof fn lemma_swap_keeps_contents<T>(s: Seq<T>, i: int, j: int)
    requires
        0 <= i < s.len(),
        0 <= j < s.len(),
        i != j,
    ensures
        s.update(i, s[j]).update(j, s[i]).to_multiset() =~= s.to_multiset(),
{
    let t = s.update(i, s[j]);
    lemma_update_contents(s, i, s[j]);
    lemma_update_contents(t, j, s[i]);
    to_multiset_contains(s, s[i]);
    to_multiset_contains(s, s[j]);
}

proof fn lemma_update_contents<T>(s: Seq<T>, i: int, a: T)
    requires
        0 <= i < s.len(),
    ensures
        s.update(i, a).to_multiset() =~= s.to_multiset().remove(s[i]).insert(a),
{
    let r = s.remove(i);
    assert(s.update(i, a) =~= r.insert(i, a));
    to_multiset_remove(s, i);
    to_multiset_insert(r, i, a);
}

proof fn lemma_root_first<T: Ranked>(s: Seq<T>, i: int)
    requires
        heap_ordered(s),
        0 <= i < s.len(),
    ensures
        s[0].rank_le(s[i]),
    decreases i,
{
    if i == 0 {
        T::rank_total(s[0], s[0]);
    } else {
        lemma_root_first(s, parent(i));
        assert(s[parent(i)].rank_le(s[i]));
        T::rank_transitive(s[0], s[parent(i)], s[i]);
    }
}

/// Moves the item at `start` up until its parent ranks no later.
fn sift_up<T: Ranked>(data: &mut Vec<T>, start: usize)
    requires
        start < old(data)@.len(),
        ordered_but_above(old(data)@, start as int),
    ensures
        final(data)@.len() == old(data)@.len(),
        heap_ordered(final(data)@),
        final(data)@.to_multiset() == old(data)@.to_multiset(),
{
    let mut i: usize = start;
    while i > 0
        invariant
            i < data@.len(),
            data@.len() == old(data)@.len(),
            ordered_but_above(data@, i as int),
            data@.to_multiset() == old(data)@.to_multiset(),
        ensures
            data@.len() == old(data)@.len(),
            heap_ordered(data@),
            data@.to_multiset() == old(data)@.to_multiset(),
        decreases i,
    {
        let p: usize = (i - 1) / 2;
        let x: T = data[i];
        let y: T = data[p];
        let ghost s = data@;
        if y.may_leave_before(&x) {
            assert(heap_ordered(s)) by {
                assert forall|j: int| 0 < j < s.len() implies (#[trigger] s[parent(j)]).rank_le(
                    s[j],
                ) by {
                    if j == i {
                        assert(parent(j) == p);
                    }
                }
            }
            break;
        }
        data[i] = y;
        data[p] = x;
        let ghost t = data@;
        proof {
            T::rank_total(x, y);
            assert(t =~= s.update(i as int, s[p as int]).update(p as int, s[i as int]));
            lemma_swap_keeps_contents(s, i as int, p as int);
            assert(parent(i as int) == p);
            assert forall|j: int| 0 < j < t.len() && j != p implies (#[trigger] t[parent(
                j,
            )]).rank_le(t[j]) by {
                if j == i {
                } else if parent(j) == p {
                    assert(s[parent(j)].rank_le(s[j]));
                    T::rank_transitive(x, y, s[j]);
                } else if parent(j) == i {
                    assert(s[parent(i as int)].rank_le(s[j]));
                } else {
                    assert(s[parent(j)].rank_le(s[j]));
                }
            }
            assert forall|j: int|
                0 < j < t.len() && p > 0 && #[trigger] parent(j) == p implies t[parent(
                p as int,
            )].rank_le(t[j]) by {
                assert(s[parent(p as int)].rank_le(s[p as int]));
                if j != i {
                    assert(s[parent(j)].rank_le(s[j]));
                    T::rank_transitive(s[parent(p as int)], y, s[j]);
                }
            }
        }
        i = p;
    }
}

/// Moves the item at `start` down until its children rank no earlier.
fn sift_down<T: Ranked>(data: &mut Vec<T>, start: usize)
    requires
        start < old(data)@.len(),
        ordered_but_below(old(data)@, start as int),
    ensures
        final(data)@.len() == old(data)@.len(),
        heap_ordered(final(data)@),
        final(data)@.to_multiset() == old(data)@.to_multiset(),
{
    let mut k: usize = start;
    let n: usize = data.len();
    while k < n / 2
        invariant
            k < n,
            n == data@.len(),
            n == old(data)@.len(),
            ordered_but_below(data@, k as int),
            data@.to_multiset() == old(data)@.to_multiset(),
        ensures
            data@.len() == old(data)@.len(),
            heap_ordered(data@),
            data@.to_multiset() == old(data)@.to_multiset(),
        decreases n - k,
    {
        let left: usize = 2 * k + 1;
        let right: usize = left + 1;
        let mut c: usize = left;
        if right < n && !data[left].may_leave_before(&data[right]) {
            c = right;
        }
        let x: T = data[k];
        let y: T = data[c];
        let ghost s = data@;
        proof {
            assert(parent(left as int) == k);
            assert(parent(right as int) == k);
            assert forall|j: int| 0 < j < s.len() && #[trigger] parent(j) == k implies y.rank_le(
                s[j],
            ) by {
                assert(j == left || j == right);
                T::rank_total(s[j], s[j]);
                if right < n {
                    T::rank_total(s[left as int], s[right as int]);
                }
            }
        }
        if x.may_leave_before(&y) {
            assert(heap_ordered(s)) by {
                assert forall|j: int| 0 < j < s.len() implies (#[trigger] s[parent(j)]).rank_le(
                    s[j],
                ) by {
                    if parent(j) == k {
                        T::rank_transitive(x, y, s[j]);
                    }
                }
            }
            break;
        }
        data[k] = y;
        data[c] = x;
        let ghost t = data@;
        proof {
            T::rank_total(x, y);
            assert(t =~= s.update(k as int, s[c as int]).update(c as int, s[k as int]));
            lemma_swap_keeps_contents(s, k as int, c as int);
            assert(parent(c as int) == k);
            assert forall|j: int| 0 < j < t.len() && parent(j) != c implies (#[trigger] t[parent(
                j,
            )]).rank_le(t[j]) by {
                if j == c {
                } else if parent(j) == k {
                } else if j == k {
                    assert(s[parent(k as int)].rank_le(s[c as int]));
                } else {
                    assert(s[parent(j)].rank_le(s[j]));
                }
            }
            assert forall|j: int|
                0 < j < t.len() && c > 0 && #[trigger] parent(j) == c implies t[parent(
                c as int,
            )].rank_le(t[j]) by {
                assert(s[parent(j)].rank_le(s[j]));
            }
        }
        k = c;
    }
}

/// A binary min-heap.
#[derive(Debug)]
pub struct MinHeap<T: Ranked> {
    data: Vec<T>,
}

impl<T: Ranked> View for MinHeap<T> {
    type V = Multiset<T>;

    closed spec fn view(&self) -> Multiset<T> {
        self.data@.to_multiset()
    }
}

impl<T: Ranked> MinHeap<T> {
    /// The order that keeps the first item at the root.
    pub closed spec fn wf(&self) -> bool {
        heap_ordered(self.data@)
    }

    pub fn new() -> (r: Self)
        ensures
            r.wf(),
            r@ == Multiset::<T>::empty(),
    {
        let r = MinHeap { data: Vec::new() };
        proof {
            to_multiset_len(r.data@);
            vstd::multiset::lemma_multiset_empty_len(r@);
        }
        r
    }

    pub fn len(&self) -> (r: usize)
        ensures
            r == self@.len(),
    {
        proof {
            to_multiset_len(self.data@);
        }
        self.data.len()
    }

    pub fn is_empty(&self) -> (r: bool)
        ensures
            r == (self@.len() == 0),
    {
        proof {
            to_multiset_len(self.data@);
        }
        self.data.len() == 0
    }

    /// The item at the root, where there is one.
    pub closed spec fn front(&self) -> Option<T> {
        if self.data@.len() == 0 {
            None
        } else {
            Some(self.data@[0])
        }
    }

    /// The item that `pop` would return.
    pub fn peek(&self) -> (r: Option<&T>)
        requires
            self.wf(),
        ensures
            match r {
                Some(x) => self.front() == Some(*x),
                None => self.front() is None,
            },
            match r {
                Some(x) => self@.contains(*x) && (forall|y: T| #[trigger]
                    self@.contains(y) ==> x.rank_le(y)),
                None => self@.len() == 0,
            },
    {
        proof {
            to_multiset_len(self.data@);
        }
        if self.data.len() == 0 {
            return None;
        }
        proof {
            lemma_root_first_of_contents(self.data@);
        }
        Some(&self.data[0])
    }

    pub fn push(&mut self, item: T)
        requires
            old(self).wf(),
        ensures
            final(self).wf(),
            final(self)@ == old(self)@.insert(item),
    {
        let n: usize = self.data.len();
        proof {
            vstd::seq_lib::to_multiset_build(self.data@, item);
        }
        self.data.push(item);
        proof {
            let s = self.data@;
            assert forall|j: int| 0 < j < s.len() && j != n implies (#[trigger] s[parent(
                j,
            )]).rank_le(s[j]) by {
                assert(old(self).data@[parent(j)].rank_le(old(self).data@[j]));
            }
        }
        sift_up(&mut self.data, n);
    }

    /// Removes an item that no remaining item ranks before.
    pub fn pop(&mut self) -> (r: Option<T>)
        requires
            old(self).wf(),
        ensures
            final(self).wf(),
            r == old(self).front(),
            match r {
                Some(x) => {
                    &&& old(self)@.contains(x)
                    &&& forall|y: T| #[trigger] old(self)@.contains(y) ==> x.rank_le(y)
                    &&& final(self)@ == old(self)@.remove(x)
                },
                None => old(self)@.len() == 0 && final(self)@ == old(self)@,
            },
    {
        proof {
            to_multiset_len(self.data@);
        }
        if self.data.len() == 0 {
            return None;
        }
        let ghost s = self.data@;
        proof {
            lemma_root_first_of_contents(s);
            to_multiset_remove(s, s.len() - 1);
            assert(s.remove(s.len() - 1) =~= s.drop_last());
        }
        let top: T = self.data[0];
        let last: T = self.data[self.data.len() - 1];
        self.data.pop();
        if self.data.len() == 0 {
            assert(self.data@ =~= s.drop_last());
            return Some(top);
        }
        self.data[0] = last;
        proof {
            let t = self.data@;
            assert(t =~= s.drop_last().update(0, last));
            lemma_update_contents(s.drop_last(), 0, last);
            to_multiset_contains(s, last);
            assert(s.contains(last));
            to_multiset_contains(s, top);
            assert(t.to_multiset() =~= s.to_multiset().remove(top)) by {
                assert(s.drop_last().contains(top)) by {
                    assert(s.drop_last()[0] == top);
                }
                to_multiset_contains(s.drop_last(), top);
            }
            assert forall|j: int| 0 < j < t.len() && parent(j) != 0 implies (#[trigger] t[parent(
                j,
            )]).rank_le(t[j]) by {
                assert(s[parent(j)].rank_le(s[j]));
            }
        }
        sift_down(&mut self.data, 0);
        Some(top)
    }
}

proof fn lemma_root_first_of_contents<T: Ranked>(s: Seq<T>)
    requires
        heap_ordered(s),
        s.len() > 0,
    ensures
        s.to_multiset().contains(s[0]),
        forall|y: T| #[trigger] s.to_multiset().contains(y) ==> s[0].rank_le(y),
{
    to_multiset_contains(s, s[0]);
    assert(s.contains(s[0]));
    assert forall|y: T| #[trigger] s.to_multiset().contains(y) implies s[0].rank_le(y) by {
        to_multiset_contains(s, y);
        let i = choose|i: int| 0 <= i < s.len() && s[i] == y;
        lemma_root_first(s, i);
    }
}

} // verus!
