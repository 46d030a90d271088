//! The recency-ordered strategy: the slots of a fixed array, threaded on a
//! list that runs from the most recently used slot to the least recently used.
//!
//! A slot whose last handle is released moves to the least-recent end of the
//! list. `alloc_handle` searches from that end, so it reuses the slot freed
//! last; `find_or_alloc_handle` searches from the most-recent end.

use crate::arena::{
    accepted, duped, is_free, is_live, missed, rejected, released, taken, Arena, ArenaObject,
    SlotView,
};
use core::marker::PhantomData;
use vstd::prelude::*;

verus! {

/// One slot of an `MruArena`, with its links in the recency list. A link
/// is the index of the neighbouring slot, or `CAPACITY` at an end of the list.
pub struct MruEntry<T> {
    prev: usize,
    next: usize,
    refcnt: usize,
    data: T,
}

/// A pool of `CAPACITY` counted slots ordered by recency. The recency list
/// is threaded through the slots by index, so that a slot is unlinked and
/// queued again in constant time.
pub struct MruArena<T, const CAPACITY: usize> {
    entries: [MruEntry<T>; CAPACITY],
    /// The most recently used slot, or `CAPACITY` if the list is empty.
    head: usize,
    /// The least recently used slot, or `CAPACITY` if the list is empty.
    tail: usize,
    /// The slots in list order, most recently used first.
    order: Ghost<Seq<int>>,
}

/// A handle to one slot of an `MruArena`. It is neither `Clone` nor `Copy`:
/// a second handle comes from `dup`, and each one goes back through `dealloc`.
#[must_use]
pub struct MruPtr<T> {
    idx: usize,
    _marker: PhantomData<T>,
}

/// `order` lists each of the slots `0..n` exactly once.
pub open spec fn is_permutation(order: Seq<int>, n: int) -> bool {
    &&& order.len() == n
    &&& forall|p: int| 0 <= p < n ==> 0 <= #[trigger] order[p] < n
    &&& forall|p: int, q: int| 0 <= p < n && 0 <= q < n && p != q ==> order[p] != order[q]
    &&& forall|i: int| 0 <= i < n ==> 0 <= #[trigger] position(order, i) < n && order[position(order, i)] == i
}

/// Where slot `i` stands in `order`.
pub open spec fn position(order: Seq<int>, i: int) -> int {
    choose|p: int| 0 <= p < order.len() && order[p] == i
}

/// The recency list after slot `i` has moved to its least-recent end.
pub open spec fn requeued(order: Seq<int>, i: int) -> Seq<int> {
    order.remove(position(order, i)).push(i)
}

/// The recency list after a handle to slot `i` has been released: the slot
/// moves to the least-recent end if that handle was its last.
pub open spec fn order_after_release<T>(s: Seq<SlotView<T>>, order: Seq<int>, i: int) -> Seq<int> {
    if s[i].refcnt == 1 {
        requeued(order, i)
    } else {
        order
    }
}

/// Duplicating a handle and giving the duplicate straight back leaves the
/// recency list as it was.
pub proof fn lemma_dup_dealloc_order<T>(s: Seq<SlotView<T>>, order: Seq<int>, i: int)
    requires
        is_live(s, i),
    ensures
        order_after_release(duped(s, i), order, i) == order,
{
}

/// Slot `i` is the free slot nearest the least-recent end of the list: the
/// slot that `alloc_handle` takes.
pub open spec fn is_last_free<T>(s: Seq<SlotView<T>>, order: Seq<int>, i: int) -> bool {
    &&& is_free(s, i)
    &&& forall|q: int|
        #![trigger order[q]]
        position(order, i) < q < order.len() ==> is_live(s, order[q])
}

/// Slot `i` is the free slot nearest the most-recent end of the list: the
/// slot that `find_or_alloc_handle` takes when nothing matches.
pub open spec fn is_first_free<T>(s: Seq<SlotView<T>>, order: Seq<int>, i: int) -> bool {
    &&& is_free(s, i)
    &&& forall|q: int| #![trigger order[q]] 0 <= q < position(order, i) ==> is_live(s, order[q])
}

/// The predicate `c` rejected every occupied slot that stands before slot
/// `i` in the list.
pub open spec fn is_first_accepted<T, C: Fn(&T) -> bool>(
    c: C,
    s: Seq<SlotView<T>>,
    order: Seq<int>,
    i: int,
) -> bool {
    forall|q: int|
        #![trigger order[q]]
        0 <= q < position(order, i) && is_live(s, order[q]) ==> rejected(c, s, order[q])
}

/// The slot whose last handle was released is the one that the next
/// `alloc_handle` takes: slots are reused newest-released first.
pub proof fn lemma_freed_last_reused_first<T: ArenaObject>(
    s: Seq<SlotView<T>>,
    order: Seq<int>,
    i: int,
    j: int,
)
    requires
        is_permutation(order, s.len() as int),
        is_live(s, i),
        s[i].refcnt == 1,
        is_last_free(released(s, i), order_after_release(s, order, i), j),
    ensures
        j == i,
{
    let n = s.len() as int;
    let s2 = released(s, i);
    let o2 = order_after_release(s, order, i);
    lemma_requeued(order, n, i);
    assert(o2[n - 1] == i);
    assert(is_free(s2, i));
    if j != i {
        assert(0 <= position(o2, j) < n && o2[position(o2, j)] == j);
    }
}

/// The list that `init` builds for `n` slots: the last slot first.
pub open spec fn initial_order(n: int) -> Seq<int> {
    Seq::new(n as nat, |p: int| n - 1 - p)
}

/// In a list without repetition, the position of the slot found at `p` is `p`.
pub proof fn lemma_position(order: Seq<int>, n: int, p: int)
    requires
        is_permutation(order, n),
        0 <= p < n,
    ensures
        position(order, order[p]) == p,
{
    let i = order[p];
    assert(0 <= position(order, i) < n && order[position(order, i)] == i);
}

/// Moving a slot to the least-recent end keeps the list a permutation.
pub proof fn lemma_requeued(order: Seq<int>, n: int, i: int)
    requires
        is_permutation(order, n),
        0 <= i < n,
    ensures
        is_permutation(requeued(order, i), n),
        requeued(order, i)[n - 1] == i,
{
    let p = position(order, i);
    let r = requeued(order, i);
    assert(r.len() == n);
    assert forall|q: int| 0 <= q < n implies #[trigger] r[q] == (if q < p {
        order[q]
    } else if q < n - 1 {
        order[q + 1]
    } else {
        i
    }) by {}
    assert forall|j: int| 0 <= j < n implies 0 <= #[trigger] position(r, j) < n && r[position(
        r,
        j,
    )] == j by {
        let pj = position(order, j);
        let w = if j == i {
            n - 1
        } else if pj < p {
            pj
        } else {
            pj - 1
        };
        assert(0 <= w < n && r[w] == j);
    }
}

impl<T> MruPtr<T> {
    /// The index of the slot that this handle names.
    pub closed spec fn slot(&self) -> int {
        self.idx as int
    }

    /// The index of the slot that this handle names.
    pub fn index(&self) -> (r: usize)
        ensures
            r == self.slot(),
    {
        self.idx
    }
}

impl<T> MruEntry<T> {
    /// The abstract content of this slot.
    pub closed spec fn view(&self) -> SlotView<T> {
        SlotView { refcnt: self.refcnt as nat, data: self.data }
    }

    /// A free slot that stores `data`.
    pub fn new(data: T) -> (r: Self)
        ensures
            r@ == (SlotView { refcnt: 0, data }),
    {
        Self { prev: 0, next: 0, refcnt: 0, data }
    }
}

impl<T, const CAPACITY: usize> MruArena<T, CAPACITY> {
    /// The slots, in index order.
    pub closed spec fn view(&self) -> Seq<SlotView<T>> {
        Seq::new(CAPACITY as nat, |i: int| self.entries[i]@)
    }

    /// The recency list: slot indices, most recently used first.
    pub closed spec fn order(&self) -> Seq<int> {
        self.order@
    }

    /// The links of the slots spell out the recency list: `head` and `tail`
    /// are its ends, and each listed slot points at its two neighbours.
    pub closed spec fn links_ok(&self) -> bool {
        let o = self.order@;
        let n = o.len() as int;
        let nil = CAPACITY as int;
        &&& forall|p: int| 0 <= p < n ==> 0 <= #[trigger] o[p] < CAPACITY
        &&& forall|p: int, q: int| 0 <= p < n && 0 <= q < n && p != q ==> o[p] != o[q]
        &&& self.head as int == (if n == 0 {
            nil
        } else {
            o[0]
        })
        &&& self.tail as int == (if n == 0 {
            nil
        } else {
            o[n - 1]
        })
        &&& n > 0 ==> self.entries[o[0]].prev == CAPACITY && self.entries[o[n - 1]].next
            == CAPACITY
        &&& forall|p: int, q: int|
            #![trigger o[p], o[q]]
            0 <= p && q == p + 1 && q < n ==> self.entries[o[p]].next as int == o[q]
                && self.entries[o[q]].prev as int == o[p]
    }

    /// Puts slot `i`, which is not in the list, at its most-recent end.
    fn push_front(&mut self, i: usize)
        requires
            old(self).links_ok(),
            i < CAPACITY,
            !old(self).order().contains(i as int),
        ensures
            final(self).links_ok(),
            final(self).order() == seq![i as int] + old(self).order(),
            final(self)@ == old(self)@,
    {
        let ghost o = self.order@;
        let ghost o2 = seq![i as int] + o;
        assert forall|p: int| 0 <= p < o.len() implies o[p] != i by {
            assert(o.contains(o[p]));
        }
        let h = self.head;
        self.entries[i].prev = CAPACITY;
        self.entries[i].next = h;
        if h != CAPACITY {
            self.entries[h].prev = i;
        } else {
            self.tail = i;
        }
        self.head = i;
        self.order = Ghost(o2);
        proof {
            assert(self@ =~= old(self)@);
            assert forall|p: int| 0 <= p < o2.len() implies 0 <= #[trigger] o2[p] < CAPACITY by {
                if p > 0 {
                    assert(o2[p] == o[p - 1]);
                }
            }
            assert forall|p: int, q: int| 0 <= p < o2.len() && 0 <= q < o2.len() && p != q implies o2[p]
                != o2[q] by {
                if p > 0 {
                    assert(o2[p] == o[p - 1]);
                }
                if q > 0 {
                    assert(o2[q] == o[q - 1]);
                }
            }
            assert forall|p: int, q: int|
                #![trigger o2[p], o2[q]]
                0 <= p && q == p + 1 && q < o2.len() implies self.entries[o2[p]].next as int
                == o2[q] && self.entries[o2[q]].prev as int == o2[p] by {
                assert(o2[q] == o[q - 1]);
                if p > 0 {
                    assert(o2[p] == o[p - 1]);
                    assert(o[p - 1] != o[0] || p - 1 == 0);
                }
            }
            if o.len() > 0 {
                assert(o2[o2.len() - 1] == o[o.len() - 1]);
            }
            assert(self.links_ok());
        }
    }

    /// Puts slot `i`, which is not in the list, at its least-recent end.
    fn push_back(&mut self, i: usize)
        requires
            old(self).links_ok(),
            i < CAPACITY,
            !old(self).order().contains(i as int),
        ensures
            final(self).links_ok(),
            final(self).order() == old(self).order().push(i as int),
            final(self)@ == old(self)@,
    {
        let ghost o = self.order@;
        let ghost o2 = o.push(i as int);
        assert forall|p: int| 0 <= p < o.len() implies o[p] != i by {
            assert(o.contains(o[p]));
        }
        let t = self.tail;
        self.entries[i].next = CAPACITY;
        self.entries[i].prev = t;
        if t != CAPACITY {
            self.entries[t].next = i;
        } else {
            self.head = i;
        }
        self.tail = i;
        self.order = Ghost(o2);
        proof {
            assert(self@ =~= old(self)@);
            let n = o.len() as int;
            assert forall|p: int, q: int|
                #![trigger o2[p], o2[q]]
                0 <= p && q == p + 1 && q < o2.len() implies self.entries[o2[p]].next as int
                == o2[q] && self.entries[o2[q]].prev as int == o2[p] by {
                assert(o2[p] == o[p]);
                if q < n {
                    assert(o2[q] == o[q]);
                    assert(o[q] != o[n - 1] || q == n - 1);
                }
            }
            if n > 0 {
                assert(o2[0] == o[0]);
            }
            assert(self.links_ok());
        }
    }

    /// Takes slot `i` out of the list.
    fn unlink(&mut self, i: usize)
        requires
            old(self).links_ok(),
            i < CAPACITY,
            old(self).order().contains(i as int),
        ensures
            final(self).links_ok(),
            final(self).order() == old(self).order().remove(position(old(self).order(), i as int)),
            !final(self).order().contains(i as int),
            final(self)@ == old(self)@,
    {
        let ghost o = self.order@;
        let ghost n = o.len() as int;
        let ghost at = position(o, i as int);
        let ghost o2 = o.remove(at);
        assert(0 <= at < n && o[at] == i);
        let a = self.entries[i].prev;
        let b = self.entries[i].next;
        proof {
            if at > 0 {
                assert(old(self).entries[o[at - 1]].next as int == o[at]);
                assert(o[at - 1] == a);
            }
            if at < n - 1 {
                assert(old(self).entries[o[at]].next as int == o[at + 1]);
                assert(o[at + 1] == b);
            }
        }
        if a != CAPACITY {
            self.entries[a].next = b;
        } else {
            self.head = b;
        }
        if b != CAPACITY {
            self.entries[b].prev = a;
        } else {
            self.tail = a;
        }
        self.order = Ghost(o2);
        proof {
            assert(self@ =~= old(self)@);
            let nil = CAPACITY as int;
            let n2 = n - 1;
            assert(o2.len() == n2);
            assert forall|p: int| 0 <= p < n2 implies 0 <= #[trigger] o2[p] < CAPACITY && o2[p]
                != i by {
                let pp = if p < at {
                    p
                } else {
                    p + 1
                };
                assert(o2[p] == o[pp]);
                assert(o[pp] != o[at]);
            }
            assert forall|p: int, q: int|
                #![trigger o2[p], o2[q]]
                0 <= p && q == p + 1 && q < n2 implies self.entries[o2[p]].next as int == o2[q]
                && self.entries[o2[q]].prev as int == o2[p] by {
                let pp = if p < at {
                    p
                } else {
                    p + 1
                };
                let qq = if q < at {
                    q
                } else {
                    q + 1
                };
                assert(o2[p] == o[pp] && o2[q] == o[qq]);
                assert(o[pp] != o[qq]);
                if at > 0 {
                    assert(o[pp] != o[at - 1] || pp == at - 1);
                    assert(o[qq] != o[at - 1] || qq == at - 1);
                }
                if at < n - 1 {
                    assert(o[pp] != o[at + 1] || pp == at + 1);
                    assert(o[qq] != o[at + 1] || qq == at + 1);
                }
                if qq == pp + 1 {
                    assert(old(self).entries[o[pp]].next as int == o[qq]);
                }
            }
            assert forall|p: int, q: int| 0 <= p < n2 && 0 <= q < n2 && p != q implies o2[p]
                != o2[q] by {
                let pp = if p < at {
                    p
                } else {
                    p + 1
                };
                let qq = if q < at {
                    q
                } else {
                    q + 1
                };
                assert(o2[p] == o[pp] && o2[q] == o[qq]);
            }
            if n2 > 0 {
                assert(o2[0] == o[if at == 0 {
                    1int
                } else {
                    0int
                }]);
                assert(o2[n2 - 1] == o[if at == n - 1 {
                    n - 2
                } else {
                    n - 1
                }]);
            }
            assert(!o2.contains(i as int));
            assert(self.links_ok());
        }
    }

    /// A pool made of the given slots, with its recency list built as `init`
    /// builds it.
    pub fn new(entries: [MruEntry<T>; CAPACITY]) -> (r: Self)
        ensures
            r@.len() == CAPACITY,
            forall|i: int| 0 <= i < CAPACITY ==> #[trigger] r@[i] == entries[i]@,
            r.order() == initial_order(CAPACITY as int),
            is_permutation(r.order(), CAPACITY as int),
            r.links_ok(),
    {
        let mut r = Self { entries, head: CAPACITY, tail: CAPACITY, order: Ghost(Seq::empty()) };
        r.init();
        r
    }

    /// Builds the recency list anew: every slot once, the last slot at the
    /// most-recent end and slot 0 at the least-recent end. The slots
    /// themselves stay as they are.
    pub fn init(&mut self)
        ensures
            final(self)@ == old(self)@,
            final(self).order() == initial_order(CAPACITY as int),
            is_permutation(final(self).order(), CAPACITY as int),
            final(self).links_ok(),
    {
        self.head = CAPACITY;
        self.tail = CAPACITY;
        self.order = Ghost(Seq::empty());
        assert(self@ =~= old(self)@);
        let mut i: usize = 0;
        while i < CAPACITY
            invariant
                i <= CAPACITY,
                self.links_ok(),
                self@ == old(self)@,
                self.order() == initial_order(i as int),
            decreases CAPACITY - i,
        {
            proof {
                let o = self.order();
                assert forall|p: int| 0 <= p < o.len() implies o[p] != i by {}
            }
            self.push_front(i);
            assert(self.order() =~= initial_order(i + 1));
            i += 1;
        }
        proof {
            let n = CAPACITY as int;
            let o = self.order();
            assert forall|j: int| 0 <= j < n implies 0 <= #[trigger] position(o, j) < n && o[position(
                o,
                j,
            )] == j by {
                assert(o[n - 1 - j] == j);
            }
        }
    }

    /// The number of live handles to slot `i`.
    pub fn refcnt_at(&self, i: usize) -> (r: usize)
        requires
            i < CAPACITY,
        ensures
            r == self@[i as int].refcnt,
    {
        self.entries[i].refcnt
    }

    /// The object stored in slot `i`, whether the slot is occupied or free.
    pub fn data_at(&self, i: usize) -> (r: &T)
        requires
            i < CAPACITY,
        ensures
            *r == self@[i as int].data,
    {
        &self.entries[i].data
    }

    /// Whether every occupied slot can take one more handle: no count is at
    /// the machine's limit.
    pub fn counts_fit(&self) -> (r: bool)
        ensures
            r == forall|i: int| #![trigger self@[i]] is_live(self@, i) ==> self@[i].refcnt < usize::MAX,
    {
        let mut i: usize = 0;
        while i < CAPACITY
            invariant
                i <= CAPACITY,
                forall|k: int|
                    #![trigger is_live(self@, k)]
                    0 <= k < i && is_live(self@, k) ==> self@[k].refcnt < usize::MAX,
            decreases CAPACITY - i,
        {
            if self.entries[i].refcnt == usize::MAX {
                assert(is_live(self@, i as int));
                return false;
            }
            i += 1;
        }
        true
    }

    /// Whether `handle` names an occupied slot of this pool.
    pub fn is_live(&self, handle: &MruPtr<T>) -> (r: bool)
        ensures
            r == is_live(self@, handle.slot()),
    {
        handle.idx < CAPACITY && self.entries[handle.idx].refcnt > 0
    }

    /// The object in the slot that `handle` names.
    pub fn get(&self, handle: &MruPtr<T>) -> (r: &T)
        requires
            is_live(self@, handle.slot()),
        ensures
            *r == self@[handle.slot()].data,
    {
        &self.entries[handle.idx].data
    }

    /// The recency list as slot indices, most recently used first.
    pub fn recency(&self) -> (r: Vec<usize>)
        requires
            self.links_ok(),
        ensures
            r@.len() == self.order().len(),
            forall|p: int| 0 <= p < r@.len() ==> #[trigger] r@[p] == self.order()[p],
    {
        let mut r: Vec<usize> = Vec::new();
        let mut cur = self.head;
        while cur != CAPACITY
            invariant
                self.links_ok(),
                r@.len() <= self.order().len(),
                cur as int == (if r@.len() < self.order().len() {
                    self.order()[r@.len() as int]
                } else {
                    CAPACITY as int
                }),
                forall|p: int| 0 <= p < r@.len() ==> #[trigger] r@[p] == self.order()[p],
            decreases self.order().len() - r@.len(),
        {
            r.push(cur);
            cur = self.entries[cur].next;
        }
        r
    }

    /// The view has one entry per slot.
    pub proof fn lemma_view_len(&self)
        ensures
            self@.len() == CAPACITY,
    {
    }
}

impl<T: ArenaObject, const CAPACITY: usize> Arena for MruArena<T, CAPACITY> {
    type Data = T;

    type Handle = MruPtr<T>;

    open spec fn slots(&self) -> Seq<SlotView<T>> {
        self@
    }

    open spec fn wf(&self) -> bool {
        self.links_ok() && is_permutation(self.order(), CAPACITY as int)
    }

    open spec fn slot_of(handle: &MruPtr<T>) -> int {
        handle.slot()
    }

    /// The search runs from the most-recent end of the list, which it leaves
    /// as it was. On a hit, `c` rejected every occupied slot that stands
    /// before the result; a fresh slot is the first free slot of the list.
    fn find_or_alloc_handle<C: Fn(&T) -> bool, N: FnOnce(&mut T)>(&mut self, c: C, n: N) -> (r:
        Option<MruPtr<T>>)
        ensures
            final(self).order() == old(self).order(),
            r matches Some(h) ==> (is_live(old(self)@, h.slot()) ==> is_first_accepted(
                c,
                old(self)@,
                old(self).order(),
                h.slot(),
            )),
            r matches Some(h) ==> (is_free(old(self)@, h.slot()) ==> is_first_free(
                old(self)@,
                old(self).order(),
                h.slot(),
            )),
    {
        assert(self.slots() == self@);
        let ghost order = self.order();
        let ghost n_slots = CAPACITY as int;
        let mut empty: Option<usize> = None;
        let ghost mut empty_pos: int = 0;
        let ghost mut p: int = 0;
        let mut cur = self.head;
        while cur != CAPACITY
            invariant
                0 <= p <= CAPACITY,
                cur as int == (if p < CAPACITY {
                    order[p]
                } else {
                    CAPACITY as int
                }),
                self.links_ok(),
                *self == *old(self),
                order == self.order(),
                n_slots == CAPACITY,
                is_permutation(order, n_slots),
                forall|k: int|
                    #![trigger is_live(self@, k)]
                    is_live(self@, k) ==> self@[k].refcnt < usize::MAX && call_requires(
                        c,
                        (&self@[k].data,),
                    ),
                forall|i: int, m: &mut T|
                    #![trigger is_free(self@, i), call_requires(n, (m,))]
                    is_free(self@, i) && *m == self@[i].data ==> call_requires(n, (m,)),
                forall|q: int|
                    #![trigger order[q]]
                    0 <= q < p && is_live(self@, order[q]) ==> rejected(c, self@, order[q]),
                match empty {
                    Some(e) => 0 <= empty_pos < p && order[empty_pos] == e && is_free(
                        self@,
                        e as int,
                    ) && forall|q: int|
                        #![trigger order[q]]
                        0 <= q < empty_pos ==> is_live(self@, order[q]),
                    None => forall|q: int|
                        #![trigger order[q]]
                        0 <= q < p ==> is_live(self@, order[q]),
                },
            decreases CAPACITY - p,
        {
            let i = cur;
            assert(order[p] == i);
            if self.entries[i].refcnt != 0 {
                assert(is_live(self@, i as int));
                if c(&self.entries[i].data) {
                    self.entries[i].refcnt += 1;
                    proof {
                        assert(self@ =~= duped(old(self)@, i as int));
                        assert(is_live(old(self).slots(), i as int) && accepted(
                            c,
                            old(self).slots(),
                            i as int,
                        ));
                        lemma_position(order, n_slots, p);
                    }
                    return Some(MruPtr { idx: i, _marker: PhantomData });
                }
            } else if empty.is_none() {
                empty = Some(i);
                proof {
                    empty_pos = p;
                }
            }
            cur = self.entries[i].next;
            proof {
                p = p + 1;
            }
        }
        assert(p == CAPACITY);
        proof {
            assert forall|j: int| is_live(self@, j) implies rejected(c, self@, j) by {
                assert(order[position(order, j)] == j);
            }
        }
        match empty {
            None => {
                proof {
                    assert forall|j: int| 0 <= j < self@.len() implies is_live(self@, j) by {
                        assert(order[position(order, j)] == j);
                    }
                }
                None
            },
            Some(e) => {
                assert(is_free(self@, e as int));
                self.entries[e].refcnt = 1;
                n(&mut self.entries[e].data);
                proof {
                    assert(self@ =~= taken(old(self)@, e as int, self@[e as int].data));
                    assert(!is_live(old(self).slots(), e as int));
                    lemma_position(order, n_slots, empty_pos);
                    assert(missed(c, old(self).slots()));
                }
                Some(MruPtr { idx: e, _marker: PhantomData })
            },
        }
    }

    /// The search runs from the least-recent end of the list, which it leaves
    /// as it was: the slot taken is the last free slot of the list.
    fn alloc_handle<F: FnOnce(&mut T)>(&mut self, f: F) -> (r: Option<MruPtr<T>>)
        ensures
            final(self).order() == old(self).order(),
            r matches Some(h) ==> is_last_free(old(self)@, old(self).order(), h.slot()),
    {
        assert(self.slots() == self@);
        let ghost order = self.order();
        let ghost n_slots = CAPACITY as int;
        let ghost mut p: int = CAPACITY as int - 1;
        let mut cur = self.tail;
        while cur != CAPACITY
            invariant
                -1 <= p < CAPACITY,
                cur as int == (if p >= 0 {
                    order[p]
                } else {
                    CAPACITY as int
                }),
                self.links_ok(),
                *self == *old(self),
                order == self.order(),
                n_slots == CAPACITY,
                is_permutation(order, n_slots),
                forall|i: int, m: &mut T|
                    #![trigger is_free(self@, i), call_requires(f, (m,))]
                    is_free(self@, i) && *m == self@[i].data ==> call_requires(f, (m,)),
                forall|q: int| #![trigger order[q]] p < q < CAPACITY ==> is_live(self@, order[q]),
            decreases p + 1,
        {
            let i = cur;
            assert(order[p] == i);
            if self.entries[i].refcnt == 0 {
                assert(is_free(self@, i as int));
                self.entries[i].refcnt = 1;
                f(&mut self.entries[i].data);
                proof {
                    assert(self@ =~= taken(old(self)@, i as int, self@[i as int].data));
                    assert(!is_live(old(self).slots(), i as int));
                    lemma_position(order, n_slots, p);
                }
                return Some(MruPtr { idx: i, _marker: PhantomData });
            }
            cur = self.entries[i].prev;
            proof {
                p = p - 1;
            }
        }
        assert(p == -1);
        proof {
            assert forall|j: int| 0 <= j < self@.len() implies is_live(self@, j) by {
                assert(order[position(order, j)] == j);
            }
        }
        None
    }

    /// The recency list stays as it was.
    fn dup(&mut self, handle: &MruPtr<T>) -> (r: MruPtr<T>)
        ensures
            final(self).order() == old(self).order(),
    {
        self.entries[handle.idx].refcnt += 1;
        assert(self@ =~= duped(old(self)@, handle.slot()));
        MruPtr { idx: handle.idx, _marker: PhantomData }
    }

    /// A slot that becomes free moves to the least-recent end of the list;
    /// otherwise the list stays as it was.
    fn dealloc(&mut self, handle: MruPtr<T>)
        ensures
            final(self).order() == order_after_release(old(self)@, old(self).order(), handle.slot()),
    {
        let i = handle.idx;
        if self.entries[i].refcnt == 1 {
            self.entries[i].data.finalize();
        }
        self.entries[i].refcnt -= 1;
        assert(self@ =~= released(old(self)@, i as int));
        if self.entries[i].refcnt == 0 {
            proof {
                assert(old(self).order()[position(old(self).order(), i as int)] == i);
            }
            self.unlink(i);
            self.push_back(i);
            proof {
                lemma_requeued(old(self).order(), CAPACITY as int, i as int);
            }
        }
    }
}

} // verus!
