//! The fixed-slab strategy: slots in a plain array, found by linear scan and
//! reused in place.

use crate::arena::{
    accepted, duped, is_free, is_live, rejected, released, taken, Arena, ArenaObject, SlotView,
};
use core::marker::PhantomData;
use vstd::prelude::*;

verus! {

/// One slot of an `ArrayArena`.
pub struct ArrayEntry<T> {
    refcnt: usize,
    data: T,
}

/// A pool of `CAPACITY` counted slots with no order among them.
pub struct ArrayArena<T, const CAPACITY: usize> {
    entries: [ArrayEntry<T>; CAPACITY],
}

/// A handle to one slot of an `ArrayArena`. It is neither `Clone` nor `Copy`:
/// a second handle comes from `dup`, and each one goes back through `dealloc`.
#[must_use]
pub struct ArrayPtr<T> {
    idx: usize,
    _marker: PhantomData<T>,
}

/// Slot `i` is the free slot of lowest index.
pub open spec fn is_lowest_free<T>(s: Seq<SlotView<T>>, i: int) -> bool {
    &&& is_free(s, i)
    &&& forall|j: int| #![trigger s[j]] 0 <= j < i ==> is_live(s, j)
}

/// The predicate `c` rejected every occupied slot of lower index than `i`.
pub open spec fn is_lowest_accepted<T, C: Fn(&T) -> bool>(c: C, s: Seq<SlotView<T>>, i: int) -> bool {
    forall|j: int| #![trigger s[j]] 0 <= j < i && is_live(s, j) ==> rejected(c, s, j)
}

impl<T> ArrayPtr<T> {
    /// The index of the slot that this handle names.
    pub closed spec fn slot(&self) -> int {
        self.idx as int
    }

    /// The index of the slot that this handle names.
    pub fn index(&self) -> (r: usize)
        ensures
            r == self.slot(),
    {
        self.idx
    }
}

impl<T: Copy> Clone for ArrayEntry<T> {
    fn clone(&self) -> (r: Self)
        ensures
            r == *self,
    {
        *self
    }
}

impl<T: Copy> Copy for ArrayEntry<T> {

}

impl<T> ArrayEntry<T> {
    /// The abstract content of this slot.
    pub closed spec fn view(&self) -> SlotView<T> {
        SlotView { refcnt: self.refcnt as nat, data: self.data }
    }

    /// A free slot that stores `data`.
    pub fn new(data: T) -> (r: Self)
        ensures
            r@ == (SlotView { refcnt: 0, data }),
    {
        Self { refcnt: 0, data }
    }
}

impl<T, const CAPACITY: usize> ArrayArena<T, CAPACITY> {
    /// The slots, in index order.
    pub closed spec fn view(&self) -> Seq<SlotView<T>> {
        Seq::new(CAPACITY as nat, |i: int| self.entries[i]@)
    }

    /// A pool made of the given slots.
    pub fn new(entries: [ArrayEntry<T>; CAPACITY]) -> (r: Self)
        ensures
            r@.len() == CAPACITY,
            forall|i: int| 0 <= i < CAPACITY ==> #[trigger] r@[i] == entries[i]@,
    {
        Self { entries }
    }

    /// The number of live handles to slot `i`.
    pub fn refcnt_at(&self, i: usize) -> (r: usize)
        requires
            i < CAPACITY,
        ensures
            r == self@[i as int].refcnt,
    {
        self.entries[i].refcnt
    }

    /// The object stored in slot `i`, whether the slot is occupied or free.
    pub fn data_at(&self, i: usize) -> (r: &T)
        requires
            i < CAPACITY,
        ensures
            *r == self@[i as int].data,
    {
        &self.entries[i].data
    }

    /// Whether every occupied slot can take one more handle: no count is at
    /// the machine's limit.
    pub fn counts_fit(&self) -> (r: bool)
        ensures
            r == forall|i: int| #![trigger self@[i]] is_live(self@, i) ==> self@[i].refcnt < usize::MAX,
    {
        let mut i: usize = 0;
        while i < CAPACITY
            invariant
                i <= CAPACITY,
                forall|k: int|
                    #![trigger is_live(self@, k)]
                    0 <= k < i && is_live(self@, k) ==> self@[k].refcnt < usize::MAX,
            decreases CAPACITY - i,
        {
            if self.entries[i].refcnt == usize::MAX {
                assert(is_live(self@, i as int));
                return false;
            }
            i += 1;
        }
        true
    }

    /// Whether `handle` names an occupied slot of this pool.
    pub fn is_live(&self, handle: &ArrayPtr<T>) -> (r: bool)
        ensures
            r == is_live(self@, handle.slot()),
    {
        handle.idx < CAPACITY && self.entries[handle.idx].refcnt > 0
    }

    /// The object in the slot that `handle` names.
    pub fn get(&self, handle: &ArrayPtr<T>) -> (r: &T)
        requires
            is_live(self@, handle.slot()),
        ensures
            *r == self@[handle.slot()].data,
    {
        &self.entries[handle.idx].data
    }

    /// The view has one entry per slot.
    pub proof fn lemma_view_len(&self)
        ensures
            self@.len() == CAPACITY,
    {
    }
}

impl<T: ArenaObject, const CAPACITY: usize> Arena for ArrayArena<T, CAPACITY> {
    type Data = T;

    type Handle = ArrayPtr<T>;

    open spec fn slots(&self) -> Seq<SlotView<T>> {
        self@
    }

    open spec fn wf(&self) -> bool {
        true
    }

    open spec fn slot_of(handle: &ArrayPtr<T>) -> int {
        handle.slot()
    }

    /// On a hit the result is the matching occupied slot of lowest index that
    /// `c` accepted; a fresh slot is the free slot of lowest index.
    fn find_or_alloc_handle<C: Fn(&T) -> bool, N: FnOnce(&mut T)>(&mut self, c: C, n: N) -> (r:
        Option<ArrayPtr<T>>)
        ensures
            r matches Some(h) ==> (is_live(old(self)@, h.slot()) ==> is_lowest_accepted(
                c,
                old(self)@,
                h.slot(),
            )),
            r matches Some(h) ==> (is_free(old(self)@, h.slot()) ==> is_lowest_free(
                old(self)@,
                h.slot(),
            )),
    {
        assert(self.slots() == self@);
        let mut empty: Option<usize> = None;
        let mut i: usize = 0;
        while i < CAPACITY
            invariant
                i <= CAPACITY,
                *self == *old(self),
                forall|k: int| #![trigger is_live(self@, k)]
                    is_live(self@, k) ==> self@[k].refcnt < usize::MAX && call_requires(
                        c,
                        (&self@[k].data,),
                    ),
                forall|k: int|
                    #![trigger is_live(self@, k)]
                    0 <= k < i && is_live(self@, k) ==> rejected(c, self@, k),
                forall|i: int, m: &mut T|
                    #![trigger is_free(self@, i), call_requires(n, (m,))]
                    is_free(self@, i) && *m == self@[i].data ==> call_requires(n, (m,)),
                match empty {
                    Some(e) => e < i && is_free(self@, e as int) && forall|k: int|
                        0 <= k < e ==> #[trigger] is_live(self@, k),
                    None => forall|k: int| 0 <= k < i ==> #[trigger] is_live(self@, k),
                },
            decreases CAPACITY - i,
        {
            if self.entries[i].refcnt != 0 {
                assert(is_live(self@, i as int));
                if c(&self.entries[i].data) {
                    self.entries[i].refcnt += 1;
                    assert(self@ =~= duped(old(self)@, i as int));
                    assert(is_live(old(self).slots(), i as int) && accepted(c, old(self).slots(), i as int));
                    return Some(ArrayPtr { idx: i, _marker: PhantomData });
                }
            } else if empty.is_none() {
                empty = Some(i);
            }
            i += 1;
        }
        match empty {
            None => None,
            Some(e) => {
                assert(is_free(self@, e as int));
                self.entries[e].refcnt = 1;
                n(&mut self.entries[e].data);
                assert(self@ =~= taken(old(self)@, e as int, self@[e as int].data));
                assert(!is_live(old(self).slots(), e as int));
                Some(ArrayPtr { idx: e, _marker: PhantomData })
            },
        }
    }

    /// The slot taken is the free slot of lowest index.
    fn alloc_handle<F: FnOnce(&mut T)>(&mut self, f: F) -> (r: Option<ArrayPtr<T>>)
        ensures
            r matches Some(h) ==> is_lowest_free(old(self)@, h.slot()),
    {
        assert(self.slots() == self@);
        let mut i: usize = 0;
        while i < CAPACITY
            invariant
                i <= CAPACITY,
                *self == *old(self),
                forall|i: int, m: &mut T|
                    #![trigger is_free(self@, i), call_requires(f, (m,))]
                    is_free(self@, i) && *m == self@[i].data ==> call_requires(f, (m,)),
                forall|k: int| 0 <= k < i ==> #[trigger] is_live(self@, k),
            decreases CAPACITY - i,
        {
            if self.entries[i].refcnt == 0 {
                assert(is_free(self@, i as int));
                self.entries[i].refcnt = 1;
                f(&mut self.entries[i].data);
                assert(self@ =~= taken(old(self)@, i as int, self@[i as int].data));
                assert(!is_live(old(self).slots(), i as int));
                return Some(ArrayPtr { idx: i, _marker: PhantomData });
            }
            i += 1;
        }
        None
    }

    fn dup(&mut self, handle: &ArrayPtr<T>) -> (r: ArrayPtr<T>) {
        self.entries[handle.idx].refcnt += 1;
        assert(self@ =~= duped(old(self)@, handle.slot()));
        ArrayPtr { idx: handle.idx, _marker: PhantomData }
    }

    fn dealloc(&mut self, handle: ArrayPtr<T>) {
        let i = handle.idx;
        if self.entries[i].refcnt == 1 {
            self.entries[i].data.finalize();
        }
        self.entries[i].refcnt -= 1;
        assert(self@ =~= released(old(self)@, i as int));
    }
}

} // verus!
