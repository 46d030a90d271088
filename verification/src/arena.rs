//! The arena contract: a fixed pool of slots, each holding one object and the
//! number of live handles that refer to it.
//!
//! A pool value is only ever touched through `&mut self`; whoever shares a
//! pool between threads keeps it behind a lock and calls in while holding it.

use vstd::prelude::*;

verus! {

/// What a slot holds, as contracts see it.
pub ghost struct SlotView<T> {
    /// Number of live handles; zero means the slot is free.
    pub refcnt: nat,
    /// The stored object.
    pub data: T,
}

/// Slot `i` exists and has no live handle.
pub open spec fn is_free<T>(s: Seq<SlotView<T>>, i: int) -> bool {
    0 <= i < s.len() && s[i].refcnt == 0
}

/// Slot `i` exists and has at least one live handle.
pub open spec fn is_live<T>(s: Seq<SlotView<T>>, i: int) -> bool {
    0 <= i < s.len() && s[i].refcnt > 0
}

/// The predicate `c`, run on the object in slot `i`, answered `true`.
pub open spec fn accepted<T, C: Fn(&T) -> bool>(c: C, s: Seq<SlotView<T>>, i: int) -> bool {
    call_ensures(c, (&s[i].data,), true)
}

/// The predicate `c`, run on the object in slot `i`, answered `false`.
pub open spec fn rejected<T, C: Fn(&T) -> bool>(c: C, s: Seq<SlotView<T>>, i: int) -> bool {
    call_ensures(c, (&s[i].data,), false)
}

/// The predicate `c` can only answer `true` on the object in slot `i`.
pub open spec fn must_accept<T, C: Fn(&T) -> bool>(c: C, s: Seq<SlotView<T>>, i: int) -> bool {
    !call_ensures(c, (&s[i].data,), false)
}

/// The predicate `c` can only answer `false` on the object in slot `i`.
pub open spec fn must_reject<T, C: Fn(&T) -> bool>(c: C, s: Seq<SlotView<T>>, i: int) -> bool {
    !call_ensures(c, (&s[i].data,), true)
}

/// The pool after one more handle to slot `i` has been issued.
pub open spec fn duped<T>(s: Seq<SlotView<T>>, i: int) -> Seq<SlotView<T>> {
    s.update(i, SlotView { refcnt: s[i].refcnt + 1, data: s[i].data })
}

/// The pool after free slot `i` has been taken and now holds `data`.
pub open spec fn taken<T>(s: Seq<SlotView<T>>, i: int, data: T) -> Seq<SlotView<T>> {
    s.update(i, SlotView { refcnt: 1, data })
}

/// The pool after one handle to slot `i` has been released: the count drops
/// by one, and the object is finalized if that handle was the last.
pub open spec fn released<T: ArenaObject>(s: Seq<SlotView<T>>, i: int) -> Seq<SlotView<T>> {
    if s[i].refcnt == 1 {
        s.update(i, SlotView { refcnt: 0, data: s[i].data.finalized() })
    } else {
        s.update(i, SlotView { refcnt: (s[i].refcnt - 1) as nat, data: s[i].data })
    }
}

/// Every slot is occupied.
pub open spec fn is_full<T>(s: Seq<SlotView<T>>) -> bool {
    forall|j: int| #![trigger s[j]] 0 <= j < s.len() ==> is_live(s, j)
}

/// The predicate `c` may be run on every occupied slot's object, and every
/// occupied slot can take one more handle.
pub open spec fn can_search<T, C: Fn(&T) -> bool>(c: C, s: Seq<SlotView<T>>) -> bool {
    forall|i: int|
        #![trigger s[i]]
        is_live(s, i) ==> s[i].refcnt < usize::MAX && call_requires(c, (&s[i].data,))
}

/// The predicate `c` rejected every occupied slot's object.
pub open spec fn missed<T, C: Fn(&T) -> bool>(c: C, s: Seq<SlotView<T>>) -> bool {
    forall|j: int| #![trigger s[j]] is_live(s, j) ==> rejected(c, s, j)
}

/// `post` is `pre` after a hit on slot `i`: the slot was occupied, `c`
/// accepted its object, and the slot has one more handle. Nothing else
/// differs.
pub open spec fn hit<T, C: Fn(&T) -> bool>(
    c: C,
    pre: Seq<SlotView<T>>,
    post: Seq<SlotView<T>>,
    i: int,
) -> bool {
    &&& is_live(pre, i)
    &&& accepted(c, pre, i)
    &&& post == duped(pre, i)
}

/// `post` is `pre` after free slot `i` has been taken: its count is one, and
/// no other slot differs.
pub open spec fn filled<T>(pre: Seq<SlotView<T>>, post: Seq<SlotView<T>>, i: int) -> bool {
    &&& is_free(pre, i)
    &&& post == taken(pre, i, post[i].data)
}

/// An object that can live in an arena.
pub trait ArenaObject: Sized {
    /// The object as `finalize` leaves it.
    spec fn finalized(self) -> Self;

    /// Cleans the object up. An arena calls this once, when the last handle to
    /// the object's slot is released and before the slot is free again.
    fn finalize(&mut self)
        ensures
            *final(self) == old(self).finalized(),
    ;
}

/// A pool of a fixed number of slots that hands out counted handles.
pub trait Arena: Sized {
    /// The type of the stored objects.
    type Data: ArenaObject;

    /// The handle type. A handle names one slot; it is not copyable, and every
    /// handle issued must come back through `dealloc`.
    type Handle;

    /// The slots, in index order.
    spec fn slots(&self) -> Seq<SlotView<Self::Data>>;

    /// The pool's internal invariant.
    spec fn wf(&self) -> bool;

    /// The index of the slot that `handle` names.
    spec fn slot_of(handle: &Self::Handle) -> int;

    /// Looks for an occupied slot whose object satisfies `c`. Every occupied
    /// slot is examined before a free one is taken. On a hit the slot gets one
    /// more handle and `n` does not run. With no hit, a free slot is taken,
    /// `n` initializes its object, and its count is one. With no hit and no
    /// free slot the pool is left as it was and the result is `None`.
    fn find_or_alloc_handle<C: Fn(&Self::Data) -> bool, N: FnOnce(&mut Self::Data)>(
        &mut self,
        c: C,
        n: N,
    ) -> (r: Option<Self::Handle>)
        requires
            old(self).wf(),
            can_search(c, old(self).slots()),
            forall|i: int, m: &mut Self::Data|
                #![trigger old(self).slots()[i], call_requires(n, (m,))]
                is_free(old(self).slots(), i) && *m == old(self).slots()[i].data ==> call_requires(
                    n,
                    (m,),
                ),
        ensures
            final(self).wf(),
            r matches Some(h) ==> hit(c, old(self).slots(), final(self).slots(), Self::slot_of(&h))
                || (missed(c, old(self).slots()) && filled(
                old(self).slots(),
                final(self).slots(),
                Self::slot_of(&h),
            ) && exists|m: &mut Self::Data|
                *m == old(self).slots()[Self::slot_of(&h)].data
                    && *final(m) == final(self).slots()[Self::slot_of(&h)].data
                    && #[trigger] call_ensures(n, (m,), ())),
            r is None ==> final(self).slots() == old(self).slots() && missed(c, old(self).slots())
                && is_full(old(self).slots()),
            can_hit(c, old(self).slots()) ==> r is Some && is_live(
                old(self).slots(),
                Self::slot_of(&r->Some_0),
            ),
            exhausted_for(c, old(self).slots()) ==> r is None,
    ;

    /// Takes a free slot without looking at the occupied ones, lets `f`
    /// initialize its object and sets its count to one. With no free slot the
    /// pool is left as it was and the result is `None`.
    fn alloc_handle<F: FnOnce(&mut Self::Data)>(&mut self, f: F) -> (r: Option<Self::Handle>)
        requires
            old(self).wf(),
            forall|i: int, m: &mut Self::Data|
                #![trigger old(self).slots()[i], call_requires(f, (m,))]
                is_free(old(self).slots(), i) && *m == old(self).slots()[i].data ==> call_requires(
                    f,
                    (m,),
                ),
        ensures
            final(self).wf(),
            r is None <==> is_full(old(self).slots()),
            r matches Some(h) ==> filled(old(self).slots(), final(self).slots(), Self::slot_of(&h))
                && exists|m: &mut Self::Data|
                *m == old(self).slots()[Self::slot_of(&h)].data
                    && *final(m) == final(self).slots()[Self::slot_of(&h)].data
                    && #[trigger] call_ensures(f, (m,), ()),
            r is None ==> final(self).slots() == old(self).slots(),
    ;

    /// Issues one more handle to the slot that `handle` names.
    fn dup(&mut self, handle: &Self::Handle) -> (r: Self::Handle)
        requires
            old(self).wf(),
            is_live(old(self).slots(), Self::slot_of(handle)),
            old(self).slots()[Self::slot_of(handle)].refcnt < usize::MAX,
        ensures
            final(self).wf(),
            Self::slot_of(&r) == Self::slot_of(handle),
            final(self).slots() == duped(old(self).slots(), Self::slot_of(handle)),
    ;

    /// Takes `handle` back. If it was the last handle to its slot, the object
    /// is finalized and the slot becomes free.
    fn dealloc(&mut self, handle: Self::Handle)
        requires
            old(self).wf(),
            is_live(old(self).slots(), Self::slot_of(&handle)),
        ensures
            final(self).wf(),
            final(self).slots() == released(old(self).slots(), Self::slot_of(&handle)),
    ;
}

/// One step in the life of the handles to a slot.
pub enum HandleOp {
    /// A further handle is issued (`dup`).
    Dup,
    /// A handle is given back (`dealloc`).
    Dealloc,
}

/// The pool after the steps `ops` have been applied, in order, to slot `i`.
pub open spec fn replay<T: ArenaObject>(s: Seq<SlotView<T>>, i: int, ops: Seq<HandleOp>) -> Seq<
    SlotView<T>,
>
    decreases ops.len(),
{
    if ops.len() == 0 {
        s
    } else {
        let before = replay(s, i, ops.drop_last());
        match ops.last() {
            HandleOp::Dup => duped(before, i),
            HandleOp::Dealloc => released(before, i),
        }
    }
}

/// The number of handles outstanding after `ops`, starting from `start`.
pub open spec fn outstanding(start: int, ops: Seq<HandleOp>) -> int
    decreases ops.len(),
{
    if ops.len() == 0 {
        start
    } else {
        outstanding(start, ops.drop_last()) + match ops.last() {
            HandleOp::Dup => 1int,
            HandleOp::Dealloc => -1int,
        }
    }
}

/// The pool in which `e` handles to slot `i` are outstanding: with `e` above
/// zero the object is the one of `s`; with `e` zero it has been finalized once
/// and the slot is free.
pub open spec fn with_outstanding<T: ArenaObject>(s: Seq<SlotView<T>>, i: int, e: int) -> Seq<
    SlotView<T>,
> {
    s.update(
        i,
        SlotView {
            refcnt: e as nat,
            data: if e == 0 {
                s[i].data.finalized()
            } else {
                s[i].data
            },
        },
    )
}

/// However handles to an occupied slot are duplicated and given back, the
/// object is finalized exactly when the number of outstanding handles reaches
/// zero: until then the object is untouched, and at that moment it has been
/// finalized once. The slot's count always equals the number of outstanding
/// handles, and no other slot changes.
pub proof fn lemma_finalize_once<T: ArenaObject>(s: Seq<SlotView<T>>, i: int, ops: Seq<HandleOp>)
    requires
        is_live(s, i),
        forall|k: int| 0 <= k < ops.len() ==> outstanding(s[i].refcnt as int, #[trigger] ops.take(k)) > 0,
    ensures
        outstanding(s[i].refcnt as int, ops) >= 0,
        replay(s, i, ops) == with_outstanding(s, i, outstanding(s[i].refcnt as int, ops)),
    decreases ops.len(),
{
    let start = s[i].refcnt as int;
    if ops.len() == 0 {
        assert(replay(s, i, ops) =~= with_outstanding(s, i, start));
    } else {
        let prefix = ops.drop_last();
        assert(prefix =~= ops.take(ops.len() - 1));
        assert forall|k: int| 0 <= k < prefix.len() implies outstanding(
            start,
            #[trigger] prefix.take(k),
        ) > 0 by {
            assert(prefix.take(k) =~= ops.take(k));
        }
        lemma_finalize_once(s, i, prefix);
        let before = replay(s, i, prefix);
        assert(outstanding(start, prefix) > 0);
        assert(before[i].data == s[i].data);
        let after = replay(s, i, ops);
        let e = outstanding(start, ops);
        assert(after =~= with_outstanding(s, i, e));
    }
}

/// Duplicating a handle and giving the duplicate straight back leaves every
/// slot as it was, the object included, without finalizing it.
pub proof fn lemma_dup_dealloc<T: ArenaObject>(s: Seq<SlotView<T>>, i: int)
    requires
        is_live(s, i),
    ensures
        released(duped(s, i), i) == s,
{
    assert(released(duped(s, i), i) =~= s);
}

/// A slot is never given to another object while it has a live handle:
/// whichever step the pool takes, a slot that is occupied before and after
/// holds the same object, and a slot that the step does not name keeps its
/// count too.
pub proof fn lemma_occupied_slots_keep_their_object<T: ArenaObject>(
    s: Seq<SlotView<T>>,
    i: int,
    data: T,
    j: int,
)
    requires
        0 <= i < s.len(),
        is_live(s, j),
    ensures
        duped(s, i)[j].data == s[j].data,
        is_free(s, i) ==> taken(s, i, data)[j] == s[j],
        is_live(released(s, i), j) ==> released(s, i)[j].data == s[j].data,
        j != i ==> duped(s, i)[j] == s[j] && released(s, i)[j] == s[j],
{
}

/// Some occupied slot holds an object that `c` can only accept.
pub open spec fn can_hit<T, C: Fn(&T) -> bool>(c: C, s: Seq<SlotView<T>>) -> bool {
    exists|j: int| #![trigger s[j]] is_live(s, j) && must_accept(c, s, j)
}

/// No slot is free, and `c` can only reject every object.
pub open spec fn exhausted_for<T, C: Fn(&T) -> bool>(c: C, s: Seq<SlotView<T>>) -> bool {
    forall|j: int| #![trigger s[j]] 0 <= j < s.len() ==> is_live(s, j) && must_reject(c, s, j)
}

/// An owning handle: its holder duplicates it with `clone_in` and gives it
/// back with `free`, each time naming the arena that issued it. One who
/// shares the arena behind a lock keeps a reference to the arena beside it,
/// and calls `clone_in` and `free` where the owner is cloned and dropped.
pub struct Rc<A: Arena> {
    inner: A::Handle,
}

impl<A: Arena> Rc<A> {
    /// The index of the slot that this handle names.
    pub closed spec fn slot(&self) -> int {
        A::slot_of(&self.inner)
    }

    /// Wraps a handle. The handle has to come from the arena that `clone_in`
    /// and `free` will be called with.
    pub fn from_unchecked(inner: A::Handle) -> (r: Self)
        ensures
            r.slot() == A::slot_of(&inner),
    {
        Rc { inner }
    }

    /// The handle inside.
    pub fn handle(&self) -> (r: &A::Handle)
        ensures
            A::slot_of(r) == self.slot(),
    {
        &self.inner
    }

    /// `find_or_alloc_handle`, with the handle wrapped.
    pub fn find_or_alloc<C: Fn(&A::Data) -> bool, N: FnOnce(&mut A::Data)>(
        arena: &mut A,
        c: C,
        n: N,
    ) -> (r: Option<Self>)
        requires
            old(arena).wf(),
            can_search(c, old(arena).slots()),
            forall|i: int, m: &mut A::Data|
                #![trigger old(arena).slots()[i], call_requires(n, (m,))]
                is_free(old(arena).slots(), i) && *m == old(arena).slots()[i].data ==> call_requires(
                    n,
                    (m,),
                ),
        ensures
            final(arena).wf(),
            r matches Some(rc) ==> hit(c, old(arena).slots(), final(arena).slots(), rc.slot()) || (
            missed(c, old(arena).slots()) && filled(
                old(arena).slots(),
                final(arena).slots(),
                rc.slot(),
            ) && exists|m: &mut A::Data|
                *m == old(arena).slots()[rc.slot()].data
                    && *final(m) == final(arena).slots()[rc.slot()].data
                    && #[trigger] call_ensures(n, (m,), ())),
            r is None ==> final(arena).slots() == old(arena).slots() && missed(
                c,
                old(arena).slots(),
            ) && is_full(old(arena).slots()),
            can_hit(c, old(arena).slots()) ==> r is Some && is_live(
                old(arena).slots(),
                r->Some_0.slot(),
            ),
            exhausted_for(c, old(arena).slots()) ==> r is None,
    {
        match arena.find_or_alloc_handle(c, n) {
            Some(inner) => Some(Rc { inner }),
            None => None,
        }
    }

    /// `alloc_handle`, with the handle wrapped.
    pub fn allocate<F: FnOnce(&mut A::Data)>(arena: &mut A, f: F) -> (r: Option<Self>)
        requires
            old(arena).wf(),
            forall|i: int, m: &mut A::Data|
                #![trigger old(arena).slots()[i], call_requires(f, (m,))]
                is_free(old(arena).slots(), i) && *m == old(arena).slots()[i].data ==> call_requires(
                    f,
                    (m,),
                ),
        ensures
            final(arena).wf(),
            r is None <==> is_full(old(arena).slots()),
            r matches Some(rc) ==> filled(old(arena).slots(), final(arena).slots(), rc.slot())
                && exists|m: &mut A::Data|
                *m == old(arena).slots()[rc.slot()].data
                    && *final(m) == final(arena).slots()[rc.slot()].data
                    && #[trigger] call_ensures(f, (m,), ()),
            r is None ==> final(arena).slots() == old(arena).slots(),
    {
        match arena.alloc_handle(f) {
            Some(inner) => Some(Rc { inner }),
            None => None,
        }
    }

    /// A second owner of the same slot: the slot has one more handle.
    pub fn clone_in(&self, arena: &mut A) -> (r: Self)
        requires
            old(arena).wf(),
            is_live(old(arena).slots(), self.slot()),
            old(arena).slots()[self.slot()].refcnt < usize::MAX,
        ensures
            final(arena).wf(),
            r.slot() == self.slot(),
            final(arena).slots() == duped(old(arena).slots(), self.slot()),
    {
        Rc { inner: arena.dup(&self.inner) }
    }

    /// Gives the handle back. If it was the last handle to its slot, the
    /// object is finalized and the slot becomes free.
    pub fn free(self, arena: &mut A)
        requires
            old(arena).wf(),
            is_live(old(arena).slots(), self.slot()),
        ensures
            final(arena).wf(),
            final(arena).slots() == released(old(arena).slots(), self.slot()),
    {
        arena.dealloc(self.inner)
    }
}

} // verus!
