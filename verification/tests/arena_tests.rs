use rv6_kernel::arena::{Arena, ArenaObject, Rc};
use rv6_kernel::array_arena::{ArrayArena, ArrayEntry};

/// An object keyed by `id` that counts how often it was finalized.
#[derive(Clone, Copy, Debug, PartialEq)]
struct Obj {
    id: u32,
    payload: u32,
    finalized: u32,
}

impl Obj {
    fn blank() -> Self {
        Obj { id: 0, payload: 0, finalized: 0 }
    }
}

impl ArenaObject for Obj {
    fn finalized(self) -> Self {
        Obj { finalized: self.finalized + 1, ..self }
    }

    fn finalize(&mut self) {
        self.finalized += 1;
    }
}

fn array2() -> ArrayArena<Obj, 2> {
    ArrayArena::new([ArrayEntry::new(Obj::blank()), ArrayEntry::new(Obj::blank())])
}

fn array3() -> ArrayArena<Obj, 3> {
    ArrayArena::new([
        ArrayEntry::new(Obj::blank()),
        ArrayEntry::new(Obj::blank()),
        ArrayEntry::new(Obj::blank()),
    ])
}

fn occupied<const N: usize>(a: &ArrayArena<Obj, N>) -> usize {
    (0..N).filter(|&i| a.refcnt_at(i) > 0).count()
}

fn snapshot<const N: usize>(a: &ArrayArena<Obj, N>) -> Vec<(usize, Obj)> {
    (0..N).map(|i| (a.refcnt_at(i), *a.data_at(i))).collect()
}

#[test]
fn array_new_slots_are_free() {
    let a = array3();
    assert_eq!(snapshot(&a), vec![(0, Obj::blank()); 3]);
}

#[test]
fn array_scenario_find_or_alloc_twice_then_release() {
    let mut a = array2();
    let h1 = a
        .find_or_alloc_handle(
            |o: &Obj| o.id == 5,
            |o: &mut Obj| {
                o.id = 5;
                o.payload = 5;
            },
        )
        .expect("first lookup allocates");
    assert_eq!(occupied(&a), 1);
    assert_eq!(a.get(&h1).payload, 5);
    assert_eq!(a.refcnt_at(h1.index()), 1);
    let h2 = a
        .find_or_alloc_handle(
            |o: &Obj| o.id == 5,
            |o: &mut Obj| {
                o.id = 5;
                o.payload = 99;
            },
        )
        .expect("second lookup hits");
    assert_eq!(h2.index(), h1.index());
    assert_eq!(occupied(&a), 1);
    assert_eq!(a.refcnt_at(0) + a.refcnt_at(1), 2);
    assert_eq!(a.get(&h2).payload, 5);
    let slot = h1.index();
    a.dealloc(h1);
    assert_eq!(occupied(&a), 1);
    assert_eq!(a.data_at(slot).finalized, 0);
    a.dealloc(h2);
    assert_eq!(occupied(&a), 0);
    assert_eq!(a.refcnt_at(slot), 0);
    assert_eq!(a.data_at(slot).finalized, 1);
}

#[test]
fn array_finalize_runs_once_when_last_handle_goes() {
    let mut a = array2();
    let h = a.alloc_handle(|o: &mut Obj| o.id = 1).expect("room");
    let d1 = a.dup(&h);
    let d2 = a.dup(&h);
    assert_eq!(a.refcnt_at(0), 3);
    a.dealloc(d1);
    assert_eq!((a.refcnt_at(0), a.data_at(0).finalized), (2, 0));
    let d3 = a.dup(&h);
    assert_eq!((a.refcnt_at(0), a.data_at(0).finalized), (3, 0));
    a.dealloc(h);
    assert_eq!((a.refcnt_at(0), a.data_at(0).finalized), (2, 0));
    a.dealloc(d3);
    assert_eq!((a.refcnt_at(0), a.data_at(0).finalized), (1, 0));
    a.dealloc(d2);
    assert_eq!((a.refcnt_at(0), a.data_at(0).finalized), (0, 1));
    assert_eq!(a.data_at(1).finalized, 0);
}

#[test]
fn array_dedup_wins_over_earlier_free_slot() {
    let mut a = array3();
    let h0 = a.alloc_handle(|o: &mut Obj| o.id = 1).expect("room");
    let h1 = a.alloc_handle(|o: &mut Obj| o.id = 7).expect("room");
    assert_eq!((h0.index(), h1.index()), (0, 1));
    a.dealloc(h0);
    assert_eq!(a.refcnt_at(0), 0);
    let before = snapshot(&a);
    let mut ran = false;
    let hit = a
        .find_or_alloc_handle(|o: &Obj| o.id == 7, |_o: &mut Obj| ran = true)
        .expect("the occupied slot matches");
    assert_eq!(hit.index(), 1);
    assert!(!ran);
    let after = snapshot(&a);
    assert_eq!(after[0], before[0]);
    assert_eq!(after[1], (2, before[1].1));
    assert_eq!(after[2], before[2]);
    a.dealloc(hit);
    a.dealloc(h1);
}

#[test]
fn array_find_skips_free_slot_with_stale_match() {
    let mut a = array2();
    let h = a.alloc_handle(|o: &mut Obj| o.id = 9).expect("room");
    a.dealloc(h);
    assert_eq!(a.data_at(0).id, 9);
    let mut ran = false;
    let h = a
        .find_or_alloc_handle(
            |o: &Obj| o.id == 9,
            |o: &mut Obj| {
                ran = true;
                o.payload = 3;
            },
        )
        .expect("room");
    assert!(ran);
    assert_eq!(h.index(), 0);
    assert_eq!(a.refcnt_at(0), 1);
    assert_eq!(a.get(&h).payload, 3);
    a.dealloc(h);
}

#[test]
fn array_find_takes_first_free_slot_when_nothing_matches() {
    let mut a = array3();
    let h0 = a.alloc_handle(|o: &mut Obj| o.id = 1).expect("room");
    let h1 = a.alloc_handle(|o: &mut Obj| o.id = 2).expect("room");
    let h2 = a.alloc_handle(|o: &mut Obj| o.id = 3).expect("room");
    a.dealloc(h1);
    let h = a
        .find_or_alloc_handle(|o: &Obj| o.id == 4, |o: &mut Obj| o.id = 4)
        .expect("room");
    assert_eq!(h.index(), 1);
    assert_eq!(a.data_at(1).id, 4);
    a.dealloc(h);
    a.dealloc(h0);
    a.dealloc(h2);
}

#[test]
fn array_alloc_takes_lowest_free_index() {
    let mut a = array3();
    let h0 = a.alloc_handle(|o: &mut Obj| o.id = 1).expect("room");
    let h1 = a.alloc_handle(|o: &mut Obj| o.id = 1).expect("room");
    let h2 = a.alloc_handle(|o: &mut Obj| o.id = 1).expect("room");
    assert_eq!((h0.index(), h1.index(), h2.index()), (0, 1, 2));
    a.dealloc(h1);
    a.dealloc(h0);
    let again = a.alloc_handle(|o: &mut Obj| o.id = 2).expect("room");
    assert_eq!(again.index(), 0);
    a.dealloc(again);
    a.dealloc(h2);
}

#[test]
fn array_capacity_exhaustion_leaves_slots_alone() {
    let mut a = array3();
    let mut held = Vec::new();
    for id in 1..=3u32 {
        held.push(a.alloc_handle(|o: &mut Obj| o.id = id).expect("room"));
    }
    let before = snapshot(&a);
    let mut ran = false;
    assert!(a.alloc_handle(|_o: &mut Obj| ran = true).is_none());
    assert!(!ran);
    assert_eq!(snapshot(&a), before);
    assert!(a.find_or_alloc_handle(|o: &Obj| o.id == 42, |_o: &mut Obj| ran = true).is_none());
    assert!(!ran);
    assert_eq!(snapshot(&a), before);
    for h in held {
        a.dealloc(h);
    }
    assert_eq!(occupied(&a), 0);
}

#[test]
fn array_dup_then_dealloc_changes_nothing() {
    let mut a = array2();
    let h = a
        .alloc_handle(|o: &mut Obj| {
            o.id = 3;
            o.payload = 30;
        })
        .expect("room");
    let before = snapshot(&a);
    let d = a.dup(&h);
    assert_eq!(d.index(), h.index());
    assert_eq!(a.refcnt_at(h.index()), 2);
    a.dealloc(d);
    assert_eq!(snapshot(&a), before);
    assert_eq!(a.get(&h).finalized, 0);
    a.dealloc(h);
}

#[test]
fn array_is_live_follows_the_count() {
    let mut a = array2();
    let h = a.alloc_handle(|o: &mut Obj| o.id = 1).expect("room");
    assert!(a.is_live(&h));
    let d = a.dup(&h);
    a.dealloc(h);
    assert!(a.is_live(&d));
    a.dealloc(d);
    assert_eq!(a.refcnt_at(0), 0);
}

#[test]
fn array_entry_is_copied_with_its_data() {
    let e = ArrayEntry::new(Obj { id: 4, payload: 5, finalized: 0 });
    let a: ArrayArena<Obj, 2> = ArrayArena::new([e, e.clone()]);
    assert_eq!(*a.data_at(1), Obj { id: 4, payload: 5, finalized: 0 });
    assert_eq!(a.refcnt_at(1), 0);
}

#[test]
fn rc_clone_and_free_move_the_count() {
    let mut a = array2();
    let rc = Rc::allocate(&mut a, |o: &mut Obj| o.id = 6).expect("room");
    assert_eq!(rc.handle().index(), 0);
    assert_eq!(a.refcnt_at(0), 1);
    let second = rc.clone_in(&mut a);
    assert_eq!(second.handle().index(), 0);
    assert_eq!(a.refcnt_at(0), 2);
    rc.free(&mut a);
    assert_eq!((a.refcnt_at(0), a.data_at(0).finalized), (1, 0));
    second.free(&mut a);
    assert_eq!((a.refcnt_at(0), a.data_at(0).finalized), (0, 1));
}

#[test]
fn rc_find_or_alloc_shares_the_slot() {
    let mut a = array2();
    let first = Rc::find_or_alloc(&mut a, |o: &Obj| o.id == 5, |o: &mut Obj| o.id = 5)
        .expect("room");
    let other = Rc::find_or_alloc(&mut a, |o: &Obj| o.id == 6, |o: &mut Obj| o.id = 6)
        .expect("room");
    let again = Rc::find_or_alloc(&mut a, |o: &Obj| o.id == 5, |o: &mut Obj| o.id = 50)
        .expect("hit");
    assert_eq!((first.handle().index(), other.handle().index(), again.handle().index()), (0, 1, 0));
    assert_eq!((a.refcnt_at(0), a.refcnt_at(1)), (2, 1));
    assert_eq!(a.data_at(0).id, 5);
    assert!(Rc::find_or_alloc(&mut a, |o: &Obj| o.id == 7, |o: &mut Obj| o.id = 7).is_none());
    assert!(Rc::allocate(&mut a, |o: &mut Obj| o.id = 7).is_none());
    first.free(&mut a);
    other.free(&mut a);
    again.free(&mut a);
    assert_eq!(occupied(&a), 0);
}

#[test]
fn rc_from_unchecked_wraps_a_handle() {
    let mut a = array2();
    let h = a.alloc_handle(|o: &mut Obj| o.id = 1).expect("room");
    let rc: Rc<ArrayArena<Obj, 2>> = Rc::from_unchecked(h);
    assert_eq!(rc.handle().index(), 0);
    rc.free(&mut a);
    assert_eq!(a.refcnt_at(0), 0);
}
