use rv6_kernel::arena::{Arena, ArenaObject, Rc};
use rv6_kernel::mru_arena::{MruArena, MruEntry};

/// An object keyed by `id` that counts how often it was finalized.
#[derive(Clone, Copy, Debug, PartialEq)]
struct Item {
    id: u32,
    payload: u32,
    finalized: u32,
}

impl Item {
    fn blank() -> Self {
        Item { id: 0, payload: 0, finalized: 0 }
    }
}

impl ArenaObject for Item {
    fn finalized(self) -> Self {
        Item { finalized: self.finalized + 1, ..self }
    }

    fn finalize(&mut self) {
        self.finalized += 1;
    }
}

fn mru2() -> MruArena<Item, 2> {
    MruArena::new([MruEntry::new(Item::blank()), MruEntry::new(Item::blank())])
}

fn mru3() -> MruArena<Item, 3> {
    let mut a = MruArena::new([
        MruEntry::new(Item::blank()),
        MruEntry::new(Item::blank()),
        MruEntry::new(Item::blank()),
    ]);
    a.init();
    a
}

fn occupied<const N: usize>(a: &MruArena<Item, N>) -> usize {
    (0..N).filter(|&i| a.refcnt_at(i) > 0).count()
}

fn snapshot<const N: usize>(a: &MruArena<Item, N>) -> Vec<(usize, Item)> {
    (0..N).map(|i| (a.refcnt_at(i), *a.data_at(i))).collect()
}

#[test]
fn mru_init_lists_last_slot_first() {
    let a = mru3();
    assert_eq!(a.recency(), vec![2, 1, 0]);
    assert_eq!(snapshot(&a), vec![(0, Item::blank()); 3]);
}

#[test]
fn mru_init_of_single_slot() {
    let mut a: MruArena<Item, 1> = MruArena::new([MruEntry::new(Item::blank())]);
    a.init();
    assert_eq!(a.recency(), vec![0]);
    let h = a.alloc_handle(|o: &mut Item| o.id = 1).expect("room");
    assert_eq!(h.index(), 0);
    a.dealloc(h);
    assert_eq!(a.recency(), vec![0]);
}

#[test]
fn mru_reuse_order_newest_released_first() {
    let mut a = mru3();
    let ha = a.alloc_handle(|o: &mut Item| o.id = 1).expect("room");
    let hb = a.alloc_handle(|o: &mut Item| o.id = 2).expect("room");
    let hc = a.alloc_handle(|o: &mut Item| o.id = 3).expect("room");
    let (sa, sb, sc) = (ha.index(), hb.index(), hc.index());
    assert_eq!((sa, sb, sc), (0, 1, 2));
    assert_eq!(a.recency(), vec![2, 1, 0]);
    a.dealloc(hb);
    assert_eq!(a.recency(), vec![2, 0, 1]);
    a.dealloc(ha);
    assert_eq!(a.recency(), vec![2, 1, 0]);
    let first = a.alloc_handle(|o: &mut Item| o.id = 4).expect("room");
    let second = a.alloc_handle(|o: &mut Item| o.id = 5).expect("room");
    assert_eq!(first.index(), sa);
    assert_eq!(second.index(), sb);
    assert!(a.alloc_handle(|o: &mut Item| o.id = 6).is_none());
    a.dealloc(first);
    a.dealloc(second);
    a.dealloc(hc);
}

#[test]
fn mru_release_requeues_at_least_recent_end() {
    let mut a = mru3();
    let h0 = a.alloc_handle(|o: &mut Item| o.id = 1).expect("room");
    let h1 = a.alloc_handle(|o: &mut Item| o.id = 2).expect("room");
    let h2 = a.alloc_handle(|o: &mut Item| o.id = 3).expect("room");
    a.dealloc(h2);
    assert_eq!(a.recency(), vec![1, 0, 2]);
    a.dealloc(h1);
    assert_eq!(a.recency(), vec![0, 2, 1]);
    a.dealloc(h0);
    assert_eq!(a.recency(), vec![2, 1, 0]);
}

#[test]
fn mru_dup_and_partial_release_keep_the_order() {
    let mut a = mru3();
    let h = a.alloc_handle(|o: &mut Item| o.id = 1).expect("room");
    let k = a.alloc_handle(|o: &mut Item| o.id = 2).expect("room");
    let before = a.recency();
    let snap = snapshot(&a);
    let d = a.dup(&k);
    assert_eq!(a.recency(), before);
    assert_eq!(a.refcnt_at(k.index()), 2);
    a.dealloc(d);
    assert_eq!(a.recency(), before);
    assert_eq!(snapshot(&a), snap);
    assert_eq!(a.get(&k).finalized, 0);
    a.dealloc(k);
    a.dealloc(h);
}

#[test]
fn mru_scenario_find_or_alloc_twice_then_release() {
    let mut a = mru2();
    let h1 = a
        .find_or_alloc_handle(
            |o: &Item| o.id == 5,
            |o: &mut Item| {
                o.id = 5;
                o.payload = 5;
            },
        )
        .expect("first lookup allocates");
    assert_eq!(occupied(&a), 1);
    assert_eq!(a.get(&h1).payload, 5);
    let h2 = a
        .find_or_alloc_handle(|o: &Item| o.id == 5, |o: &mut Item| o.payload = 99)
        .expect("second lookup hits");
    assert_eq!(h2.index(), h1.index());
    assert_eq!(occupied(&a), 1);
    assert_eq!(a.refcnt_at(0) + a.refcnt_at(1), 2);
    let slot = h1.index();
    a.dealloc(h1);
    assert_eq!(a.data_at(slot).finalized, 0);
    a.dealloc(h2);
    assert_eq!(occupied(&a), 0);
    assert_eq!(a.data_at(slot).finalized, 1);
}

#[test]
fn mru_find_takes_first_free_slot_from_most_recent_end() {
    let mut a = mru3();
    let h = a
        .find_or_alloc_handle(|o: &Item| o.id == 8, |o: &mut Item| o.id = 8)
        .expect("room");
    assert_eq!(h.index(), 2);
    let k = a.alloc_handle(|o: &mut Item| o.id = 9).expect("room");
    assert_eq!(k.index(), 0);
    a.dealloc(h);
    a.dealloc(k);
}

#[test]
fn mru_dedup_wins_over_earlier_free_slot() {
    let mut a = mru3();
    let h0 = a.alloc_handle(|o: &mut Item| o.id = 7).expect("room");
    assert_eq!(h0.index(), 0);
    assert_eq!(a.recency(), vec![2, 1, 0]);
    let before = snapshot(&a);
    let mut ran = false;
    let hit = a
        .find_or_alloc_handle(|o: &Item| o.id == 7, |_o: &mut Item| ran = true)
        .expect("the occupied slot matches");
    assert!(!ran);
    assert_eq!(hit.index(), 0);
    let after = snapshot(&a);
    assert_eq!(after[0], (2, before[0].1));
    assert_eq!(after[1], before[1]);
    assert_eq!(after[2], before[2]);
    assert_eq!(a.recency(), vec![2, 1, 0]);
    a.dealloc(hit);
    a.dealloc(h0);
}

#[test]
fn mru_find_skips_free_slot_with_stale_match() {
    let mut a = mru2();
    let h = a.alloc_handle(|o: &mut Item| o.id = 9).expect("room");
    let slot = h.index();
    a.dealloc(h);
    assert_eq!(a.data_at(slot).id, 9);
    let mut ran = false;
    let h = a
        .find_or_alloc_handle(|o: &Item| o.id == 9, |_o: &mut Item| ran = true)
        .expect("room");
    assert!(ran);
    assert_eq!(a.refcnt_at(h.index()), 1);
    a.dealloc(h);
}

#[test]
fn mru_capacity_exhaustion_leaves_slots_alone() {
    let mut a = mru3();
    let mut held = Vec::new();
    for id in 1..=3u32 {
        held.push(a.alloc_handle(|o: &mut Item| o.id = id).expect("room"));
    }
    let before = snapshot(&a);
    let order = a.recency();
    let mut ran = false;
    assert!(a.alloc_handle(|_o: &mut Item| ran = true).is_none());
    assert!(a.find_or_alloc_handle(|o: &Item| o.id == 42, |_o: &mut Item| ran = true).is_none());
    assert!(!ran);
    assert_eq!(snapshot(&a), before);
    assert_eq!(a.recency(), order);
    for h in held {
        a.dealloc(h);
    }
    assert_eq!(occupied(&a), 0);
}

#[test]
fn mru_finalize_runs_once_when_last_handle_goes() {
    let mut a = mru2();
    let h = a.alloc_handle(|o: &mut Item| o.id = 1).expect("room");
    let slot = h.index();
    let d1 = a.dup(&h);
    let d2 = a.dup(&h);
    a.dealloc(h);
    a.dealloc(d1);
    assert_eq!((a.refcnt_at(slot), a.data_at(slot).finalized), (1, 0));
    assert!(a.is_live(&d2));
    a.dealloc(d2);
    assert_eq!((a.refcnt_at(slot), a.data_at(slot).finalized), (0, 1));
    let h = a.alloc_handle(|o: &mut Item| o.id = 2).expect("room");
    assert_eq!(h.index(), slot);
    a.dealloc(h);
    assert_eq!(a.data_at(slot).finalized, 2);
}

#[test]
fn mru_new_builds_the_list() {
    let a = mru2();
    assert_eq!(a.recency(), vec![1, 0]);
    let empty: MruArena<Item, 0> = MruArena::new([]);
    assert_eq!(empty.recency(), Vec::<usize>::new());
}

#[test]
fn mru_init_rebuilds_the_list_and_keeps_the_slots() {
    let mut a = mru3();
    let h0 = a.alloc_handle(|o: &mut Item| o.id = 1).expect("room");
    let h1 = a.alloc_handle(|o: &mut Item| o.id = 2).expect("room");
    a.dealloc(h0);
    a.dealloc(h1);
    assert_eq!(a.recency(), vec![2, 0, 1]);
    let snap = snapshot(&a);
    a.init();
    assert_eq!(a.recency(), vec![2, 1, 0]);
    assert_eq!(snapshot(&a), snap);
}

#[test]
fn mru_empty_arena_has_no_capacity() {
    let mut a: MruArena<Item, 0> = MruArena::new([]);
    assert!(a.alloc_handle(|o: &mut Item| o.id = 1).is_none());
    assert!(a.find_or_alloc_handle(|o: &Item| o.id == 1, |o: &mut Item| o.id = 1).is_none());
}

#[test]
fn mru_rc_release_requeues() {
    let mut a = mru3();
    let x = Rc::allocate(&mut a, |o: &mut Item| o.id = 1).expect("room");
    let y = Rc::allocate(&mut a, |o: &mut Item| o.id = 2).expect("room");
    let x2 = x.clone_in(&mut a);
    x.free(&mut a);
    assert_eq!(a.recency(), vec![2, 1, 0]);
    y.free(&mut a);
    assert_eq!(a.recency(), vec![2, 0, 1]);
    x2.free(&mut a);
    assert_eq!(a.recency(), vec![2, 1, 0]);
    assert_eq!((a.data_at(0).finalized, a.data_at(1).finalized), (1, 1));
}

#[test]
fn mru_counts_fit_below_the_limit() {
    let mut a = mru2();
    assert!(a.counts_fit());
    let h = a.alloc_handle(|o: &mut Item| o.id = 1).expect("room");
    let d = a.dup(&h);
    assert!(a.counts_fit());
    a.dealloc(d);
    a.dealloc(h);
}
