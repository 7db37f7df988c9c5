use wpp::memory::{gc_alloc as bump_alloc, BumpArena, BUMP_HEADER_SIZE};
use wpp::gc::{
    gc_tick,
    add_root, gc_alloc, gc_collect, load_u32, mark_used, remove_root, store_u32, was_used, Heap,
    HeapError, HEADER_SIZE, HEAP_SIZE, TYPE_BOX, TYPE_GROUP, TYPE_TEXT,
};

#[test]
fn allocation_bumps_and_registers() {
    let mut h = Heap::new();
    let a = gc_alloc(&mut h, 8, TYPE_BOX).unwrap();
    let b = gc_alloc(&mut h, 4, TYPE_TEXT).unwrap();
    assert_eq!(a, 12);
    assert_eq!(b, 12 + 8 + 12);
    assert_eq!(h.bump(), 36);
    assert_eq!(h.objects(), vec![a, b]);
    assert_eq!(h.roots(), vec![a, b]);
    assert_eq!(load_u32(&h, a as usize - HEADER_SIZE), TYPE_BOX);
}

#[test]
fn used_flag_round_trip() {
    let mut h = Heap::new();
    let a = gc_alloc(&mut h, 0, TYPE_BOX).unwrap();
    assert!(!was_used(&h, a));
    mark_used(&mut h, a);
    assert!(was_used(&h, a));
}

#[test]
fn out_of_memory_after_one_collection() {
    let mut h = Heap::new();
    assert_eq!(gc_alloc(&mut h, HEAP_SIZE, TYPE_BOX), Err(HeapError::OutOfMemory));
    let a = gc_alloc(&mut h, HEAP_SIZE - HEADER_SIZE, TYPE_BOX).unwrap();
    assert_eq!(a as usize, HEADER_SIZE);
    assert_eq!(gc_alloc(&mut h, 0, TYPE_BOX), Err(HeapError::OutOfMemory));
}

#[test]
fn collect_keeps_reachable_and_drops_the_rest() {
    let mut h = Heap::new();
    let group = gc_alloc(&mut h, 16, TYPE_GROUP).unwrap();
    let child = gc_alloc(&mut h, 4, TYPE_BOX).unwrap();
    let orphan = gc_alloc(&mut h, 4, TYPE_BOX).unwrap();
    store_u32(&mut h, group as usize, child);
    remove_root(&mut h, child);
    remove_root(&mut h, orphan);
    assert_eq!(h.roots(), vec![group]);
    gc_collect(&mut h);
    assert_eq!(h.objects(), vec![group, child]);
    gc_collect(&mut h);
    assert_eq!(h.objects(), vec![group, child]);
}

#[test]
fn collect_terminates_on_cycles() {
    let mut h = Heap::new();
    let a = gc_alloc(&mut h, 16, TYPE_GROUP).unwrap();
    let b = gc_alloc(&mut h, 16, TYPE_GROUP).unwrap();
    store_u32(&mut h, a as usize, b);
    store_u32(&mut h, b as usize, a);
    remove_root(&mut h, b);
    gc_collect(&mut h);
    assert_eq!(h.objects(), vec![a, b]);
    remove_root(&mut h, a);
    gc_collect(&mut h);
    assert_eq!(h.objects(), Vec::<u32>::new());
}

#[test]
fn explicit_root_keeps_object() {
    let mut h = Heap::new();
    let a = gc_alloc(&mut h, 4, TYPE_BOX).unwrap();
    remove_root(&mut h, a);
    add_root(&mut h, a);
    gc_collect(&mut h);
    assert_eq!(h.objects(), vec![a]);
}

#[test]
fn gc_tick_collects() {
    let mut h = Heap::new();
    let a = gc_alloc(&mut h, 4, TYPE_BOX).unwrap();
    let b = gc_alloc(&mut h, 4, TYPE_BOX).unwrap();
    remove_root(&mut h, a);
    gc_tick(&mut h);
    assert_eq!(h.objects(), vec![b]);
}

#[test]
fn bump_arena_never_frees() {
    let mut arena = BumpArena::new();
    let a = bump_alloc(&mut arena, 10, TYPE_TEXT).unwrap();
    assert_eq!(a as usize, BUMP_HEADER_SIZE);
    assert_eq!(arena.word(0), TYPE_TEXT);
    assert_eq!(arena.word(4), 1);
    let b = bump_alloc(&mut arena, 0, TYPE_BOX).unwrap();
    assert_eq!(b, a + 10 + 8);
    assert_eq!(arena.top(), 26);
    assert_eq!(bump_alloc(&mut arena, HEAP_SIZE, TYPE_BOX), Err(HeapError::OutOfMemory));
    assert_eq!(arena.top(), 26);
}
