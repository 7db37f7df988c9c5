//! The runtime heap: a fixed-size byte arena with a bump pointer, a registry of
//! live objects, a root set and a mark-and-sweep collector.
//!
//! Every object starts with a twelve byte header made of three little-endian
//! words (type tag, mark word, used word); its pointer is the offset of the
//! first byte after the header. A group object keeps up to four child pointers
//! in the words right after its header.
use vstd::prelude::*;

verus! {

/// Size of the arena in bytes.
pub const HEAP_SIZE: usize = 1048576;

/// Size of an object header in bytes.
pub const HEADER_SIZE: usize = 12;

/// Type tag of a box object.
pub const TYPE_BOX: u32 = 1;

/// Type tag of a text buffer.
pub const TYPE_TEXT: u32 = 2;

/// Type tag of a group object, whose payload holds child pointers.
pub const TYPE_GROUP: u32 = 3;

/// Number of child slots read from a group's payload.
pub const MAX_CHILDREN: usize = 4;

/// The little-endian word stored at `i..i + 4`.
pub open spec fn u32_at(s: Seq<u8>, i: int) -> u32 {
    (s[i] as u32) | ((s[i + 1] as u32) << 8u32) | ((s[i + 2] as u32) << 16u32) | ((s[i + 3] as u32)
        << 24u32)
}

/// Splitting a word into its four little-endian bytes and joining them again
/// gives the word back.
proof fn lemma_word_bytes(v: u32)
    ensures
        (v & 0xff) < 256,
        ((v >> 8u32) & 0xff) < 256,
        ((v >> 16u32) & 0xff) < 256,
        ((v >> 24u32) & 0xff) < 256,
        (v & 0xff) | (((v >> 8u32) & 0xff) << 8u32) | (((v >> 16u32) & 0xff) << 16u32) | (((v
            >> 24u32) & 0xff) << 24u32) == v,
{
    assert((v & 0xff) < 256) by (bit_vector);
    assert(((v >> 8u32) & 0xff) < 256) by (bit_vector);
    assert(((v >> 16u32) & 0xff) < 256) by (bit_vector);
    assert(((v >> 24u32) & 0xff) < 256) by (bit_vector);
    assert((v & 0xff) | (((v >> 8u32) & 0xff) << 8u32) | (((v >> 16u32) & 0xff) << 16u32) | (((v
        >> 24u32) & 0xff) << 24u32) == v) by (bit_vector);
}

/// Reads the little-endian word at `at`.
pub(crate) fn read_word(arena: &Vec<u8>, at: usize) -> (r: u32)
    requires
        at + 4 <= arena@.len(),
        arena@.len() <= HEAP_SIZE,
    ensures
        r == u32_at(arena@, at as int),
{
    (arena[at] as u32) | ((arena[at + 1] as u32) << 8u32) | ((arena[at + 2] as u32) << 16u32) | ((
    arena[at + 3] as u32) << 24u32)
}

/// Writes `v` as a little-endian word at `at`, leaving every other byte alone.
pub(crate) fn write_word(arena: &mut Vec<u8>, at: usize, v: u32)
    requires
        at + 4 <= old(arena)@.len(),
        old(arena)@.len() <= HEAP_SIZE,
    ensures
        final(arena)@.len() == old(arena)@.len(),
        u32_at(final(arena)@, at as int) == v,
        forall|k: int|
            0 <= k < old(arena)@.len() && !(at <= k < at + 4) ==> #[trigger] final(arena)@[k]
                == old(arena)@[k],
{
    proof {
        lemma_word_bytes(v);
    }
    arena.set(at, (v & 0xff) as u8);
    arena.set(at + 1, ((v >> 8u32) & 0xff) as u8);
    arena.set(at + 2, ((v >> 16u32) & 0xff) as u8);
    arena.set(at + 3, ((v >> 24u32) & 0xff) as u8);
}

/// Where a write of four bytes at `at` leaves `i..i + 4` alone, the word at `i`
/// stays as it was.
proof fn lemma_word_frame(a: Seq<u8>, b: Seq<u8>, at: int, i: int)
    requires
        a.len() == b.len(),
        0 <= i,
        i + 4 <= a.len(),
        i + 4 <= at || at + 4 <= i,
        forall|k: int| 0 <= k < a.len() && !(at <= k < at + 4) ==> #[trigger] b[k] == a[k],
    ensures
        u32_at(b, i) == u32_at(a, i),
{
    assert(b[i] == a[i]);
    assert(b[i + 1] == a[i + 1]);
    assert(b[i + 2] == a[i + 2]);
    assert(b[i + 3] == a[i + 3]);
}

/// Errors of the heap.
#[derive(Debug, Clone, Copy, PartialEq, Eq, Structural)]
pub enum HeapError {
    /// The request does not fit in the arena, even after a collection.
    OutOfMemory,
}

/// The heap of one execution instance.
pub struct Heap {
    arena: Vec<u8>,
    bump: usize,
    objects: Vec<u32>,
    roots: Vec<u32>,
}

impl Heap {
    /// The bytes of the arena.
    pub closed spec fn bytes(&self) -> Seq<u8> {
        self.arena@
    }

    /// The first free byte of the arena.
    pub closed spec fn top(&self) -> nat {
        self.bump as nat
    }

    /// The live-object registry, in allocation order.
    pub closed spec fn live(&self) -> Seq<u32> {
        self.objects@
    }

    /// The root set, in the order the roots were added.
    pub closed spec fn root_set(&self) -> Seq<u32> {
        self.roots@
    }

    /// The arena has its fixed size, and the live objects lie below the bump
    /// pointer in increasing order, each header clear of the one before.
    pub open spec fn wf(&self) -> bool {
        &&& self.bytes().len() == HEAP_SIZE
        &&& self.top() <= HEAP_SIZE
        &&& forall|i: int|
            0 <= i < self.live().len() ==> HEADER_SIZE <= #[trigger] self.live()[i] <= self.top()
        &&& forall|i: int, j: int|
            0 <= i < j < self.live().len() ==> self.live()[i] + HEADER_SIZE <= self.live()[j]
    }

    /// Byte `k` lies in the mark word of a live object.
    pub open spec fn in_mark_word(&self, k: int) -> bool {
        exists|j: int| 0 <= j < self.live().len() && #[trigger] self.live()[j] - 8 <= k < self.live()[j] - 4
    }

    /// The type tag in the header of the object at `p`.
    pub open spec fn tag_of(&self, p: u32) -> u32 {
        u32_at(self.bytes(), p - HEADER_SIZE)
    }

    /// Whether the used word of the object at `p` is set.
    pub open spec fn used_of(&self, p: u32) -> bool {
        u32_at(self.bytes(), p - 4) != 0
    }

    /// The end of the payload of the `i`th live object: the header of the next
    /// live object, or the bump pointer.
    pub open spec fn payload_end(&self, i: int) -> int {
        if i + 1 < self.live().len() {
            self.live()[i + 1] - HEADER_SIZE
        } else {
            self.top() as int
        }
    }

    /// Slot `k` of the `i`th live object is a group child slot that points at
    /// the `j`th live object.
    pub open spec fn slot_edge(&self, i: int, k: int, j: int) -> bool {
        &&& 0 <= i < self.live().len()
        &&& 0 <= j < self.live().len()
        &&& 0 <= k < MAX_CHILDREN
        &&& self.tag_of(self.live()[i]) == TYPE_GROUP
        &&& self.live()[i] + 4 * k + 4 <= self.payload_end(i)
        &&& u32_at(self.bytes(), self.live()[i] + 4 * k) == self.live()[j]
    }

    /// The `i`th live object holds a child pointer to the `j`th.
    pub open spec fn edge(&self, i: int, j: int) -> bool {
        exists|k: int| #[trigger] self.slot_edge(i, k, j)
    }

    /// A set of live-object indices that holds every live root and is closed
    /// under child pointers.
    pub open spec fn closed_under(&self, m: Set<int>) -> bool {
        &&& forall|j: int|
            0 <= j < self.live().len() && self.root_set().contains(#[trigger] self.live()[j])
                ==> m.contains(j)
        &&& forall|i: int, j: int| m.contains(i) && #[trigger] self.edge(i, j) ==> m.contains(j)
    }

    /// The `j`th live object is reachable from the roots: it lies in every
    /// index set that holds the live roots and is closed under child pointers.
    pub open spec fn reachable_index(&self, j: int) -> bool {
        &&& 0 <= j < self.live().len()
        &&& forall|m: Set<int>| #[trigger] self.closed_under(m) ==> m.contains(j)
    }

    /// The pointer `p` is a live object reachable from the roots.
    pub open spec fn reachable(&self, p: u32) -> bool {
        exists|j: int| #[trigger] self.reachable_index(j) && self.live()[j] == p
    }

    /// An empty heap.
    pub fn new() -> (h: Heap)
        ensures
            h.wf(),
            h.top() == 0,
            h.live().len() == 0,
            h.root_set().len() == 0,
            forall|i: int| 0 <= i < HEAP_SIZE ==> #[trigger] h.bytes()[i] == 0,
    {
        Heap { arena: vec![0u8; HEAP_SIZE], bump: 0, objects: Vec::new(), roots: Vec::new() }
    }

    /// The bump pointer.
    pub fn bump(&self) -> (r: usize)
        ensures
            r == self.top(),
    {
        self.bump
    }

    /// A copy of the live-object registry.
    pub fn objects(&self) -> (r: Vec<u32>)
        ensures
            r@ == self.live(),
    {
        self.objects.clone()
    }

    /// A copy of the root set.
    pub fn roots(&self) -> (r: Vec<u32>)
        ensures
            r@ == self.root_set(),
    {
        self.roots.clone()
    }
}

proof fn lemma_wf_frame(a: &Heap, b: &Heap)
    requires
        a.wf(),
        a.live() == b.live(),
        a.top() == b.top(),
        b.bytes().len() == HEAP_SIZE,
    ensures
        b.wf(),
{
    assert forall|i: int| 0 <= i < b.live().len() implies HEADER_SIZE <= #[trigger] b.live()[i] <= b.top() by {
        assert(a.live()[i] == b.live()[i]);
    }
    assert forall|i: int, j: int| 0 <= i < j < b.live().len() implies b.live()[i] + HEADER_SIZE <= b.live()[j] by {
        assert(a.live()[i] == b.live()[i]);
        assert(a.live()[j] == b.live()[j]);
    }
}

/// Allocates an object of `size` payload bytes with type tag `type_id`. The
/// header is written with clear mark and used words, and the new pointer joins
/// the live-object registry and the root set. Where the request does not fit
/// above the bump pointer a collection runs first; since freed bytes are never
/// reused the request still does not fit, and the result is out-of-memory.
pub fn gc_alloc(heap: &mut Heap, size: usize, type_id: u32) -> (r: Result<u32, HeapError>)
    requires
        old(heap).wf(),
    ensures
        final(heap).wf(),
        old(heap).top() + HEADER_SIZE + size <= HEAP_SIZE <==> r is Ok,
        r is Ok ==> {
            let p = r->Ok_0;
            &&& p == old(heap).top() + HEADER_SIZE
            &&& final(heap).top() == old(heap).top() + HEADER_SIZE + size
            &&& final(heap).live() == old(heap).live().push(p)
            &&& final(heap).root_set() == old(heap).root_set().push(p)
            &&& final(heap).tag_of(p) == type_id
            &&& u32_at(final(heap).bytes(), p - 8) == 0
            &&& !final(heap).used_of(p)
            &&& forall|k: int|
                0 <= k < HEAP_SIZE && !(old(heap).top() <= k < p) ==> #[trigger] final(heap).bytes()[k]
                    == old(heap).bytes()[k]
        },
        r is Err ==> {
            &&& final(heap).top() == old(heap).top()
            &&& final(heap).root_set() == old(heap).root_set()
            &&& forall|p: u32|
                #[trigger] final(heap).live().contains(p) <==> old(heap).reachable(p)
        },
{
    if size > HEAP_SIZE || heap.bump + HEADER_SIZE + size > HEAP_SIZE {
        gc_collect(heap);
        return Err(HeapError::OutOfMemory);
    }
    let base = heap.bump;
    let ghost a0 = heap.arena@;
    write_word(&mut heap.arena, base, type_id);
    let ghost a1 = heap.arena@;
    write_word(&mut heap.arena, base + 4, 0);
    let ghost a2 = heap.arena@;
    write_word(&mut heap.arena, base + 8, 0);
    proof {
        lemma_word_frame(a1, a2, base + 4, base as int);
        lemma_word_frame(a2, heap.arena@, base + 8, base as int);
        lemma_word_frame(a2, heap.arena@, base + 8, base + 4);
    }
    heap.bump = base + HEADER_SIZE + size;
    let p = (base + HEADER_SIZE) as u32;
    heap.objects.push(p);
    heap.roots.push(p);
    proof {
        let h0 = old(heap);
        assert forall|i: int| 0 <= i < heap.live().len() implies HEADER_SIZE <= #[trigger] heap.live()[i] <= heap.top() by {
            if i < h0.live().len() {
                assert(heap.live()[i] == h0.live()[i]);
            }
        }
        assert forall|i: int, j: int| 0 <= i < j < heap.live().len() implies heap.live()[i] + HEADER_SIZE <= heap.live()[j] by {
            assert(heap.live()[i] == h0.live()[i]);
            if j < h0.live().len() {
                assert(heap.live()[j] == h0.live()[j]);
            }
        }
    }
    Ok(p)
}

/// Adds `ptr` to the root set.
pub fn add_root(heap: &mut Heap, ptr: u32)
    requires
        old(heap).wf(),
    ensures
        final(heap).wf(),
        final(heap).root_set() == old(heap).root_set().push(ptr),
        final(heap).live() == old(heap).live(),
        final(heap).bytes() == old(heap).bytes(),
        final(heap).top() == old(heap).top(),
{
    heap.roots.push(ptr);
    proof {
        lemma_wf_frame(old(heap), heap);
    }
}

/// The host's collection hook, which the exported `gc_tick` entry point of a
/// generated module calls: one full collection.
pub fn gc_tick(heap: &mut Heap)
    requires
        old(heap).wf(),
    ensures
        final(heap).wf(),
        final(heap).top() == old(heap).top(),
        final(heap).root_set() == old(heap).root_set(),
        final(heap).live() == old(heap).live().filter(reachable_pred(*old(heap))),
        forall|p: u32| #[trigger] final(heap).live().contains(p) <==> old(heap).reachable(p),
        forall|j: int|
            0 <= j < old(heap).live().len() ==> u32_at(final(heap).bytes(), #[trigger] old(heap).live()[j] - 8)
                == if old(heap).reachable_index(j) {
                1u32
            } else {
                0u32
            },
        forall|k: int|
            0 <= k < HEAP_SIZE && !old(heap).in_mark_word(k) ==> #[trigger] final(heap).bytes()[k]
                == old(heap).bytes()[k],
{
    gc_collect(heap);
}

/// Removes every occurrence of `ptr` from the root set.
pub fn remove_root(heap: &mut Heap, ptr: u32)
    requires
        old(heap).wf(),
    ensures
        final(heap).wf(),
        forall|p: u32| #[trigger] final(heap).root_set().contains(p) <==> old(heap).root_set().contains(p) && p != ptr,
        final(heap).live() == old(heap).live(),
        final(heap).bytes() == old(heap).bytes(),
        final(heap).top() == old(heap).top(),
{
    let mut kept: Vec<u32> = Vec::new();
    let mut i: usize = 0;
    while i < heap.roots.len()
        invariant
            i <= heap.roots@.len(),
            heap.roots@ == old(heap).roots@,
            forall|p: u32| #[trigger] kept@.contains(p) <==> heap.roots@.subrange(0, i as int).contains(p) && p != ptr,
        decreases heap.roots@.len() - i,
    {
        let r = heap.roots[i];
        let ghost kb = kept@;
        if r != ptr {
            kept.push(r);
        }
        proof {
            let pre = heap.roots@.subrange(0, i as int);
            let post = heap.roots@.subrange(0, i + 1);
            assert(post =~= pre.push(r));
            assert forall|p: u32| #[trigger] kept@.contains(p) <==> post.contains(p) && p != ptr by {
                if kept@.contains(p) {
                    let x = choose|x: int| 0 <= x < kept@.len() && kept@[x] == p;
                    if x < kb.len() {
                        assert(kb[x] == p);
                        assert(kb.contains(p));
                        let y = choose|y: int| 0 <= y < pre.len() && pre[y] == p;
                        assert(post[y] == p);
                    } else {
                        assert(post[i as int] == p);
                    }
                }
                if post.contains(p) && p != ptr {
                    let y = choose|y: int| 0 <= y < post.len() && post[y] == p;
                    if y < i {
                        assert(pre[y] == p);
                        assert(kb.contains(p));
                        let x = choose|x: int| 0 <= x < kb.len() && kb[x] == p;
                        assert(kept@[x] == p);
                    } else {
                        assert(kept@[kept@.len() - 1] == p);
                    }
                }
            }
        }
        i += 1;
    }
    assert(heap.roots@.subrange(0, i as int) =~= heap.roots@);
    heap.roots = kept;
    proof {
        lemma_wf_frame(old(heap), heap);
    }
}

/// Sets the used word in the header of the object at `ptr`, leaving every other
/// byte of the arena alone.
pub fn mark_used(heap: &mut Heap, ptr: u32)
    requires
        old(heap).wf(),
        HEADER_SIZE <= ptr <= HEAP_SIZE,
    ensures
        final(heap).wf(),
        final(heap).used_of(ptr),
        u32_at(final(heap).bytes(), ptr - 4) == 1,
        forall|k: int|
            0 <= k < HEAP_SIZE && !(ptr - 4 <= k < ptr) ==> #[trigger] final(heap).bytes()[k]
                == old(heap).bytes()[k],
        final(heap).live() == old(heap).live(),
        final(heap).root_set() == old(heap).root_set(),
        final(heap).top() == old(heap).top(),
{
    let base = ptr as usize - HEADER_SIZE;
    write_word(&mut heap.arena, base + 8, 1);
    proof {
        lemma_wf_frame(old(heap), heap);
    }
}

/// Whether the used word in the header of the object at `ptr` is set.
pub fn was_used(heap: &Heap, ptr: u32) -> (r: bool)
    requires
        heap.wf(),
        HEADER_SIZE <= ptr <= HEAP_SIZE,
    ensures
        r == heap.used_of(ptr),
{
    let base = ptr as usize - HEADER_SIZE;
    read_word(&heap.arena, base + 8) != 0
}

/// Stores one byte at `addr`, as the generated code's byte store does.
pub fn store_u8(heap: &mut Heap, addr: usize, value: u8)
    requires
        old(heap).wf(),
        addr < HEAP_SIZE,
    ensures
        final(heap).wf(),
        final(heap).bytes() == old(heap).bytes().update(addr as int, value),
        final(heap).live() == old(heap).live(),
        final(heap).root_set() == old(heap).root_set(),
        final(heap).top() == old(heap).top(),
{
    heap.arena.set(addr, value);
    proof {
        lemma_wf_frame(old(heap), heap);
    }
}

/// Stores a little-endian word at `addr`, such as a child pointer in a group's
/// payload.
pub fn store_u32(heap: &mut Heap, addr: usize, value: u32)
    requires
        old(heap).wf(),
        addr + 4 <= HEAP_SIZE,
    ensures
        final(heap).wf(),
        u32_at(final(heap).bytes(), addr as int) == value,
        forall|k: int|
            0 <= k < HEAP_SIZE && !(addr <= k < addr + 4) ==> #[trigger] final(heap).bytes()[k]
                == old(heap).bytes()[k],
        final(heap).live() == old(heap).live(),
        final(heap).root_set() == old(heap).root_set(),
        final(heap).top() == old(heap).top(),
{
    write_word(&mut heap.arena, addr, value);
    proof {
        lemma_wf_frame(old(heap), heap);
    }
}

/// Reads the little-endian word at `addr`.
pub fn load_u32(heap: &Heap, addr: usize) -> (r: u32)
    requires
        heap.wf(),
        addr + 4 <= HEAP_SIZE,
    ensures
        r == u32_at(heap.bytes(), addr as int),
{
    read_word(&heap.arena, addr)
}

/// The number of set entries.
pub open spec fn count_true(s: Seq<bool>) -> nat
    decreases s.len(),
{
    if s.len() == 0 {
        0
    } else {
        count_true(s.drop_last()) + if s.last() {
            1nat
        } else {
            0nat
        }
    }
}

proof fn lemma_count_bound(s: Seq<bool>)
    ensures
        count_true(s) <= s.len(),
    decreases s.len(),
{
    if s.len() > 0 {
        lemma_count_bound(s.drop_last());
    }
}

proof fn lemma_count_set(s: Seq<bool>, i: int)
    requires
        0 <= i < s.len(),
        !s[i],
    ensures
        count_true(s.update(i, true)) == count_true(s) + 1,
    decreases s.len(),
{
    let t = s.update(i, true);
    if i == s.len() - 1 {
        assert(t.drop_last() =~= s.drop_last());
    } else {
        assert(t.drop_last() =~= s.drop_last().update(i, true));
        lemma_count_set(s.drop_last(), i);
    }
}

/// The index of `p` in the registry, if it is there.
fn find_object(objects: &Vec<u32>, p: u32) -> (r: Option<usize>)
    ensures
        r is Some ==> r->Some_0 < objects@.len() && objects@[r->Some_0 as int] == p,
        r is None ==> !objects@.contains(p),
{
    let mut i: usize = 0;
    while i < objects.len()
        invariant
            i <= objects@.len(),
            forall|x: int| 0 <= x < i ==> objects@[x] != p,
        decreases objects@.len() - i,
    {
        if objects[i] == p {
            return Some(i);
        }
        i += 1;
    }
    None
}

/// Whether a pointer is a live object reachable from the roots.
pub open spec fn reachable_pred(h: Heap) -> spec_fn(u32) -> bool {
    |p: u32| h.reachable(p)
}

proof fn lemma_reachable_at(h: Heap, j: int)
    requires
        h.wf(),
        0 <= j < h.live().len(),
    ensures
        h.reachable(h.live()[j]) == h.reachable_index(j),
{
    if h.reachable(h.live()[j]) {
        let j2 = choose|j2: int| #[trigger] h.reachable_index(j2) && h.live()[j2] == h.live()[j];
        if j2 < j {
            assert(h.live()[j2] + HEADER_SIZE <= h.live()[j]);
        } else if j2 > j {
            assert(h.live()[j] + HEADER_SIZE <= h.live()[j2]);
        }
    }
    if h.reachable_index(j) {
        assert(h.reachable_index(j) && h.live()[j] == h.live()[j]);
    }
}

proof fn lemma_reach_root(heap: &Heap, j: int)
    requires
        0 <= j < heap.live().len(),
        heap.root_set().contains(heap.live()[j]),
    ensures
        heap.reachable_index(j),
{
    assert forall|m: Set<int>| #[trigger] heap.closed_under(m) implies m.contains(j) by {}
}

proof fn lemma_reach_edge(heap: &Heap, i: int, j: int)
    requires
        heap.reachable_index(i),
        heap.edge(i, j),
    ensures
        heap.reachable_index(j),
{
    assert forall|m: Set<int>| #[trigger] heap.closed_under(m) implies m.contains(j) by {
        assert(m.contains(i));
    }
}

/// Marks, by registry index, exactly the live objects reachable from the roots.
/// The work list holds marked objects whose children are still to be visited,
/// so a cycle of group pointers is walked once.
fn mark_reachable(heap: &Heap) -> (marked: Vec<bool>)
    requires
        heap.wf(),
    ensures
        marked@.len() == heap.live().len(),
        forall|j: int| 0 <= j < heap.live().len() ==> (#[trigger] marked@[j] <==> heap.reachable_index(j)),
{
    let n = heap.objects.len();
    let mut marked: Vec<bool> = vec![false; n];
    let mut work: Vec<usize> = Vec::new();
    let mut n_marked: usize = 0;
    proof {
        assert forall|k: int| 0 <= k <= n implies count_true(#[trigger] marked@.subrange(0, k)) == 0 by {
            lemma_count_zero(marked@, k);
        }
        assert(marked@.subrange(0, n as int) =~= marked@);
    }
    let mut r: usize = 0;
    while r < heap.roots.len()
        invariant
            heap.wf(),
            n == heap.live().len(),
            marked@.len() == n,
            r <= heap.root_set().len(),
            count_true(marked@) == n_marked,
            n_marked <= n,
            forall|x: int| 0 <= x < work@.len() ==> #[trigger] work@[x] < n && marked@[work@[x] as int],
            forall|j: int| 0 <= j < n && #[trigger] marked@[j] ==> heap.reachable_index(j),
            forall|q: int, j: int|
                #![trigger heap.root_set()[q], heap.live()[j]]
                0 <= q < r && 0 <= j < n && heap.live()[j] == heap.root_set()[q] ==> marked@[j],
            forall|i: int, j: int|
                0 <= i < n && marked@[i] && !work@.contains(i as usize) && #[trigger] heap.edge(i, j)
                    ==> marked@[j],
        decreases heap.root_set().len() - r,
    {
        let p = heap.roots[r];
        match find_object(&heap.objects, p) {
            Some(j) => {
                if !marked[j] {
                    proof {
                        lemma_reach_root(heap, j as int);
                        lemma_count_set(marked@, j as int);
                        lemma_count_bound(marked@.update(j as int, true));
                    }
                    marked.set(j, true);
                    let ghost wb = work@;
                    n_marked = n_marked + 1;
                    work.push(j);
                    proof {
                        assert forall|i2: int| #[trigger] wb.contains(i2 as usize) implies work@.contains(i2 as usize) by {
                            let x = choose|x: int| 0 <= x < wb.len() && wb[x] == i2 as usize;
                            assert(work@[x] == wb[x]);
                        }
                        assert(work@[work@.len() - 1] == j);
                    }
                }
            },
            None => {},
        }
        proof {
            assert forall|q: int, j: int|
                #![trigger heap.root_set()[q], heap.live()[j]]
                0 <= q <= r && 0 <= j < n && heap.live()[j] == heap.root_set()[q] implies marked@[j] by {
                if q == r {
                    assert(heap.live().contains(p));
                }
            }
        }
        r += 1;
    }
    while work.len() > 0
        invariant
            heap.wf(),
            n == heap.live().len(),
            marked@.len() == n,
            count_true(marked@) == n_marked,
            n_marked <= n,
            forall|x: int| 0 <= x < work@.len() ==> #[trigger] work@[x] < n && marked@[work@[x] as int],
            forall|j: int| 0 <= j < n && #[trigger] marked@[j] ==> heap.reachable_index(j),
            forall|q: int, j: int|
                #![trigger heap.root_set()[q], heap.live()[j]]
                0 <= q < heap.root_set().len() && 0 <= j < n && heap.live()[j] == heap.root_set()[q]
                    ==> marked@[j],
            forall|i: int, j: int|
                0 <= i < n && marked@[i] && !work@.contains(i as usize) && #[trigger] heap.edge(i, j)
                    ==> marked@[j],
        decreases n - n_marked, work@.len(),
    {
        proof {
            lemma_count_bound(marked@);
        }
        let ghost m0 = n_marked;
        let ghost w_before = work@;
        let i = work.pop().unwrap();
        let ghost w0 = work@.len();
        assert(w_before =~= work@.push(i));
        let p = heap.objects[i];
        let is_group = read_word(&heap.arena, p as usize - HEADER_SIZE) == TYPE_GROUP;
        let end: usize = if i + 1 < n {
            heap.objects[i + 1] as usize - HEADER_SIZE
        } else {
            heap.bump
        };
        assert(end == heap.payload_end(i as int));
        let mut k: usize = 0;
        while k < MAX_CHILDREN
            invariant
                heap.wf(),
                n == heap.live().len(),
                i < n,
                p == heap.live()[i as int],
                is_group == (heap.tag_of(p) == TYPE_GROUP),
                end == heap.payload_end(i as int),
                k <= MAX_CHILDREN,
                marked@.len() == n,
                marked@[i as int],
                count_true(marked@) == n_marked,
                n_marked <= n,
            n_marked <= n,
                n_marked >= m0,
                work@.len() == w0 + (n_marked - m0),
                forall|x: int| 0 <= x < work@.len() ==> #[trigger] work@[x] < n && marked@[work@[x] as int],
                forall|j: int| 0 <= j < n && #[trigger] marked@[j] ==> heap.reachable_index(j),
                forall|q: int, j: int|
                    #![trigger heap.root_set()[q], heap.live()[j]]
                    0 <= q < heap.root_set().len() && 0 <= j < n && heap.live()[j] == heap.root_set()[q]
                        ==> marked@[j],
                forall|i2: int, j: int|
                    0 <= i2 < n && i2 != i && marked@[i2] && !work@.contains(i2 as usize) && #[trigger] heap.edge(i2, j)
                        ==> marked@[j],
                forall|k2: int, j: int| 0 <= k2 < k && #[trigger] heap.slot_edge(i as int, k2, j) ==> marked@[j],
            decreases MAX_CHILDREN - k,
        {
            let at = p as usize + 4 * k;
            if is_group && at + 4 <= end {
                let c = read_word(&heap.arena, at);
                if c != 0 {
                    match find_object(&heap.objects, c) {
                        Some(j) => {
                            if !marked[j] {
                                proof {
                                    assert(heap.slot_edge(i as int, k as int, j as int));
                                    lemma_reach_edge(heap, i as int, j as int);
                                    lemma_count_set(marked@, j as int);
                                    lemma_count_bound(marked@.update(j as int, true));
                                }
                                let ghost wb = work@;
                                marked.set(j, true);
                                n_marked = n_marked + 1;
                                work.push(j);
                                proof {
                                    assert forall|i2: int| #[trigger] wb.contains(i2 as usize) implies work@.contains(i2 as usize) by {
                                        let x = choose|x: int| 0 <= x < wb.len() && wb[x] == i2 as usize;
                                        assert(work@[x] == wb[x]);
                                    }
                                    assert(work@[work@.len() - 1] == j);
                                }
                            }
                        },
                        None => {},
                    }
                }
            }
            proof {
                assert forall|k2: int, j: int| 0 <= k2 <= k && #[trigger] heap.slot_edge(i as int, k2, j) implies marked@[j] by {
                    if k2 == k {
                        assert(heap.live().contains(heap.live()[j]));
                    }
                }
            }
            k += 1;
        }
        proof {
            assert forall|j: int| #[trigger] heap.edge(i as int, j) implies marked@[j] by {
                let k2 = choose|k2: int| #[trigger] heap.slot_edge(i as int, k2, j);
            }
        }
    }
    proof {
        let m = Set::new(|j: int| 0 <= j < n && marked@[j]);
        assert(heap.closed_under(m));
        assert forall|j: int| 0 <= j < n && heap.reachable_index(j) implies #[trigger] marked@[j] by {
            assert(m.contains(j));
        }
    }
    marked
}

proof fn lemma_count_zero(s: Seq<bool>, k: int)
    requires
        0 <= k <= s.len(),
        forall|x: int| 0 <= x < s.len() ==> !s[x],
    ensures
        count_true(s.subrange(0, k)) == 0,
    decreases k,
{
    if k > 0 {
        assert(s.subrange(0, k).drop_last() =~= s.subrange(0, k - 1));
        lemma_count_zero(s, k - 1);
    }
}

/// Runs a full mark-and-sweep cycle: the mark word of every live object is set
/// exactly when the object is reachable from the roots through group child
/// pointers, and every other object leaves the registry. No byte is moved or
/// reclaimed.
pub fn gc_collect(heap: &mut Heap)
    requires
        old(heap).wf(),
    ensures
        final(heap).wf(),
        final(heap).top() == old(heap).top(),
        final(heap).root_set() == old(heap).root_set(),
        final(heap).live() == old(heap).live().filter(reachable_pred(*old(heap))),
        forall|p: u32| #[trigger] final(heap).live().contains(p) <==> old(heap).reachable(p),
        forall|j: int|
            0 <= j < old(heap).live().len() ==> u32_at(final(heap).bytes(), #[trigger] old(heap).live()[j] - 8)
                == if old(heap).reachable_index(j) {
                1u32
            } else {
                0u32
            },
        forall|k: int|
            0 <= k < HEAP_SIZE && !old(heap).in_mark_word(k) ==> #[trigger] final(heap).bytes()[k]
                == old(heap).bytes()[k],
{
    let ghost h0 = *heap;
    let marked = mark_reachable(heap);
    let n = heap.objects.len();
    let mut kept: Vec<u32> = Vec::new();
    let ghost mut idx: Seq<int> = Seq::empty();
    let mut i: usize = 0;
    while i < n
        invariant
            h0.wf(),
            n == h0.live().len(),
            heap.objects@ == h0.live(),
            heap.roots@ == h0.root_set(),
            heap.bump == h0.top(),
            heap.arena@.len() == HEAP_SIZE,
            marked@.len() == n,
            forall|j: int| 0 <= j < n ==> (#[trigger] marked@[j] <==> h0.reachable_index(j)),
            i <= n,
            idx.len() == kept@.len(),
            forall|x: int| 0 <= x < idx.len() ==> 0 <= #[trigger] idx[x] < i && marked@[idx[x]] && kept@[x] == h0.live()[idx[x]],
            forall|x: int, y: int| 0 <= x < y < idx.len() ==> idx[x] < idx[y],
            forall|j: int| 0 <= j < i && #[trigger] marked@[j] ==> kept@.contains(h0.live()[j]),
            kept@ == h0.live().subrange(0, i as int).filter(reachable_pred(h0)),
            forall|j: int|
                0 <= j < i ==> u32_at(heap.arena@, #[trigger] h0.live()[j] - 8) == if marked@[j] {
                    1u32
                } else {
                    0u32
                },
            forall|k: int|
                0 <= k < HEAP_SIZE && !h0.in_mark_word(k) ==> #[trigger] heap.arena@[k] == h0.bytes()[k],
        decreases n - i,
    {
        let p = heap.objects[i];
        let flag: u32 = if marked[i] {
            1
        } else {
            0
        };
        let ghost before = heap.arena@;
        write_word(&mut heap.arena, p as usize - 8, flag);
        proof {
            assert forall|j: int|
                0 <= j < i + 1 implies u32_at(heap.arena@, #[trigger] h0.live()[j] - 8) == if marked@[j] {
                    1u32
                } else {
                    0u32
                } by {
                if j < i {
                    assert(h0.live()[j] + HEADER_SIZE <= h0.live()[i as int]);
                    lemma_word_frame(before, heap.arena@, p - 8, h0.live()[j] - 8);
                }
            }
            assert forall|k: int| 0 <= k < HEAP_SIZE && !h0.in_mark_word(k) implies #[trigger] heap.arena@[k] == h0.bytes()[k] by {
                if p - 8 <= k < p - 4 {
                    assert(h0.live()[i as int] - 8 <= k < h0.live()[i as int] - 4);
                }
            }
        }
        proof {
            reveal(Seq::filter);
            let t = h0.live().subrange(0, i + 1);
            assert(t.drop_last() =~= h0.live().subrange(0, i as int));
            assert(t.last() == h0.live()[i as int]);
            lemma_reachable_at(h0, i as int);
        }
        if marked[i] {
            let ghost kb = kept@;
            kept.push(p);
            proof {
                idx = idx.push(i as int);
                assert forall|j: int| 0 <= j <= i && #[trigger] marked@[j] implies kept@.contains(h0.live()[j]) by {
                    if j < i {
                        let x = choose|x: int| 0 <= x < kb.len() && kb[x] == h0.live()[j];
                        assert(kept@[x] == kb[x]);
                    } else {
                        assert(kept@[kept@.len() - 1] == p);
                    }
                }
            }
        }
        i += 1;
    }
    assert(h0.live().subrange(0, i as int) =~= h0.live());
    heap.objects = kept;
    proof {
        assert forall|x: int, y: int| 0 <= x < y < heap.live().len() implies heap.live()[x] + HEADER_SIZE <= heap.live()[y] by {
            assert(idx[x] < idx[y]);
            assert(h0.live()[idx[x]] + HEADER_SIZE <= h0.live()[idx[y]]);
        }
        assert forall|x: int| 0 <= x < heap.live().len() implies HEADER_SIZE <= #[trigger] heap.live()[x] <= heap.top() by {
            assert(HEADER_SIZE <= h0.live()[idx[x]] <= h0.top());
        }
        assert forall|p: u32| #[trigger] heap.live().contains(p) <==> h0.reachable(p) by {
            if heap.live().contains(p) {
                let x = choose|x: int| 0 <= x < kept@.len() && kept@[x] == p;
                assert(h0.reachable_index(idx[x]));
            }
            if h0.reachable(p) {
                let j = choose|j: int| #[trigger] h0.reachable_index(j) && h0.live()[j] == p;
                assert(marked@[j]);
            }
        }
    }
}

proof fn lemma_word_kept(h: Heap, h2: Heap, a: int)
    requires
        h.wf(),
        h2.wf(),
        0 <= a,
        a + 4 <= HEAP_SIZE,
        forall|t: int| a <= t < a + 4 ==> !h.in_mark_word(t),
        forall|k: int| 0 <= k < HEAP_SIZE && !h.in_mark_word(k) ==> #[trigger] h2.bytes()[k] == h.bytes()[k],
    ensures
        u32_at(h2.bytes(), a) == u32_at(h.bytes(), a),
{
    assert(h2.bytes()[a] == h.bytes()[a]);
    assert(h2.bytes()[a + 1] == h.bytes()[a + 1]);
    assert(h2.bytes()[a + 2] == h.bytes()[a + 2]);
    assert(h2.bytes()[a + 3] == h.bytes()[a + 3]);
}

/// No mark word of a live object lies in the header's type word or in the
/// payload of the `k`th live object.
proof fn lemma_outside_marks(h: Heap, k: int, t: int)
    requires
        h.wf(),
        0 <= k < h.live().len(),
        h.live()[k] - HEADER_SIZE <= t < h.live()[k] - 8 || h.live()[k] <= t < h.payload_end(k),
    ensures
        !h.in_mark_word(t),
{
    if h.in_mark_word(t) {
        let q = choose|q: int| 0 <= q < h.live().len() && #[trigger] h.live()[q] - 8 <= t < h.live()[q] - 4;
        if q < k {
            assert(h.live()[q] + HEADER_SIZE <= h.live()[k]);
        } else if q > k {
            assert(h.live()[k] + HEADER_SIZE <= h.live()[q]);
            if k + 1 < h.live().len() {
                if q > k + 1 {
                    assert(h.live()[k + 1] + HEADER_SIZE <= h.live()[q]);
                }
            }
        }
    }
}

/// Collecting a second time keeps every object: after a collection every
/// live object is reachable from the roots, so a further collection leaves
/// the registry as it is.
pub proof fn lemma_collect_idempotent(h: Heap, h2: Heap)
    requires
        h.wf(),
        h2.wf(),
        h2.top() == h.top(),
        h2.root_set() == h.root_set(),
        forall|p: u32| #[trigger] h2.live().contains(p) <==> h.reachable(p),
        forall|k: int| 0 <= k < HEAP_SIZE && !h.in_mark_word(k) ==> #[trigger] h2.bytes()[k] == h.bytes()[k],
    ensures
        forall|p: u32| #[trigger] h2.live().contains(p) <==> h2.reachable(p),
        h2.live().filter(reachable_pred(h2)) == h2.live(),
{
    assert forall|p: u32| #[trigger] h2.live().contains(p) implies h2.reachable(p) by {
        let j2 = choose|j2: int| 0 <= j2 < h2.live().len() && h2.live()[j2] == p;
        assert(h.reachable(p));
        let j = choose|j: int| #[trigger] h.reachable_index(j) && h.live()[j] == p;
        assert forall|m2: Set<int>| #[trigger] h2.closed_under(m2) implies m2.contains(j2) by {
            let m = Set::new(
                |k: int|
                    0 <= k < h.live().len() && h.reachable_index(k) && exists|k2: int|
                        0 <= k2 < h2.live().len() && h2.live()[k2] == h.live()[k] && #[trigger] m2.contains(k2),
            );
            assert forall|k: int|
                0 <= k < h.live().len() && h.root_set().contains(#[trigger] h.live()[k]) implies m.contains(k) by {
                lemma_reach_root(&h, k);
                assert(h.reachable(h.live()[k]));
                assert(h2.live().contains(h.live()[k]));
                let k2 = choose|k2: int| 0 <= k2 < h2.live().len() && h2.live()[k2] == h.live()[k];
                assert(m2.contains(k2));
            }
            assert forall|k: int, n: int| m.contains(k) && #[trigger] h.edge(k, n) implies m.contains(n) by {
                lemma_reach_edge(&h, k, n);
                assert(h.reachable(h.live()[n]));
                assert(h2.live().contains(h.live()[n]));
                let n2 = choose|n2: int| 0 <= n2 < h2.live().len() && h2.live()[n2] == h.live()[n];
                let k2 = choose|k2: int| 0 <= k2 < h2.live().len() && h2.live()[k2] == h.live()[k] && #[trigger] m2.contains(k2);
                let s = choose|s: int| #[trigger] h.slot_edge(k, s, n);
                let pk = h.live()[k];
                // the tag word is kept
                assert forall|t: int| pk - HEADER_SIZE <= t < pk - HEADER_SIZE + 4 implies !h.in_mark_word(t) by {
                    lemma_outside_marks(h, k, t);
                }
                lemma_word_kept(h, h2, pk - HEADER_SIZE);
                // the slot is kept
                assert forall|t: int| pk + 4 * s <= t < pk + 4 * s + 4 implies !h.in_mark_word(t) by {
                    lemma_outside_marks(h, k, t);
                }
                assert(h.payload_end(k) <= h.top());
                lemma_word_kept(h, h2, pk + 4 * s);
                // the payload does not shrink
                if k2 + 1 < h2.live().len() {
                    let q = h2.live()[k2 + 1];
                    assert(pk + HEADER_SIZE <= q);
                    assert(h2.live().contains(q));
                    let x = choose|x: int| #[trigger] h.reachable_index(x) && h.live()[x] == q;
                    if x <= k {
                        if x < k {
                            assert(h.live()[x] + HEADER_SIZE <= h.live()[k]);
                        }
                    }
                    if x > k + 1 {
                        assert(h.live()[k + 1] + HEADER_SIZE <= h.live()[x]);
                    }
                    assert(h.payload_end(k) <= h2.payload_end(k2));
                } else {
                    if k + 1 < h.live().len() {
                        assert(h.live()[k + 1] <= h.top());
                    }
                }
                assert(h2.slot_edge(k2, s, n2));
                assert(h2.edge(k2, n2));
                assert(m2.contains(n2));
            }
            assert(h.closed_under(m));
            assert(m.contains(j));
            let k2 = choose|k2: int| 0 <= k2 < h2.live().len() && h2.live()[k2] == h.live()[j] && #[trigger] m2.contains(k2);
            if k2 < j2 {
                assert(h2.live()[k2] + HEADER_SIZE <= h2.live()[j2]);
            } else if k2 > j2 {
                assert(h2.live()[j2] + HEADER_SIZE <= h2.live()[k2]);
            }
        }
        assert(h2.reachable_index(j2));
    }
    assert forall|p: u32| #[trigger] h2.reachable(p) implies h2.live().contains(p) by {
        let j = choose|j: int| #[trigger] h2.reachable_index(j) && h2.live()[j] == p;
    }
    lemma_filter_all(h2.live(), reachable_pred(h2));
}

proof fn lemma_filter_all(s: Seq<u32>, f: spec_fn(u32) -> bool)
    requires
        forall|p: u32| #[trigger] s.contains(p) ==> f(p),
    ensures
        s.filter(f) == s,
    decreases s.len(),
{
    reveal(Seq::filter);
    if s.len() > 0 {
        assert forall|p: u32| #[trigger] s.drop_last().contains(p) implies f(p) by {
            let i = choose|i: int| 0 <= i < s.drop_last().len() && s.drop_last()[i] == p;
            assert(s[i] == p);
            assert(s.contains(p));
        }
        lemma_filter_all(s.drop_last(), f);
        assert(s.contains(s.last()));
        assert(s.drop_last().push(s.last()) =~= s);
    }
}

} // verus!
