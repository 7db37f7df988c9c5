//! A plain bump allocator without collection: every object keeps its header
//! (type word, then a mark word set at allocation) for the life of the arena.
use vstd::prelude::*;
use crate::gc::{read_word, u32_at, write_word, HeapError, HEAP_SIZE};

verus! {

/// Size of a header of this allocator: type word and mark word.
pub const BUMP_HEADER_SIZE: usize = 8;

/// A bump-only arena.
pub struct BumpArena {
    arena: Vec<u8>,
    top: usize,
}

impl BumpArena {
    /// The bytes of the arena.
    pub closed spec fn bytes(&self) -> Seq<u8> {
        self.arena@
    }

    /// The first free byte.
    pub closed spec fn next(&self) -> nat {
        self.top as nat
    }

    pub open spec fn wf(&self) -> bool {
        self.bytes().len() == HEAP_SIZE && self.next() <= HEAP_SIZE
    }

    /// An empty arena.
    pub fn new() -> (r: BumpArena)
        ensures
            r.wf(),
            r.next() == 0,
    {
        BumpArena { arena: vec![0u8; HEAP_SIZE], top: 0 }
    }

    /// The first free byte.
    pub fn top(&self) -> (r: usize)
        ensures
            r == self.next(),
    {
        self.top
    }

    /// The little-endian word at `at`.
    pub fn word(&self, at: usize) -> (r: u32)
        requires
            self.wf(),
            at + 4 <= HEAP_SIZE,
        ensures
            r == u32_at(self.bytes(), at as int),
    {
        read_word(&self.arena, at)
    }
}

/// Allocates `size` payload bytes behind a header holding `type_id` and a
/// set mark word, and returns the payload's offset. Fails when the arena has
/// no room left; nothing is ever freed.
pub fn gc_alloc(arena: &mut BumpArena, size: usize, type_id: u32) -> (r: Result<u32, HeapError>)
    requires
        old(arena).wf(),
    ensures
        final(arena).wf(),
        r is Ok <==> old(arena).next() + BUMP_HEADER_SIZE + size <= HEAP_SIZE,
        r matches Ok(p) ==> {
            &&& p == old(arena).next() + BUMP_HEADER_SIZE
            &&& final(arena).next() == p + size
            &&& u32_at(final(arena).bytes(), p - 8) == type_id
            &&& u32_at(final(arena).bytes(), p - 4) == 1
        },
        r is Err ==> *final(arena) == *old(arena),
{
    if size > HEAP_SIZE || arena.top + BUMP_HEADER_SIZE + size > HEAP_SIZE {
        return Err(HeapError::OutOfMemory);
    }
    let base = arena.top;
    write_word(&mut arena.arena, base, type_id);
    let ghost a1 = arena.arena@;
    write_word(&mut arena.arena, base + 4, 1);
    proof {
        assert(arena.arena@[base as int] == a1[base as int]);
        assert(arena.arena@[base + 1] == a1[base + 1]);
        assert(arena.arena@[base + 2] == a1[base + 2]);
        assert(arena.arena@[base + 3] == a1[base + 3]);
    }
    arena.top = base + BUMP_HEADER_SIZE + size;
    Ok((base + BUMP_HEADER_SIZE) as u32)
}

} // verus!
