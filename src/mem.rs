//! Guest memory, seen at the granularity of aligned 32-bit words.

use std::collections::HashMap;
use vstd::prelude::*;

verus! {

broadcast use vstd::std_specs::hash::group_hash_axioms;

/// A guest virtual address.
pub type VAddr = u32;

/// A size in guest memory, in bytes.
pub type GuestUSize = u32;

/// The value of the word at `addr` in a memory whose written words are `m`:
/// a word that was never written reads as zero.
pub open spec fn word_at(m: Map<u32, u32>, addr: u32) -> u32 {
    if m.contains_key(addr) {
        m[addr]
    } else {
        0
    }
}

/// The guest address space. Every aligned address can be read and written;
/// a bump allocator hands out fresh word-aligned blocks from the heap range
/// `heap_next..heap_end`.
pub struct Mem {
    words: HashMap<u32, u32>,
    heap_next: u32,
    heap_end: u32,
}

impl View for Mem {
    type V = Map<u32, u32>;

    closed spec fn view(&self) -> Map<u32, u32> {
        self.words@
    }
}

impl Mem {
    /// Start of the part of the heap that has not been handed out yet.
    pub closed spec fn spec_heap_next(&self) -> u32 {
        self.heap_next
    }

    /// End (exclusive) of the heap.
    pub closed spec fn spec_heap_end(&self) -> u32 {
        self.heap_end
    }

    pub open spec fn wf(&self) -> bool {
        &&& self.spec_heap_next() % 4 == 0
        &&& self.spec_heap_next() <= self.spec_heap_end()
    }

    /// The word at `addr`, as read by [Mem::read].
    pub open spec fn word(&self, addr: u32) -> u32 {
        word_at(self@, addr)
    }

    /// An empty memory (every word zero) whose heap is `heap_base..heap_end`.
    pub fn new(heap_base: u32, heap_end: u32) -> (r: Mem)
        requires
            heap_base % 4 == 0,
            heap_base <= heap_end,
        ensures
            r.wf(),
            r@ == Map::<u32, u32>::empty(),
            r.spec_heap_next() == heap_base,
            r.spec_heap_end() == heap_end,
    {
        Mem { words: HashMap::new(), heap_next: heap_base, heap_end }
    }

    /// Read the word at an aligned address.
    pub fn read(&self, addr: VAddr) -> (r: u32)
        requires
            addr % 4 == 0,
        ensures
            r == self.word(addr),
    {
        match self.words.get(&addr) {
            Some(w) => *w,
            None => 0,
        }
    }

    /// Write the word at an aligned address.
    pub fn write(&mut self, addr: VAddr, value: u32)
        requires
            addr % 4 == 0,
        ensures
            final(self)@ == old(self)@.insert(addr, value),
            final(self).spec_heap_next() == old(self).spec_heap_next(),
            final(self).spec_heap_end() == old(self).spec_heap_end(),
    {
        self.words.insert(addr, value);
    }

    /// Whether a block of `size` bytes can still be allocated.
    pub open spec fn can_alloc(&self, size: u32) -> bool {
        self.spec_heap_end() - self.spec_heap_next() >= size + 3
    }

    /// Allocate a fresh word-aligned block of at least `size` bytes, or
    /// `None` when the heap is exhausted.
    pub fn allocate(&mut self, size: GuestUSize) -> (r: Option<VAddr>)
        requires
            old(self).wf(),
        ensures
            final(self).wf(),
            final(self)@ == old(self)@,
            final(self).spec_heap_end() == old(self).spec_heap_end(),
            old(self).can_alloc(size) ==> r == Some(old(self).spec_heap_next()),
            old(self).can_alloc(size) ==> final(self).spec_heap_next() == old(self).spec_heap_next()
                + size + (4 - size % 4) % 4,
            !old(self).can_alloc(size) ==> r is None && final(self).spec_heap_next()
                == old(self).spec_heap_next(),
    {
        if self.heap_end - self.heap_next < 3 || self.heap_end - self.heap_next - 3 < size {
            return None;
        }
        let addr = self.heap_next;
        let rounded: u32 = size + (4 - size % 4) % 4;
        self.heap_next = self.heap_next + rounded;
        Some(addr)
    }
}

} // verus!
