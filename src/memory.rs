//! Address arithmetic, bump-allocated spaces, thread-local allocation
//! buffers and the heap that groups the regions.
use vstd::prelude::*;

verus! {

pub const KB: usize = 1024;

pub const MB: usize = 1048576;

/// Width in bytes of one machine word (and of every reference).
pub const POINTER_SIZE: usize = 8;

/// A location in the managed address space; zero stands for null.
#[derive(Clone, Copy, Debug, PartialEq, Eq, Structural)]
pub struct Address {
    pub addr: usize,
}

impl Address {
    pub open spec fn spec_is_null(self) -> bool {
        self.addr == 0
    }

    pub fn new(addr: usize) -> (r: Address)
        ensures
            r.addr == addr,
    {
        Address { addr }
    }

    pub fn from_usize(addr: usize) -> (r: Address)
        ensures
            r.addr == addr,
    {
        Address { addr }
    }

    pub fn from_isize(addr: isize) -> (r: Address)
        requires
            addr >= 0,
        ensures
            r.addr == addr,
    {
        Address { addr: addr as usize }
    }

    pub fn null() -> (r: Address)
        ensures
            r.addr == 0,
    {
        Address { addr: 0 }
    }

    pub fn is_null(&self) -> (r: bool)
        ensures
            r == (self.addr == 0),
    {
        self.addr == 0
    }

    pub fn is_not_null(&self) -> (r: bool)
        ensures
            r == (self.addr != 0),
    {
        self.addr != 0
    }

    /// The address `size` bytes above this one.
    pub fn uoffset(&self, size: usize) -> (r: Address)
        requires
            self.addr + size <= usize::MAX,
        ensures
            r.addr == self.addr + size,
    {
        Address { addr: self.addr + size }
    }

    /// The address `size` bytes away from this one, in either direction.
    pub fn offset(&self, size: isize) -> (r: Address)
        requires
            0 <= self.addr + size <= usize::MAX,
        ensures
            r.addr == self.addr + size,
    {
        if size >= 0 {
            Address { addr: self.addr + (size as usize) }
        } else {
            let down: usize = (0 - (size as i128)) as usize;
            Address { addr: self.addr - down }
        }
    }

    pub fn as_usize(&self) -> (r: usize)
        ensures
            r == self.addr,
    {
        self.addr
    }

    pub fn as_isize(&self) -> (r: isize)
        requires
            self.addr <= isize::MAX,
        ensures
            r == self.addr,
    {
        self.addr as isize
    }
}

/// `size` rounded up to a multiple of `a`.
pub open spec fn align_up(size: int, a: int) -> int
    recommends
        a > 0,
{
    if size % a == 0 {
        size
    } else {
        size + (a - size % a)
    }
}

/// Rounds `size` up to a whole number of machine words.
pub fn align(size: usize) -> (r: usize)
    requires
        size + POINTER_SIZE - 1 <= usize::MAX,
    ensures
        r == align_up(size as int, POINTER_SIZE as int),
        r % POINTER_SIZE == 0,
        size <= r < size + POINTER_SIZE,
{
    let rem = size % POINTER_SIZE;
    assert(rem == 0 || size + (POINTER_SIZE - rem) <= size + POINTER_SIZE - 1);
    if rem == 0 {
        size
    } else {
        size + (POINTER_SIZE - rem)
    }
}

/// Whether `size` is a multiple of the power of two `a`.
pub fn is_align_of(size: usize, a: usize) -> (r: bool)
    requires
        a > 0,
    ensures
        r == (size % a == 0),
{
    size % a == 0
}

/// What a region is used for.
#[derive(Clone, Copy, Debug, PartialEq, Eq, Structural)]
pub enum SpaceType {
    NEW,
    OLD,
    PERM,
    CODE,
}

/// A contiguous range `[start, end)` with a bump pointer `free`.
pub struct Space {
    pub space_type: SpaceType,
    pub start: Address,
    pub end: Address,
    pub free: Address,
}

impl Space {
    pub open spec fn spec_start(&self) -> usize {
        self.start.addr
    }

    pub open spec fn spec_end(&self) -> usize {
        self.end.addr
    }

    pub open spec fn spec_free(&self) -> usize {
        self.free.addr
    }

    pub open spec fn wf(&self) -> bool {
        0 < self.spec_start() <= self.spec_free() <= self.spec_end()
    }

    /// A space over the (already committed) bytes `[start, start + size)`.
    pub fn new(space_type: SpaceType, start: Address, size: usize) -> (r: Space)
        requires
            start.addr > 0,
            start.addr + size <= usize::MAX,
        ensures
            r.wf(),
            r.space_type == space_type,
            r.spec_start() == start.addr,
            r.spec_end() == start.addr + size,
            r.spec_free() == start.addr,
    {
        Space { space_type, start, end: Address { addr: start.addr + size }, free: start }
    }

    /// Hands out the next `size` bytes, or null when they do not fit.
    pub fn allocate(&mut self, size: usize) -> (r: Address)
        requires
            old(self).wf(),
        ensures
            final(self).wf(),
            final(self).space_type == old(self).space_type,
            final(self).spec_start() == old(self).spec_start(),
            final(self).spec_end() == old(self).spec_end(),
            old(self).spec_free() + size <= old(self).spec_end() ==> r.addr == old(
                self,
            ).spec_free() && final(self).spec_free() == old(self).spec_free() + size,
            old(self).spec_free() + size > old(self).spec_end() ==> r.addr == 0
                && final(self).spec_free() == old(self).spec_free(),
    {
        if size <= self.end.addr - self.free.addr {
            let result = self.free;
            self.free = Address { addr: self.free.addr + size };
            result
        } else {
            Address { addr: 0 }
        }
    }

    pub fn contains(&self, addr: Address) -> (r: bool)
        ensures
            r == (self.spec_start() <= addr.addr < self.spec_end()),
    {
        addr.addr >= self.start.addr && addr.addr < self.end.addr
    }

    pub fn start(&self) -> (r: Address)
        ensures
            r.addr == self.spec_start(),
    {
        self.start
    }

    pub fn end(&self) -> (r: Address)
        ensures
            r.addr == self.spec_end(),
    {
        self.end
    }

    pub fn free(&self) -> (r: Address)
        ensures
            r.addr == self.spec_free(),
    {
        self.free
    }

    pub fn size(&self) -> (r: usize)
        requires
            self.wf(),
        ensures
            r == self.spec_end() - self.spec_start(),
    {
        self.end.addr - self.start.addr
    }

    /// Forgets every allocation: the bump pointer goes back to the start.
    pub fn reset(&mut self)
        requires
            old(self).wf(),
        ensures
            final(self).wf(),
            final(self).space_type == old(self).space_type,
            final(self).spec_start() == old(self).spec_start(),
            final(self).spec_end() == old(self).spec_end(),
            final(self).spec_free() == old(self).spec_start(),
    {
        self.free = self.start;
    }
}

/// Two equal halves; allocation happens in `to`, `flip` swaps the halves.
pub struct SemiSpace {
    pub start: Address,
    pub from: Space,
    pub to: Space,
}

impl SemiSpace {
    pub open spec fn wf(&self) -> bool {
        self.from.wf() && self.to.wf()
    }

    /// Splits `[start, start + size)` into two halves of `size / 2` bytes.
    pub fn new(start: Address, size: usize) -> (r: SemiSpace)
        requires
            start.addr > 0,
            start.addr + size <= usize::MAX,
        ensures
            r.wf(),
            r.from.spec_start() == start.addr,
            r.from.spec_end() == start.addr + size / 2,
            r.to.spec_start() == start.addr + size / 2,
            r.to.spec_end() == start.addr + 2 * (size / 2),
            r.to.spec_free() == r.to.spec_start(),
    {
        let semi_size = size / 2;
        let to_start = Address { addr: start.addr + semi_size };
        SemiSpace {
            start,
            from: Space::new(SpaceType::NEW, start, semi_size),
            to: Space::new(SpaceType::NEW, to_start, semi_size),
        }
    }

    pub fn contains(&self, addr: Address) -> (r: bool)
        ensures
            r == (self.to.spec_start() <= addr.addr < self.to.spec_end()),
    {
        self.to.contains(addr)
    }

    pub fn start(&self) -> (r: Address)
        ensures
            r.addr == self.to.spec_start(),
    {
        self.to.start()
    }

    pub fn end(&self) -> (r: Address)
        ensures
            r.addr == self.to.spec_end(),
    {
        self.to.end()
    }

    pub fn allocate(&mut self, size: usize) -> (r: Address)
        requires
            old(self).wf(),
        ensures
            final(self).wf(),
            final(self).from == old(self).from,
            final(self).to.spec_start() == old(self).to.spec_start(),
            final(self).to.spec_end() == old(self).to.spec_end(),
            old(self).to.spec_free() + size <= old(self).to.spec_end() ==> r.addr == old(
                self,
            ).to.spec_free() && final(self).to.spec_free() == old(self).to.spec_free() + size,
            old(self).to.spec_free() + size > old(self).to.spec_end() ==> r.addr == 0
                && final(self).to.spec_free() == old(self).to.spec_free(),
    {
        self.to.allocate(size)
    }

    /// Swaps the halves and empties the new `to` half.
    pub fn flip(&mut self)
        requires
            old(self).wf(),
        ensures
            final(self).wf(),
            final(self).from == old(self).to,
            final(self).to.spec_start() == old(self).from.spec_start(),
            final(self).to.spec_end() == old(self).from.spec_end(),
            final(self).to.spec_free() == old(self).from.spec_start(),
    {
        std::mem::swap(&mut self.from, &mut self.to);
        self.to.reset();
    }
}


/// A thread-local allocation buffer: `[free, limit)` carved from the young
/// space, serving allocations of at most `capacity` bytes.
pub struct LocalAllocBuf {
    pub free: Address,
    pub limit: Address,
    pub capacity: usize,
}

impl LocalAllocBuf {
    pub open spec fn wf(&self) -> bool {
        self.free.addr <= self.limit.addr
    }

    pub fn new(free: Address, limit: Address) -> (r: LocalAllocBuf)
        ensures
            r.free == free,
            r.limit == limit,
            r.capacity == KB,
    {
        LocalAllocBuf { free, limit, capacity: KB }
    }

    pub fn free(&self) -> (r: Address)
        ensures
            r == self.free,
    {
        self.free
    }

    pub fn set_free(&mut self, free: Address)
        ensures
            final(self).free == free,
            final(self).limit == old(self).limit,
            final(self).capacity == old(self).capacity,
    {
        self.free = free;
    }

    /// Starts serving from the new range `[free, limit)`.
    pub fn new_buf(&mut self, free: Address, limit: Address)
        ensures
            final(self).free == free,
            final(self).limit == limit,
            final(self).capacity == old(self).capacity,
    {
        self.free = free;
        self.limit = limit;
    }

    pub fn capacity(&self) -> (r: usize)
        ensures
            r == self.capacity,
    {
        self.capacity
    }

    pub fn available(&self) -> (r: usize)
        requires
            self.wf(),
        ensures
            r == self.limit.addr - self.free.addr,
    {
        self.limit.addr - self.free.addr
    }
}

/// Counters of collections (collection itself is not part of this core).
pub struct GCStats {
    pub minor_gc_count: usize,
    pub minor_gc_time: usize,
    pub minor_gc_last_time: usize,
    pub major_gc_count: usize,
    pub major_gc_time: usize,
    pub major_gc_last_time: usize,
}

pub const NEW_SPACE_SIZE: usize = 16777216;

pub const OLD_SPACE_SIZE: usize = 33554432;

pub const PERM_SPACE_SIZE: usize = 8388608;

pub const CODE_SPACE_SIZE: usize = 8388608;

/// The page size regions are aligned to.
pub const PAGE_SIZE: usize = 4096;

/// `[a, a + n)` and `[b, b + m)` do not overlap.
pub open spec fn disjoint(a: int, n: int, b: int, m: int) -> bool {
    a + n <= b || b + m <= a
}

/// The four regions: young (two halves), old, permanent and code.
pub struct Heap {
    pub new_space: SemiSpace,
    pub old_space: Space,
    pub perm_space: Space,
    pub code_space: Space,
}

impl Heap {
    /// The five spaces (the two young halves, old, permanent, code) do not
    /// overlap.
    pub open spec fn regions_disjoint(&self) -> bool {
        let sp = seq![self.new_space.from, self.new_space.to, self.old_space, self.perm_space, self.code_space];
        forall|i: int, j: int|
            0 <= i < 5 && 0 <= j < 5 && i != j ==> disjoint(
                sp[i].spec_start() as int,
                sp[i].spec_end() - sp[i].spec_start(),
                sp[j].spec_start() as int,
                sp[j].spec_end() - sp[j].spec_start(),
            )
    }

    pub open spec fn wf(&self) -> bool {
        self.new_space.wf() && self.old_space.wf() && self.perm_space.wf() && self.code_space.wf()
    }

    /// A heap over four reserved ranges starting at the given addresses.
    pub fn new(new_start: Address, old_start: Address, perm_start: Address, code_start: Address) -> (r: Heap)
        requires
            new_start.addr > 0 && new_start.addr + NEW_SPACE_SIZE <= usize::MAX,
            old_start.addr > 0 && old_start.addr + OLD_SPACE_SIZE <= usize::MAX,
            perm_start.addr > 0 && perm_start.addr + PERM_SPACE_SIZE <= usize::MAX,
            code_start.addr > 0 && code_start.addr + CODE_SPACE_SIZE <= usize::MAX,
            new_start.addr % PAGE_SIZE == 0 && old_start.addr % PAGE_SIZE == 0 && perm_start.addr % PAGE_SIZE == 0
                && code_start.addr % PAGE_SIZE == 0,
            disjoint(new_start.addr as int, NEW_SPACE_SIZE as int, old_start.addr as int, OLD_SPACE_SIZE as int),
            disjoint(new_start.addr as int, NEW_SPACE_SIZE as int, perm_start.addr as int, PERM_SPACE_SIZE as int),
            disjoint(new_start.addr as int, NEW_SPACE_SIZE as int, code_start.addr as int, CODE_SPACE_SIZE as int),
            disjoint(old_start.addr as int, OLD_SPACE_SIZE as int, perm_start.addr as int, PERM_SPACE_SIZE as int),
            disjoint(old_start.addr as int, OLD_SPACE_SIZE as int, code_start.addr as int, CODE_SPACE_SIZE as int),
            disjoint(perm_start.addr as int, PERM_SPACE_SIZE as int, code_start.addr as int, CODE_SPACE_SIZE as int),
        ensures
            r.wf(),
            r.regions_disjoint(),
            r.perm_space.spec_start() % PAGE_SIZE == 0 && r.code_space.spec_start() % PAGE_SIZE == 0
                && r.old_space.spec_start() % PAGE_SIZE == 0 && r.new_space.from.spec_start() % PAGE_SIZE == 0
                && r.new_space.to.spec_start() % PAGE_SIZE == 0,
            r.perm_space.spec_start() == perm_start.addr,
            r.perm_space.spec_free() == perm_start.addr,
            r.perm_space.spec_end() == perm_start.addr + PERM_SPACE_SIZE,
            r.code_space.spec_start() == code_start.addr,
            r.code_space.spec_end() == code_start.addr + CODE_SPACE_SIZE,
            r.code_space.spec_free() == code_start.addr,
            r.old_space.spec_start() == old_start.addr,
            r.old_space.spec_end() == old_start.addr + OLD_SPACE_SIZE,
            r.old_space.spec_free() == old_start.addr,
            r.new_space.from.spec_start() == new_start.addr,
            r.new_space.from.spec_end() == new_start.addr + NEW_SPACE_SIZE / 2,
            r.new_space.to.spec_start() == new_start.addr + NEW_SPACE_SIZE / 2,
            r.new_space.to.spec_end() == new_start.addr + NEW_SPACE_SIZE,
            r.new_space.to.spec_free() == r.new_space.to.spec_start(),
    {
        Heap {
            new_space: SemiSpace::new(new_start, NEW_SPACE_SIZE),
            old_space: Space::new(SpaceType::OLD, old_start, OLD_SPACE_SIZE),
            perm_space: Space::new(SpaceType::PERM, perm_start, PERM_SPACE_SIZE),
            code_space: Space::new(SpaceType::CODE, code_start, CODE_SPACE_SIZE),
        }
    }

    /// Permanent allocation of a word-aligned size; null when full.
    pub fn alloc_obj_permanent(&mut self, size: usize) -> (r: Address)
        requires
            old(self).wf(),
            size % POINTER_SIZE == 0,
        ensures
            final(self).wf(),
            old(self).perm_space.spec_free() + size <= old(self).perm_space.spec_end() ==> r.addr == old(
                self,
            ).perm_space.spec_free() && final(self).perm_space.spec_free() == old(self).perm_space.spec_free() + size,
            old(self).perm_space.spec_free() + size > old(self).perm_space.spec_end() ==> r.addr == 0
                && final(self).perm_space.spec_free() == old(self).perm_space.spec_free(),
            final(self).perm_space.spec_start() == old(self).perm_space.spec_start(),
            final(self).perm_space.spec_end() == old(self).perm_space.spec_end(),
            final(self).new_space == old(self).new_space,
            final(self).code_space == old(self).code_space,
            final(self).old_space == old(self).old_space,
    {
        self.perm_space.allocate(size)
    }

    pub fn alloc_code(&mut self, size: usize) -> (r: Address)
        requires
            old(self).wf(),
        ensures
            final(self).wf(),
            old(self).code_space.spec_free() + size <= old(self).code_space.spec_end() ==> r.addr == old(
                self,
            ).code_space.spec_free(),
            old(self).code_space.spec_free() + size > old(self).code_space.spec_end() ==> r.addr == 0,
    {
        self.code_space.allocate(size)
    }

    pub fn perm_contains(&self, addr: Address) -> (r: bool)
        ensures
            r == (self.perm_space.spec_start() <= addr.addr < self.perm_space.spec_end()),
    {
        self.perm_space.contains(addr)
    }

    pub fn new_contains(&self, addr: Address) -> (r: bool)
        ensures
            r == (self.new_space.to.spec_start() <= addr.addr < self.new_space.to.spec_end()),
    {
        self.new_space.contains(addr)
    }

    pub fn heap_contains(&self, addr: Address) -> (r: bool)
        ensures
            r == ((self.new_space.to.spec_start() <= addr.addr < self.new_space.to.spec_end())
                || (self.perm_space.spec_start() <= addr.addr < self.perm_space.spec_end())
                || (self.old_space.spec_start() <= addr.addr < self.old_space.spec_end())
                || (self.code_space.spec_start() <= addr.addr < self.code_space.spec_end())),
    {
        self.new_contains(addr) || self.perm_contains(addr) || self.old_space.contains(addr)
            || self.code_space.contains(addr)
    }

    /// Young allocation outside any buffer; null when the young space is
    /// full (collection is not part of this core).
    pub fn alloc_obj(&mut self, size: usize) -> (r: Address)
        requires
            old(self).wf(),
        ensures
            final(self).wf(),
            final(self).perm_space == old(self).perm_space,
            old(self).new_space.to.spec_free() + size <= old(self).new_space.to.spec_end() ==> r.addr == old(
                self,
            ).new_space.to.spec_free(),
            old(self).new_space.to.spec_free() + size > old(self).new_space.to.spec_end() ==> r.addr == 0,
    {
        self.new_space.allocate(size)
    }

    /// Bump allocation inside the buffer; null when it does not fit.
    fn alloc_obj_lab_internal(lab: &mut LocalAllocBuf, size: usize) -> (r: Address)
        requires
            old(lab).wf(),
        ensures
            final(lab).wf(),
            final(lab).limit == old(lab).limit,
            final(lab).capacity == old(lab).capacity,
            size <= old(lab).limit.addr - old(lab).free.addr ==> r == old(lab).free && final(lab).free.addr
                == old(lab).free.addr + size,
            size > old(lab).limit.addr - old(lab).free.addr ==> r.addr == 0 && final(lab).free == old(lab).free,
    {
        if size <= lab.available() {
            let result = lab.free();
            lab.set_free(Address { addr: result.addr + size });
            return result;
        }
        Address { addr: 0 }
    }

    /// Young allocation through the thread's buffer: objects larger than
    /// the buffer's capacity go to the young space directly; otherwise the
    /// buffer serves, refilled from the young space when it runs short.
    /// The result is null only when the young space is full.
    pub fn alloc_obj_lab(&mut self, lab: &mut LocalAllocBuf, size: usize) -> (r: Address)
        requires
            old(self).wf(),
            old(lab).wf(),
        ensures
            final(self).wf(),
            final(lab).wf(),
            final(self).perm_space == old(self).perm_space,
            size > old(lab).capacity ==> *final(lab) == *old(lab) && (old(self).new_space.to.spec_free() + size
                <= old(self).new_space.to.spec_end() ==> r.addr == old(self).new_space.to.spec_free()),
            size <= old(lab).capacity && size <= old(lab).limit.addr - old(lab).free.addr ==> r == old(lab).free
                && final(lab).free.addr == old(lab).free.addr + size && final(self).new_space == old(self).new_space,
    {
        let cap = lab.capacity();
        if size > cap {
            return self.new_space.allocate(size);
        }
        let avail = lab.available();
        let result = Self::alloc_obj_lab_internal(lab, size);
        if size <= avail {
            return result;
        }
        let buf = self.new_space.allocate(cap);
        if buf.is_not_null() {
            let limit = Address { addr: buf.addr + cap };
            lab.new_buf(buf, limit);
            return Self::alloc_obj_lab_internal(lab, size);
        }
        self.alloc_obj(size)
    }
}
} // verus!
