use vstd::prelude::*;

verus! {

/// Bytes in one page of storage.
pub const PAGE_SIZE: u64 = 65536;

/// The most pages the log may grow to (4 GiB, the 32-bit storage limit).
pub const MAX_PAGES: u64 = 65536;

/// Why a storage operation failed.
#[derive(Clone, Copy, Debug, PartialEq, Eq, Structural)]
pub enum MemoryError {
    /// The range read reaches past what was ever written.
    OutOfRange,
    /// Growing would pass `MAX_PAGES`.
    GrowFailed,
}

/// Where a write landed in the log: a capability for reading it back.
#[derive(Clone, Copy, Debug, PartialEq, Eq, Structural, Default)]
pub struct Position {
    pub offset: usize,
    pub len: usize,
}

impl Position {
    pub fn new(offset: usize, len: usize) -> (r: Position)
        ensures
            r.offset == offset,
            r.len == len,
    {
        Position { offset, len }
    }
}

/// Storage that is read and appended to, and grown by whole pages.
pub trait Memory<E> {
    /// Everything written so far.
    spec fn contents(&self) -> Seq<u8>;

    /// Pages allocated.
    spec fn page_count(&self) -> nat;

    /// The written bytes fit in the allocated pages.
    spec fn well_formed(&self) -> bool;

    /// Pages allocated.
    fn capacity(&self) -> (r: u32)
        ensures
            r == self.page_count();

    /// Bytes allocated.
    fn size(&self) -> (r: u64)
        requires
            self.well_formed(),
        ensures
            r == self.page_count() * PAGE_SIZE;

    /// Adds `pages` pages; on failure nothing changes.
    fn grow(&mut self, pages: u32) -> (r: Result<(), E>)
        requires
            old(self).well_formed(),
        ensures
            final(self).well_formed(),
            final(self).contents() == old(self).contents(),
            r is Ok ==> final(self).page_count() == old(self).page_count() + pages,
            r is Err ==> final(self).page_count() == old(self).page_count();

    /// Fills `dst` from `offset`; returns the number of bytes read. Fails, leaving `dst`
    /// as it was, when that range was never written.
    fn read(&self, offset: usize, dst: &mut [u8]) -> (r: Result<usize, E>)
        requires
            self.well_formed(),
        ensures
            r is Ok <==> offset + old(dst)@.len() <= self.contents().len(),
            r matches Ok(n) ==> n == old(dst)@.len()
                && final(dst)@ == self.contents().subrange(offset as int, offset + old(dst)@.len()),
            r is Err ==> final(dst)@ == old(dst)@;

    /// Appends `src` at the end; returns the number of bytes written. On failure nothing
    /// is written.
    fn write(&mut self, src: &[u8]) -> (r: Result<usize, E>)
        requires
            old(self).well_formed(),
        ensures
            final(self).well_formed(),
            r matches Ok(n) ==> n == src@.len() && final(self).contents() == old(self).contents() + src@,
            r is Err ==> final(self).contents() == old(self).contents();
}

/// An append-only byte log. Nothing written is ever overwritten or removed.
#[derive(Clone, Debug, Default)]
pub struct StableMemory {
    data: Vec<u8>,
    capacity: u32,
}

impl View for StableMemory {
    type V = Seq<u8>;

    /// Everything written so far, in order.
    closed spec fn view(&self) -> Seq<u8> {
        self.data@
    }
}

impl StableMemory {
    /// Pages allocated, as seen from contracts.
    pub closed spec fn pages(&self) -> nat {
        self.capacity as nat
    }

    /// The written bytes fit in the allocated pages, which stay within `MAX_PAGES`.
    pub open spec fn wf(&self) -> bool {
        &&& self.pages() <= MAX_PAGES
        &&& self@.len() <= self.pages() * PAGE_SIZE
    }

    /// The pages that a write of `n` bytes at the end would need to add.
    pub open spec fn pages_for_write(&self, n: nat) -> nat {
        if self@.len() + n > self.pages() * PAGE_SIZE {
            n / (PAGE_SIZE as nat) + 1
        } else {
            0
        }
    }

    /// An empty log with no pages.
    pub fn empty() -> (r: StableMemory)
        ensures
            r.wf(),
            r@ == Seq::<u8>::empty(),
            r.pages() == 0,
    {
        StableMemory { data: Vec::new(), capacity: 0 }
    }

    /// The offset at which the next write lands.
    pub fn offset(&self) -> (r: usize)
        ensures
            r == self@.len(),
    {
        self.data.len()
    }

    pub fn capacity(&self) -> (r: u32)
        ensures
            r == self.pages(),
    {
        self.capacity
    }

    pub fn size(&self) -> (r: u64)
        requires
            self.wf(),
        ensures
            r == self.pages() * PAGE_SIZE,
    {
        self.capacity as u64 * PAGE_SIZE
    }

    /// Adds `pages` pages; fails, changing nothing, past `MAX_PAGES`.
    pub fn grow(&mut self, pages: u32) -> (r: Result<(), MemoryError>)
        requires
            old(self).wf(),
        ensures
            final(self).wf(),
            final(self)@ == old(self)@,
            r is Ok <==> old(self).pages() + pages <= MAX_PAGES,
            r is Ok ==> final(self).pages() == old(self).pages() + pages,
            r is Err ==> *final(self) == *old(self) && r == Err::<(), MemoryError>(MemoryError::GrowFailed),
    {
        if self.capacity as u64 + pages as u64 > MAX_PAGES {
            return Err(MemoryError::GrowFailed);
        }
        self.capacity = self.capacity + pages;
        Ok(())
    }

    /// Fills `dst` with the bytes from `offset`; fails when that range was never written.
    pub fn read(&self, offset: usize, dst: &mut [u8]) -> (r: Result<usize, MemoryError>)
        requires
            self.wf(),
        ensures
            r is Ok <==> offset + old(dst)@.len() <= self@.len(),
            r is Ok ==> r == Ok::<usize, MemoryError>(old(dst)@.len() as usize)
                && final(dst)@ == self@.subrange(offset as int, offset + old(dst)@.len()),
            r is Err ==> final(dst)@ == old(dst)@ && r == Err::<usize, MemoryError>(MemoryError::OutOfRange),
    {
        let n = dst.len();
        if offset > self.data.len() || n > self.data.len() - offset {
            return Err(MemoryError::OutOfRange);
        }
        let mut i: usize = 0;
        while i < n
            invariant
                n == dst@.len(),
                offset + n <= self@.len(),
                self@.len() <= usize::MAX,
                i <= n,
                forall|j: int| 0 <= j < i ==> dst@[j] == self@[offset + j],
            decreases n - i,
        {
            dst[i] = self.data[offset + i];
            i = i + 1;
        }
        assert(dst@ =~= self@.subrange(offset as int, offset + n));
        Ok(n)
    }

    /// Appends `src`, first growing by `pages_for_write` pages when it does not fit.
    /// Fails, changing nothing, when that growth would pass `MAX_PAGES`.
    pub fn write(&mut self, src: &[u8]) -> (r: Result<usize, MemoryError>)
        requires
            old(self).wf(),
        ensures
            final(self).wf(),
            r is Ok <==> old(self).pages() + old(self).pages_for_write(src@.len()) <= MAX_PAGES,
            r is Ok ==> r == Ok::<usize, MemoryError>(src@.len() as usize)
                && final(self)@ == old(self)@ + src@
                && final(self).pages() == old(self).pages() + old(self).pages_for_write(src@.len()),
            r is Err ==> *final(self) == *old(self) && r == Err::<usize, MemoryError>(MemoryError::GrowFailed),
    {
        let n = src.len();
        let end = self.data.len();
        if n as u64 > MAX_PAGES * PAGE_SIZE {
            assert((n as nat) / (PAGE_SIZE as nat) + 1 > MAX_PAGES) by (nonlinear_arith)
                requires n > MAX_PAGES * PAGE_SIZE;
            assert(self.pages_for_write(n as nat) == (n as nat) / (PAGE_SIZE as nat) + 1);
            return Err(MemoryError::GrowFailed);
        }
        if end as u64 + n as u64 > self.capacity as u64 * PAGE_SIZE {
            let extra: u64 = n as u64 / PAGE_SIZE + 1;
            let ghost before = self.pages();
            if self.capacity as u64 + extra > MAX_PAGES {
                return Err(MemoryError::GrowFailed);
            }
            let g = self.grow(extra as u32);
            assert(g is Ok);
            assert(end + n <= self.pages() * PAGE_SIZE) by (nonlinear_arith)
                requires
                    end <= before * PAGE_SIZE,
                    self.pages() == before + (n as nat) / (PAGE_SIZE as nat) + 1,
            ;
        }
        let ghost mid = self.data@;
        let mut i: usize = 0;
        while i < n
            invariant
                n == src@.len(),
                end == mid.len(),
                i <= n,
                self.data@ == mid + src@.subrange(0, i as int),
                self.capacity == old(self).capacity + old(self).pages_for_write(n as nat),
                mid == old(self)@,
            decreases n - i,
        {
            self.data.push(src[i]);
            i = i + 1;
            assert(self.data@ =~= mid + src@.subrange(0, i as int));
        }
        assert(src@.subrange(0, n as int) =~= src@);
        Ok(n)
    }

    /// Appends `src` and returns where it landed.
    pub fn append(&mut self, src: &[u8]) -> (r: Result<Position, MemoryError>)
        requires
            old(self).wf(),
        ensures
            final(self).wf(),
            r is Ok <==> old(self).pages() + old(self).pages_for_write(src@.len()) <= MAX_PAGES,
            r matches Ok(p) ==> p.offset == old(self)@.len() && p.len == src@.len()
                && final(self)@ == old(self)@ + src@,
            r is Err ==> *final(self) == *old(self),
    {
        let offset = self.data.len();
        let n = src.len();
        match self.write(src) {
            Ok(len) => Ok(Position::new(offset, len)),
            Err(e) => Err(e),
        }
    }

    /// The bytes at `pos`; fails when `pos` reaches past what was written.
    pub fn load(&self, pos: &Position) -> (r: Result<Vec<u8>, MemoryError>)
        requires
            self.wf(),
        ensures
            r is Ok <==> pos.offset + pos.len <= self@.len(),
            r matches Ok(b) ==> b@ == self@.subrange(pos.offset as int, pos.offset + pos.len),
            r is Err ==> r == Err::<Vec<u8>, MemoryError>(MemoryError::OutOfRange),
    {
        if pos.offset > self.data.len() || pos.len > self.data.len() - pos.offset {
            return Err(MemoryError::OutOfRange);
        }
        let mut buf: Vec<u8> = Vec::new();
        let mut i: usize = 0;
        while i < pos.len
            invariant
                pos.offset + pos.len <= self@.len(),
                self@.len() <= usize::MAX,
                i <= pos.len,
                buf@ == self@.subrange(pos.offset as int, pos.offset + i),
            decreases pos.len - i,
        {
            buf.push(self.data[pos.offset + i]);
            i = i + 1;
            assert(buf@ =~= self@.subrange(pos.offset as int, pos.offset + i));
        }
        Ok(buf)
    }
}

impl Memory<MemoryError> for StableMemory {
    open spec fn contents(&self) -> Seq<u8> {
        self@
    }

    open spec fn page_count(&self) -> nat {
        self.pages()
    }

    open spec fn well_formed(&self) -> bool {
        self.wf()
    }

    fn capacity(&self) -> (r: u32) {
        StableMemory::capacity(self)
    }

    fn size(&self) -> (r: u64) {
        StableMemory::size(self)
    }

    fn grow(&mut self, pages: u32) -> (r: Result<(), MemoryError>) {
        StableMemory::grow(self, pages)
    }

    fn read(&self, offset: usize, dst: &mut [u8]) -> (r: Result<usize, MemoryError>) {
        let _n = dst.len();
        StableMemory::read(self, offset, dst)
    }

    fn write(&mut self, src: &[u8]) -> (r: Result<usize, MemoryError>) {
        let _n = src.len();
        StableMemory::write(self, src)
    }
}

} // verus!
