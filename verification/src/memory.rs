//! Guest physical memory: one contiguous run of bytes at a base address.

use crate::text;
use vstd::prelude::*;

verus! {

/// Errors of guest memory accesses.
#[derive(Debug, Clone, Copy, PartialEq, Eq, Structural)]
#[non_exhaustive]
pub enum MemoryError {
    /// The accessed range does not lie inside guest memory.
    OutOfBounds {
        /// First guest physical address of the access.
        addr: u64,
        /// Length of the access in bytes.
        size: usize,
    },
}

impl MemoryError {
    /// The text that describes the error.
    pub open spec fn spec_message(self) -> Seq<char> {
        match self {
            MemoryError::OutOfBounds { addr, size } => "guest memory access out of bounds: addr=0x"@
                + text::hex_padded(addr as nat, 16) + ", size="@ + text::decimal(size as nat),
        }
    }

    /// The text that describes the error.
    pub fn message(&self) -> (r: String)
        ensures
            r@ == self.spec_message(),
    {
        match *self {
            MemoryError::OutOfBounds { addr, size } => {
                let mut s = "guest memory access out of bounds: addr=0x".to_owned();
                text::push_hex_padded(&mut s, addr, 16);
                s.append(", size=");
                text::push_decimal(&mut s, size as u64);
                s
            },
        }
    }
}

/// What guest memory is: its base address and its bytes.
#[verifier::ext_equal]
pub struct MemView {
    pub base: int,
    pub data: Seq<u8>,
}

impl MemView {
    /// The address right behind the last byte.
    pub open spec fn end(self) -> int {
        self.base + self.data.len()
    }

    /// Whether the `len` bytes at `addr` lie inside the memory.
    pub open spec fn in_bounds(self, addr: int, len: int) -> bool {
        self.base <= addr && 0 <= len && addr + len <= self.end()
    }

    /// The `len` bytes at `addr`.
    pub open spec fn slice(self, addr: int, len: int) -> Seq<u8> {
        self.data.subrange(addr - self.base, addr - self.base + len)
    }

    /// The memory with `bytes` stored at `addr` and every other byte as it was.
    pub open spec fn store(self, addr: int, bytes: Seq<u8>) -> MemView {
        MemView {
            base: self.base,
            data: Seq::new(
                self.data.len(),
                |i: int|
                    if addr - self.base <= i < addr - self.base + bytes.len() {
                        bytes[i - (addr - self.base)]
                    } else {
                        self.data[i]
                    },
            ),
        }
    }

    /// What a read of `len` bytes at `addr` returns.
    pub open spec fn read(self, addr: u64, len: usize) -> Result<Seq<u8>, MemoryError> {
        if self.in_bounds(addr as int, len as int) {
            Ok(self.slice(addr as int, len as int))
        } else {
            Err(MemoryError::OutOfBounds { addr, size: len })
        }
    }

    /// What a write of `bytes` at `addr` leaves: the memory and the result.
    pub open spec fn write(self, addr: u64, bytes: Seq<u8>) -> (MemView, Result<(), MemoryError>) {
        if self.in_bounds(addr as int, bytes.len() as int) {
            (self.store(addr as int, bytes), Ok(()))
        } else {
            (self, Err(MemoryError::OutOfBounds { addr, size: bytes.len() as usize }))
        }
    }

    /// What a list of writes leaves, done in order up to the first that fails.
    pub open spec fn writes(self, list: Seq<PatchView>) -> (MemView, Result<(), MemoryError>)
        decreases list.len(),
    {
        if list.len() == 0 {
            (self, Ok(()))
        } else {
            let (m1, r) = self.write(list[0].addr, list[0].bytes);
            match r {
                Err(e) => (m1, Err(e)),
                Ok(_) => m1.writes(list.skip(1)),
            }
        }
    }

    /// The address behind the last byte, or the last address there is.
    pub open spec fn end_addr(self) -> u64 {
        if self.end() > u64::MAX {
            u64::MAX
        } else {
            self.end() as u64
        }
    }
}

/// Bytes for a place in guest memory, as a model.
#[verifier::ext_equal]
pub struct PatchView {
    pub addr: u64,
    pub bytes: Seq<u8>,
}

/// Bytes for a place in guest memory.
#[derive(Debug)]
pub struct Patch {
    pub addr: u64,
    pub bytes: Vec<u8>,
}

impl View for Patch {
    type V = PatchView;

    open spec fn view(&self) -> PatchView {
        PatchView { addr: self.addr, bytes: self.bytes@ }
    }
}

/// The models of patches.
pub open spec fn patch_views(v: Seq<Patch>) -> Seq<PatchView> {
    Seq::new(v.len(), |i: int| v[i]@)
}

/// Appends a patch to a list.
pub fn push_patch(list: &mut Vec<Patch>, addr: u64, bytes: Vec<u8>)
    ensures
        patch_views(final(list)@) == patch_views(old(list)@).push(PatchView { addr, bytes: bytes@ }),
{
    list.push(Patch { addr, bytes });
    assert(patch_views(list@) =~= patch_views(old(list)@).push(PatchView { addr, bytes: bytes@ }));
}

/// Guest physical memory.
#[derive(Debug)]
pub struct GuestMemory {
    base: u64,
    bytes: Vec<u8>,
}

impl View for GuestMemory {
    type V = MemView;

    closed spec fn view(&self) -> MemView {
        MemView { base: self.base as int, data: self.bytes@ }
    }
}

impl GuestMemory {
    /// Creates `size` zero bytes of guest memory at `base`.
    ///
    /// Fails if the memory would reach past the end of the address space.
    pub fn new(size: usize, base: u64) -> (r: Result<Self, MemoryError>)
        ensures
            match r {
                Ok(m) => base + size <= u64::MAX && m@ == (MemView {
                    base: base as int,
                    data: Seq::new(size as nat, |i: int| 0u8),
                }),
                Err(e) => base + size > u64::MAX && e == (MemoryError::OutOfBounds {
                    addr: base,
                    size,
                }),
            },
    {
        if size as u64 > u64::MAX - base {
            return Err(MemoryError::OutOfBounds { addr: base, size });
        }
        Ok(GuestMemory { base, bytes: crate::bytes::zero_vec(size) })
    }

    /// The guest physical address of the first byte.
    pub fn guest_base(&self) -> (r: u64)
        ensures
            r == self@.base,
    {
        self.base
    }

    /// The number of bytes.
    pub fn size(&self) -> (r: usize)
        ensures
            r == self@.data.len(),
    {
        self.bytes.len()
    }

    /// The offset into the backing mapping of the byte at `addr`, if there is one.
    pub fn guest_to_host(&self, addr: u64) -> (r: Option<usize>)
        ensures
            r == (if self@.base <= addr < self@.end() {
                Some((addr - self@.base) as usize)
            } else {
                None
            }),
            r matches Some(offset) ==> offset == addr - self@.base,
    {
        if addr < self.base || addr - self.base >= self.bytes.len() as u64 {
            return None;
        }
        Some((addr - self.base) as usize)
    }

    /// Reads `len` bytes at `addr`.
    pub fn read_bytes(&self, addr: u64, len: usize) -> (r: Result<Vec<u8>, MemoryError>)
        ensures
            match r {
                Ok(v) => self@.read(addr, len) == Ok::<Seq<u8>, MemoryError>(v@),
                Err(e) => self@.read(addr, len) == Err::<Seq<u8>, MemoryError>(e),
            },
    {
        if !self.covers(addr, len) {
            return Err(MemoryError::OutOfBounds { addr, size: len });
        }
        assert(self.bytes@.len() == self.bytes.len());
        let start: usize = (addr - self.base) as usize;
        let part = vstd::slice::slice_subrange(self.bytes.as_slice(), start, start + len);
        let v = vstd::slice::slice_to_vec(part);
        assert(v@ =~= self@.slice(addr as int, len as int));
        Ok(v)
    }

    /// Writes `bytes` at `addr`.
    pub fn write_bytes(&mut self, addr: u64, bytes: &[u8]) -> (r: Result<(), MemoryError>)
        ensures
            (final(self)@, r) == old(self)@.write(addr, bytes@),
    {
        if !self.covers(addr, bytes.len()) {
            return Err(MemoryError::OutOfBounds { addr, size: bytes.len() });
        }
        assert(self.bytes@.len() == self.bytes.len());
        let start: usize = (addr - self.base) as usize;
        let mut i: usize = 0;
        while i < bytes.len()
            invariant
                i <= bytes@.len(),
                self.base == old(self).base,
                start == addr - old(self).base,
                old(self)@.in_bounds(addr as int, bytes@.len() as int),
                self@.data.len() == old(self)@.data.len(),
                forall|k: int| 0 <= k < self@.data.len() ==> #[trigger] self@.data[k] == (if start <= k
                    < start + i {
                    bytes@[k - start]
                } else {
                    old(self)@.data[k]
                }),
            decreases bytes@.len() - i,
        {
            assert(self.bytes@.len() == self.bytes.len());
            self.bytes.set(start + i, bytes[i]);
            i = i + 1;
        }
        assert(self@ =~= old(self)@.store(addr as int, bytes@));
        Ok(())
    }

    /// Does a list of writes in order, up to the first that fails.
    pub fn write_patches(&mut self, list: &Vec<Patch>) -> (r: Result<(), MemoryError>)
        ensures
            (final(self)@, r) == old(self)@.writes(patch_views(list@)),
    {
        let ghost all = patch_views(list@);
        assert(all.skip(0) =~= all);
        let mut i: usize = 0;
        while i < list.len()
            invariant
                i <= list@.len(),
                all == patch_views(list@),
                self@.writes(all.skip(i as int)) == old(self)@.writes(all),
            decreases list@.len() - i,
        {
            assert(all.skip(i as int).skip(1) =~= all.skip(i + 1));
            assert(all.skip(i as int)[0] == list@[i as int]@);
            match self.write_bytes(list[i].addr, list[i].bytes.as_slice()) {
                Ok(_) => {},
                Err(e) => return Err(e),
            }
            i = i + 1;
        }
        assert(all.skip(i as int) =~= Seq::<PatchView>::empty());
        Ok(())
    }

    /// The address behind the last byte, or the last address there is.
    pub fn end_addr(&self) -> (r: u64)
        ensures
            r == self@.end_addr(),
    {
        self.base.saturating_add(self.bytes.len() as u64)
    }

    fn covers(&self, addr: u64, len: usize) -> (r: bool)
        ensures
            r == self@.in_bounds(addr as int, len as int),
    {
        addr >= self.base && addr - self.base <= self.bytes.len() as u64 && len as u64
            <= self.bytes.len() as u64 - (addr - self.base)
    }
}

/// A read of what was just written gives the written bytes.
pub proof fn law_read_after_write(m: MemView, addr: u64, bytes: Seq<u8>)
    requires
        m.in_bounds(addr as int, bytes.len() as int),
        bytes.len() <= usize::MAX,
    ensures
        m.write(addr, bytes).0.read(addr, bytes.len() as usize) == Ok::<Seq<u8>, MemoryError>(bytes),
{
    let n = m.write(addr, bytes).0;
    assert(n.slice(addr as int, bytes.len() as int) =~= bytes);
}

/// A write leaves every range that it does not touch as it was.
pub proof fn law_write_frame(m: MemView, addr: u64, bytes: Seq<u8>, other: u64, len: usize)
    requires
        other + len <= addr || addr + bytes.len() <= other,
    ensures
        m.write(addr, bytes).0.read(other, len) == m.read(other, len),
{
    let n = m.write(addr, bytes).0;
    if m.in_bounds(other as int, len as int) {
        assert(n.slice(other as int, len as int) =~= m.slice(other as int, len as int));
    }
}

/// No write changes where guest memory lies or how large it is.
pub proof fn law_write_keeps_layout(m: MemView, addr: u64, bytes: Seq<u8>)
    ensures
        m.write(addr, bytes).0.base == m.base,
        m.write(addr, bytes).0.data.len() == m.data.len(),
{
}

/// Whether two patches do not touch.
pub open spec fn disjoint(a: PatchView, b: PatchView) -> bool {
    a.addr + a.bytes.len() <= b.addr || b.addr + b.bytes.len() <= a.addr
}

/// What a list of writes puts into guest memory stays there, unless a later
/// write of the list touches it.
pub proof fn law_writes_stay(m: MemView, list: Seq<PatchView>, i: int)
    requires
        0 <= i < list.len(),
        list[i].bytes.len() <= usize::MAX,
        m.writes(list).1 is Ok,
        forall|j: int| i < j < list.len() ==> disjoint(list[i], #[trigger] list[j]),
    ensures
        m.writes(list).0.read(list[i].addr, list[i].bytes.len() as usize) == Ok::<
            Seq<u8>,
            MemoryError,
        >(list[i].bytes),
    decreases list.len(),
{
    let (m1, r) = m.write(list[0].addr, list[0].bytes);
    let rest = list.skip(1);
    if i == 0 {
        law_read_after_write(m, list[0].addr, list[0].bytes);
        assert forall|j: int| 0 <= j < rest.len() implies disjoint(list[0], #[trigger] rest[j]) by {
            assert(rest[j] == list[j + 1]);
        }
        law_writes_frame(m1, rest, list[0]);
    } else {
        assert(rest[i - 1] == list[i]);
        assert forall|j: int| i - 1 < j < rest.len() implies disjoint(
            rest[i - 1],
            #[trigger] rest[j],
        ) by {
            assert(rest[j] == list[j + 1]);
        }
        law_writes_stay(m1, rest, i - 1);
    }
}

/// What no write of a list touches is as before.
pub proof fn law_writes_frame(m: MemView, list: Seq<PatchView>, p: PatchView)
    requires
        p.bytes.len() <= usize::MAX,
        forall|j: int| 0 <= j < list.len() ==> disjoint(p, #[trigger] list[j]),
    ensures
        m.writes(list).0.read(p.addr, p.bytes.len() as usize) == m.read(
            p.addr,
            p.bytes.len() as usize,
        ),
    decreases list.len(),
{
    if list.len() > 0 {
        let (m1, r) = m.write(list[0].addr, list[0].bytes);
        law_write_frame(m, list[0].addr, list[0].bytes, p.addr, p.bytes.len() as usize);
        if r is Ok {
            let rest = list.skip(1);
            assert forall|j: int| 0 <= j < rest.len() implies disjoint(p, #[trigger] rest[j]) by {
                assert(rest[j] == list[j + 1]);
            }
            law_writes_frame(m1, rest, p);
        }
    }
}

/// A list of writes succeeds if every one of them lies inside guest memory.
pub proof fn law_writes_succeed(m: MemView, list: Seq<PatchView>)
    requires
        forall|j: int|
            0 <= j < list.len() ==> m.in_bounds(
                (#[trigger] list[j]).addr as int,
                list[j].bytes.len() as int,
            ),
    ensures
        m.writes(list).1 is Ok,
    decreases list.len(),
{
    if list.len() > 0 {
        let (m1, r) = m.write(list[0].addr, list[0].bytes);
        let rest = list.skip(1);
        assert forall|j: int| 0 <= j < rest.len() implies m1.in_bounds(
            (#[trigger] rest[j]).addr as int,
            rest[j].bytes.len() as int,
        ) by {
            assert(rest[j] == list[j + 1]);
        }
        law_writes_succeed(m1, rest);
    }
}

/// Two lists of writes, one after the other, are one list.
pub proof fn law_writes_in_parts(m: MemView, a: Seq<PatchView>, b: Seq<PatchView>)
    ensures
        m.writes(a + b) == match m.writes(a) {
            (m1, Err(e)) => (m1, Err(e)),
            (m1, Ok(_)) => m1.writes(b),
        },
    decreases a.len(),
{
    if a.len() == 0 {
        assert(a + b =~= b);
    } else {
        let (m1, r) = m.write(a[0].addr, a[0].bytes);
        assert((a + b)[0] == a[0]);
        assert((a + b).skip(1) =~= a.skip(1) + b);
        law_writes_in_parts(m1, a.skip(1), b);
    }
}

/// A list of writes leaves the base and the size of guest memory as they are.
pub proof fn law_writes_keep_layout(m: MemView, list: Seq<PatchView>)
    ensures
        m.writes(list).0.base == m.base,
        m.writes(list).0.data.len() == m.data.len(),
    decreases list.len(),
{
    if list.len() > 0 {
        let (m1, r) = m.write(list[0].addr, list[0].bytes);
        if r is Ok {
            law_writes_keep_layout(m1, list.skip(1));
        }
    }
}

} // verus!
