//! An I/O bus: routes reads and writes to the device that owns the address.
//!
//! The same [`Bus`] serves for port I/O and for memory-mapped I/O. A PCI bus can
//! stand on it beside the devices.

use crate::pci::PciBus;
use crate::text;
use vstd::prelude::*;

verus! {

/// What can be told of a device from outside: numbers and runs of bytes.
#[verifier::ext_equal]
pub struct DeviceState {
    pub regs: Seq<int>,
    pub runs: Seq<Seq<u8>>,
}

/// A device that answers reads and writes at offsets from its base address. One
/// that does not say otherwise shows no state, and may do anything.
pub trait BusDevice: Send {
    /// The state of the device.
    open spec fn state(&self) -> DeviceState {
        DeviceState { regs: Seq::empty(), runs: Seq::empty() }
    }

    /// Whether a read at `offset` into `data` may leave the device in state
    /// `after` and the data as `read`.
    open spec fn may_read(
        &self,
        offset: u64,
        data: Seq<u8>,
        after: DeviceState,
        read: Seq<u8>,
    ) -> bool {
        true
    }

    /// Whether a write of `data` at `offset` may leave the device in state
    /// `after`.
    open spec fn may_write(&self, offset: u64, data: Seq<u8>, after: DeviceState) -> bool {
        true
    }

    /// Reads at `offset` into `data`.
    fn read(&mut self, offset: u64, data: &mut [u8])
        ensures
            final(data)@.len() == old(data)@.len(),
            old(self).may_read(offset, old(data)@, final(self).state(), final(data)@),
    ;

    /// Writes `data` at `offset`.
    fn write(&mut self, offset: u64, data: &[u8])
        ensures
            old(self).may_write(offset, data@, final(self).state()),
    ;
}

/// Errors of bus operations.
#[derive(Debug, Clone, Copy, PartialEq, Eq, Structural)]
#[non_exhaustive]
pub enum BusError {
    /// The range overlaps that of another device.
    Overlap {
        /// Base address of the refused range.
        base: u64,
        /// Size of the refused range.
        size: u64,
    },
    /// The range is empty.
    ZeroSizedRange,
}

impl BusError {
    /// The text that describes the error.
    pub open spec fn spec_message(self) -> Seq<char> {
        match self {
            BusError::Overlap { base, size } => "device address range [0x"@ + text::hex(
                base as nat,
            ) + ", 0x"@ + text::hex(base as nat) + "+0x"@ + text::hex(size as nat)
                + ") overlaps existing device"@,
            BusError::ZeroSizedRange => "cannot register device with zero-sized range"@,
        }
    }

    /// The text that describes the error.
    pub fn message(&self) -> (r: String)
        ensures
            r@ == self.spec_message(),
    {
        match *self {
            BusError::Overlap { base, size } => {
                let mut s = "device address range [0x".to_owned();
                text::push_hex(&mut s, base);
                s.append(", 0x");
                text::push_hex(&mut s, base);
                s.append("+0x");
                text::push_hex(&mut s, size);
                s.append(") overlaps existing device");
                s
            },
            BusError::ZeroSizedRange => "cannot register device with zero-sized range".to_owned(),
        }
    }
}

/// A range of addresses.
#[derive(Debug, Clone, Copy, PartialEq, Eq, Structural)]
pub struct BusRange {
    pub base: u64,
    pub size: u64,
}

impl BusRange {
    /// Whether an address lies in the range.
    pub open spec fn holds(self, addr: u64) -> bool {
        self.base <= addr < self.base + self.size
    }

    /// Whether two ranges have an address in common.
    pub open spec fn overlaps(self, other: BusRange) -> bool {
        self.base < other.base + other.size && other.base < self.base + self.size
    }
}

/// Tells whether two ranges overlap.
pub fn ranges_overlap(a_base: u64, a_size: u64, b_base: u64, b_size: u64) -> (r: bool)
    ensures
        r == (BusRange { base: a_base, size: a_size }).overlaps(
            BusRange { base: b_base, size: b_size },
        ),
{
    (a_base as u128) < b_base as u128 + b_size as u128 && (b_base as u128) < a_base as u128
        + a_size as u128
}

/// Ranges as a bus keeps them: in order, and apart from each other.
pub open spec fn ranges_wf(ranges: Seq<BusRange>) -> bool {
    &&& forall|i: int| 0 <= i < ranges.len() ==> (#[trigger] ranges[i]).size > 0
    &&& forall|i: int, j: int|
        0 <= i < j < ranges.len() ==> (#[trigger] ranges[i]).base + ranges[i].size <= (
        #[trigger] ranges[j]).base
}

/// Whether the `i`-th range holds an address.
pub open spec fn owned_by(ranges: Seq<BusRange>, addr: u64, i: int) -> bool {
    0 <= i < ranges.len() && ranges[i].holds(addr)
}

/// Which range holds an address, and the offset in it.
pub open spec fn route(ranges: Seq<BusRange>, addr: u64) -> Option<(int, u64)> {
    if exists|i: int| owned_by(ranges, addr, i) {
        let i = choose|i: int| owned_by(ranges, addr, i);
        Some((i, (addr - ranges[i].base) as u64))
    } else {
        None
    }
}

/// Which range holds an address, if one does.
pub open spec fn owner(ranges: Seq<BusRange>, addr: u64) -> int {
    match route(ranges, addr) {
        Some((i, _)) => i,
        None => ranges.len() as int,
    }
}

/// A route is the only one.
pub proof fn lemma_route(ranges: Seq<BusRange>, addr: u64, i: int)
    requires
        ranges_wf(ranges),
        owned_by(ranges, addr, i),
    ensures
        route(ranges, addr) == Some((i, (addr - ranges[i].base) as u64)),
{
    let k = choose|k: int| owned_by(ranges, addr, k);
    assert(k == i);
}

/// What answers at a range of addresses.
pub enum BusTarget {
    /// A device.
    Device(Box<dyn BusDevice>),
    /// The configuration ports of a PCI bus.
    Pci(PciBus),
}

impl BusTarget {
    /// Whether a read at `offset` into `data` may lead to `after` and leave the
    /// data as `read`.
    pub open spec fn may_read(
        self,
        offset: u64,
        data: Seq<u8>,
        after: BusTarget,
        read: Seq<u8>,
    ) -> bool {
        match self {
            BusTarget::Device(d) => after matches BusTarget::Device(e) && d.may_read(
                offset,
                data,
                e.state(),
                read,
            ),
            BusTarget::Pci(b) => after == self && read == b@.bytes_at(offset, data.len()),
        }
    }

    /// Whether a write of `data` at `offset` may lead to `after`.
    pub open spec fn may_write(self, offset: u64, data: Seq<u8>, after: BusTarget) -> bool {
        match self {
            BusTarget::Device(d) => after matches BusTarget::Device(e) && d.may_write(
                offset,
                data,
                e.state(),
            ),
            BusTarget::Pci(b) => after matches BusTarget::Pci(c) && c@ == b@.after_write(
                offset,
                data,
            ),
        }
    }
}

/// A device in its place.
pub struct BusEntry {
    pub base: u64,
    pub size: u64,
    pub device: BusTarget,
}

impl BusEntry {
    /// The addresses of the device.
    pub open spec fn range(self) -> BusRange {
        BusRange { base: self.base, size: self.size }
    }

    fn read(&mut self, offset: u64, data: &mut [u8])
        ensures
            final(data)@.len() == old(data)@.len(),
            final(self).range() == old(self).range(),
            old(self).device.may_read(offset, old(data)@, final(self).device, final(data)@),
    {
        match &mut self.device {
            BusTarget::Device(d) => d.read(offset, data),
            BusTarget::Pci(b) => b.read(offset, data),
        }
    }

    fn write(&mut self, offset: u64, data: &[u8])
        ensures
            final(self).range() == old(self).range(),
            old(self).device.may_write(offset, data@, final(self).device),
    {
        match &mut self.device {
            BusTarget::Device(d) => d.write(offset, data),
            BusTarget::Pci(b) => b.write(offset, data),
        }
    }
}

/// How many of ranges in order lie before `base`.
pub open spec fn place(ranges: Seq<BusRange>, base: u64) -> nat
    decreases ranges.len(),
{
    if ranges.len() == 0 {
        0
    } else if ranges.last().base < base {
        ranges.len()
    } else {
        place(ranges.drop_last(), base)
    }
}

/// The ranges of devices in their places.
pub open spec fn ranges_of(entries: Seq<BusEntry>) -> Seq<BusRange> {
    Seq::new(entries.len(), |i: int| entries[i].range())
}

/// Ranges with one more in its place.
pub open spec fn with_range(ranges: Seq<BusRange>, new: BusRange) -> Seq<BusRange> {
    ranges.insert(place(ranges, new.base) as int, new)
}

/// Devices with one more in its place.
pub open spec fn with_entry(entries: Seq<BusEntry>, new: BusEntry) -> Seq<BusEntry> {
    entries.insert(place(ranges_of(entries), new.base) as int, new)
}

/// Whether `after` holds the devices of `before` and `new` in its place: those
/// with lower addresses before it, the others behind it.
pub open spec fn added(before: Seq<BusEntry>, after: Seq<BusEntry>, new: BusEntry) -> bool {
    let pos = place(ranges_of(before), new.base) as int;
    &&& pos <= before.len()
    &&& after.len() == before.len() + 1
    &&& after[pos] == new
    &&& forall|k: int| 0 <= k < pos ==> #[trigger] after[k] == before[k]
    &&& forall|k: int| pos < k < after.len() ==> #[trigger] after[k] == before[k - 1]
}

/// The place of a range is among the others.
pub proof fn lemma_place(ranges: Seq<BusRange>, base: u64)
    ensures
        place(ranges, base) <= ranges.len(),
        forall|k: int| place(ranges, base) <= k < ranges.len() ==> (#[trigger] ranges[k]).base
            >= base,
        ranges_wf(ranges) ==> forall|k: int|
            0 <= k < place(ranges, base) ==> (#[trigger] ranges[k]).base < base,
    decreases ranges.len(),
{
    if ranges.len() > 0 {
        let rest = ranges.drop_last();
        if ranges.last().base >= base {
            lemma_place(rest, base);
            assert forall|k: int| place(ranges, base) <= k < ranges.len() implies (
            #[trigger] ranges[k]).base >= base by {
                if k < rest.len() {
                    assert(ranges[k] == rest[k]);
                }
            }
            if ranges_wf(ranges) {
                assert forall|i: int, j: int| 0 <= i < j < rest.len() implies (
                #[trigger] rest[i]).base + rest[i].size <= (#[trigger] rest[j]).base by {
                    assert(rest[i] == ranges[i] && rest[j] == ranges[j]);
                }
                assert forall|k: int| 0 <= k < place(ranges, base) implies (
                #[trigger] ranges[k]).base < base by {
                    assert(ranges[k] == rest[k]);
                }
            }
        } else if ranges_wf(ranges) {
            let last = ranges.len() - 1;
            assert forall|k: int| 0 <= k < ranges.len() implies (#[trigger] ranges[k]).base
                < base by {
                if k < last {
                    assert(ranges[k].base + ranges[k].size <= ranges[last].base);
                }
            }
        }
    }
}

/// The ranges of devices with one more are the ranges with one more.
pub proof fn lemma_with_entry(entries: Seq<BusEntry>, new: BusEntry)
    ensures
        ranges_of(with_entry(entries, new)) == with_range(ranges_of(entries), new.range()),
        with_entry(entries, new).len() == entries.len() + 1,
        added(entries, with_entry(entries, new), new),
{
    let ranges = ranges_of(entries);
    let pos = place(ranges, new.base) as int;
    lemma_place(ranges, new.base);
    let all = with_entry(entries, new);
    assert forall|k: int| 0 <= k < all.len() implies #[trigger] ranges_of(all)[k] == with_range(
        ranges,
        new.range(),
    )[k] by {
        if k < pos {
            assert(all[k] == entries[k]);
        } else if k > pos {
            assert(all[k] == entries[k - 1]);
        }
    }
    assert(ranges_of(all) =~= with_range(ranges, new.range()));
}

/// A device changes without its range.
proof fn lemma_update_keeps_ranges(entries: Seq<BusEntry>, i: int)
    requires
        0 <= i < entries.len(),
    ensures
        forall|e: BusEntry|
            e.range() == entries[i].range() ==> ranges_of(#[trigger] entries.update(i, e))
                == ranges_of(entries),
{
    assert forall|e: BusEntry| e.range() == entries[i].range() implies ranges_of(
        #[trigger] entries.update(i, e),
    ) == ranges_of(entries) by {
        assert(ranges_of(entries.update(i, e)) =~= ranges_of(entries));
    }
}

/// A bus with devices at ranges of addresses.
pub struct Bus {
    entries: Vec<BusEntry>,
}

impl Bus {
    /// The devices in their places, in the order of their addresses.
    pub closed spec fn entries(self) -> Seq<BusEntry> {
        self.entries@
    }

    /// The ranges of the devices.
    pub open spec fn ranges(self) -> Seq<BusRange> {
        ranges_of(self.entries())
    }

    /// What every bus keeps: its ranges are in order and apart from each other.
    pub open spec fn wf(self) -> bool {
        ranges_wf(self.ranges())
    }

    /// A bus without devices.
    #[must_use]
    pub fn new() -> (r: Self)
        ensures
            r.wf(),
            r.entries().len() == 0,
    {
        Bus { entries: Vec::new() }
    }

    /// Puts a device at `[base, base + size)`. Refuses an empty range and one
    /// that overlaps that of another device.
    pub fn register(&mut self, base: u64, size: u64, device: Box<dyn BusDevice>) -> (r: Result<
        (),
        BusError,
    >)
        requires
            old(self).wf(),
        ensures
            final(self).wf(),
            r == registration(old(self).ranges(), BusRange { base, size }),
            r is Err ==> final(self).entries() == old(self).entries(),
            r is Ok ==> {
                &&& final(self).entries() == with_entry(
                    old(self).entries(),
                    BusEntry { base, size, device: BusTarget::Device(device) },
                )
                &&& added(
                    old(self).entries(),
                    final(self).entries(),
                    BusEntry { base, size, device: BusTarget::Device(device) },
                )
                &&& final(self).ranges() == with_range(old(self).ranges(), BusRange { base, size })
            },
    {
        self.add(BusEntry { base, size, device: BusTarget::Device(device) })
    }

    /// Puts a PCI bus at `[base, base + size)`. Refuses what
    /// [`Self::register`] refuses.
    pub fn register_pci(&mut self, base: u64, size: u64, pci: PciBus) -> (r: Result<(), BusError>)
        requires
            old(self).wf(),
        ensures
            final(self).wf(),
            r == registration(old(self).ranges(), BusRange { base, size }),
            r is Err ==> final(self).entries() == old(self).entries(),
            r is Ok ==> {
                &&& final(self).entries() == with_entry(
                    old(self).entries(),
                    BusEntry { base, size, device: BusTarget::Pci(pci) },
                )
                &&& added(
                    old(self).entries(),
                    final(self).entries(),
                    BusEntry { base, size, device: BusTarget::Pci(pci) },
                )
                &&& final(self).ranges() == with_range(old(self).ranges(), BusRange { base, size })
            },
    {
        self.add(BusEntry { base, size, device: BusTarget::Pci(pci) })
    }

    fn add(&mut self, entry: BusEntry) -> (r: Result<(), BusError>)
        requires
            old(self).wf(),
        ensures
            final(self).wf(),
            r == registration(old(self).ranges(), entry.range()),
            r is Err ==> final(self).entries() == old(self).entries(),
            r is Ok ==> {
                &&& final(self).entries() == with_entry(old(self).entries(), entry)
                &&& added(old(self).entries(), final(self).entries(), entry)
                &&& final(self).ranges() == with_range(old(self).ranges(), entry.range())
            },
    {
        let base: u64 = entry.base;
        let size: u64 = entry.size;
        if size == 0 {
            return Err(BusError::ZeroSizedRange);
        }
        let ghost ranges = self.ranges();
        let ghost new = entry.range();
        let n: usize = self.entries.len();
        let mut pos: usize = 0;
        let mut i: usize = 0;
        assert(ranges.take(0) =~= Seq::<BusRange>::empty());
        while i < n
            invariant
                self == old(self),
                i <= n,
                n == self.entries@.len(),
                ranges == self.ranges(),
                ranges_wf(ranges),
                new == (BusRange { base, size }),
                new == entry.range(),
                size > 0,
                pos <= i,
                pos == place(ranges.take(i as int), base),
                forall|k: int| 0 <= k < i ==> !(#[trigger] ranges[k]).overlaps(new),
            decreases n - i,
        {
            assert(ranges[i as int] == self.entries@[i as int].range());
            assert(ranges.take(i + 1).drop_last() =~= ranges.take(i as int));
            assert(ranges.take(i + 1).last() == ranges[i as int]);
            if ranges_overlap(self.entries[i].base, self.entries[i].size, base, size) {
                return Err(BusError::Overlap { base, size });
            }
            if self.entries[i].base < base {
                pos = i + 1;
            }
            i = i + 1;
        }
        assert(ranges.take(n as int) =~= ranges);
        let ghost before = self.entries@;
        self.entries.insert(pos, entry);
        proof {
            lemma_place(ranges, base);
            lemma_insert_wf(ranges, pos as int, new);
            lemma_with_entry(before, entry);
        }
        Ok(())
    }

    /// The PCI bus that answers at an address, if one does.
    pub open spec fn pci_at(self, addr: u64) -> Option<PciBus> {
        match route(self.ranges(), addr) {
            Some((i, _)) => match self.entries()[i].device {
                BusTarget::Pci(b) => Some(b),
                BusTarget::Device(_) => None,
            },
            None => None,
        }
    }

    /// The PCI bus that answers at an address, if one does.
    pub fn pci(&self, addr: u64) -> (r: Option<&PciBus>)
        requires
            self.wf(),
        ensures
            match r {
                Some(b) => self.pci_at(addr) == Some(*b),
                None => self.pci_at(addr) is None,
            },
    {
        match self.find(addr) {
            Some((i, _)) => match &self.entries[i].device {
                BusTarget::Pci(b) => Some(b),
                BusTarget::Device(_) => None,
            },
            None => None,
        }
    }

    /// The PCI bus that answers at an address, if one does, to be changed.
    pub fn pci_mut(&mut self, addr: u64) -> (r: Option<&mut PciBus>)
        requires
            old(self).wf(),
        ensures
            final(self).wf(),
            final(self).ranges() == old(self).ranges(),
            match r {
                Some(b) => {
                    let i = owner(old(self).ranges(), addr);
                    &&& old(self).pci_at(addr) == Some(*b)
                    &&& final(self).entries() == old(self).entries().update(
                        i,
                        BusEntry {
                            device: BusTarget::Pci(*final(b)),
                            ..old(self).entries()[i]
                        },
                    )
                },
                None => old(self).pci_at(addr) is None && final(self).entries() == old(
                    self,
                ).entries(),
            },
    {
        match self.find(addr) {
            Some((i, _)) => {
                proof {
                    lemma_update_keeps_ranges(self.entries@, i as int);
                }
                match &mut self.entries[i].device {
                    BusTarget::Pci(b) => Some(b),
                    BusTarget::Device(_) => None,
                }
            },
            None => None,
        }
    }

    /// Reads from the device that owns an address. `None` if there is none.
    #[must_use]
    pub fn read(&mut self, addr: u64, data: &mut [u8]) -> (r: Option<()>)
        requires
            old(self).wf(),
        ensures
            final(self).wf(),
            final(self).ranges() == old(self).ranges(),
            read_done(*old(self), *final(self), addr, old(data)@, final(data)@, r is Some),
    {
        match self.find(addr) {
            None => None,
            Some((i, offset)) => {
                let entry = &mut self.entries[i];
                entry.read(offset, data);
                assert(self.ranges() =~= old(self).ranges());
                Some(())
            },
        }
    }

    /// Writes to the device that owns an address. `None` if there is none.
    #[must_use]
    pub fn write(&mut self, addr: u64, data: &[u8]) -> (r: Option<()>)
        requires
            old(self).wf(),
        ensures
            final(self).wf(),
            final(self).ranges() == old(self).ranges(),
            write_done(*old(self), *final(self), addr, data@, r is Some),
    {
        match self.find(addr) {
            None => None,
            Some((i, offset)) => {
                let entry = &mut self.entries[i];
                entry.write(offset, data);
                assert(self.ranges() =~= old(self).ranges());
                Some(())
            },
        }
    }

    /// Finds the device that owns an address, and the offset in its range.
    fn find(&self, addr: u64) -> (r: Option<(usize, u64)>)
        requires
            self.wf(),
        ensures
            match r {
                None => route(self.ranges(), addr) is None,
                Some((i, offset)) => i < self.entries().len() && route(self.ranges(), addr) == Some(
                    (i as int, offset),
                ),
            },
    {
        let ghost ranges = self.ranges();
        let mut low: usize = 0;
        let mut high: usize = self.entries.len();
        while low < high
            invariant
                low <= high <= self.entries@.len(),
                ranges == self.ranges(),
                ranges_wf(ranges),
                forall|k: int| 0 <= k < low ==> (#[trigger] ranges[k]).base <= addr,
                forall|k: int| high <= k < ranges.len() ==> (#[trigger] ranges[k]).base > addr,
            decreases high - low,
        {
            let mid: usize = low + (high - low) / 2;
            assert(ranges[mid as int] == self.entries@[mid as int].range());
            if self.entries[mid].base <= addr {
                assert forall|k: int| 0 <= k < mid + 1 implies (#[trigger] ranges[k]).base
                    <= addr by {
                    if k < mid {
                        assert(ranges[k].base + ranges[k].size <= ranges[mid as int].base);
                    }
                }
                low = mid + 1;
            } else {
                assert forall|k: int| mid <= k < ranges.len() implies (#[trigger] ranges[k]).base
                    > addr by {
                    if k > mid {
                        assert(ranges[mid as int].base + ranges[mid as int].size <= ranges[k].base);
                    }
                }
                high = mid;
            }
        }
        if low == 0 {
            return None;
        }
        let i: usize = low - 1;
        assert(ranges[i as int] == self.entries@[i as int].range());
        let offset: u64 = addr - self.entries[i].base;
        if offset < self.entries[i].size {
            proof {
                assert(owned_by(ranges, addr, i as int));
                lemma_route(ranges, addr, i as int);
            }
            Some((i, offset))
        } else {
            proof {
                assert forall|k: int| !owned_by(ranges, addr, k) by {
                    if 0 <= k < i {
                        assert(ranges[k].base + ranges[k].size <= ranges[i as int].base);
                    }
                }
            }
            None
        }
    }
}

/// What a read on a bus does: the device that owns the address is read, at the
/// offset in its range, and no other changes. Without one nothing happens.
pub open spec fn read_done(
    before: Bus,
    after: Bus,
    addr: u64,
    data: Seq<u8>,
    read: Seq<u8>,
    found: bool,
) -> bool {
    match route(before.ranges(), addr) {
        None => !found && read == data && after.entries() == before.entries(),
        Some((i, offset)) => {
            &&& found
            &&& read.len() == data.len()
            &&& after.ranges() == before.ranges()
            &&& before.entries()[i].device.may_read(
                offset,
                data,
                after.entries()[i].device,
                read,
            )
            &&& forall|k: int|
                0 <= k < before.entries().len() && k != i ==> #[trigger] after.entries()[k]
                    == before.entries()[k]
        },
    }
}

/// What a write on a bus does: the device that owns the address is written, at
/// the offset in its range, and no other changes. Without one nothing happens.
pub open spec fn write_done(
    before: Bus,
    after: Bus,
    addr: u64,
    data: Seq<u8>,
    found: bool,
) -> bool {
    match route(before.ranges(), addr) {
        None => !found && after.entries() == before.entries(),
        Some((i, offset)) => {
            &&& found
            &&& after.ranges() == before.ranges()
            &&& before.entries()[i].device.may_write(offset, data, after.entries()[i].device)
            &&& forall|k: int|
                0 <= k < before.entries().len() && k != i ==> #[trigger] after.entries()[k]
                    == before.entries()[k]
        },
    }
}

impl Default for Bus {
    fn default() -> (r: Self)
        ensures
            r.wf(),
            r.entries().len() == 0,
    {
        Bus::new()
    }
}

/// The outcome of registering a range beside others.
pub open spec fn registration(ranges: Seq<BusRange>, new: BusRange) -> Result<(), BusError> {
    if new.size == 0 {
        Err(BusError::ZeroSizedRange)
    } else if exists|i: int| 0 <= i < ranges.len() && (#[trigger] ranges[i]).overlaps(new) {
        Err(BusError::Overlap { base: new.base, size: new.size })
    } else {
        Ok(())
    }
}

/// A range in its place among ranges that it does not overlap.
proof fn lemma_insert_wf(ranges: Seq<BusRange>, pos: int, new: BusRange)
    requires
        ranges_wf(ranges),
        0 <= pos <= ranges.len(),
        new.size > 0,
        forall|k: int| 0 <= k < ranges.len() ==> !(#[trigger] ranges[k]).overlaps(new),
        forall|k: int| 0 <= k < pos ==> (#[trigger] ranges[k]).base < new.base,
        forall|k: int| pos <= k < ranges.len() ==> (#[trigger] ranges[k]).base >= new.base,
    ensures
        ranges_wf(ranges.insert(pos, new)),
{
    let all = ranges.insert(pos, new);
    assert forall|i: int, j: int| 0 <= i < j < all.len() implies (#[trigger] all[i]).base
        + all[i].size <= (#[trigger] all[j]).base by {
        if i == pos {
            assert(all[j] == ranges[j - 1]);
        } else if j == pos {
            assert(all[i] == ranges[i]);
        } else {
            let a = if i < pos {
                i
            } else {
                i - 1
            };
            let b = if j < pos {
                j
            } else {
                j - 1
            };
            assert(all[i] == ranges[a] && all[j] == ranges[b]);
        }
    }
}

/// Ranges stay in order and apart from each other when one is registered, and
/// there is one more.
pub proof fn law_ranges_stay_apart(ranges: Seq<BusRange>, new: BusRange)
    requires
        ranges_wf(ranges),
        registration(ranges, new) is Ok,
    ensures
        ranges_wf(with_range(ranges, new)),
        with_range(ranges, new).len() == ranges.len() + 1,
        with_range(ranges, new).contains(new),
{
    let pos = place(ranges, new.base) as int;
    lemma_place(ranges, new.base);
    lemma_insert_wf(ranges, pos, new);
    assert(with_range(ranges, new)[pos] == new);
}

/// With a device added to a bus, the addresses of its range lead to it, at their
/// offset, and all others where they led before.
pub proof fn law_registration_routes(ranges: Seq<BusRange>, pos: int, new: BusRange, addr: u64)
    requires
        ranges_wf(ranges),
        0 <= pos <= ranges.len(),
        ranges_wf(ranges.insert(pos, new)),
    ensures
        route(ranges.insert(pos, new), addr) == if new.holds(addr) {
            Some((pos, (addr - new.base) as u64))
        } else {
            match route(ranges, addr) {
                None => None,
                Some((i, offset)) => Some((if i < pos {
                    i
                } else {
                    i + 1
                }, offset)),
            }
        },
{
    let all = ranges.insert(pos, new);
    if new.holds(addr) {
        assert(owned_by(all, addr, pos));
        lemma_route(all, addr, pos);
    } else if exists|i: int| owned_by(ranges, addr, i) {
        let i = choose|i: int| owned_by(ranges, addr, i);
        lemma_route(ranges, addr, i);
        let k = if i < pos {
            i
        } else {
            i + 1
        };
        assert(all[k] == ranges[i]);
        assert(owned_by(all, addr, k));
        lemma_route(all, addr, k);
    } else {
        assert forall|k: int| !owned_by(all, addr, k) by {
            if 0 <= k < pos {
                assert(all[k] == ranges[k]);
                assert(!owned_by(ranges, addr, k));
            } else if pos < k < all.len() {
                assert(all[k] == ranges[k - 1]);
                assert(!owned_by(ranges, addr, k - 1));
            }
        }
    }
}

/// A device cannot be registered where another is: registering the same range
/// a second time is refused.
pub proof fn law_no_second_registration(ranges: Seq<BusRange>, pos: int, new: BusRange)
    requires
        new.size > 0,
        0 <= pos <= ranges.len(),
    ensures
        registration(ranges.insert(pos, new), new) == Err::<(), BusError>(
            BusError::Overlap { base: new.base, size: new.size },
        ),
{
    assert(ranges.insert(pos, new)[pos].overlaps(new));
}

} // verus!
