//! The virtio memory balloon.
//!
//! The host says how many pages of 4 KiB it wants in the balloon. The guest puts
//! pages in through the inflate queue and takes them out through the deflate
//! queue, each time as lists of page numbers. What the guest puts in is handed
//! to the caller, who may give the memory back to the host.
//!
//! The configuration space holds the wanted and the actual number of pages.

use crate::bytes::{self, get_le16, get_le32, get_le64, le16_vec, push_le32};
use crate::memory::{GuestMemory, MemView, MemoryError};
use crate::transport::{self, read_config_space, DeviceType, VirtQueue, VirtioError};
use vstd::prelude::*;

verus! {

/// Virtio feature: the device takes statistics.
pub const VIRTIO_BALLOON_F_STATS_VQ: u64 = 2;

/// Virtio feature: modern virtio.
pub const VIRTIO_F_VERSION_1: u64 = 0x1_0000_0000;

/// Page size in bytes.
pub const BALLOON_PAGE_SIZE: u64 = 4096;

/// Largest size of each queue.
pub const QUEUE_MAX_SIZE: u16 = 128;

/// Index of the queue through which the guest puts pages in.
pub const INFLATE_QUEUE: usize = 0;

/// Index of the queue through which the guest takes pages out.
pub const DEFLATE_QUEUE: usize = 1;

/// A number of lists that no notification gets to the end of: all that are queued
/// are taken, those among them that are queued meanwhile.
pub const MAX_LISTS: u64 = 0xffff_ffff_ffff_ffff;

/// Errors of the balloon.
#[derive(Debug, Clone, Copy, PartialEq, Eq, Structural)]
#[non_exhaustive]
pub enum BalloonError {
    /// Guest memory access error.
    Memory(MemoryError),
}

impl BalloonError {
    /// The text that describes the error.
    pub open spec fn spec_message(self) -> Seq<char> {
        match self {
            BalloonError::Memory(e) => "balloon memory access error: "@ + e.spec_message(),
        }
    }

    /// The text that describes the error.
    pub fn message(&self) -> (r: String)
        ensures
            r@ == self.spec_message(),
    {
        match self {
            BalloonError::Memory(e) => {
                let mut s = "balloon memory access error: ".to_owned();
                let m = e.message();
                s.append(m.as_str());
                s
            },
        }
    }
}

/// A list of page numbers in guest memory.
#[derive(Debug, Clone, Copy, PartialEq, Eq, Structural)]
pub struct PageList {
    /// The list's descriptor.
    pub idx: u16,
    /// Where the list is.
    pub addr: u64,
    /// How many page numbers it holds.
    pub count: u32,
}

/// The list in descriptor `idx`: four bytes for each page number.
pub open spec fn list_at(m: MemView, q: VirtQueue, idx: u16) -> Result<PageList, MemoryError> {
    match m.read(transport::addr_plus(q.desc_table_addr, idx * 16), 12) {
        Err(e) => Err(e),
        Ok(b) => Ok(
            PageList { idx, addr: bytes::le64(b, 0), count: (bytes::le32(b, 8) / 4) as u32 },
        ),
    }
}

/// The next list that the driver queued, if there is one and it can be read.
pub open spec fn next_list(m: MemView, q: VirtQueue) -> Option<PageList> {
    match q.avail_idx(m) {
        Err(_) => None,
        Ok(avail) => if q.last_avail_idx == avail {
            None
        } else {
            match q.avail_head(m) {
                Err(_) => None,
                Ok(head) => match list_at(m, q, head) {
                    Err(_) => None,
                    Ok(l) => Some(l),
                },
            }
        },
    }
}

/// The queue after its next list was taken.
pub open spec fn taken(q: VirtQueue) -> VirtQueue {
    VirtQueue { last_avail_idx: transport::ring_next(q.last_avail_idx), ..q }
}

/// Gives descriptor `idx` back, behind what the used ring says it holds.
pub open spec fn given_back(m: MemView, q: VirtQueue, idx: u16) -> (
    MemView,
    VirtQueue,
    Result<(), MemoryError>,
) {
    let idx_addr = transport::addr_plus(q.used_ring_addr, 2);
    match m.read(idx_addr, 2) {
        Err(e) => (m, q, Err(e)),
        Ok(b) => {
            let used = bytes::le16(b, 0);
            let (m1, w1) = m.write(
                transport::addr_plus(q.used_ring_addr, 4 + (used % q.size) * 8),
                bytes::le32_bytes(idx as u32) + bytes::le32_bytes(0),
            );
            match w1 {
                Err(e) => (m1, q, Err(e)),
                Ok(_) => {
                    let next = transport::ring_next(used);
                    let (m2, w2) = m1.write(idx_addr, bytes::le16_bytes(next));
                    match w2 {
                        Err(e) => (m2, q, Err(e)),
                        Ok(_) => (m2, VirtQueue { last_used_idx: next, ..q }, Ok(())),
                    }
                },
            }
        },
    }
}

/// Reads the page numbers from `i` on. Gives the offsets of those pages that
/// guest memory holds, behind `released`, and what went wrong if a number cannot
/// be read.
pub open spec fn pages_of(m: MemView, l: PageList, i: nat, released: Seq<u64>) -> (
    Seq<u64>,
    Option<MemoryError>,
)
    decreases l.count - i,
{
    if i >= l.count {
        (released, None)
    } else {
        match m.read(transport::addr_plus(l.addr, (i * 4) as int), 4) {
            Err(e) => (released, Some(e)),
            Ok(b) => pages_of(m, l, i + 1, with_page(m, bytes::le32(b, 0), released)),
        }
    }
}

/// The offsets with that of page `pfn`, if guest memory holds it.
pub open spec fn with_page(m: MemView, pfn: u32, released: Seq<u64>) -> Seq<u64> {
    let addr = pfn * BALLOON_PAGE_SIZE;
    if m.base <= addr < m.end() {
        released.push((addr - m.base) as u64)
    } else {
        released
    }
}

/// What working on a queue leaves behind.
#[verifier::ext_equal]
pub struct BalloonRun {
    pub mem: MemView,
    pub queue: VirtQueue,
    /// How many pages the lists named.
    pub pages: nat,
    /// The offsets of the pages that may be given back to the host.
    pub released: Seq<u64>,
    /// Whether anything was handled, or what stopped the work.
    pub result: Result<bool, MemoryError>,
}

/// Takes up to `n` lists from a queue. Their pages are looked at only when the
/// balloon is inflated.
pub open spec fn lists_taken(
    m: MemView,
    q: VirtQueue,
    inflate: bool,
    n: nat,
    pages: nat,
    released: Seq<u64>,
    processed: bool,
) -> BalloonRun
    decreases n,
{
    let stop = BalloonRun { mem: m, queue: q, pages, released, result: Ok(processed) };
    if n == 0 {
        stop
    } else {
        match next_list(m, q) {
            None => stop,
            Some(l) => {
                let q1 = taken(q);
                let (r1, failed) = if inflate {
                    pages_of(m, l, 0, released)
                } else {
                    (released, None)
                };
                match failed {
                    Some(e) => BalloonRun { queue: q1, released: r1, result: Err(e), ..stop },
                    None => {
                        let (m2, q2, w) = given_back(m, q1, l.idx);
                        match w {
                            Err(e) => BalloonRun {
                                mem: m2,
                                queue: q2,
                                released: r1,
                                result: Err(e),
                                ..stop
                            },
                            Ok(_) => lists_taken(
                                m2,
                                q2,
                                inflate,
                                (n - 1) as nat,
                                pages + l.count as nat,
                                r1,
                                true,
                            ),
                        }
                    },
                }
            },
        }
    }
}

/// Handles all that waits in a queue.
pub open spec fn queue_worked(m: MemView, q: VirtQueue, inflate: bool) -> BalloonRun {
    if !q.usable() {
        BalloonRun { mem: m, queue: q, pages: 0, released: Seq::empty(), result: Ok(false) }
    } else {
        lists_taken(m, q, inflate, MAX_LISTS as nat, 0, Seq::empty(), false)
    }
}

/// The lists that [`lists_taken`] counts.
pub open spec fn lists_counted(m: MemView, q: VirtQueue, inflate: bool, n: nat) -> Seq<PageList>
    decreases n,
{
    if n == 0 || next_list(m, q) is None {
        Seq::empty()
    } else {
        let l = next_list(m, q)->0;
        let failed = inflate && pages_of(m, l, 0, Seq::empty()).1 is Some;
        let (m2, q2, w) = given_back(m, taken(q), l.idx);
        if failed || w is Err {
            Seq::empty()
        } else {
            seq![l] + lists_counted(m2, q2, inflate, (n - 1) as nat)
        }
    }
}

/// How many pages lists name.
pub open spec fn page_sum(lists: Seq<PageList>) -> nat
    decreases lists.len(),
{
    if lists.len() == 0 {
        0
    } else {
        lists[0].count as nat + page_sum(lists.skip(1))
    }
}

/// What can happen to a balloon.
pub enum BalloonEvent {
    /// The guest notified a queue.
    Notified { mem: MemView, inflate: bool },
    /// The guest wrote to the configuration space.
    Configured { offset: u64, data: Seq<u8> },
    /// The driver was forgotten.
    Reset,
    /// The host set the target.
    TargetSet(u32),
    /// The driver accepted features.
    FeaturesSet(u64),
    /// The driver set the queues up.
    QueuesSet(Seq<VirtQueue>),
    /// The driver got ready.
    Activated,
}

/// What a balloon is.
#[verifier::ext_equal]
pub struct BalloonView {
    pub acked_features: u64,
    pub queues: Seq<VirtQueue>,
    pub activated: bool,
    pub target_pages: u32,
    pub actual_pages: u32,
    pub total_inflated: u64,
    pub total_deflated: u64,
}

/// `a + n`, or the largest number that fits.
pub open spec fn count_up(a: u64, n: nat) -> u64 {
    if a + n > u64::MAX {
        u64::MAX
    } else {
        (a + n) as u64
    }
}

impl BalloonView {
    /// The balloon after `n` pages were put in.
    pub open spec fn inflated_by(self, n: nat) -> BalloonView {
        BalloonView {
            actual_pages: transport::sat_add(self.actual_pages, n as int),
            total_inflated: count_up(self.total_inflated, n),
            ..self
        }
    }

    /// The balloon after `n` pages were taken out.
    pub open spec fn deflated_by(self, n: nat) -> BalloonView {
        BalloonView {
            actual_pages: if n >= self.actual_pages {
                0
            } else {
                (self.actual_pages - n) as u32
            },
            total_deflated: count_up(self.total_deflated, n),
            ..self
        }
    }

    /// The balloon with queue `i` as the work on it left it.
    pub open spec fn with_queue(self, i: int, q: VirtQueue) -> BalloonView {
        BalloonView { queues: self.queues.update(i, q), ..self }
    }

    /// The balloon after work on a queue. Pages count only if all went well.
    pub open spec fn worked(self, inflate: bool, run: BalloonRun) -> BalloonView {
        let q = self.with_queue(
            if inflate {
                INFLATE_QUEUE as int
            } else {
                DEFLATE_QUEUE as int
            },
            run.queue,
        );
        match run.result {
            Err(_) => q,
            Ok(_) => if inflate {
                q.inflated_by(run.pages)
            } else {
                q.deflated_by(run.pages)
            },
        }
    }

    /// The balloon after a write to the configuration space: the guest may set
    /// the actual number of pages, and nothing else.
    pub open spec fn configured(self, offset: u64, data: Seq<u8>) -> BalloonView {
        if offset == 4 && data.len() >= 4 {
            BalloonView { actual_pages: bytes::le32(data, 0), ..self }
        } else {
            self
        }
    }

    /// The balloon after a reset.
    pub open spec fn forgotten(self) -> BalloonView {
        BalloonView {
            activated: false,
            acked_features: 0,
            queues: Seq::new(2, |i: int| VirtQueue::spec_new(self.queues[i].max_size)),
            ..self
        }
    }

    /// The balloon after an event.
    pub open spec fn after(self, event: BalloonEvent) -> BalloonView {
        match event {
            BalloonEvent::Notified { mem, inflate } => {
                let i = if inflate {
                    INFLATE_QUEUE as int
                } else {
                    DEFLATE_QUEUE as int
                };
                self.worked(inflate, queue_worked(mem, self.queues[i], inflate))
            },
            BalloonEvent::Configured { offset, data } => self.configured(offset, data),
            BalloonEvent::Reset => self.forgotten(),
            BalloonEvent::TargetSet(pages) => BalloonView { target_pages: pages, ..self },
            BalloonEvent::FeaturesSet(features) => BalloonView {
                acked_features: features & VIRTIO_F_VERSION_1,
                ..self
            },
            BalloonEvent::QueuesSet(queues) => BalloonView { queues, ..self },
            BalloonEvent::Activated => BalloonView { activated: true, ..self },
        }
    }

    /// The balloon after events, one after the other.
    pub open spec fn after_all(self, events: Seq<BalloonEvent>) -> BalloonView
        decreases events.len(),
    {
        if events.len() == 0 {
            self
        } else {
            self.after_all(events.drop_last()).after(events.last())
        }
    }

    /// The configuration space.
    pub open spec fn config(self) -> Seq<u8> {
        bytes::le32_bytes(self.target_pages) + bytes::le32_bytes(self.actual_pages)
    }
}

/// The virtio memory balloon.
#[derive(Debug)]
pub struct BalloonDevice {
    acked_features: u64,
    queues: [VirtQueue; 2],
    activated: bool,
    target_pages: u32,
    actual_pages: u32,
    total_inflated: u64,
    total_deflated: u64,
}

impl View for BalloonDevice {
    type V = BalloonView;

    closed spec fn view(&self) -> BalloonView {
        BalloonView {
            acked_features: self.acked_features,
            queues: self.queues@,
            activated: self.activated,
            target_pages: self.target_pages,
            actual_pages: self.actual_pages,
            total_inflated: self.total_inflated,
            total_deflated: self.total_deflated,
        }
    }
}

fn read_desc(memory: &GuestMemory, queue: &VirtQueue, idx: u16) -> (r: Result<
    PageList,
    MemoryError,
>)
    ensures
        r == list_at(memory@, *queue, idx),
{
    match memory.read_bytes(queue.desc_table_addr.saturating_add((idx as u64) * 16), 12) {
        Ok(b) => Ok(
            PageList {
                idx,
                addr: get_le64(b.as_slice(), 0),
                count: get_le32(b.as_slice(), 8) / 4,
            },
        ),
        Err(e) => Err(e),
    }
}

fn next_avail_desc(queue: &mut VirtQueue, memory: &GuestMemory) -> (r: Option<PageList>)
    requires
        old(queue).size != 0,
    ensures
        r == next_list(memory@, *old(queue)),
        *final(queue) == (if r is Some {
            taken(*old(queue))
        } else {
            *old(queue)
        }),
{
    let avail: u16 = match queue.read_avail_idx(memory) {
        Ok(v) => v,
        Err(_) => return None,
    };
    if queue.last_avail_idx == avail {
        return None;
    }
    let head: u16 = match queue.read_avail_head(memory) {
        Ok(v) => v,
        Err(_) => return None,
    };
    match read_desc(memory, queue, head) {
        Ok(l) => {
            queue.last_avail_idx = queue.last_avail_idx.wrapping_add(1);
            Some(l)
        },
        Err(_) => None,
    }
}

fn add_used(queue: &mut VirtQueue, memory: &mut GuestMemory, idx: u16) -> (r: Result<
    (),
    MemoryError,
>)
    requires
        old(queue).size != 0,
    ensures
        (final(memory)@, *final(queue), r) == given_back(old(memory)@, *old(queue), idx),
{
    let idx_addr: u64 = queue.used_ring_addr.saturating_add(2);
    let used: u16 = match memory.read_bytes(idx_addr, 2) {
        Ok(b) => get_le16(b.as_slice(), 0),
        Err(e) => return Err(e),
    };
    let offset: u64 = 4 + ((used % queue.size) as u64) * 8;
    let mut elem: Vec<u8> = Vec::new();
    push_le32(&mut elem, idx as u32);
    assert(elem@ =~= bytes::le32_bytes(idx as u32));
    push_le32(&mut elem, 0);
    match memory.write_bytes(queue.used_ring_addr.saturating_add(offset), elem.as_slice()) {
        Ok(_) => {},
        Err(e) => return Err(e),
    }
    let next: u16 = used.wrapping_add(1);
    match memory.write_bytes(idx_addr, le16_vec(next).as_slice()) {
        Ok(_) => {},
        Err(e) => return Err(e),
    }
    queue.last_used_idx = next;
    Ok(())
}

/// Reads the page numbers of a list, and appends the offsets of the pages that
/// guest memory holds.
fn read_pages(memory: &GuestMemory, l: &PageList, released: &mut Vec<u64>) -> (r: Result<
    (),
    MemoryError,
>)
    ensures
        ({
            let (s, e) = pages_of(memory@, *l, 0, old(released)@);
            &&& final(released)@ == s
            &&& r == (match e {
                Some(x) => Err::<(), MemoryError>(x),
                None => Ok(()),
            })
        }),
{
    let mut i: u32 = 0;
    while i < l.count
        invariant
            i <= l.count,
            pages_of(memory@, *l, i as nat, released@) == pages_of(
                memory@,
                *l,
                0,
                old(released)@,
            ),
        decreases l.count - i,
    {
        let b = match memory.read_bytes(l.addr.saturating_add((i as u64) * 4), 4) {
            Ok(b) => b,
            Err(e) => return Err(e),
        };
        let pfn: u32 = get_le32(b.as_slice(), 0);
        let addr: u64 = (pfn as u64) * BALLOON_PAGE_SIZE;
        match memory.guest_to_host(addr) {
            Some(offset) => {
                released.push(offset as u64);
            },
            None => {},
        }
        i = i + 1;
    }
    Ok(())
}

/// What working on a queue gave.
#[derive(Debug)]
pub struct BalloonWork {
    /// The offsets of the pages that may be given back to the host.
    pub released: Vec<u64>,
    /// Whether anything was handled, or what went wrong.
    pub result: Result<bool, BalloonError>,
}

impl BalloonWork {
    /// Whether this is what the work gave.
    pub open spec fn is(self, run: BalloonRun) -> bool {
        &&& self.released@ == run.released
        &&& self.result == (match run.result {
            Ok(b) => Ok::<bool, BalloonError>(b),
            Err(e) => Err(BalloonError::Memory(e)),
        })
    }
}

impl BalloonDevice {
    /// Creates a balloon that is to hold this many pages.
    pub fn new(initial_target_pages: u32) -> (r: Self)
        ensures
            r@ == (BalloonView {
                acked_features: 0,
                queues: Seq::new(2, |i: int| VirtQueue::spec_new(QUEUE_MAX_SIZE)),
                activated: false,
                target_pages: initial_target_pages,
                actual_pages: 0,
                total_inflated: 0,
                total_deflated: 0,
            }),
    {
        let q = VirtQueue::new(QUEUE_MAX_SIZE);
        let r = BalloonDevice {
            acked_features: 0,
            queues: [q, q],
            activated: false,
            target_pages: initial_target_pages,
            actual_pages: 0,
            total_inflated: 0,
            total_deflated: 0,
        };
        assert(r.queues@ =~= Seq::new(2, |i: int| VirtQueue::spec_new(QUEUE_MAX_SIZE)));
        r
    }

    /// Sets how many pages the host wants in the balloon.
    pub fn set_target_pages(&mut self, pages: u32)
        ensures
            final(self)@ == (BalloonView { target_pages: pages, ..old(self)@ }),
    {
        self.target_pages = pages;
    }

    /// How many pages the host wants in the balloon.
    pub fn target_pages(&self) -> (r: u32)
        ensures
            r == self@.target_pages,
    {
        self.target_pages
    }

    /// How many pages are in the balloon.
    pub fn actual_pages(&self) -> (r: u32)
        ensures
            r == self@.actual_pages,
    {
        self.actual_pages
    }

    /// How many bytes are in the balloon.
    pub fn reclaimed_bytes(&self) -> (r: u64)
        ensures
            r == self@.actual_pages * BALLOON_PAGE_SIZE,
    {
        (self.actual_pages as u64) * BALLOON_PAGE_SIZE
    }

    /// How many pages were ever put in.
    pub fn total_inflated(&self) -> (r: u64)
        ensures
            r == self@.total_inflated,
    {
        self.total_inflated
    }

    /// How many pages were ever taken out.
    pub fn total_deflated(&self) -> (r: u64)
        ensures
            r == self@.total_deflated,
    {
        self.total_deflated
    }

    /// Takes all lists from a queue. Leaves how many pages they named.
    fn take_lists(
        memory: &mut GuestMemory,
        queue: &mut VirtQueue,
        inflate: bool,
        released: &mut Vec<u64>,
    ) -> (r: (u64, Result<bool, MemoryError>))
        requires
            old(queue).size != 0,
            old(released)@ == Seq::<u64>::empty(),
        ensures
            ({
                let run = lists_taken(
                    old(memory)@,
                    *old(queue),
                    inflate,
                    MAX_LISTS as nat,
                    0,
                    Seq::empty(),
                    false,
                );
                &&& final(memory)@ == run.mem
                &&& *final(queue) == run.queue
                &&& final(released)@ == run.released
                &&& r.0 == count_up(0, run.pages)
                &&& r.1 == run.result
            }),
    {
        let mut pages: u64 = 0;
        let mut processed = false;
        let mut n: u64 = MAX_LISTS;
        let ghost mut named: nat = 0;
        while n > 0
            invariant
                n <= MAX_LISTS,
                queue.size != 0,
                pages == count_up(0, named),
                lists_taken(
                    memory@,
                    *queue,
                    inflate,
                    n as nat,
                    named,
                    released@,
                    processed,
                ) == lists_taken(
                    old(memory)@,
                    *old(queue),
                    inflate,
                    MAX_LISTS as nat,
                    0,
                    Seq::empty(),
                    false,
                ),
            decreases n,
        {
            let l = match next_avail_desc(queue, memory) {
                Some(l) => l,
                None => return (pages, Ok(processed)),
            };
            assert(l.count < 0x4000_0000);
            if inflate {
                match read_pages(memory, &l, released) {
                    Ok(_) => {},
                    Err(e) => return (pages, Err(e)),
                }
            }
            match add_used(queue, memory, l.idx) {
                Ok(_) => {},
                Err(e) => return (pages, Err(e)),
            }
            pages = pages.saturating_add(l.count as u64);
            proof {
                named = named + l.count as nat;
            }
            processed = true;
            n = n - 1;
        }
        (pages, Ok(processed))
    }

    /// Takes the pages that the guest puts in.
    fn process_inflate(&mut self, memory: &mut GuestMemory) -> (r: BalloonWork)
        ensures
            ({
                let run = queue_worked(old(memory)@, old(self)@.queues[INFLATE_QUEUE as int], true);
                &&& final(memory)@ == run.mem
                &&& final(self)@ == old(self)@.worked(true, run)
                &&& r.is(run)
            }),
    {
        let mut queue = self.queues[INFLATE_QUEUE];
        let mut released: Vec<u64> = Vec::new();
        if !queue.is_usable() {
            assert(self@ =~= old(self)@.worked(
                true,
                queue_worked(old(memory)@, queue, true),
            ));
            return BalloonWork { released, result: Ok(false) };
        }
        let (pages, result) = Self::take_lists(memory, &mut queue, true, &mut released);
        self.queues[INFLATE_QUEUE] = queue;
        match result {
            Ok(b) => {
                let fit: u32 = if pages > u32::MAX as u64 {
                    u32::MAX
                } else {
                    pages as u32
                };
                self.actual_pages = self.actual_pages.saturating_add(fit);
                self.total_inflated = self.total_inflated.saturating_add(pages);
                BalloonWork { released, result: Ok(b) }
            },
            Err(e) => BalloonWork { released, result: Err(BalloonError::Memory(e)) },
        }
    }

    /// Gives back the pages that the guest takes out.
    fn process_deflate(&mut self, memory: &mut GuestMemory) -> (r: BalloonWork)
        ensures
            ({
                let run = queue_worked(
                    old(memory)@,
                    old(self)@.queues[DEFLATE_QUEUE as int],
                    false,
                );
                &&& final(memory)@ == run.mem
                &&& final(self)@ == old(self)@.worked(false, run)
                &&& r.is(run)
            }),
    {
        let mut queue = self.queues[DEFLATE_QUEUE];
        let mut released: Vec<u64> = Vec::new();
        if !queue.is_usable() {
            assert(self@ =~= old(self)@.worked(
                false,
                queue_worked(old(memory)@, queue, false),
            ));
            return BalloonWork { released, result: Ok(false) };
        }
        let (pages, result) = Self::take_lists(memory, &mut queue, false, &mut released);
        self.queues[DEFLATE_QUEUE] = queue;
        match result {
            Ok(b) => {
                let fit: u32 = if pages > u32::MAX as u64 {
                    u32::MAX
                } else {
                    pages as u32
                };
                self.actual_pages = self.actual_pages.saturating_sub(fit);
                self.total_deflated = self.total_deflated.saturating_add(pages);
                BalloonWork { released, result: Ok(b) }
            },
            Err(e) => BalloonWork { released, result: Err(BalloonError::Memory(e)) },
        }
    }

    /// Handles a notification of queue `queue_idx`. Gives the offsets of the
    /// pages that may be given back to the host, and whether anything was
    /// handled.
    pub fn process_queue(&mut self, queue_idx: usize, memory: &mut GuestMemory) -> (r: (
        Vec<u64>,
        Result<bool, VirtioError>,
    ))
        ensures
            if queue_idx == INFLATE_QUEUE || queue_idx == DEFLATE_QUEUE {
                let inflate = queue_idx == INFLATE_QUEUE;
                let run = queue_worked(old(memory)@, old(self)@.queues[queue_idx as int], inflate);
                &&& final(memory)@ == run.mem
                &&& final(self)@ == old(self)@.worked(inflate, run)
                &&& r.0@ == run.released
                &&& r.1 == (match run.result {
                    Ok(b) => Ok::<bool, VirtioError>(b),
                    Err(_) => Err(VirtioError::ActivationFailed),
                })
            } else {
                &&& final(memory)@ == old(memory)@
                &&& final(self)@ == old(self)@
                &&& r.0@ == Seq::<u64>::empty()
                &&& r.1 == Ok::<bool, VirtioError>(false)
            },
    {
        let work = if queue_idx == INFLATE_QUEUE {
            self.process_inflate(memory)
        } else if queue_idx == DEFLATE_QUEUE {
            self.process_deflate(memory)
        } else {
            return (Vec::new(), Ok(false));
        };
        match work.result {
            Ok(b) => (work.released, Ok(b)),
            Err(_) => (work.released, Err(VirtioError::ActivationFailed)),
        }
    }

    /// Reads the configuration space.
    pub fn read_config(&self, offset: u64, data: &mut [u8])
        ensures
            final(data)@ == Seq::new(
                old(data)@.len(),
                |i: int| transport::config_byte(self@.config(), offset + i),
            ),
    {
        let mut config: Vec<u8> = Vec::new();
        push_le32(&mut config, self.target_pages);
        assert(config@ =~= bytes::le32_bytes(self.target_pages));
        push_le32(&mut config, self.actual_pages);
        read_config_space(config.as_slice(), offset, data);
    }

    /// Writes the configuration space: the guest may set the actual number of
    /// pages, and nothing else.
    pub fn write_config(&mut self, offset: u64, data: &[u8])
        ensures
            final(self)@ == old(self)@.configured(offset, data@),
    {
        if offset == 4 && data.len() >= 4 {
            self.actual_pages = get_le32(data, 0);
        }
    }

    /// The kind of the device.
    pub fn device_type(&self) -> (r: DeviceType)
        ensures
            r == DeviceType::Balloon,
    {
        DeviceType::Balloon
    }

    /// The features that the device offers.
    pub fn avail_features(&self) -> (r: u64)
        ensures
            r == VIRTIO_F_VERSION_1,
    {
        VIRTIO_F_VERSION_1
    }

    /// The features that the driver accepted.
    pub fn acked_features(&self) -> (r: u64)
        ensures
            r == self@.acked_features,
    {
        self.acked_features
    }

    /// Notes the features that the driver accepted.
    pub fn set_acked_features(&mut self, features: u64)
        ensures
            final(self)@ == (BalloonView { acked_features: features & VIRTIO_F_VERSION_1, ..old(self)@ }),
    {
        self.acked_features = features & VIRTIO_F_VERSION_1;
    }

    /// The queues: inflate, deflate.
    pub fn queues(&self) -> (r: &[VirtQueue; 2])
        ensures
            r@ == self@.queues,
    {
        &self.queues
    }

    /// The queues, to be configured.
    pub fn queues_mut(&mut self) -> (r: &mut [VirtQueue; 2])
        ensures
            r@ == old(self)@.queues,
            final(self)@ == (BalloonView { queues: final(r)@, ..old(self)@ }),
    {
        &mut self.queues
    }

    /// Notes that the driver is ready.
    pub fn activate(&mut self) -> (r: Result<(), VirtioError>)
        ensures
            r == Ok::<(), VirtioError>(()),
            final(self)@ == (BalloonView { activated: true, ..old(self)@ }),
    {
        self.activated = true;
        Ok(())
    }

    /// Whether the driver is ready.
    pub fn is_activated(&self) -> (r: bool)
        ensures
            r == self@.activated,
    {
        self.activated
    }

    /// Forgets the driver.
    pub fn reset(&mut self)
        ensures
            final(self)@ == old(self)@.forgotten(),
    {
        self.activated = false;
        self.acked_features = 0;
        self.queues = [VirtQueue::new(self.queues[0].max_size), VirtQueue::new(self.queues[1].max_size)];
        assert(self.queues@ =~= Seq::new(
            2,
            |i: int| VirtQueue::spec_new(old(self)@.queues[i].max_size),
        ));
    }
}

/// The driver never gets a feature that the device does not offer.
pub proof fn law_features_are_offered(features: u64)
    ensures
        (features & VIRTIO_F_VERSION_1) & !VIRTIO_F_VERSION_1 == 0,
{
    assert((features & 0x1_0000_0000u64) & !0x1_0000_0000u64 == 0) by (bit_vector);
}

/// What the guest puts in and takes out again leaves the number of pages as it
/// was, unless there are more than can be counted.
pub proof fn law_inflate_then_deflate(b: BalloonView, n: nat)
    requires
        b.actual_pages + n <= u32::MAX,
    ensures
        b.inflated_by(n).deflated_by(n).actual_pages == b.actual_pages,
{
}

/// A queue that the driver has not set up is left alone.
pub proof fn law_unready_queue_untouched(b: BalloonView, m: MemView, inflate: bool)
    requires
        b.queues.len() == 2,
        !b.queues[if inflate {
            INFLATE_QUEUE as int
        } else {
            DEFLATE_QUEUE as int
        }].usable(),
    ensures
        ({
            let i = if inflate {
                INFLATE_QUEUE as int
            } else {
                DEFLATE_QUEUE as int
            };
            let run = queue_worked(m, b.queues[i], inflate);
            &&& run.mem == m
            &&& run.result == Ok::<bool, MemoryError>(false)
            &&& b.worked(inflate, run) == b
        }),
{
    let i = if inflate {
        INFLATE_QUEUE as int
    } else {
        DEFLATE_QUEUE as int
    };
    assert(b.worked(inflate, queue_worked(m, b.queues[i], inflate)) =~= b);
}

/// Whether a list can be read does not rest on what was released before.
proof fn lemma_pages_fail_alike(m: MemView, l: PageList, i: nat, a: Seq<u64>, b: Seq<u64>)
    ensures
        pages_of(m, l, i, a).1 == pages_of(m, l, i, b).1,
    decreases l.count - i,
{
    if i < l.count {
        match m.read(transport::addr_plus(l.addr, (i * 4) as int), 4) {
            Err(_) => {},
            Ok(d) => {
                let pfn = bytes::le32(d, 0);
                lemma_pages_fail_alike(m, l, i + 1, with_page(m, pfn, a), with_page(m, pfn, b));
            },
        }
    }
}

proof fn lemma_counted(
    m: MemView,
    q: VirtQueue,
    inflate: bool,
    n: nat,
    pages: nat,
    released: Seq<u64>,
    processed: bool,
)
    ensures
        lists_taken(m, q, inflate, n, pages, released, processed).pages == pages + page_sum(
            lists_counted(m, q, inflate, n),
        ),
    decreases n,
{
    if n > 0 && next_list(m, q) is Some {
        let l = next_list(m, q)->0;
        lemma_pages_fail_alike(m, l, 0, released, Seq::empty());
        let r1 = if inflate {
            pages_of(m, l, 0, released).0
        } else {
            released
        };
        let failed = inflate && pages_of(m, l, 0, released).1 is Some;
        let (m2, q2, w) = given_back(m, taken(q), l.idx);
        if !failed && w is Ok {
            let rest = lists_counted(m2, q2, inflate, (n - 1) as nat);
            lemma_counted(
                m2,
                q2,
                inflate,
                (n - 1) as nat,
                pages + l.count as nat,
                r1,
                true,
            );
            assert((seq![l] + rest).skip(1) =~= rest);
        }
    }
}

/// What a notification adds to the totals is the sum of the lengths of its
/// lists, in page numbers: to the pages ever put in on the inflate queue, to
/// those ever taken out on the deflate queue. The other total stays, and both do
/// if the work failed.
pub proof fn law_totals_are_sums(b: BalloonView, m: MemView, inflate: bool)
    requires
        b.queues[if inflate {
            INFLATE_QUEUE as int
        } else {
            DEFLATE_QUEUE as int
        }].usable(),
    ensures
        ({
            let q = b.queues[if inflate {
                INFLATE_QUEUE as int
            } else {
                DEFLATE_QUEUE as int
            }];
            let run = queue_worked(m, q, inflate);
            let sum = page_sum(lists_counted(m, q, inflate, MAX_LISTS as nat));
            let e = b.worked(inflate, run);
            if run.result is Err {
                &&& e.total_inflated == b.total_inflated
                &&& e.total_deflated == b.total_deflated
                &&& e.actual_pages == b.actual_pages
            } else if inflate {
                &&& e.total_inflated == count_up(b.total_inflated, sum)
                &&& e.total_deflated == b.total_deflated
                &&& e.actual_pages == transport::sat_add(b.actual_pages, sum as int)
            } else {
                &&& e.total_inflated == b.total_inflated
                &&& e.total_deflated == count_up(b.total_deflated, sum)
            }
        }),
{
    let q = b.queues[if inflate {
        INFLATE_QUEUE as int
    } else {
        DEFLATE_QUEUE as int
    }];
    lemma_counted(m, q, inflate, MAX_LISTS as nat, 0, Seq::empty(), false);
}

/// Whatever happens to a balloon, resets included, its totals never decrease.
pub proof fn law_totals_never_decrease(b: BalloonView, events: Seq<BalloonEvent>)
    ensures
        b.after_all(events).total_inflated >= b.total_inflated,
        b.after_all(events).total_deflated >= b.total_deflated,
    decreases events.len(),
{
    if events.len() > 0 {
        law_totals_never_decrease(b, events.drop_last());
    }
}

/// Whether all these offsets lie in guest memory.
pub open spec fn all_inside(m: MemView, offsets: Seq<u64>) -> bool {
    forall|k: int| 0 <= k < offsets.len() ==> #[trigger] offsets[k] < m.data.len()
}

/// Every page that is handed out lies in guest memory.
pub proof fn law_released_pages_are_guest_pages(m: MemView, l: PageList, i: nat, released: Seq<u64>)
    requires
        all_inside(m, released),
        0 <= m.base,
        m.end() <= u64::MAX,
    ensures
        all_inside(m, pages_of(m, l, i, released).0),
    decreases l.count - i,
{
    if i < l.count {
        match m.read(transport::addr_plus(l.addr, (i * 4) as int), 4) {
            Err(_) => {},
            Ok(b) => {
                law_released_pages_are_guest_pages(
                    m,
                    l,
                    i + 1,
                    with_page(m, bytes::le32(b, 0), released),
                );
            },
        }
    }
}

} // verus!
