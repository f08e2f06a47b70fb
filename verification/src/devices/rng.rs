//! The virtio entropy device.
//!
//! The driver queues empty buffers and the device fills them with random
//! bytes. The device says how many bytes it needs and the caller draws them:
//! working on a queue stops at every buffer and goes on with its bytes.

use crate::failure;
use crate::memory::{GuestMemory, MemView, MemoryError};
use crate::text;
use crate::transport::{
    self, DescFault, DeviceType, QueueFault, VirtQueue, VirtioError, VirtqDesc,
};
use std::io::Error as IoError;
use vstd::prelude::*;

verus! {

/// Virtio feature: modern virtio.
pub const VIRTIO_F_VERSION_1: u64 = 0x1_0000_0000;

/// Largest size of the queue.
pub const QUEUE_MAX_SIZE: u16 = 256;

/// Largest number of bytes that one buffer is filled with.
pub const MAX_BYTES_PER_REQUEST: usize = 0x1_0000;

/// Errors of the entropy device.
#[derive(Debug)]
#[non_exhaustive]
pub enum RngError {
    /// The entropy source could not be opened.
    OpenSource(IoError),
    /// The entropy source could not be read.
    ReadEntropy(IoError),
    /// Guest memory access error.
    Memory(MemoryError),
    /// Invalid virtqueue descriptor.
    InvalidDescriptor(String),
}

impl RngError {
    /// What the text that describes the error is, or starts with.
    pub open spec fn spec_message(self) -> Seq<char> {
        match self {
            RngError::OpenSource(_) => "failed to open entropy source: "@,
            RngError::ReadEntropy(_) => "failed to read random bytes: "@,
            RngError::Memory(e) => "guest memory error: "@ + e.spec_message(),
            RngError::InvalidDescriptor(s) => "invalid descriptor: "@ + s@,
        }
    }

    /// Whether the host's own text stands behind that of the error.
    pub open spec fn has_host_text(self) -> bool {
        self is OpenSource || self is ReadEntropy
    }

    /// The text that describes the error.
    pub fn message(&self) -> (r: String)
        ensures
            self.has_host_text() ==> text::begins_with(r@, self.spec_message()),
            !self.has_host_text() ==> r@ == self.spec_message(),
    {
        match self {
            RngError::OpenSource(e) => failure::io_message("failed to open entropy source: ", e),
            RngError::ReadEntropy(e) => failure::io_message("failed to read random bytes: ", e),
            RngError::Memory(e) => text::behind("guest memory error: ", e.message().as_str()),
            RngError::InvalidDescriptor(s) => text::behind("invalid descriptor: ", s.as_str()),
        }
    }

    /// Whether the error reports this fault.
    pub open spec fn reports(self, f: QueueFault) -> bool {
        match f {
            QueueFault::Memory(e) => self == RngError::Memory(e),
            QueueFault::Descriptor(d) => self matches RngError::InvalidDescriptor(s) && s@
                == d.spec_text(),
        }
    }

    /// The error that reports a fault.
    pub fn from_fault(f: QueueFault) -> (r: RngError)
        ensures
            r.reports(f),
    {
        match f {
            QueueFault::Memory(e) => RngError::Memory(e),
            QueueFault::Descriptor(d) => RngError::InvalidDescriptor(d.text()),
        }
    }
}

/// A chain that is being filled: it is at descriptor `at`.
#[derive(Debug, Clone, Copy, PartialEq, Eq, Structural)]
pub struct ChainWalk {
    pub head: u16,
    pub at: VirtqDesc,
    /// How many descriptors were walked, `at` among them.
    pub visited: u32,
    /// Whether `at` is filled, or is not for the device to fill.
    pub filled: bool,
    /// How many bytes were stored.
    pub written: u32,
}

/// Work on a queue that has come to a stop.
#[derive(Debug, Clone, Copy, PartialEq, Eq, Structural)]
pub struct RngRun {
    pub queue: VirtQueue,
    /// The entries of the avail ring up to here are taken.
    pub avail: u16,
    pub processed: bool,
    /// The chain that is being filled.
    pub walk: Option<ChainWalk>,
}

/// Why work on a queue stopped.
#[verifier::ext_equal]
pub enum StopView {
    /// So many random bytes are needed.
    Entropy(usize),
    Finished(Result<bool, QueueFault>),
}

/// Memory, work and reason after a stop.
#[verifier::ext_equal]
pub struct Stopped {
    pub mem: MemView,
    pub run: RngRun,
    pub stop: StopView,
}

/// How many bytes a buffer is filled with.
pub open spec fn fill_len(d: VirtqDesc) -> usize {
    if (d.len as usize) < MAX_BYTES_PER_REQUEST {
        d.len as usize
    } else {
        MAX_BYTES_PER_REQUEST
    }
}

/// A chain that has come to descriptor `d`.
pub open spec fn walk_at(head: u16, d: VirtqDesc, visited: u32, written: u32) -> ChainWalk {
    ChainWalk { head, at: d, visited, filled: !d.spec_writable(), written }
}

/// Works on a queue until random bytes are needed or the queue is done.
pub open spec fn go_on(m: MemView, run: RngRun) -> Stopped
    decreases
        transport::ring_distance(run.queue.last_avail_idx, run.avail),
        (match run.walk {
            Some(w) => run.queue.size - w.visited,
            None => 0x1_0000,
        }),
{
    match run.walk {
        Some(w) => if !w.filled {
            Stopped { mem: m, run, stop: StopView::Entropy(fill_len(w.at)) }
        } else if w.at.spec_has_next() {
            match run.queue.desc(m, w.at.next) {
                Err(f) => Stopped { mem: m, run, stop: StopView::Finished(Err(f)) },
                Ok(d) => if w.visited >= run.queue.size {
                    Stopped {
                        mem: m,
                        run,
                        stop: StopView::Finished(Err(QueueFault::Descriptor(DescFault::Cycle))),
                    }
                } else {
                    go_on(
                        m,
                        RngRun {
                            walk: Some(walk_at(w.head, d, (w.visited + 1) as u32, w.written)),
                            ..run
                        },
                    )
                },
            }
        } else {
            let (m1, r) = run.queue.put_used(m, w.head, w.written);
            match r {
                Err(e) => Stopped {
                    mem: m1,
                    run,
                    stop: StopView::Finished(Err(QueueFault::Memory(e))),
                },
                Ok(_) => if run.queue.last_avail_idx == run.avail {
                    // Not reached: a chain at hand has its entry before `avail`.
                    Stopped { mem: m1, run, stop: StopView::Finished(Ok(true)) }
                } else {
                    go_on(
                        m1,
                        RngRun { queue: run.queue.advanced(), processed: true, walk: None, ..run },
                    )
                },
            }
        },
        None => if run.queue.last_avail_idx == run.avail {
            if run.processed {
                let (m1, w) = run.queue.put_used_idx(m);
                Stopped {
                    mem: m1,
                    run,
                    stop: StopView::Finished(
                        match w {
                            Ok(_) => Ok(true),
                            Err(e) => Err(QueueFault::Memory(e)),
                        },
                    ),
                }
            } else {
                Stopped { mem: m, run, stop: StopView::Finished(Ok(false)) }
            }
        } else {
            match run.queue.avail_head(m) {
                Err(e) => Stopped {
                    mem: m,
                    run,
                    stop: StopView::Finished(Err(QueueFault::Memory(e))),
                },
                Ok(head) => match run.queue.desc(m, head) {
                    Err(f) => Stopped { mem: m, run, stop: StopView::Finished(Err(f)) },
                    Ok(d) => go_on(m, RngRun { walk: Some(walk_at(head, d, 1, 0)), ..run }),
                },
            }
        },
    }
}

/// Starts to work on a queue.
pub open spec fn begun(m: MemView, q: VirtQueue) -> Stopped {
    let idle = RngRun { queue: q, avail: q.last_avail_idx, processed: false, walk: None };
    if !q.usable() {
        Stopped { mem: m, run: idle, stop: StopView::Finished(Ok(false)) }
    } else {
        match q.avail_idx(m) {
            Err(e) => Stopped {
                mem: m,
                run: idle,
                stop: StopView::Finished(Err(QueueFault::Memory(e))),
            },
            Ok(avail) => go_on(m, RngRun { avail, ..idle }),
        }
    }
}

/// Goes on with random bytes for the buffer that work stopped at.
pub open spec fn supplied(m: MemView, run: RngRun, random: Seq<u8>) -> Stopped {
    match run.walk {
        Some(w) => {
            let (m1, r) = m.write(w.at.addr, random);
            match r {
                Err(e) => Stopped {
                    mem: m1,
                    run,
                    stop: StopView::Finished(Err(QueueFault::Memory(e))),
                },
                Ok(_) => go_on(
                    m1,
                    RngRun {
                        walk: Some(
                            ChainWalk {
                                filled: true,
                                written: transport::sat_add(w.written, random.len() as int),
                                ..w
                            },
                        ),
                        ..run
                    },
                ),
            }
        },
        None => Stopped { mem: m, run, stop: StopView::Finished(Ok(run.processed)) },
    }
}

/// Why work on a queue stopped.
#[derive(Debug)]
pub enum RngStep {
    /// So many random bytes are needed.
    Entropy(usize),
    /// The queue is done: whether anything was handled, or what went wrong.
    Finished(Result<bool, RngError>),
}

impl RngStep {
    /// Whether the step is this one.
    pub open spec fn is_stop(self, s: StopView) -> bool {
        match (self, s) {
            (RngStep::Entropy(n), StopView::Entropy(k)) => n == k,
            (RngStep::Finished(Ok(b)), StopView::Finished(Ok(c))) => b == c,
            (RngStep::Finished(Err(e)), StopView::Finished(Err(f))) => e.reports(f),
            _ => false,
        }
    }
}

impl RngRun {
    /// A chain at hand has its entry before the end of the avail ring, and holds
    /// no more descriptors than the queue.
    pub open spec fn wf(self) -> bool {
        self.walk matches Some(w) ==> self.queue.size != 0 && self.queue.last_avail_idx
            != self.avail && w.visited <= self.queue.size
    }
}

/// What an entropy device is.
#[verifier::ext_equal]
pub struct RngView {
    pub acked_features: u64,
    pub queues: Seq<VirtQueue>,
    pub activated: bool,
}

/// The virtio entropy device.
#[derive(Debug)]
pub struct RngDevice {
    acked_features: u64,
    queues: [VirtQueue; 1],
    activated: bool,
}

impl View for RngDevice {
    type V = RngView;

    closed spec fn view(&self) -> RngView {
        RngView {
            acked_features: self.acked_features,
            queues: self.queues@,
            activated: self.activated,
        }
    }
}

fn failed(f: QueueFault) -> (r: RngStep)
    ensures
        r.is_stop(StopView::Finished(Err(f))),
{
    RngStep::Finished(Err(RngError::from_fault(f)))
}

impl RngDevice {
    /// Creates a device that no driver has configured.
    pub fn new() -> (r: Self)
        ensures
            r@ == (RngView {
                acked_features: 0,
                queues: seq![VirtQueue::spec_new(QUEUE_MAX_SIZE)],
                activated: false,
            }),
    {
        let r = RngDevice {
            acked_features: 0,
            queues: [VirtQueue::new(QUEUE_MAX_SIZE)],
            activated: false,
        };
        assert(r.queues@ =~= seq![VirtQueue::spec_new(QUEUE_MAX_SIZE)]);
        r
    }

    /// Walks the chain at hand up to the next buffer to fill, or gives it back.
    /// Stops at the buffer or if something is wrong.
    fn fill_chain(memory: &mut GuestMemory, run: &mut RngRun) -> (r: Option<RngStep>)
        requires
            old(run).wf(),
            old(run).walk is Some,
        ensures
            final(run).wf(),
            final(run).queue.size == old(run).queue.size,
            ({
                let s = go_on(old(memory)@, *old(run));
                match r {
                    Some(step) => final(memory)@ == s.mem && *final(run) == s.run && step.is_stop(
                        s.stop,
                    ),
                    None => s == go_on(final(memory)@, *final(run)) && final(run).walk is None
                        && final(run).avail == old(run).avail && final(run).queue
                        == old(run).queue.advanced(),
                }
            }),
    {
        loop
            invariant
                run.wf(),
                run.walk is Some,
                run.queue == old(run).queue,
                run.avail == old(run).avail,
                go_on(memory@, *run) == go_on(old(memory)@, *old(run)),
            decreases run.queue.size - run.walk->Some_0.visited,
        {
            let w = match run.walk {
                Some(w) => w,
                None => return None,
            };
            if !w.filled {
                let n: usize = if (w.at.len as usize) < MAX_BYTES_PER_REQUEST {
                    w.at.len as usize
                } else {
                    MAX_BYTES_PER_REQUEST
                };
                return Some(RngStep::Entropy(n));
            }
            if !w.at.has_next() {
                match run.queue.write_used(memory, w.head, w.written) {
                    Ok(_) => {},
                    Err(e) => return Some(failed(QueueFault::Memory(e))),
                }
                run.queue.advance();
                run.processed = true;
                run.walk = None;
                return None;
            }
            let d = match run.queue.read_desc(memory, w.at.next) {
                Ok(d) => d,
                Err(f) => return Some(failed(f)),
            };
            if w.visited >= run.queue.size as u32 {
                return Some(failed(QueueFault::Descriptor(DescFault::Cycle)));
            }
            run.walk = Some(
                ChainWalk {
                    head: w.head,
                    at: d,
                    visited: w.visited + 1,
                    filled: !d.is_writable(),
                    written: w.written,
                },
            );
        }
    }

    fn go_on(memory: &mut GuestMemory, run: &mut RngRun) -> (r: RngStep)
        requires
            old(run).wf(),
            old(run).queue.size != 0,
        ensures
            final(run).wf(),
            ({
                let s = go_on(old(memory)@, *old(run));
                &&& final(memory)@ == s.mem
                &&& *final(run) == s.run
                &&& r.is_stop(s.stop)
            }),
    {
        loop
            invariant
                run.wf(),
                run.queue.size != 0,
                go_on(memory@, *run) == go_on(old(memory)@, *old(run)),
            decreases
                transport::ring_distance(run.queue.last_avail_idx, run.avail),
                (if run.walk is None {
                    1int
                } else {
                    0int
                }),
        {
            if run.walk.is_some() {
                proof {
                    transport::lemma_ring_step(run.queue.last_avail_idx, run.avail);
                }
                match Self::fill_chain(memory, run) {
                    Some(step) => return step,
                    None => {},
                }
            } else if run.queue.last_avail_idx == run.avail {
                if run.processed {
                    return match run.queue.write_used_idx(memory) {
                        Ok(_) => RngStep::Finished(Ok(true)),
                        Err(e) => failed(QueueFault::Memory(e)),
                    };
                }
                return RngStep::Finished(Ok(false));
            } else {
                let head: u16 = match run.queue.read_avail_head(memory) {
                    Ok(h) => h,
                    Err(e) => return failed(QueueFault::Memory(e)),
                };
                let d = match run.queue.read_desc(memory, head) {
                    Ok(d) => d,
                    Err(f) => return failed(f),
                };
                run.walk = Some(
                    ChainWalk { head, at: d, visited: 1, filled: !d.is_writable(), written: 0 },
                );
            }
        }
    }

    /// Starts to work on all that waits in a queue.
    pub fn process_queue(&self, memory: &mut GuestMemory, queue: &VirtQueue) -> (r: (
        RngRun,
        RngStep,
    ))
        ensures
            ({
                let s = begun(old(memory)@, *queue);
                &&& final(memory)@ == s.mem
                &&& r.0 == s.run
                &&& r.0.wf()
                &&& r.1.is_stop(s.stop)
            }),
    {
        let mut run = RngRun {
            queue: *queue,
            avail: queue.last_avail_idx,
            processed: false,
            walk: None,
        };
        if !queue.is_usable() {
            return (run, RngStep::Finished(Ok(false)));
        }
        match queue.read_avail_idx(memory) {
            Ok(avail) => {
                run.avail = avail;
            },
            Err(e) => return (run, failed(QueueFault::Memory(e))),
        }
        let step = Self::go_on(memory, &mut run);
        (run, step)
    }

    /// Goes on with the random bytes that work stopped for, or with the failure
    /// to get them, which ends it.
    pub fn resume(
        &self,
        memory: &mut GuestMemory,
        run: &mut RngRun,
        random: Result<Vec<u8>, IoError>,
    ) -> (r: RngStep)
        requires
            old(run).wf(),
            random matches Ok(v) ==> (old(run).walk matches Some(w) ==> v@.len() == fill_len(w.at)),
        ensures
            final(run).wf(),
            match random {
                Ok(v) => {
                    let s = supplied(old(memory)@, *old(run), v@);
                    &&& final(memory)@ == s.mem
                    &&& *final(run) == s.run
                    &&& r.is_stop(s.stop)
                },
                Err(e) => final(memory)@ == old(memory)@ && *final(run) == *old(run) && r
                    == RngStep::Finished(Err(RngError::ReadEntropy(e))),
            },
    {
        let bytes = match random {
            Ok(v) => v,
            Err(e) => return RngStep::Finished(Err(RngError::ReadEntropy(e))),
        };
        let w = match run.walk {
            Some(w) => w,
            None => return RngStep::Finished(Ok(run.processed)),
        };
        match memory.write_bytes(w.at.addr, bytes.as_slice()) {
            Ok(_) => {},
            Err(e) => return failed(QueueFault::Memory(e)),
        }
        let n: u32 = bytes.len() as u32;
        run.walk = Some(
            ChainWalk {
                head: w.head,
                at: w.at,
                visited: w.visited,
                filled: true,
                written: w.written.saturating_add(n),
            },
        );
        Self::go_on(memory, run)
    }

    /// Starts to work on the device's own queue `queue_idx`, if it has one.
    pub fn begin_queue(&self, queue_idx: usize, memory: &mut GuestMemory) -> (r: Option<
        (RngRun, RngStep),
    >)
        ensures
            match r {
                Some((run, step)) => {
                    let s = begun(old(memory)@, self@.queues[0]);
                    &&& queue_idx == 0
                    &&& final(memory)@ == s.mem
                    &&& run == s.run
                    &&& run.wf()
                    &&& step.is_stop(s.stop)
                },
                None => queue_idx != 0 && final(memory)@ == old(memory)@,
            },
    {
        if queue_idx != 0 {
            return None;
        }
        let queue = self.queues[0];
        Some(self.process_queue(memory, &queue))
    }

    /// Ends work on the device's own queue: takes over its positions, and says
    /// whether anything was handled. What went wrong counts as nothing handled.
    pub fn end_queue(&mut self, run: &RngRun, result: &Result<bool, RngError>) -> (r: bool)
        ensures
            final(self)@ == (RngView {
                queues: old(self)@.queues.update(
                    0,
                    old(self)@.queues[0].with_positions(run.queue),
                ),
                ..old(self)@
            }),
            r == (match *result {
                Ok(b) => b,
                Err(_) => false,
            }),
    {
        let mut q = self.queues[0];
        q.last_avail_idx = run.queue.last_avail_idx;
        q.last_used_idx = run.queue.last_used_idx;
        self.queues[0] = q;
        match result {
            Ok(b) => *b,
            Err(_) => false,
        }
    }

    /// Reads the configuration space, which is empty: all bytes are zero.
    pub fn read_config(&self, _offset: u64, data: &mut [u8])
        ensures
            final(data)@ == Seq::new(old(data)@.len(), |i: int| 0u8),
    {
        let none: [u8; 0] = [];
        transport::read_config_space(none.as_slice(), 0, data);
        assert(data@ =~= Seq::new(old(data)@.len(), |i: int| 0u8));
    }

    /// Does nothing: there is no configuration space.
    pub fn write_config(&mut self, _offset: u64, _data: &[u8])
        ensures
            *final(self) == *old(self),
    {
    }

    /// The kind of the device.
    pub fn device_type(&self) -> (r: DeviceType)
        ensures
            r == DeviceType::Rng,
    {
        DeviceType::Rng
    }

    /// The features that the device offers.
    pub fn avail_features(&self) -> (r: u64)
        ensures
            r == VIRTIO_F_VERSION_1,
    {
        VIRTIO_F_VERSION_1
    }

    /// The features that the driver accepted.
    pub fn acked_features(&self) -> (r: u64)
        ensures
            r == self@.acked_features,
    {
        self.acked_features
    }

    /// Notes the features that the driver accepted.
    pub fn set_acked_features(&mut self, features: u64)
        ensures
            final(self)@ == (RngView { acked_features: features, ..old(self)@ }),
    {
        self.acked_features = features;
    }

    /// The queues.
    pub fn queues(&self) -> (r: &[VirtQueue; 1])
        ensures
            r@ == self@.queues,
    {
        &self.queues
    }

    /// The queues, to be configured.
    pub fn queues_mut(&mut self) -> (r: &mut [VirtQueue; 1])
        ensures
            r@ == old(self)@.queues,
            final(self)@ == (RngView { queues: final(r)@, ..old(self)@ }),
    {
        &mut self.queues
    }

    /// Notes that the driver is ready.
    pub fn activate(&mut self) -> (r: Result<(), VirtioError>)
        ensures
            r == Ok::<(), VirtioError>(()),
            final(self)@ == (RngView { activated: true, ..old(self)@ }),
    {
        self.activated = true;
        Ok(())
    }

    /// Whether the driver is ready.
    pub fn is_activated(&self) -> (r: bool)
        ensures
            r == self@.activated,
    {
        self.activated
    }

    /// Forgets the driver.
    pub fn reset(&mut self)
        ensures
            final(self)@ == (RngView {
                activated: false,
                queues: Seq::new(
                    1,
                    |i: int| VirtQueue::spec_new(old(self)@.queues[i].max_size),
                ),
                ..old(self)@
            }),
    {
        self.activated = false;
        self.queues = [VirtQueue::new(self.queues[0].max_size)];
        assert(self.queues@ =~= Seq::new(
            1,
            |i: int| VirtQueue::spec_new(old(self)@.queues[i].max_size),
        ));
    }
}

/// Only buffers that the device may write are filled, and never with more than
/// they hold.
pub proof fn law_fills_only_writable_buffers(m: MemView, run: RngRun)
    requires
        run.walk matches Some(w) ==> !w.filled ==> w.at.spec_writable(),
    ensures
        go_on(m, run).stop matches StopView::Entropy(n) ==> {
            &&& go_on(m, run).run.walk is Some
            &&& go_on(m, run).run.walk->Some_0.at.spec_writable()
            &&& n <= go_on(m, run).run.walk->Some_0.at.len
            &&& n <= MAX_BYTES_PER_REQUEST
        },
    decreases
        transport::ring_distance(run.queue.last_avail_idx, run.avail),
        (match run.walk {
            Some(w) => run.queue.size - w.visited,
            None => 0x1_0000,
        }),
{
    match run.walk {
        Some(w) => if w.filled {
            if w.at.spec_has_next() {
                match run.queue.desc(m, w.at.next) {
                    Err(_) => {},
                    Ok(d) => if w.visited < run.queue.size {
                        law_fills_only_writable_buffers(
                            m,
                            RngRun {
                                walk: Some(walk_at(w.head, d, (w.visited + 1) as u32, w.written)),
                                ..run
                            },
                        );
                    },
                }
            } else {
                let (m1, r) = run.queue.put_used(m, w.head, w.written);
                if r is Ok && run.queue.last_avail_idx != run.avail {
                    law_fills_only_writable_buffers(
                        m1,
                        RngRun { queue: run.queue.advanced(), processed: true, walk: None, ..run },
                    );
                }
            }
        },
        None => if run.queue.last_avail_idx != run.avail {
            match run.queue.avail_head(m) {
                Err(_) => {},
                Ok(head) => match run.queue.desc(m, head) {
                    Err(_) => {},
                    Ok(d) => {
                        law_fills_only_writable_buffers(
                            m,
                            RngRun { walk: Some(walk_at(head, d, 1, 0)), ..run },
                        );
                    },
                },
            }
        },
    }
}

} // verus!
