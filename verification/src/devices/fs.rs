//! The virtio file system device: a host directory, read-only, over FUSE.
//!
//! Working on the request queue stops at every question to the host and goes on
//! with the host's reply.
//!
//! The configuration space holds the tag in 36 bytes, filled up with zeros, and
//! the number of request queues.

use crate::bytes::{self, push_bytes, push_le32};
use crate::devices::fuse::{
    self, Answer, AnswerView, FileMeta, FuseState, FuseView, HostOp, HostOpView, HostReply,
    HostReplyView, Wait, WaitView,
};
use crate::failure;
use crate::memory::{GuestMemory, MemView, MemoryError};
use crate::text::{self, utf8_str};
use crate::transport::{
    self, read_config_round, DeviceType, QueueFault, VirtQueue, VirtioError, VirtqDesc,
};
use std::io::Error as IoError;
use vstd::prelude::*;

verus! {

/// Virtio feature: modern virtio.
pub const VIRTIO_F_VERSION_1: u64 = 0x1_0000_0000;

/// Largest size of each queue.
pub const QUEUE_MAX_SIZE: u16 = 256;

/// Index of the request queue.
pub const REQUEST_QUEUE: usize = 1;

/// Size of the tag in bytes.
pub const TAG_LEN: usize = 36;

/// Errors of the file system device.
#[derive(Debug)]
#[non_exhaustive]
pub enum FsError {
    /// The shared directory cannot be accessed.
    SharedDir(IoError),
    /// A host file cannot be read.
    Io(IoError),
    /// Guest memory access error.
    Memory(MemoryError),
    /// Invalid virtqueue descriptor.
    InvalidDescriptor(String),
    /// Invalid FUSE request.
    InvalidRequest(String),
}

impl FsError {
    /// What the text that describes the error is, or starts with.
    pub open spec fn spec_message(self) -> Seq<char> {
        match self {
            FsError::SharedDir(_) => "failed to access shared directory: "@,
            FsError::Io(_) => "host file I/O error: "@,
            FsError::Memory(e) => "guest memory error: "@ + e.spec_message(),
            FsError::InvalidDescriptor(s) => "invalid descriptor: "@ + s@,
            FsError::InvalidRequest(s) => "invalid FUSE request: "@ + s@,
        }
    }

    /// Whether the host's own text stands behind that of the error.
    pub open spec fn has_host_text(self) -> bool {
        self is SharedDir || self is Io
    }

    /// The text that describes the error.
    pub fn message(&self) -> (r: String)
        ensures
            self.has_host_text() ==> text::begins_with(r@, self.spec_message()),
            !self.has_host_text() ==> r@ == self.spec_message(),
    {
        match self {
            FsError::SharedDir(e) => failure::io_message("failed to access shared directory: ", e),
            FsError::Io(e) => failure::io_message("host file I/O error: ", e),
            FsError::Memory(e) => text::behind("guest memory error: ", e.message().as_str()),
            FsError::InvalidDescriptor(s) => text::behind("invalid descriptor: ", s.as_str()),
            FsError::InvalidRequest(s) => text::behind("invalid FUSE request: ", s.as_str()),
        }
    }
}

/// The bytes in the chain's buffers from `i` on that the device may read, which
/// all must lie in guest memory.
pub open spec fn readable_bytes(m: MemView, c: Seq<VirtqDesc>, i: int) -> Option<Seq<u8>>
    decreases c.len() - i,
{
    if i >= c.len() || i < 0 {
        Some(Seq::empty())
    } else if c[i].spec_writable() {
        readable_bytes(m, c, i + 1)
    } else {
        match m.read(c[i].addr, c[i].len as usize) {
            Err(_) => None,
            Ok(b) => match readable_bytes(m, c, i + 1) {
                None => None,
                Some(rest) => Some(b + rest),
            },
        }
    }
}

/// The request in the chain that starts at `head`, and the chain's descriptors.
pub open spec fn request_in(m: MemView, q: VirtQueue, head: u16) -> Option<
    (Seq<u8>, Seq<VirtqDesc>),
> {
    match q.chain(m, head, 0) {
        Err(_) => None,
        Ok(c) => match readable_bytes(m, c, 0) {
            None => None,
            Some(b) => Some((b, c)),
        },
    }
}

/// Stores `data` from byte `off` on into the chain's buffers from `i` on that
/// the device may write. Leaves the memory and how many bytes were stored.
pub open spec fn responded(
    m: MemView,
    c: Seq<VirtqDesc>,
    i: int,
    data: Seq<u8>,
    off: int,
    written: u32,
) -> (MemView, Result<u32, MemoryError>)
    decreases c.len() - i,
{
    if i >= c.len() || i < 0 || off >= data.len() {
        (m, Ok(written))
    } else if !c[i].spec_writable() {
        responded(m, c, i + 1, data, off, written)
    } else {
        let n = if c[i].len < data.len() - off {
            c[i].len as int
        } else {
            data.len() - off
        };
        let (m1, w) = m.write(c[i].addr, data.subrange(off, off + n));
        match w {
            Err(e) => (m1, Err(e)),
            Ok(_) => responded(
                m1,
                c,
                i + 1,
                data,
                off + n,
                transport::sat_add(written, n),
            ),
        }
    }
}

/// Stores an answer. Leaves the memory and how many bytes count as stored: none
/// if guest memory does not hold a buffer.
#[verifier::opaque]
pub open spec fn answered(m: MemView, c: Seq<VirtqDesc>, data: Seq<u8>) -> (MemView, u32) {
    let (m1, r) = responded(m, c, 0, data, 0, 0);
    match r {
        Ok(n) => (m1, n),
        Err(_) => (m1, 0),
    }
}

/// A request that waits for the host.
#[verifier::ext_equal]
pub struct PendingView {
    pub head: u16,
    pub chain: Seq<VirtqDesc>,
    pub unique: u64,
    pub wait: WaitView,
}

/// Work on a queue that has come to a stop.
#[verifier::ext_equal]
pub struct FsRunView {
    pub queue: VirtQueue,
    /// The entries of the avail ring up to here are taken.
    pub avail: u16,
    pub processed: bool,
    pub active: Option<PendingView>,
}

/// Why work on a queue stopped.
#[verifier::ext_equal]
pub enum StopView {
    Host(HostOpView),
    Finished(Result<bool, MemoryError>),
}

/// Memory, files, work and reason after a stop.
#[verifier::ext_equal]
pub struct Stopped {
    pub mem: MemView,
    pub files: FuseView,
    pub run: FsRunView,
    pub stop: StopView,
}

/// What the request at `head` comes to: how many bytes its answer takes, or a
/// question to the host.
#[verifier::ext_equal]
pub enum Outcome {
    Written(u32),
    Ask(HostOpView, PendingView),
}

/// Handles the request in the chain that starts at `head`.
#[verifier::opaque]
pub open spec fn handled(m: MemView, files: FuseView, q: VirtQueue, head: u16) -> (
    MemView,
    FuseView,
    Outcome,
) {
    match request_in(m, q, head) {
        None => (m, files, Outcome::Written(0)),
        Some((req, chain)) => {
            let (f1, a) = files.requested(req);
            match a {
                AnswerView::Silent => (m, f1, Outcome::Written(0)),
                AnswerView::Reply(data) => {
                    let (m1, n) = answered(m, chain, data);
                    (m1, f1, Outcome::Written(n))
                },
                AnswerView::Ask(op, unique, wait) => (
                    m,
                    f1,
                    Outcome::Ask(op, PendingView { head, chain, unique, wait }),
                ),
            }
        },
    }
}

/// Gives the chain at `head` back and goes on.
pub open spec fn after_request(m: MemView, files: FuseView, run: FsRunView, head: u16, written: u32) -> Stopped
    decreases transport::ring_distance(run.queue.last_avail_idx, run.avail), 0int,
{
    let (m1, w) = run.queue.put_used(m, head, written);
    match w {
        Err(e) => Stopped {
            mem: m1,
            files,
            run: FsRunView { active: None, ..run },
            stop: StopView::Finished(Err(e)),
        },
        Ok(_) => {
            let r1 = FsRunView {
                queue: run.queue.advanced(),
                processed: true,
                active: None,
                ..run
            };
            if run.queue.last_avail_idx == run.avail {
                // Not reached: a request at hand has its entry before `avail`.
                Stopped { mem: m1, files, run: r1, stop: StopView::Finished(Ok(true)) }
            } else {
                go_on(m1, files, r1)
            }
        },
    }
}

/// Takes requests until the host is to be asked or the queue is done.
pub open spec fn go_on(m: MemView, files: FuseView, run: FsRunView) -> Stopped
    decreases transport::ring_distance(run.queue.last_avail_idx, run.avail), 1int,
{
    if run.queue.last_avail_idx == run.avail {
        if run.processed {
            let (m1, w) = run.queue.put_used_idx(m);
            Stopped {
                mem: m1,
                files,
                run,
                stop: StopView::Finished(
                    match w {
                        Ok(_) => Ok(true),
                        Err(e) => Err(e),
                    },
                ),
            }
        } else {
            Stopped { mem: m, files, run, stop: StopView::Finished(Ok(false)) }
        }
    } else {
        match run.queue.avail_head(m) {
            Err(e) => Stopped { mem: m, files, run, stop: StopView::Finished(Err(e)) },
            Ok(head) => {
                let (m1, f1, o) = handled(m, files, run.queue, head);
                match o {
                    Outcome::Written(n) => after_request(m1, f1, run, head, n),
                    Outcome::Ask(op, p) => Stopped {
                        mem: m1,
                        files: f1,
                        run: FsRunView { active: Some(p), ..run },
                        stop: StopView::Host(op),
                    },
                }
            },
        }
    }
}

/// Starts to work on a queue.
pub open spec fn begun(m: MemView, files: FuseView, q: VirtQueue) -> Stopped {
    let idle = FsRunView { queue: q, avail: q.last_avail_idx, processed: false, active: None };
    if !q.usable() {
        Stopped { mem: m, files, run: idle, stop: StopView::Finished(Ok(false)) }
    } else {
        match q.avail_idx(m) {
            Err(e) => Stopped { mem: m, files, run: idle, stop: StopView::Finished(Err(e)) },
            Ok(avail) => go_on(m, files, FsRunView { avail, ..idle }),
        }
    }
}

/// Goes on with the host's reply.
pub open spec fn resumed(m: MemView, files: FuseView, run: FsRunView, r: HostReplyView) -> Stopped {
    match run.active {
        None => Stopped { mem: m, files, run, stop: StopView::Finished(Ok(run.processed)) },
        Some(p) => {
            let (f1, data) = files.informed(p.unique, p.wait, r);
            let (m1, n) = answered(m, p.chain, data);
            after_request(m1, f1, run, p.head, n)
        },
    }
}

/// A request that waits for the host.
#[derive(Debug)]
pub struct Pending {
    head: u16,
    chain: Vec<VirtqDesc>,
    unique: u64,
    wait: Wait,
}

impl View for Pending {
    type V = PendingView;

    closed spec fn view(&self) -> PendingView {
        PendingView {
            head: self.head,
            chain: self.chain@,
            unique: self.unique,
            wait: self.wait@,
        }
    }
}

/// Work on a queue that has come to a stop.
#[derive(Debug)]
pub struct FsRun {
    queue: VirtQueue,
    avail: u16,
    processed: bool,
    active: Option<Pending>,
}

impl View for FsRun {
    type V = FsRunView;

    closed spec fn view(&self) -> FsRunView {
        FsRunView {
            queue: self.queue,
            avail: self.avail,
            processed: self.processed,
            active: match self.active {
                Some(p) => Some(p@),
                None => None,
            },
        }
    }
}

impl FsRun {
    /// A request at hand has its entry before the end of the avail ring.
    pub closed spec fn wf(self) -> bool {
        self.active is Some ==> self.queue.size != 0 && self.queue.last_avail_idx != self.avail
    }

    /// The queue with the positions that the work has come to.
    pub fn queue(&self) -> (r: VirtQueue)
        ensures
            r == self@.queue,
    {
        self.queue
    }
}

/// Why work on a queue stopped.
#[derive(Debug)]
pub enum FsStep {
    /// The host is asked this.
    Host(HostOp),
    /// The queue is done: whether anything was handled, or what went wrong.
    Finished(Result<bool, FsError>),
}

impl FsStep {
    /// Whether the step is this one.
    pub open spec fn is_stop(self, s: StopView) -> bool {
        match (self, s) {
            (FsStep::Host(op), StopView::Host(v)) => op@ == v,
            (FsStep::Finished(Ok(b)), StopView::Finished(Ok(c))) => b == c,
            (FsStep::Finished(Err(e)), StopView::Finished(Err(f))) => e == FsError::Memory(f),
            _ => false,
        }
    }
}

enum OutcomeExec {
    Written(u32),
    Ask(HostOp, Pending),
}

/// What a file system device is.
#[verifier::ext_equal]
pub struct FsView {
    pub shared_dir: Seq<u8>,
    pub tag: Seq<u8>,
    pub acked_features: u64,
    pub queues: Seq<VirtQueue>,
    pub activated: bool,
    pub files: FuseView,
}

/// The virtio file system device.
#[derive(Debug)]
pub struct FsDevice {
    shared_dir: Vec<u8>,
    tag: [u8; 36],
    acked_features: u64,
    queues: [VirtQueue; 2],
    activated: bool,
    files: FuseState,
}

impl View for FsDevice {
    type V = FsView;

    closed spec fn view(&self) -> FsView {
        FsView {
            shared_dir: self.shared_dir@,
            tag: self.tag@,
            acked_features: self.acked_features,
            queues: self.queues@,
            activated: self.activated,
            files: self.files@,
        }
    }
}

/// The tag as the configuration space has it: cut, or filled up with zeros.
pub open spec fn tag_bytes(tag: Seq<char>) -> Seq<u8> {
    Seq::new(
        TAG_LEN as nat,
        |i: int| transport::config_byte(vstd::utf8::encode_utf8(tag), i),
    )
}

/// The tag as text: the bytes before the first zero, if they are text.
pub open spec fn is_tag_text(tag: Seq<u8>, s: Seq<char>) -> bool {
    let b = tag.subrange(0, fuse::zero_from(tag, 0));
    if vstd::utf8::valid_utf8(b) {
        vstd::utf8::encode_utf8(s) == b
    } else {
        s == Seq::<char>::empty()
    }
}

/// Where the first zero behind bytes without one is.
proof fn lemma_zero_behind(b: Seq<u8>, n: int, i: int)
    requires
        0 <= i <= n <= b.len(),
        forall|k: int| i <= k < n ==> #[trigger] b[k] != 0,
        n < b.len() ==> b[n] == 0,
    ensures
        fuse::zero_from(b, i) == n,
    decreases n - i,
{
    if i < n {
        lemma_zero_behind(b, n, i + 1);
    }
}

/// The tag reads back as text: `head` of the tag is as much of it as fits into 36
/// bytes, where no character is cut in two, and a tag without NUL gives that back.
/// The configuration space has its bytes, filled up with zeros.
pub proof fn law_tag_reads_back(tag: Seq<char>, head: Seq<char>, rest: Seq<char>, s: Seq<char>)
    requires
        !tag.contains('\0'),
        tag == head + rest,
        vstd::utf8::encode_utf8(head).len() == if vstd::utf8::encode_utf8(tag).len() < TAG_LEN {
            vstd::utf8::encode_utf8(tag).len() as int
        } else {
            TAG_LEN as int
        },
        is_tag_text(tag_bytes(tag), s),
    ensures
        s == head,
        tag_bytes(tag) == vstd::utf8::encode_utf8(head) + Seq::new(
            (TAG_LEN - vstd::utf8::encode_utf8(head).len()) as nat,
            |i: int| 0u8,
        ),
{
    let e = vstd::utf8::encode_utf8(head);
    let n = e.len() as int;
    let b = tag_bytes(tag);
    text::lemma_encode_parts(head, rest);
    assert forall|i: int| 0 <= i < head.len() implies #[trigger] head[i] != '\0' by {
        assert(tag[i] == head[i]);
        assert(tag.contains(tag[i]));
    }
    text::lemma_encoded_without_zero(head);
    assert forall|k: int| 0 <= k < n implies #[trigger] b[k] == e[k] by {
        assert(vstd::utf8::encode_utf8(tag)[k] == e[k]);
    }
    assert(b =~= e + Seq::new((TAG_LEN - n) as nat, |i: int| 0u8));
    lemma_zero_behind(b, n, 0);
    assert(b.subrange(0, n) =~= e);
    vstd::utf8::encode_utf8_valid_utf8(head);
    vstd::utf8::encode_utf8_decode_utf8(head);
    vstd::utf8::encode_utf8_decode_utf8(s);
}

impl FsDevice {
    /// Creates a device for the host directory `shared_dir`, of which the host
    /// says `meta`. The tag is cut to 36 bytes.
    pub fn new(shared_dir: &[u8], tag: &str, meta: Result<FileMeta, IoError>) -> (r: Result<
        Self,
        FsError,
    >)
        ensures
            match meta {
                Ok(m) => r is Ok && r->Ok_0@ == (FsView {
                    shared_dir: shared_dir@,
                    tag: tag_bytes(tag@),
                    acked_features: 0,
                    queues: Seq::new(2, |i: int| VirtQueue::spec_new(QUEUE_MAX_SIZE)),
                    activated: false,
                    files: FuseView {
                        inodes: seq![fuse::InodeView { path: shared_dir@, meta: m }],
                        next_fh: 1,
                        handles: Map::empty(),
                    },
                }),
                Err(e) => r is Err && r->Err_0 == FsError::SharedDir(e),
            },
    {
        let meta = match meta {
            Ok(m) => m,
            Err(e) => return Err(FsError::SharedDir(e)),
        };
        let src = tag.as_bytes();
        let mut out: [u8; 36] = [0u8; 36];
        let mut i: usize = 0;
        while i < TAG_LEN && i < src.len()
            invariant
                i <= TAG_LEN,
                i <= src@.len(),
                forall|k: int| 0 <= k < i ==> #[trigger] out@[k] == src@[k],
                forall|k: int| i <= k < 36 ==> #[trigger] out@[k] == 0,
            decreases TAG_LEN - i,
        {
            out[i] = src[i];
            i = i + 1;
        }
        assert(out@ =~= tag_bytes(tag@));
        let q = VirtQueue::new(QUEUE_MAX_SIZE);
        let dev = FsDevice {
            shared_dir: vstd::slice::slice_to_vec(shared_dir),
            tag: out,
            acked_features: 0,
            queues: [q, q],
            activated: false,
            files: FuseState::new(shared_dir, meta),
        };
        assert(dev.queues@ =~= Seq::new(2, |i: int| VirtQueue::spec_new(QUEUE_MAX_SIZE)));
        Ok(dev)
    }

    /// The path of the shared directory.
    pub fn shared_dir(&self) -> (r: &[u8])
        ensures
            r@ == self@.shared_dir,
    {
        self.shared_dir.as_slice()
    }

    /// The tag.
    pub fn tag(&self) -> (r: &[u8; 36])
        ensures
            r@ == self@.tag,
    {
        &self.tag
    }

    /// The tag as text.
    pub fn tag_str(&self) -> (r: &str)
        ensures
            is_tag_text(self@.tag, r@),
    {
        let end: usize = fuse::find_zero(self.tag.as_slice());
        match utf8_str(vstd::slice::slice_subrange(self.tag.as_slice(), 0, end)) {
            Some(s) => s,
            None => {
                proof {
                    reveal_strlit("");
                    assert(""@ =~= Seq::<char>::empty());
                }
                ""
            },
        }
    }

    /// Reads all that the device may read in a chain.
    fn read_request_data(memory: &GuestMemory, chain: &Vec<VirtqDesc>) -> (r: Option<Vec<u8>>)
        ensures
            match r {
                Some(v) => readable_bytes(memory@, chain@, 0) == Some(v@),
                None => readable_bytes(memory@, chain@, 0) is None,
            },
    {
        let mut data: Vec<u8> = Vec::new();
        let mut i: usize = 0;
        while i < chain.len()
            invariant
                i <= chain@.len(),
                match readable_bytes(memory@, chain@, i as int) {
                    Some(rest) => readable_bytes(memory@, chain@, 0) == Some(data@ + rest),
                    None => readable_bytes(memory@, chain@, 0) is None,
                },
            decreases chain@.len() - i,
        {
            let d = chain[i];
            if !d.is_writable() {
                let part = match memory.read_bytes(d.addr, d.len as usize) {
                    Ok(b) => b,
                    Err(_) => return None,
                };
                let ghost before = data@;
                push_bytes(&mut data, part.as_slice());
                proof {
                    match readable_bytes(memory@, chain@, i + 1) {
                        Some(rest) => {
                            assert(before + (part@ + rest) =~= data@ + rest);
                        },
                        None => {},
                    }
                }
            }
            i = i + 1;
        }
        assert(data@ + Seq::<u8>::empty() =~= data@);
        Some(data)
    }

    /// Stores an answer, and says how many bytes count as stored.
    fn write_response_data(memory: &mut GuestMemory, chain: &Vec<VirtqDesc>, data: &[u8]) -> (r: u32)
        ensures
            (final(memory)@, r) == answered(old(memory)@, chain@, data@),
    {
        proof {
            reveal(answered);
        }
        let mut off: usize = 0;
        let mut written: u32 = 0;
        let mut i: usize = 0;
        while i < chain.len()
            invariant
                i <= chain@.len(),
                off <= data@.len(),
                responded(memory@, chain@, i as int, data@, off as int, written) == responded(
                    old(memory)@,
                    chain@,
                    0,
                    data@,
                    0,
                    0,
                ),
            decreases chain@.len() - i,
        {
            proof {
                reveal(answered);
            }
            if off >= data.len() {
                return written;
            }
            let d = chain[i];
            if d.is_writable() {
                let left: usize = data.len() - off;
                let n: usize = if (d.len as usize) < left {
                    d.len as usize
                } else {
                    left
                };
                let part = vstd::slice::slice_subrange(data, off, off + n);
                match memory.write_bytes(d.addr, part) {
                    Ok(_) => {},
                    Err(_) => return 0,
                }
                off = off + n;
                let n32: u32 = if n > u32::MAX as usize {
                    u32::MAX
                } else {
                    n as u32
                };
                written = written.saturating_add(n32);
            }
            i = i + 1;
        }
        written
    }

    /// Handles the request in the chain that starts at `head`.
    fn process_fuse_request(&mut self, memory: &mut GuestMemory, queue: &VirtQueue, head: u16) -> (r:
        OutcomeExec)
        ensures
            ({
                let (m, f, o) = handled(old(memory)@, old(self)@.files, *queue, head);
                &&& final(memory)@ == m
                &&& final(self)@ == (FsView { files: f, ..old(self)@ })
                &&& match r {
                    OutcomeExec::Written(n) => o == Outcome::Written(n),
                    OutcomeExec::Ask(op, p) => o == Outcome::Ask(op@, p@),
                }
            }),
    {
        proof {
            reveal(handled);
        }
        let chain = match queue.read_chain(memory, head) {
            Ok(c) => c,
            Err(_) => return OutcomeExec::Written(0),
        };
        let req = match Self::read_request_data(memory, &chain) {
            Some(v) => v,
            None => return OutcomeExec::Written(0),
        };
        match self.files.request(req.as_slice()) {
            Answer::Silent => OutcomeExec::Written(0),
            Answer::Reply(data) => OutcomeExec::Written(
                Self::write_response_data(memory, &chain, data.as_slice()),
            ),
            Answer::Ask(op, unique, wait) => OutcomeExec::Ask(
                op,
                Pending { head, chain, unique, wait },
            ),
        }
    }

    /// Works until the host is to be asked or the queue is done. `given` is a
    /// request that has just been answered: its head and size.
    fn go_on(&mut self, memory: &mut GuestMemory, run: &mut FsRun, given: Option<(u16, u32)>) -> (r:
        FsStep)
        requires
            old(run)@.active is None,
            old(run)@.queue.size != 0,
            given is Some ==> old(run)@.queue.last_avail_idx != old(run)@.avail,
        ensures
            ({
                let s = target(old(memory)@, old(self)@.files, old(run)@, given);
                &&& final(memory)@ == s.mem
                &&& final(self)@ == (FsView { files: s.files, ..old(self)@ })
                &&& final(run)@ == s.run
                &&& r.is_stop(s.stop)
            }),
            final(run).wf(),
    {
        let mut ended = given;
        loop
            invariant
                run@.active is None,
                run@.queue.size != 0,
                ended is Some ==> run@.queue.last_avail_idx != run@.avail,
                self@ == (FsView { files: self@.files, ..old(self)@ }),
                target(memory@, self@.files, run@, ended) == target(
                    old(memory)@,
                    old(self)@.files,
                    old(run)@,
                    given,
                ),
            decreases
                transport::ring_distance(run@.queue.last_avail_idx, run@.avail),
                (if ended is Some {
                    0int
                } else {
                    1int
                }),
        {
            match ended {
                Some((head, written)) => {
                    proof {
                        transport::lemma_ring_step(run@.queue.last_avail_idx, run@.avail);
                    }
                    match run.queue.write_used(memory, head, written) {
                        Ok(_) => {},
                        Err(e) => return FsStep::Finished(Err(FsError::Memory(e))),
                    }
                    run.queue.advance();
                    run.processed = true;
                    ended = None;
                },
                None => {
                    if run.queue.last_avail_idx == run.avail {
                        if run.processed {
                            return match run.queue.write_used_idx(memory) {
                                Ok(_) => FsStep::Finished(Ok(true)),
                                Err(e) => FsStep::Finished(Err(FsError::Memory(e))),
                            };
                        }
                        return FsStep::Finished(Ok(false));
                    }
                    let head: u16 = match run.queue.read_avail_head(memory) {
                        Ok(h) => h,
                        Err(e) => return FsStep::Finished(Err(FsError::Memory(e))),
                    };
                    match self.process_fuse_request(memory, &run.queue, head) {
                        OutcomeExec::Written(n) => {
                            ended = Some((head, n));
                        },
                        OutcomeExec::Ask(op, p) => {
                            run.active = Some(p);
                            return FsStep::Host(op);
                        },
                    }
                },
            }
        }
    }

    /// Starts to work on all that waits in a request queue.
    pub fn process_request_queue(&mut self, memory: &mut GuestMemory, queue: &VirtQueue) -> (r: (
        FsRun,
        FsStep,
    ))
        ensures
            ({
                let s = begun(old(memory)@, old(self)@.files, *queue);
                &&& final(memory)@ == s.mem
                &&& final(self)@ == (FsView { files: s.files, ..old(self)@ })
                &&& r.0@ == s.run
                &&& r.0.wf()
                &&& r.1.is_stop(s.stop)
            }),
    {
        let mut run = FsRun {
            queue: *queue,
            avail: queue.last_avail_idx,
            processed: false,
            active: None,
        };
        if !queue.is_usable() {
            return (run, FsStep::Finished(Ok(false)));
        }
        match queue.read_avail_idx(memory) {
            Ok(avail) => {
                run.avail = avail;
            },
            Err(e) => return (run, FsStep::Finished(Err(FsError::Memory(e)))),
        }
        let step = self.go_on(memory, &mut run, None);
        (run, step)
    }

    /// Goes on with the host's reply to the question that work stopped at.
    pub fn resume(&mut self, memory: &mut GuestMemory, run: &mut FsRun, reply: &HostReply) -> (r:
        FsStep)
        requires
            old(run).wf(),
        ensures
            final(run).wf(),
            ({
                let s = resumed(old(memory)@, old(self)@.files, old(run)@, reply@);
                &&& final(memory)@ == s.mem
                &&& final(self)@ == (FsView { files: s.files, ..old(self)@ })
                &&& final(run)@ == s.run
                &&& r.is_stop(s.stop)
            }),
    {
        let ghost before = run@;
        match run.active.take() {
            None => FsStep::Finished(Ok(run.processed)),
            Some(p) => {
                let data = self.files.inform(p.unique, &p.wait, reply);
                let n: u32 = Self::write_response_data(memory, &p.chain, data.as_slice());
                proof {
                    assert(run@ == (FsRunView { active: None, ..before }));
                    lemma_request_gone(memory@, self@.files, before, p.head, n);
                }
                self.go_on(memory, run, Some((p.head, n)))
            },
        }
    }

    /// Starts to work on the device's own queue `queue_idx`, if it is the
    /// request queue.
    pub fn begin_queue(&mut self, queue_idx: usize, memory: &mut GuestMemory) -> (r: Option<
        (FsRun, FsStep),
    >)
        ensures
            match r {
                Some((run, step)) => {
                    let s = begun(
                        old(memory)@,
                        old(self)@.files,
                        old(self)@.queues[REQUEST_QUEUE as int],
                    );
                    &&& queue_idx == REQUEST_QUEUE
                    &&& final(memory)@ == s.mem
                    &&& final(self)@ == (FsView { files: s.files, ..old(self)@ })
                    &&& run@ == s.run
                    &&& run.wf()
                    &&& step.is_stop(s.stop)
                },
                None => queue_idx != REQUEST_QUEUE && final(memory)@ == old(memory)@ && final(self)@
                    == old(self)@,
            },
    {
        if queue_idx != REQUEST_QUEUE {
            return None;
        }
        let queue = self.queues[REQUEST_QUEUE];
        Some(self.process_request_queue(memory, &queue))
    }

    /// Ends work on the device's own queue: takes over its positions, and says
    /// whether anything was handled. What went wrong counts as nothing handled.
    pub fn end_queue(&mut self, run: &FsRun, result: &Result<bool, FsError>) -> (r: bool)
        ensures
            final(self)@ == (FsView {
                queues: old(self)@.queues.update(
                    REQUEST_QUEUE as int,
                    old(self)@.queues[REQUEST_QUEUE as int].with_positions(run@.queue),
                ),
                ..old(self)@
            }),
            r == (match *result {
                Ok(b) => b,
                Err(_) => false,
            }),
    {
        let mut q = self.queues[REQUEST_QUEUE];
        q.last_avail_idx = run.queue.last_avail_idx;
        q.last_used_idx = run.queue.last_used_idx;
        self.queues[REQUEST_QUEUE] = q;
        match result {
            Ok(b) => *b,
            Err(_) => false,
        }
    }

    /// Reads the configuration space: the tag and the number of request queues.
    pub fn read_config(&self, offset: u64, data: &mut [u8])
        ensures
            final(data)@ == Seq::new(
                old(data)@.len(),
                |i: int|
                    transport::config_byte(
                        self@.tag + bytes::le32_bytes(1),
                        transport::round_position(offset, i),
                    ),
            ),
    {
        let mut config = vstd::slice::slice_to_vec(self.tag.as_slice());
        push_le32(&mut config, 1);
        read_config_round(config.as_slice(), offset, data);
    }

    /// Does nothing: the configuration space is read-only.
    pub fn write_config(&mut self, _offset: u64, _data: &[u8])
        ensures
            *final(self) == *old(self),
    {
    }

    /// The kind of the device.
    pub fn device_type(&self) -> (r: DeviceType)
        ensures
            r == DeviceType::Fs,
    {
        DeviceType::Fs
    }

    /// The features that the device offers.
    pub fn avail_features(&self) -> (r: u64)
        ensures
            r == VIRTIO_F_VERSION_1,
    {
        VIRTIO_F_VERSION_1
    }

    /// The features that the driver accepted.
    pub fn acked_features(&self) -> (r: u64)
        ensures
            r == self@.acked_features,
    {
        self.acked_features
    }

    /// Notes the features that the driver accepted.
    pub fn set_acked_features(&mut self, features: u64)
        ensures
            final(self)@ == (FsView { acked_features: features, ..old(self)@ }),
    {
        self.acked_features = features;
    }

    /// The queues: high priority, requests.
    pub fn queues(&self) -> (r: &[VirtQueue; 2])
        ensures
            r@ == self@.queues,
    {
        &self.queues
    }

    /// The queues, to be configured.
    pub fn queues_mut(&mut self) -> (r: &mut [VirtQueue; 2])
        ensures
            r@ == old(self)@.queues,
            final(self)@ == (FsView { queues: final(r)@, ..old(self)@ }),
    {
        &mut self.queues
    }

    /// Notes that the driver is ready.
    pub fn activate(&mut self) -> (r: Result<(), VirtioError>)
        ensures
            r == Ok::<(), VirtioError>(()),
            final(self)@ == (FsView { activated: true, ..old(self)@ }),
    {
        self.activated = true;
        Ok(())
    }

    /// Whether the driver is ready.
    pub fn is_activated(&self) -> (r: bool)
        ensures
            r == self@.activated,
    {
        self.activated
    }

    /// Forgets the driver.
    pub fn reset(&mut self)
        ensures
            final(self)@ == (FsView {
                activated: false,
                queues: Seq::new(
                    2,
                    |i: int| VirtQueue::spec_new(old(self)@.queues[i].max_size),
                ),
                ..old(self)@
            }),
    {
        self.activated = false;
        self.queues = [VirtQueue::new(self.queues[0].max_size), VirtQueue::new(self.queues[1].max_size)];
        assert(self.queues@ =~= Seq::new(
            2,
            |i: int| VirtQueue::spec_new(old(self)@.queues[i].max_size),
        ));
    }
}

/// Where work goes to with a request that has just been answered, or without
/// one.
pub open spec fn target(m: MemView, files: FuseView, run: FsRunView, ended: Option<(u16, u32)>) -> Stopped {
    match ended {
        Some((head, written)) => after_request(m, files, run, head, written),
        None => go_on(m, files, run),
    }
}

proof fn lemma_request_gone(m: MemView, files: FuseView, run: FsRunView, head: u16, written: u32)
    ensures
        after_request(m, files, run, head, written) == after_request(
            m,
            files,
            FsRunView { active: None, ..run },
            head,
            written,
        ),
{
}

/// A request that forgets a file has no answer: its chain comes back with
/// nothing stored.
pub proof fn law_forget_is_silent(m: MemView, files: FuseView, q: VirtQueue, head: u16)
    requires
        request_in(m, q, head) is Some,
        request_in(m, q, head)->Some_0.0.len() >= fuse::FUSE_IN_HEADER_SIZE,
        bytes::le32(request_in(m, q, head)->Some_0.0, 4) == fuse::FUSE_FORGET,
    ensures
        handled(m, files, q, head) == (m, files, Outcome::Written(0)),
{
    reveal(handled);
}

/// Whatever the queue holds, the files that the guest has heard of keep their
/// numbers.
pub proof fn law_queue_keeps_files(m: MemView, files: FuseView, run: FsRunView)
    ensures
        fuse::keeps_files(files, go_on(m, files, run).files),
    decreases transport::ring_distance(run.queue.last_avail_idx, run.avail), 1int,
{
    assert(files.inodes.subrange(0, files.inodes.len() as int) =~= files.inodes);
    if run.queue.last_avail_idx != run.avail {
        match run.queue.avail_head(m) {
            Err(_) => {},
            Ok(head) => {
                reveal(handled);
                let (m1, f1, o) = handled(m, files, run.queue, head);
                match request_in(m, run.queue, head) {
                    Some((req, chain)) => {
                        fuse::law_requests_keep_files(files, req);
                    },
                    None => {},
                }
                match o {
                    Outcome::Written(n) => {
                        let (m2, w) = run.queue.put_used(m1, head, n);
                        if w is Ok {
                            let r1 = FsRunView {
                                queue: run.queue.advanced(),
                                processed: true,
                                active: None,
                                ..run
                            };
                            law_queue_keeps_files(m2, f1, r1);
                            fuse::lemma_keeps_trans(files, f1, go_on(m2, f1, r1).files);
                        }
                    },
                    Outcome::Ask(_, _) => {},
                }
            },
        }
    }
}

} // verus!
