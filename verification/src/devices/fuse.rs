//! A read-only FUSE file system: requests, answers, inodes and file handles.
//!
//! What only the host can say (the kind of a file, its bytes, the entries of a
//! directory) is asked of the caller: a request that needs it waits for the
//! host's reply.

use crate::bytes::{
    self, get_le32, get_le64, push_bytes, push_le32, push_le64, zero_vec,
};
use crate::path::{self, is_same_path, join};
use crate::text::utf8_str;
use std::collections::HashMap;
use vstd::prelude::*;

verus! {

broadcast use vstd::std_specs::hash::group_hash_axioms;

/// The root directory's inode number.
pub const FUSE_ROOT_ID: u64 = 1;

pub const FUSE_LOOKUP: u32 = 1;

pub const FUSE_FORGET: u32 = 2;

pub const FUSE_GETATTR: u32 = 3;

pub const FUSE_OPEN: u32 = 14;

pub const FUSE_READ: u32 = 15;

pub const FUSE_RELEASE: u32 = 18;

pub const FUSE_INIT: u32 = 26;

pub const FUSE_OPENDIR: u32 = 27;

pub const FUSE_READDIR: u32 = 28;

pub const FUSE_RELEASEDIR: u32 = 29;

/// Size of a request's header in bytes.
pub const FUSE_IN_HEADER_SIZE: usize = 40;

/// Size of an answer's header in bytes.
pub const FUSE_OUT_HEADER_SIZE: usize = 16;

/// Largest number of bytes that one request reads.
pub const MAX_READ: usize = 0x2_0000;

pub const ENOENT: i32 = -2;

pub const ENOSYS: i32 = -38;

pub const ENOTDIR: i32 = -20;

pub const EBADF: i32 = -9;

pub const EISDIR: i32 = -21;

/// Kind of a directory entry: directory.
pub const DT_DIR: u32 = 4;

/// Kind of a directory entry: anything else.
pub const DT_REG: u32 = 8;

/// What the host knows of a file.
#[derive(Debug, Clone, Copy, PartialEq, Eq, Structural)]
pub struct FileMeta {
    pub is_dir: bool,
    pub size: u64,
    pub mode: u32,
}

/// A file that the guest has heard of. Its number is its place in the table,
/// counted from one.
#[derive(Debug)]
pub struct InodeEntry {
    pub path: Vec<u8>,
    pub meta: FileMeta,
}

/// A file that the guest has heard of, as a model.
#[verifier::ext_equal]
pub struct InodeView {
    pub path: Seq<u8>,
    pub meta: FileMeta,
}

impl View for InodeEntry {
    type V = InodeView;

    open spec fn view(&self) -> InodeView {
        InodeView { path: self.path@, meta: self.meta }
    }
}

/// An entry of a directory on the host.
#[derive(Debug)]
pub struct DirEntry {
    pub name: Vec<u8>,
    pub is_dir: bool,
    /// What the host knows of the entry's file, if it can tell.
    pub meta: Option<FileMeta>,
}

/// An entry of a directory on the host, as a model.
#[verifier::ext_equal]
pub struct DirEntryView {
    pub name: Seq<u8>,
    pub is_dir: bool,
    pub meta: Option<FileMeta>,
}

impl View for DirEntry {
    type V = DirEntryView;

    open spec fn view(&self) -> DirEntryView {
        DirEntryView { name: self.name@, is_dir: self.is_dir, meta: self.meta }
    }
}

/// A question to the host.
#[derive(Debug)]
pub enum HostOp {
    /// What is this file?
    Stat(Vec<u8>),
    /// What are the file's bytes from this offset on, up to this number?
    Read(Vec<u8>, u64, usize),
    /// What is in this directory?
    List(Vec<u8>),
}

/// A question to the host, as a model.
#[verifier::ext_equal]
pub enum HostOpView {
    Stat(Seq<u8>),
    Read(Seq<u8>, u64, usize),
    List(Seq<u8>),
}

impl View for HostOp {
    type V = HostOpView;

    open spec fn view(&self) -> HostOpView {
        match self {
            HostOp::Stat(p) => HostOpView::Stat(p@),
            HostOp::Read(p, o, n) => HostOpView::Read(p@, *o, *n),
            HostOp::List(p) => HostOpView::List(p@),
        }
    }
}

/// The host's reply.
#[derive(Debug)]
pub enum HostReply {
    /// There is no such file or directory, or it cannot be opened.
    Missing,
    /// The file is there but cannot be read.
    Unreadable,
    Meta(FileMeta),
    Data(Vec<u8>),
    Entries(Vec<DirEntry>),
}

/// The host's reply, as a model.
#[verifier::ext_equal]
pub enum HostReplyView {
    Missing,
    Unreadable,
    Meta(FileMeta),
    Data(Seq<u8>),
    Entries(Seq<DirEntryView>),
}

/// The models of directory entries.
pub open spec fn entry_views(v: Seq<DirEntry>) -> Seq<DirEntryView> {
    Seq::new(v.len(), |i: int| v[i]@)
}

impl View for HostReply {
    type V = HostReplyView;

    open spec fn view(&self) -> HostReplyView {
        match self {
            HostReply::Missing => HostReplyView::Missing,
            HostReply::Unreadable => HostReplyView::Unreadable,
            HostReply::Meta(m) => HostReplyView::Meta(*m),
            HostReply::Data(d) => HostReplyView::Data(d@),
            HostReply::Entries(e) => HostReplyView::Entries(entry_views(e@)),
        }
    }
}

/// What a request waits for.
#[derive(Debug)]
pub enum Wait {
    /// The kind of the file at this path.
    Lookup(Vec<u8>),
    /// Bytes of a file.
    Read,
    /// The entries of the directory at this path, of which so many are known
    /// and so many bytes fit.
    List(Vec<u8>, u64, u32),
}

/// What a request waits for, as a model.
#[verifier::ext_equal]
pub enum WaitView {
    Lookup(Seq<u8>),
    Read,
    List(Seq<u8>, u64, u32),
}

impl View for Wait {
    type V = WaitView;

    open spec fn view(&self) -> WaitView {
        match self {
            Wait::Lookup(p) => WaitView::Lookup(p@),
            Wait::Read => WaitView::Read,
            Wait::List(p, o, n) => WaitView::List(p@, *o, *n),
        }
    }
}

/// What becomes of a request.
#[verifier::ext_equal]
pub enum AnswerView {
    Reply(Seq<u8>),
    /// There is no answer.
    Silent,
    /// The host is asked first, on behalf of the request with this number.
    Ask(HostOpView, u64, WaitView),
}

/// What becomes of a request.
#[derive(Debug)]
pub enum Answer {
    Reply(Vec<u8>),
    /// There is no answer.
    Silent,
    /// The host is asked first, on behalf of the request with this number.
    Ask(HostOp, u64, Wait),
}

impl View for Answer {
    type V = AnswerView;

    open spec fn view(&self) -> AnswerView {
        match self {
            Answer::Reply(v) => AnswerView::Reply(v@),
            Answer::Silent => AnswerView::Silent,
            Answer::Ask(op, u, w) => AnswerView::Ask(op@, *u, w@),
        }
    }
}

/// `n` zero bytes.
pub open spec fn zeros(n: nat) -> Seq<u8> {
    Seq::new(n, |i: int| 0u8)
}

/// An answer that reports an error.
#[verifier::opaque]
pub open spec fn error_reply(unique: u64, error: i32) -> Seq<u8> {
    bytes::le32_bytes(16) + bytes::le32_bytes(error as u32) + bytes::le64_bytes(unique)
}

/// An answer with a payload.
#[verifier::opaque]
pub open spec fn reply(unique: u64, payload: Seq<u8>) -> Seq<u8> {
    let total = 16 + payload.len();
    bytes::le32_bytes(
        if total <= u32::MAX {
            total as u32
        } else {
            0
        },
    ) + zeros(4) + bytes::le64_bytes(unique) + payload
}

/// The payload that opens a session: protocol 7.31, 128 KiB at a time.
#[verifier::opaque]
pub open spec fn init_payload() -> Seq<u8> {
    bytes::le32_bytes(7) + bytes::le32_bytes(31) + bytes::le32_bytes(0x2_0000) + zeros(8)
        + bytes::le32_bytes(0x2_0000) + zeros(40)
}

/// The number of 512-byte blocks that `size` bytes take.
pub open spec fn blocks(size: u64) -> u64 {
    ((size + 511) / 512) as u64
}

/// The attributes of file `ino`.
#[verifier::opaque]
pub open spec fn attr(ino: u64, meta: FileMeta) -> Seq<u8> {
    bytes::le64_bytes(ino) + bytes::le64_bytes(meta.size) + bytes::le64_bytes(blocks(meta.size))
        + zeros(16) + bytes::le32_bytes(meta.mode) + bytes::le32_bytes(
        if meta.is_dir {
            2
        } else {
            1
        },
    ) + zeros(40)
}

/// The payload that gives a file's attributes, valid for one second.
#[verifier::opaque]
pub open spec fn attr_payload(ino: u64, meta: FileMeta) -> Seq<u8> {
    bytes::le64_bytes(1) + zeros(8) + attr(ino, meta)
}

/// The payload that names a file, valid for one second.
#[verifier::opaque]
pub open spec fn entry_payload(ino: u64, meta: FileMeta) -> Seq<u8> {
    bytes::le64_bytes(ino) + zeros(8) + bytes::le64_bytes(1) + bytes::le64_bytes(1) + zeros(8)
        + attr(ino, meta)
}

/// The payload that gives a file handle.
#[verifier::opaque]
pub open spec fn open_payload(fh: u64) -> Seq<u8> {
    bytes::le64_bytes(fh) + zeros(8)
}

/// A directory entry as the guest reads it: the name is filled up to a
/// multiple of eight bytes.
#[verifier::opaque]
pub open spec fn dirent(ino: u64, off: u64, is_dir: bool, name: Seq<u8>) -> Seq<u8> {
    bytes::le64_bytes(ino) + bytes::le64_bytes(off) + bytes::le32_bytes(
        if name.len() <= u32::MAX {
            name.len() as u32
        } else {
            0
        },
    ) + bytes::le32_bytes(
        if is_dir {
            DT_DIR
        } else {
            DT_REG
        },
    ) + name + zeros(((name.len() + 7) / 8 * 8 - name.len()) as nat)
}

/// A file system's memory of what the guest has heard of and opened.
#[verifier::ext_equal]
pub struct FuseView {
    pub inodes: Seq<InodeView>,
    pub next_fh: u64,
    pub handles: Map<u64, u64>,
}

/// Index of the first file from `i` on with this path, or the number of files.
pub open spec fn find_path(inodes: Seq<InodeView>, p: Seq<u8>, i: int) -> int
    decreases inodes.len() - i,
{
    if i >= inodes.len() {
        inodes.len() as int
    } else if path::same_path(inodes[i].path, p) {
        i
    } else {
        find_path(inodes, p, i + 1)
    }
}

/// The bytes up to the first zero byte from `i` on, or all.
pub open spec fn zero_from(s: Seq<u8>, i: int) -> int
    decreases s.len() - i,
{
    if i >= s.len() {
        s.len() as int
    } else if s[i] == 0 {
        i
    } else {
        zero_from(s, i + 1)
    }
}

impl FuseView {
    /// Whether there is a file with this number.
    pub open spec fn knows(self, ino: u64) -> bool {
        1 <= ino <= self.inodes.len()
    }

    /// The file with this number.
    pub open spec fn file(self, ino: u64) -> InodeView {
        self.inodes[ino - 1]
    }

    /// The files with the one at `p` among them, and its number (zero: there is
    /// no such file).
    pub open spec fn with_file(self, p: Seq<u8>, meta: Option<FileMeta>) -> (FuseView, u64) {
        let i = find_path(self.inodes, p, 0);
        if i < self.inodes.len() {
            (self, (i + 1) as u64)
        } else {
            match meta {
                Some(m) => (
                    FuseView { inodes: self.inodes.push(InodeView { path: p, meta: m }), ..self },
                    (self.inodes.len() + 1) as u64,
                ),
                None => (self, 0),
            }
        }
    }

    /// The files with a new handle for file `ino`.
    pub open spec fn with_handle(self, ino: u64) -> FuseView {
        FuseView {
            handles: self.handles.insert(self.next_fh, ino),
            next_fh: if self.next_fh == u64::MAX {
                0
            } else {
                (self.next_fh + 1) as u64
            },
            ..self
        }
    }

    /// Resolves a name in a directory.
    pub open spec fn lookup(self, unique: u64, parent: u64, data: Seq<u8>) -> AnswerView {
        if !self.knows(parent) {
            AnswerView::Reply(error_reply(unique, ENOENT))
        } else if !self.file(parent).meta.is_dir {
            AnswerView::Reply(error_reply(unique, ENOTDIR))
        } else {
            let name = data.subrange(0, zero_from(data, 0));
            if !vstd::utf8::valid_utf8(name) {
                AnswerView::Reply(error_reply(unique, ENOENT))
            } else {
                let p = path::joined(self.file(parent).path, name);
                let i = find_path(self.inodes, p, 0);
                if i < self.inodes.len() {
                    AnswerView::Reply(
                        reply(unique, entry_payload((i + 1) as u64, self.inodes[i].meta)),
                    )
                } else {
                    AnswerView::Ask(HostOpView::Stat(p), unique, WaitView::Lookup(p))
                }
            }
        }
    }

    /// Gives a file's attributes.
    pub open spec fn getattr(self, unique: u64, ino: u64) -> AnswerView {
        if !self.knows(ino) {
            AnswerView::Reply(error_reply(unique, ENOENT))
        } else {
            AnswerView::Reply(reply(unique, attr_payload(ino, self.file(ino).meta)))
        }
    }

    /// Opens a file, or a directory if `dir`.
    pub open spec fn open(self, unique: u64, ino: u64, dir: bool) -> (FuseView, AnswerView) {
        if !self.knows(ino) {
            (self, AnswerView::Reply(error_reply(unique, ENOENT)))
        } else if self.file(ino).meta.is_dir != dir {
            (
                self,
                AnswerView::Reply(
                    error_reply(
                        unique,
                        if dir {
                            ENOTDIR
                        } else {
                            EISDIR
                        },
                    ),
                ),
            )
        } else {
            (
                self.with_handle(ino),
                AnswerView::Reply(reply(unique, open_payload(self.next_fh))),
            )
        }
    }

    /// Reads from an open file.
    pub open spec fn read(self, unique: u64, data: Seq<u8>) -> AnswerView {
        if data.len() < 40 {
            AnswerView::Reply(error_reply(unique, ENOSYS))
        } else {
            let fh = bytes::le64(data, 0);
            let size = bytes::le32(data, 16);
            if !self.handles.contains_key(fh) {
                AnswerView::Reply(error_reply(unique, EBADF))
            } else if !self.knows(self.handles[fh]) {
                AnswerView::Reply(error_reply(unique, ENOENT))
            } else {
                AnswerView::Ask(
                    HostOpView::Read(
                        self.file(self.handles[fh]).path,
                        bytes::le64(data, 8),
                        if (size as usize) < MAX_READ {
                            size as usize
                        } else {
                            MAX_READ
                        },
                    ),
                    unique,
                    WaitView::Read,
                )
            }
        }
    }

    /// Lists an open directory.
    pub open spec fn readdir(self, unique: u64, data: Seq<u8>) -> AnswerView {
        if data.len() < 40 {
            AnswerView::Reply(error_reply(unique, ENOSYS))
        } else {
            let fh = bytes::le64(data, 0);
            if !self.handles.contains_key(fh) {
                AnswerView::Reply(error_reply(unique, EBADF))
            } else if !self.knows(self.handles[fh]) {
                AnswerView::Reply(error_reply(unique, ENOENT))
            } else if !self.file(self.handles[fh]).meta.is_dir {
                AnswerView::Reply(error_reply(unique, ENOTDIR))
            } else {
                let p = self.file(self.handles[fh]).path;
                AnswerView::Ask(
                    HostOpView::List(p),
                    unique,
                    WaitView::List(p, bytes::le64(data, 8), bytes::le32(data, 16)),
                )
            }
        }
    }

    /// Closes a handle.
    pub open spec fn release(self, unique: u64, data: Seq<u8>) -> (FuseView, AnswerView) {
        (
            if data.len() >= 8 {
                FuseView { handles: self.handles.remove(bytes::le64(data, 0)), ..self }
            } else {
                self
            },
            AnswerView::Reply(reply(unique, Seq::empty())),
        )
    }

    /// Handles a request: its operation is at byte 4, its number at byte 8, the
    /// file it is about at byte 16, and its arguments are behind the header.
    pub open spec fn requested(self, req: Seq<u8>) -> (FuseView, AnswerView) {
        if req.len() < FUSE_IN_HEADER_SIZE {
            (self, AnswerView::Reply(error_reply(0, ENOSYS)))
        } else {
            let op = bytes::le32(req, 4);
            let unique = bytes::le64(req, 8);
            let ino = bytes::le64(req, 16);
            let data = req.skip(FUSE_IN_HEADER_SIZE as int);
            if op == FUSE_INIT {
                (self, AnswerView::Reply(reply(unique, init_payload())))
            } else if op == FUSE_LOOKUP {
                (self, self.lookup(unique, ino, data))
            } else if op == FUSE_GETATTR {
                (self, self.getattr(unique, ino))
            } else if op == FUSE_OPEN {
                self.open(unique, ino, false)
            } else if op == FUSE_OPENDIR {
                self.open(unique, ino, true)
            } else if op == FUSE_READ {
                (self, self.read(unique, data))
            } else if op == FUSE_READDIR {
                (self, self.readdir(unique, data))
            } else if op == FUSE_RELEASE || op == FUSE_RELEASEDIR {
                self.release(unique, data)
            } else if op == FUSE_FORGET {
                (self, AnswerView::Silent)
            } else {
                (self, AnswerView::Reply(error_reply(unique, ENOSYS)))
            }
        }
    }

    /// The directory entries from `k` on that were not read before, as far as
    /// they fit into `max` bytes together with `buf`. The files of the entries
    /// become known, that of the first that does not fit among them.
    pub open spec fn listed(
        self,
        base: Seq<u8>,
        entries: Seq<DirEntryView>,
        k: int,
        offset: u64,
        max: u32,
        buf: Seq<u8>,
    ) -> (FuseView, Seq<u8>)
        decreases entries.len() - k,
    {
        if k >= entries.len() || k < 0 {
            (self, buf)
        } else if k + 1 <= offset {
            self.listed(base, entries, k + 1, offset, max, buf)
        } else {
            let e = entries[k];
            let (s, ino) = self.with_file(path::joined(base, e.name), e.meta);
            let d = dirent(ino, (k + 1) as u64, e.is_dir, e.name);
            if buf.len() + d.len() > max {
                (s, buf)
            } else {
                s.listed(base, entries, k + 1, offset, max, buf + d)
            }
        }
    }

    /// Answers the waiting request `unique` with the host's reply.
    pub open spec fn informed(self, unique: u64, wait: WaitView, r: HostReplyView) -> (
        FuseView,
        Seq<u8>,
    ) {
        match (wait, r) {
            (WaitView::Lookup(p), HostReplyView::Meta(m)) => {
                let (s, ino) = self.with_file(p, Some(m));
                (s, reply(unique, entry_payload(ino, s.file(ino).meta)))
            },
            (WaitView::Read, HostReplyView::Data(d)) => (self, reply(unique, d)),
            (WaitView::Read, HostReplyView::Unreadable) => (self, error_reply(unique, EBADF)),
            (WaitView::List(p, offset, max), HostReplyView::Entries(e)) => {
                let (s, buf) = self.listed(p, e, 0, offset, max, Seq::empty());
                (s, reply(unique, buf))
            },
            _ => (self, error_reply(unique, ENOENT)),
        }
    }
}

fn push_zeros(out: &mut Vec<u8>, n: usize)
    ensures
        final(out)@ == old(out)@ + zeros(n as nat),
{
    push_bytes(out, zero_vec(n).as_slice());
}

/// An answer that reports an error.
fn make_error_response(unique: u64, error: i32) -> (r: Vec<u8>)
    ensures
        r@ == error_reply(unique, error),
{
    proof {
        reveal(error_reply);
    }
    let mut r: Vec<u8> = Vec::new();
    push_le32(&mut r, 16);
    assert(r@ =~= bytes::le32_bytes(16));
    push_le32(&mut r, error as u32);
    push_le64(&mut r, unique);
    r
}

/// An answer with a payload.
fn make_response(unique: u64, payload: &[u8]) -> (r: Vec<u8>)
    ensures
        r@ == reply(unique, payload@),
{
    proof {
        reveal(reply);
    }
    let n: usize = payload.len();
    let total: u32 = if n <= (u32::MAX - 16) as usize {
        n as u32 + 16
    } else {
        0
    };
    let mut r: Vec<u8> = Vec::new();
    push_le32(&mut r, total);
    assert(r@ =~= bytes::le32_bytes(total));
    push_zeros(&mut r, 4);
    push_le64(&mut r, unique);
    push_bytes(&mut r, payload);
    r
}

fn handle_init(unique: u64) -> (r: Vec<u8>)
    ensures
        r@ == reply(unique, init_payload()),
{
    proof {
        reveal(init_payload);
    }
    let mut p: Vec<u8> = Vec::new();
    push_le32(&mut p, 7);
    assert(p@ =~= bytes::le32_bytes(7));
    push_le32(&mut p, 31);
    push_le32(&mut p, 0x2_0000);
    push_zeros(&mut p, 8);
    push_le32(&mut p, 0x2_0000);
    push_zeros(&mut p, 40);
    make_response(unique, p.as_slice())
}

fn block_count(size: u64) -> (r: u64)
    ensures
        r == blocks(size),
{
    let whole: u64 = size / 512;
    if size % 512 == 0 {
        whole
    } else {
        whole + 1
    }
}

/// Appends the attributes of file `ino`.
fn write_fuse_attr(out: &mut Vec<u8>, ino: u64, meta: &FileMeta)
    ensures
        final(out)@ == old(out)@ + attr(ino, *meta),
{
    proof {
        reveal(attr);
    }
    let count: u64 = block_count(meta.size);
    let mut r: Vec<u8> = Vec::new();
    push_le64(&mut r, ino);
    assert(r@ =~= bytes::le64_bytes(ino));
    push_le64(&mut r, meta.size);
    push_le64(&mut r, count);
    push_zeros(&mut r, 16);
    push_le32(&mut r, meta.mode);
    push_le32(
        &mut r,
        if meta.is_dir {
            2
        } else {
            1
        },
    );
    push_zeros(&mut r, 40);
    push_bytes(out, r.as_slice());
}

/// The payload that names a file.
fn make_entry_out(ino: u64, meta: &FileMeta) -> (r: Vec<u8>)
    ensures
        r@ == entry_payload(ino, *meta),
{
    proof {
        reveal(entry_payload);
    }
    let mut p: Vec<u8> = Vec::new();
    push_le64(&mut p, ino);
    assert(p@ =~= bytes::le64_bytes(ino));
    push_zeros(&mut p, 8);
    push_le64(&mut p, 1);
    push_le64(&mut p, 1);
    push_zeros(&mut p, 8);
    write_fuse_attr(&mut p, ino, meta);
    p
}

proof fn lemma_padding(n: nat)
    ensures
        (n + 7) / 8 * 8 - n == (8 - n % 8) % 8,
{
}

/// A directory entry as the guest reads it.
fn make_dirent(ino: u64, off: u64, is_dir: bool, name: &[u8]) -> (r: Vec<u8>)
    ensures
        r@ == dirent(ino, off, is_dir, name@),
{
    proof {
        reveal(dirent);
    }
    let n: usize = name.len();
    let short: u32 = if n <= u32::MAX as usize {
        n as u32
    } else {
        0
    };
    let mut r: Vec<u8> = Vec::new();
    push_le64(&mut r, ino);
    assert(r@ =~= bytes::le64_bytes(ino));
    push_le64(&mut r, off);
    push_le32(&mut r, short);
    push_le32(
        &mut r,
        if is_dir {
            DT_DIR
        } else {
            DT_REG
        },
    );
    push_bytes(&mut r, name);
    let pad: usize = (8 - n % 8) % 8;
    push_zeros(&mut r, pad);
    proof {
        lemma_padding(n as nat);
    }
    r
}

/// A file system's memory of what the guest has heard of and opened.
#[derive(Debug)]
pub struct FuseState {
    inodes: Vec<InodeEntry>,
    next_fh: u64,
    open_handles: HashMap<u64, u64>,
}

impl View for FuseState {
    type V = FuseView;

    closed spec fn view(&self) -> FuseView {
        FuseView {
            inodes: Seq::new(self.inodes@.len(), |i: int| self.inodes@[i]@),
            next_fh: self.next_fh,
            handles: self.open_handles@,
        }
    }
}

impl FuseState {
    /// A file system whose root is at `root`.
    pub fn new(root: &[u8], meta: FileMeta) -> (r: Self)
        ensures
            r@ == (FuseView {
                inodes: seq![InodeView { path: root@, meta }],
                next_fh: 1,
                handles: Map::empty(),
            }),
    {
        let mut inodes: Vec<InodeEntry> = Vec::new();
        inodes.push(InodeEntry { path: vstd::slice::slice_to_vec(root), meta });
        let r = FuseState { inodes, next_fh: 1, open_handles: HashMap::new() };
        assert(r@.inodes =~= seq![InodeView { path: root@, meta }]);
        r
    }

    fn find(&self, p: &[u8]) -> (r: usize)
        ensures
            r == find_path(self@.inodes, p@, 0),
            r <= self@.inodes.len(),
    {
        let n: usize = self.inodes.len();
        let mut i: usize = 0;
        while i < n
            invariant
                i <= n,
                n == self@.inodes.len(),
                n == self.inodes@.len(),
                find_path(self@.inodes, p@, 0) == find_path(self@.inodes, p@, i as int),
            decreases n - i,
        {
            if is_same_path(self.inodes[i].path.as_slice(), p) {
                return i;
            }
            i = i + 1;
        }
        n
    }

    fn knows(&self, ino: u64) -> (r: bool)
        ensures
            r == self@.knows(ino),
    {
        1 <= ino && ino <= self.inodes.len() as u64
    }

    fn file(&self, ino: u64) -> (r: &InodeEntry)
        requires
            self@.knows(ino),
        ensures
            r@ == self@.file(ino),
    {
        assert(self.inodes@.len() == self.inodes.len());
        &self.inodes[(ino - 1) as usize]
    }

    /// The number of the file at `p`, which becomes known if the host knows it.
    fn get_or_create_inode(&mut self, p: &[u8], meta: Option<FileMeta>) -> (r: Option<u64>)
        ensures
            ({
                let (s, ino) = old(self)@.with_file(p@, meta);
                &&& final(self)@ == s
                &&& match r {
                    Some(n) => n == ino && n != 0 && s.knows(n),
                    None => ino == 0,
                }
            }),
            meta is Some ==> r is Some,
    {
        let i: usize = self.find(p);
        if i < self.inodes.len() {
            return Some(i as u64 + 1);
        }
        match meta {
            Some(m) => {
                self.inodes.push(InodeEntry { path: vstd::slice::slice_to_vec(p), meta: m });
                assert(self@.inodes =~= old(self)@.inodes.push(InodeView { path: p@, meta: m }));
                Some(self.inodes.len() as u64)
            },
            None => None,
        }
    }

    /// A new handle for file `ino`.
    fn alloc_handle(&mut self, ino: u64) -> (r: u64)
        ensures
            r == old(self)@.next_fh,
            final(self)@ == old(self)@.with_handle(ino),
    {
        let fh: u64 = self.next_fh;
        self.next_fh = self.next_fh.wrapping_add(1);
        self.open_handles.insert(fh, ino);
        fh
    }

    fn handle_lookup(&self, unique: u64, parent: u64, data: &[u8]) -> (r: Answer)
        ensures
            r@ == self@.lookup(unique, parent, data@),
    {
        if !self.knows(parent) {
            return Answer::Reply(make_error_response(unique, ENOENT));
        }
        let dir = self.file(parent);
        if !dir.meta.is_dir {
            return Answer::Reply(make_error_response(unique, ENOTDIR));
        }
        let end: usize = find_zero(data);
        let name = vstd::slice::slice_subrange(data, 0, end);
        if utf8_str(name).is_none() {
            return Answer::Reply(make_error_response(unique, ENOENT));
        }
        let p = join(dir.path.as_slice(), name);
        let i: usize = self.find(p.as_slice());
        if i < self.inodes.len() {
            let payload = make_entry_out(i as u64 + 1, &self.inodes[i].meta);
            return Answer::Reply(make_response(unique, payload.as_slice()));
        }
        let q = vstd::slice::slice_to_vec(p.as_slice());
        Answer::Ask(HostOp::Stat(p), unique, Wait::Lookup(q))
    }

    fn handle_getattr(&self, unique: u64, ino: u64) -> (r: Answer)
        ensures
            r@ == self@.getattr(unique, ino),
    {
        if !self.knows(ino) {
            return Answer::Reply(make_error_response(unique, ENOENT));
        }
        let mut p: Vec<u8> = Vec::new();
        push_le64(&mut p, 1);
        assert(p@ =~= bytes::le64_bytes(1));
        push_zeros(&mut p, 8);
        let entry = self.file(ino);
        write_fuse_attr(&mut p, ino, &entry.meta);
        proof {
            reveal(attr_payload);
        }
        Answer::Reply(make_response(unique, p.as_slice()))
    }

    fn handle_open(&mut self, unique: u64, ino: u64, dir: bool) -> (r: Answer)
        ensures
            (final(self)@, r@) == old(self)@.open(unique, ino, dir),
    {
        if !self.knows(ino) {
            return Answer::Reply(make_error_response(unique, ENOENT));
        }
        if self.file(ino).meta.is_dir != dir {
            return Answer::Reply(
                make_error_response(
                    unique,
                    if dir {
                        ENOTDIR
                    } else {
                        EISDIR
                    },
                ),
            );
        }
        let fh: u64 = self.alloc_handle(ino);
        let mut p: Vec<u8> = Vec::new();
        push_le64(&mut p, fh);
        assert(p@ =~= bytes::le64_bytes(fh));
        push_zeros(&mut p, 8);
        proof {
            reveal(open_payload);
        }
        Answer::Reply(make_response(unique, p.as_slice()))
    }

    fn handle_read(&self, unique: u64, data: &[u8]) -> (r: Answer)
        ensures
            r@ == self@.read(unique, data@),
    {
        if data.len() < 40 {
            return Answer::Reply(make_error_response(unique, ENOSYS));
        }
        let fh: u64 = get_le64(data, 0);
        let offset: u64 = get_le64(data, 8);
        let size: usize = get_le32(data, 16) as usize;
        let ino: u64 = match self.open_handles.get(&fh) {
            Some(i) => *i,
            None => return Answer::Reply(make_error_response(unique, EBADF)),
        };
        if !self.knows(ino) {
            return Answer::Reply(make_error_response(unique, ENOENT));
        }
        let p = vstd::slice::slice_to_vec(self.file(ino).path.as_slice());
        let n: usize = if size < MAX_READ {
            size
        } else {
            MAX_READ
        };
        Answer::Ask(HostOp::Read(p, offset, n), unique, Wait::Read)
    }

    /// Lists an open directory: the host is asked for its entries, and
    /// [`Self::inform`] makes the answer of them.
    pub fn handle_readdir(&self, unique: u64, data: &[u8]) -> (r: Answer)
        ensures
            r@ == self@.readdir(unique, data@),
    {
        if data.len() < 40 {
            return Answer::Reply(make_error_response(unique, ENOSYS));
        }
        let fh: u64 = get_le64(data, 0);
        let offset: u64 = get_le64(data, 8);
        let size: u32 = get_le32(data, 16);
        let ino: u64 = match self.open_handles.get(&fh) {
            Some(i) => *i,
            None => return Answer::Reply(make_error_response(unique, EBADF)),
        };
        if !self.knows(ino) {
            return Answer::Reply(make_error_response(unique, ENOENT));
        }
        let dir = self.file(ino);
        if !dir.meta.is_dir {
            return Answer::Reply(make_error_response(unique, ENOTDIR));
        }
        let p = vstd::slice::slice_to_vec(dir.path.as_slice());
        let q = vstd::slice::slice_to_vec(dir.path.as_slice());
        Answer::Ask(HostOp::List(p), unique, Wait::List(q, offset, size))
    }

    fn handle_release(&mut self, unique: u64, data: &[u8]) -> (r: Answer)
        ensures
            (final(self)@, r@) == old(self)@.release(unique, data@),
    {
        if data.len() >= 8 {
            let fh: u64 = get_le64(data, 0);
            let _ = self.open_handles.remove(&fh);
        }
        let none: Vec<u8> = Vec::new();
        assert(none@ =~= Seq::<u8>::empty());
        Answer::Reply(make_response(unique, none.as_slice()))
    }

    /// Handles a request.
    pub fn request(&mut self, req: &[u8]) -> (r: Answer)
        ensures
            (final(self)@, r@) == old(self)@.requested(req@),
    {
        if req.len() < FUSE_IN_HEADER_SIZE {
            return Answer::Reply(make_error_response(0, ENOSYS));
        }
        let op: u32 = get_le32(req, 4);
        let unique: u64 = get_le64(req, 8);
        let ino: u64 = get_le64(req, 16);
        let data = vstd::slice::slice_subrange(req, FUSE_IN_HEADER_SIZE, req.len());
        assert(data@ =~= req@.skip(FUSE_IN_HEADER_SIZE as int));
        if op == FUSE_INIT {
            Answer::Reply(handle_init(unique))
        } else if op == FUSE_LOOKUP {
            self.handle_lookup(unique, ino, data)
        } else if op == FUSE_GETATTR {
            self.handle_getattr(unique, ino)
        } else if op == FUSE_OPEN {
            self.handle_open(unique, ino, false)
        } else if op == FUSE_OPENDIR {
            self.handle_open(unique, ino, true)
        } else if op == FUSE_READ {
            self.handle_read(unique, data)
        } else if op == FUSE_READDIR {
            self.handle_readdir(unique, data)
        } else if op == FUSE_RELEASE || op == FUSE_RELEASEDIR {
            self.handle_release(unique, data)
        } else if op == FUSE_FORGET {
            Answer::Silent
        } else {
            Answer::Reply(make_error_response(unique, ENOSYS))
        }
    }

    /// Builds the list of directory entries that were not read before.
    fn list(&mut self, base: &[u8], entries: &Vec<DirEntry>, offset: u64, max: u32) -> (r: Vec<u8>)
        ensures
            (final(self)@, r@) == old(self)@.listed(
                base@,
                entry_views(entries@),
                0,
                offset,
                max,
                Seq::empty(),
            ),
    {
        let mut buf: Vec<u8> = Vec::new();
        let mut k: usize = 0;
        while k < entries.len()
            invariant
                k <= entries@.len(),
                self@.listed(base@, entry_views(entries@), k as int, offset, max, buf@) == old(
                    self,
                )@.listed(base@, entry_views(entries@), 0, offset, max, Seq::empty()),
            decreases entries@.len() - k,
        {
            let off: u64 = k as u64 + 1;
            if off > offset {
                let e = &entries[k];
                let p = join(base, e.name.as_slice());
                let ino: u64 = match self.get_or_create_inode(p.as_slice(), e.meta) {
                    Some(n) => n,
                    None => 0,
                };
                let d = make_dirent(ino, off, e.is_dir, e.name.as_slice());
                if d.len() > max as usize || buf.len() > max as usize - d.len() {
                    return buf;
                }
                push_bytes(&mut buf, d.as_slice());
            }
            k = k + 1;
        }
        buf
    }

    /// Answers the waiting request `unique` with the host's reply.
    pub fn inform(&mut self, unique: u64, wait: &Wait, reply: &HostReply) -> (r: Vec<u8>)
        ensures
            (final(self)@, r@) == old(self)@.informed(unique, wait@, reply@),
    {
        match (wait, reply) {
            (Wait::Lookup(p), HostReply::Meta(m)) => {
                match self.get_or_create_inode(p.as_slice(), Some(*m)) {
                    Some(ino) => {
                        let payload = make_entry_out(ino, &self.file(ino).meta);
                        make_response(unique, payload.as_slice())
                    },
                    None => make_error_response(unique, ENOENT),
                }
            },
            (Wait::Read, HostReply::Data(d)) => make_response(unique, d.as_slice()),
            (Wait::Read, HostReply::Unreadable) => make_error_response(unique, EBADF),
            (Wait::List(p, offset, max), HostReply::Entries(e)) => {
                let buf = self.list(p.as_slice(), e, *offset, *max);
                make_response(unique, buf.as_slice())
            },
            _ => make_error_response(unique, ENOENT),
        }
    }
}

pub fn find_zero(s: &[u8]) -> (r: usize)
    ensures
        r == zero_from(s@, 0),
        r <= s@.len(),
{
    let mut i: usize = 0;
    while i < s.len()
        invariant
            i <= s@.len(),
            zero_from(s@, 0) == zero_from(s@, i as int),
        decreases s@.len() - i,
    {
        if s[i] == 0 {
            return i;
        }
        i = i + 1;
    }
    i
}

/// Every file that is known stays known under its number.
pub open spec fn keeps_files(before: FuseView, after: FuseView) -> bool {
    before.inodes.len() <= after.inodes.len() && after.inodes.subrange(
        0,
        before.inodes.len() as int,
    ) == before.inodes
}

pub proof fn lemma_keeps_trans(a: FuseView, b: FuseView, c: FuseView)
    requires
        keeps_files(a, b),
        keeps_files(b, c),
    ensures
        keeps_files(a, c),
{
    let n = a.inodes.len() as int;
    assert(c.inodes.subrange(0, n) =~= c.inodes.subrange(0, b.inodes.len() as int).subrange(0, n));
}

proof fn lemma_with_file_keeps(s: FuseView, p: Seq<u8>, meta: Option<FileMeta>)
    ensures
        keeps_files(s, s.with_file(p, meta).0),
{
    assert(s.inodes.subrange(0, s.inodes.len() as int) =~= s.inodes);
    match meta {
        Some(m) => {
            assert(s.inodes.push(InodeView { path: p, meta: m }).subrange(
                0,
                s.inodes.len() as int,
            ) =~= s.inodes);
        },
        None => {},
    }
}

/// A file that the guest has heard of keeps its number through every request.
pub proof fn law_requests_keep_files(s: FuseView, req: Seq<u8>)
    ensures
        keeps_files(s, s.requested(req).0),
{
    assert(s.inodes.subrange(0, s.inodes.len() as int) =~= s.inodes);
}

/// A file that the guest has heard of keeps its number through every reply of
/// the host.
pub proof fn law_replies_keep_files(s: FuseView, unique: u64, wait: WaitView, r: HostReplyView)
    ensures
        keeps_files(s, s.informed(unique, wait, r).0),
{
    assert(s.inodes.subrange(0, s.inodes.len() as int) =~= s.inodes);
    match (wait, r) {
        (WaitView::Lookup(p), HostReplyView::Meta(m)) => {
            lemma_with_file_keeps(s, p, Some(m));
        },
        (WaitView::List(p, offset, max), HostReplyView::Entries(e)) => {
            lemma_listed_keeps(s, p, e, 0, offset, max, Seq::empty());
        },
        _ => {},
    }
}

proof fn lemma_listed_keeps(
    s: FuseView,
    base: Seq<u8>,
    entries: Seq<DirEntryView>,
    k: int,
    offset: u64,
    max: u32,
    buf: Seq<u8>,
)
    ensures
        keeps_files(s, s.listed(base, entries, k, offset, max, buf).0),
    decreases entries.len() - k,
{
    assert(s.inodes.subrange(0, s.inodes.len() as int) =~= s.inodes);
    if 0 <= k < entries.len() {
        if k + 1 <= offset {
            lemma_listed_keeps(s, base, entries, k + 1, offset, max, buf);
        } else {
            let e = entries[k];
            let p = path::joined(base, e.name);
            let (t, ino) = s.with_file(p, e.meta);
            lemma_with_file_keeps(s, p, e.meta);
            let d = dirent(ino, (k + 1) as u64, e.is_dir, e.name);
            if buf.len() + d.len() <= max {
                lemma_listed_keeps(t, base, entries, k + 1, offset, max, buf + d);
                lemma_keeps_trans(
                    s,
                    t,
                    t.listed(base, entries, k + 1, offset, max, buf + d).0,
                );
            }
        }
    }
}

/// The list of directory entries never outgrows what the guest asked for.
pub proof fn law_listing_fits(
    s: FuseView,
    base: Seq<u8>,
    entries: Seq<DirEntryView>,
    k: int,
    offset: u64,
    max: u32,
    buf: Seq<u8>,
)
    requires
        buf.len() <= max,
    ensures
        s.listed(base, entries, k, offset, max, buf).1.len() <= max,
    decreases entries.len() - k,
{
    if 0 <= k < entries.len() {
        if k + 1 <= offset {
            law_listing_fits(s, base, entries, k + 1, offset, max, buf);
        } else {
            let e = entries[k];
            let (t, ino) = s.with_file(path::joined(base, e.name), e.meta);
            let d = dirent(ino, (k + 1) as u64, e.is_dir, e.name);
            if buf.len() + d.len() <= max {
                law_listing_fits(t, base, entries, k + 1, offset, max, buf + d);
            }
        }
    }
}

/// How many bytes a directory entry takes.
pub open spec fn dirent_len(name: Seq<u8>) -> nat {
    (24 + (name.len() + 7) / 8 * 8) as nat
}

/// How many directory entries from `k` on fit into `max` bytes of which `used`
/// are taken.
pub open spec fn fitting(entries: Seq<DirEntryView>, k: int, max: u32, used: nat) -> nat
    decreases entries.len() - k,
{
    if k < 0 || k >= entries.len() || used + dirent_len(entries[k].name) > max {
        0
    } else {
        1 + fitting(entries, k + 1, max, used + dirent_len(entries[k].name))
    }
}

/// The `n` directory entries from `k` on as the guest reads them, each with the
/// offset behind it, and what is known of files then.
pub open spec fn entry_run(
    s: FuseView,
    base: Seq<u8>,
    entries: Seq<DirEntryView>,
    k: int,
    n: nat,
) -> (FuseView, Seq<u8>)
    decreases n,
{
    if n == 0 {
        (s, Seq::empty())
    } else {
        let e = entries[k];
        let (t, ino) = s.with_file(path::joined(base, e.name), e.meta);
        let (u, rest) = entry_run(t, base, entries, k + 1, (n - 1) as nat);
        (u, dirent(ino, (k + 1) as u64, e.is_dir, e.name) + rest)
    }
}

/// What a guest reads that lists a directory again and again, each time from
/// where the last entry of the answer before said, until an answer is empty.
pub open spec fn walked(
    s: FuseView,
    base: Seq<u8>,
    entries: Seq<DirEntryView>,
    offset: nat,
    max: u32,
) -> Seq<u8>
    decreases entries.len() - offset,
    via walked_ends
{
    let (t, buf) = s.listed(base, entries, 0, offset as u64, max, Seq::empty());
    let n = fitting(entries, offset as int, max, 0);
    if n == 0 {
        buf
    } else {
        buf + walked(t, base, entries, offset + n, max)
    }
}

#[via_fn]
proof fn walked_ends(
    s: FuseView,
    base: Seq<u8>,
    entries: Seq<DirEntryView>,
    offset: nat,
    max: u32,
) {
    lemma_fitting(entries, offset as int, max, 0);
}

/// No more entries fit than there are.
proof fn lemma_fitting(entries: Seq<DirEntryView>, k: int, max: u32, used: nat)
    requires
        0 <= k,
    ensures
        fitting(entries, k, max, used) > 0 ==> k + fitting(entries, k, max, used)
            <= entries.len(),
    decreases entries.len() - k,
{
    if k < entries.len() && used + dirent_len(entries[k].name) <= max {
        lemma_fitting(entries, k + 1, max, used + dirent_len(entries[k].name));
    }
}

/// The size of a directory entry.
proof fn lemma_dirent_len(ino: u64, off: u64, is_dir: bool, name: Seq<u8>)
    ensures
        dirent(ino, off, is_dir, name).len() == dirent_len(name),
{
    reveal(dirent);
}

/// A file that is known is found again.
proof fn lemma_with_file_twice(s: FuseView, p: Seq<u8>, meta: Option<FileMeta>)
    ensures
        s.with_file(p, meta).0.with_file(p, meta) == s.with_file(p, meta),
{
    lemma_find_path(s.inodes, p, 0);
    if find_path(s.inodes, p, 0) == s.inodes.len() {
        match meta {
            Some(m) => lemma_find_path_push(s.inodes, p, InodeView { path: p, meta: m }, 0),
            None => {},
        }
    }
}

/// A run of entries in two parts.
proof fn lemma_run_parts(
    s: FuseView,
    base: Seq<u8>,
    entries: Seq<DirEntryView>,
    k: int,
    a: nat,
    b: nat,
)
    ensures
        ({
            let (t, first) = entry_run(s, base, entries, k, a);
            let (u, second) = entry_run(t, base, entries, k + a, b);
            entry_run(s, base, entries, k, a + b) == (u, first + second)
        }),
    decreases a,
{
    let (t, first) = entry_run(s, base, entries, k, a);
    let (u, second) = entry_run(t, base, entries, k + a, b);
    if a == 0 {
        assert(first + second =~= second);
    } else {
        let e = entries[k];
        let (s1, ino) = s.with_file(path::joined(base, e.name), e.meta);
        lemma_run_parts(s1, base, entries, k + 1, (a - 1) as nat, b);
        let d = dirent(ino, (k + 1) as u64, e.is_dir, e.name);
        let rest = entry_run(s1, base, entries, k + 1, (a - 1) as nat).1;
        assert(d + (rest + second) =~= (d + rest) + second);
    }
}

/// What a listing from entry `k` on adds to a buffer.
proof fn lemma_listed_run(
    s: FuseView,
    base: Seq<u8>,
    entries: Seq<DirEntryView>,
    k: int,
    offset: u64,
    max: u32,
    buf: Seq<u8>,
)
    requires
        offset <= k <= entries.len(),
    ensures
        ({
            let n = fitting(entries, k, max, buf.len());
            let (t, run) = entry_run(s, base, entries, k, n);
            let (u, out) = s.listed(base, entries, k, offset, max, buf);
            &&& out == buf + run
            &&& u == if k + n < entries.len() {
                t.with_file(path::joined(base, entries[k + n].name), entries[k + n].meta).0
            } else {
                t
            }
            &&& k + n < entries.len() ==> out.len() + dirent_len(entries[k + n].name) > max
        }),
    decreases entries.len() - k,
{
    if k < entries.len() {
        let e = entries[k];
        let (t, ino) = s.with_file(path::joined(base, e.name), e.meta);
        let d = dirent(ino, (k + 1) as u64, e.is_dir, e.name);
        lemma_dirent_len(ino, (k + 1) as u64, e.is_dir, e.name);
        if buf.len() + d.len() > max {
            assert(buf + Seq::<u8>::empty() =~= buf);
        } else {
            lemma_listed_run(t, base, entries, k + 1, offset, max, buf + d);
            let n = fitting(entries, k + 1, max, (buf + d).len());
            let run = entry_run(t, base, entries, k + 1, n).1;
            assert((buf + d) + run =~= buf + (d + run));
        }
    } else {
        assert(buf + Seq::<u8>::empty() =~= buf);
    }
}

/// A listing passes over the entries before the offset.
proof fn lemma_listed_from(
    s: FuseView,
    base: Seq<u8>,
    entries: Seq<DirEntryView>,
    k: int,
    offset: u64,
    max: u32,
)
    requires
        0 <= k <= offset <= entries.len(),
    ensures
        s.listed(base, entries, k, offset, max, Seq::empty()) == s.listed(
            base,
            entries,
            offset as int,
            offset,
            max,
            Seq::empty(),
        ),
    decreases offset - k,
{
    if k < offset {
        lemma_listed_from(s, base, entries, k + 1, offset, max);
    }
}

/// The answer to a listing holds the entries from the offset on, in order and
/// without a gap, as many as fit into the size that was asked for.
pub proof fn law_listing_is_a_run(
    s: FuseView,
    base: Seq<u8>,
    entries: Seq<DirEntryView>,
    offset: u64,
    max: u32,
)
    requires
        offset <= entries.len(),
    ensures
        ({
            let n = fitting(entries, offset as int, max, 0);
            let out = s.listed(base, entries, 0, offset, max, Seq::empty()).1;
            &&& out == entry_run(s, base, entries, offset as int, n).1
            &&& out.len() <= max
            &&& offset + n <= entries.len()
            &&& offset + n < entries.len() ==> out.len() + dirent_len(entries[offset + n].name)
                > max
        }),
{
    let none = Seq::<u8>::empty();
    lemma_listed_from(s, base, entries, 0, offset, max);
    lemma_listed_run(s, base, entries, offset as int, offset, max, none);
    lemma_fitting(entries, offset as int, max, 0);
    law_listing_fits(s, base, entries, 0, offset, max, none);
    let run = entry_run(s, base, entries, offset as int, fitting(entries, offset as int, max, 0)).1;
    assert(none + run =~= run);
}

/// A request to list an open directory is answered, once the host has listed it,
/// with the entries from the offset on that fit, and with no error.
pub proof fn law_readdir_answers(
    s: FuseView,
    unique: u64,
    data: Seq<u8>,
    entries: Seq<DirEntryView>,
)
    requires
        data.len() >= 40,
        s.handles.contains_key(bytes::le64(data, 0)),
        s.knows(s.handles[bytes::le64(data, 0)]),
        s.file(s.handles[bytes::le64(data, 0)]).meta.is_dir,
        bytes::le64(data, 8) <= entries.len(),
    ensures
        ({
            let base = s.file(s.handles[bytes::le64(data, 0)]).path;
            let offset = bytes::le64(data, 8);
            let max = bytes::le32(data, 16);
            let n = fitting(entries, offset as int, max, 0);
            let wait = WaitView::List(base, offset, max);
            &&& s.readdir(unique, data) == AnswerView::Ask(HostOpView::List(base), unique, wait)
            &&& s.informed(unique, wait, HostReplyView::Entries(entries)).1 == reply(
                unique,
                entry_run(s, base, entries, offset as int, n).1,
            )
        }),
{
    law_listing_is_a_run(
        s,
        s.file(s.handles[bytes::le64(data, 0)]).path,
        entries,
        bytes::le64(data, 8),
        bytes::le32(data, 16),
    );
}

/// A guest that lists a directory until an answer is empty reads every entry
/// from its first offset on exactly once and in order, if each of them fits into
/// the size that it asks for.
pub proof fn law_directory_is_listed_once(
    s: FuseView,
    base: Seq<u8>,
    entries: Seq<DirEntryView>,
    offset: nat,
    max: u32,
)
    requires
        offset <= entries.len() <= u64::MAX,
        forall|k: int| 0 <= k < entries.len() ==> dirent_len((#[trigger] entries[k]).name) <= max,
    ensures
        walked(s, base, entries, offset, max) == entry_run(
            s,
            base,
            entries,
            offset as int,
            (entries.len() - offset) as nat,
        ).1,
    decreases entries.len() - offset,
{
    let none = Seq::<u8>::empty();
    let n = fitting(entries, offset as int, max, 0);
    lemma_listed_from(s, base, entries, 0, offset as u64, max);
    lemma_listed_run(s, base, entries, offset as int, offset as u64, max, none);
    lemma_fitting(entries, offset as int, max, 0);
    let (t, run) = entry_run(s, base, entries, offset as int, n);
    let (u, out) = s.listed(base, entries, 0, offset as u64, max, none);
    assert(none + run =~= run);
    if n > 0 {
        let next = offset + n;
        let left = (entries.len() - next) as nat;
        law_directory_is_listed_once(u, base, entries, next, max);
        if left > 0 {
            let e = entries[next as int];
            lemma_with_file_twice(t, path::joined(base, e.name), e.meta);
        }
        assert(entry_run(u, base, entries, next as int, left).1 == entry_run(
            t,
            base,
            entries,
            next as int,
            left,
        ).1);
        lemma_run_parts(s, base, entries, offset as int, n, left);
    } else if offset < entries.len() {
        assert(dirent_len(entries[offset as int].name) <= max);
    }
}

/// The handle that opening a file gives is good for reading that file from the
/// offset on that a request names, as many bytes as it wants but at most 128 KiB,
/// and no longer after it was released.
pub proof fn law_handle_life(
    s: FuseView,
    unique: u64,
    ino: u64,
    read: Seq<u8>,
    release: Seq<u8>,
)
    requires
        s.knows(ino),
        !s.file(ino).meta.is_dir,
        read.len() >= 40,
        bytes::le64(read, 0) == s.next_fh,
        release.len() >= 8,
        bytes::le64(release, 0) == s.next_fh,
    ensures
        ({
            let (t, a) = s.open(unique, ino, false);
            let (u, b) = t.release(unique, release);
            &&& a == AnswerView::Reply(reply(unique, open_payload(s.next_fh)))
            &&& t.read(unique, read) is Ask
            &&& t.read(unique, read)->Ask_0 is Read
            &&& t.read(unique, read)->Ask_0->Read_0 == s.file(ino).path
            &&& t.read(unique, read)->Ask_0->Read_1 == bytes::le64(read, 8)
            &&& t.read(unique, read)->Ask_0->Read_2 == if bytes::le32(read, 16) < 0x2_0000 {
                bytes::le32(read, 16) as int
            } else {
                0x2_0000
            }
            &&& t.read(unique, read)->Ask_1 == unique
            &&& t.read(unique, read)->Ask_2 == WaitView::Read
            &&& u.read(unique, read) == AnswerView::Reply(error_reply(unique, EBADF))
        }),
{
}

/// Once the host has told what a file is, looking it up again is answered from
/// memory with the same number.
pub proof fn law_lookup_is_remembered(s: FuseView, p: Seq<u8>, m: FileMeta)
    requires
        s.inodes.len() < u64::MAX,
    ensures
        ({
            let (t, ino) = s.with_file(p, Some(m));
            &&& ino != 0
            &&& t.with_file(p, None) == (t, ino)
        }),
{
    let (t, ino) = s.with_file(p, Some(m));
    lemma_find_path(s.inodes, p, 0);
    let i = find_path(s.inodes, p, 0);
    if i == s.inodes.len() {
        let last = InodeView { path: p, meta: m };
        assert(t.inodes == s.inodes.push(last));
        lemma_find_path_push(s.inodes, p, last, 0);
    }
}

proof fn lemma_find_path(inodes: Seq<InodeView>, p: Seq<u8>, i: int)
    requires
        0 <= i <= inodes.len(),
    ensures
        i <= find_path(inodes, p, i) <= inodes.len(),
    decreases inodes.len() - i,
{
    if i < inodes.len() && !path::same_path(inodes[i].path, p) {
        lemma_find_path(inodes, p, i + 1);
    }
}

proof fn lemma_find_path_push(inodes: Seq<InodeView>, p: Seq<u8>, last: InodeView, i: int)
    requires
        0 <= i <= inodes.len(),
        find_path(inodes, p, i) == inodes.len(),
        path::same_path(last.path, p),
    ensures
        find_path(inodes.push(last), p, i) == inodes.len(),
    decreases inodes.len() - i,
{
    if i < inodes.len() {
        assert(inodes.push(last)[i] == inodes[i]);
        if !path::same_path(inodes[i].path, p) {
            lemma_find_path_push(inodes, p, last, i + 1);
        }
    }
}

} // verus!
