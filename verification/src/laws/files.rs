//! How requests of the shared file system are answered.

use crate::bytes;
use crate::devices::fuse::{
    self, AnswerView, FileMeta, FuseView, HostOpView, HostReplyView, InodeView, WaitView,
};
use crate::path;
use vstd::prelude::*;

verus! {

/// Whether these bytes are an answer: its length, an error number, the number of
/// the request, and the payload.
pub open spec fn is_answer(s: Seq<u8>, unique: u64, error: int, payload: Seq<u8>) -> bool {
    &&& s.len() == 16 + payload.len()
    &&& bytes::le32(s, 0) == s.len()
    &&& bytes::le32(s, 4) == error % 0x1_0000_0000
    &&& bytes::le64(s, 8) == unique
    &&& s.skip(16) == payload
}

/// Whether the attributes of a file stand in a payload from `at` on.
pub open spec fn is_attr(b: Seq<u8>, at: int, ino: u64, meta: FileMeta) -> bool {
    &&& bytes::le64(b, at) == ino
    &&& bytes::le64(b, at + 8) == meta.size
    &&& 512 * bytes::le64(b, at + 16) >= meta.size
    &&& 512 * bytes::le64(b, at + 16) < meta.size + 512
    &&& bytes::le32(b, at + 40) == meta.mode
    &&& bytes::le32(b, at + 44) == if meta.is_dir {
        2u32
    } else {
        1
    }
}

/// A number stands where its bytes do.
proof fn lemma_le64(b: Seq<u8>, at: int, v: u64)
    requires
        0 <= at,
        at + 8 <= b.len(),
        b.subrange(at, at + 8) == bytes::le64_bytes(v),
    ensures
        bytes::le64(b, at) == v,
{
    bytes::law_le64_round_trip(v);
    bytes::lemma_le64_at(b, at);
}

/// A number stands where its bytes do.
proof fn lemma_le32(b: Seq<u8>, at: int, v: u32)
    requires
        0 <= at,
        at + 4 <= b.len(),
        b.subrange(at, at + 4) == bytes::le32_bytes(v),
    ensures
        bytes::le32(b, at) == v,
{
    bytes::law_le32_round_trip(v);
    bytes::lemma_le32_at(b, at);
}

/// Every answer gives its length, its error and the number of its request, and the
/// payload stands behind them.
pub proof fn law_answers_are_framed(unique: u64, payload: Seq<u8>, error: i32)
    requires
        16 + payload.len() <= u32::MAX,
    ensures
        is_answer(fuse::reply(unique, payload), unique, 0, payload),
        is_answer(fuse::error_reply(unique, error), unique, error as int, Seq::empty()),
{
    reveal(fuse::reply);
    reveal(fuse::error_reply);
    bytes::law_le64_round_trip(unique);
    let s = fuse::reply(unique, payload);
    let total = (16 + payload.len()) as u32;
    bytes::law_le32_round_trip(total);
    bytes::law_le32_round_trip(0);
    assert(s.len() == 16 + payload.len());
    assert(s.subrange(0, 4) =~= bytes::le32_bytes(total));
    assert(s.subrange(4, 8) =~= bytes::le32_bytes(0));
    assert(s.subrange(8, 16) =~= bytes::le64_bytes(unique));
    lemma_le32(s, 0, total);
    lemma_le32(s, 4, 0);
    lemma_le64(s, 8, unique);
    assert(s.skip(16) =~= payload);
    let t = fuse::error_reply(unique, error);
    bytes::law_le32_round_trip(16);
    bytes::law_le32_round_trip(error as u32);
    assert(t.len() == 16);
    assert(t.subrange(0, 4) =~= bytes::le32_bytes(16));
    assert(t.subrange(4, 8) =~= bytes::le32_bytes(error as u32));
    assert(t.subrange(8, 16) =~= bytes::le64_bytes(unique));
    lemma_le32(t, 0, 16);
    lemma_le32(t, 4, error as u32);
    lemma_le64(t, 8, unique);
    assert(t.skip(16) =~= Seq::<u8>::empty());
    assert(error as u32 == error as int % 0x1_0000_0000) by (bit_vector);
}

proof fn lemma_attr(b: Seq<u8>, at: int, ino: u64, meta: FileMeta)
    requires
        0 <= at,
        at + 88 <= b.len(),
        b.subrange(at, at + 88) == fuse::attr(ino, meta),
    ensures
        is_attr(b, at, ino, meta),
{
    let a = fuse::attr(ino, meta);
    lemma_attr_len(ino, meta);
    lemma_attr_numbers(ino, meta);
    lemma_attr_words(ino, meta);
    lemma_le64_within(b, at, a, 0);
    lemma_le64_within(b, at, a, 8);
    lemma_le64_within(b, at, a, 16);
    lemma_le32_within(b, at, a, 40);
    lemma_le32_within(b, at, a, 44);
}

proof fn lemma_le64_within(b: Seq<u8>, at: int, a: Seq<u8>, i: int)
    requires
        0 <= at,
        at + a.len() <= b.len(),
        b.subrange(at, at + a.len()) == a,
        0 <= i,
        i + 8 <= a.len(),
    ensures
        bytes::le64(b, at + i) == bytes::le64(a, i),
{
    assert forall|k: int| 0 <= k < a.len() implies a[k] == b[at + k] by {
        assert(b.subrange(at, at + a.len())[k] == b[at + k]);
    }
    assert(b.subrange(at + i, at + i + 8) =~= a.subrange(i, i + 8));
    bytes::lemma_le64_at(b, at + i);
    bytes::lemma_le64_at(a, i);
}

proof fn lemma_le32_within(b: Seq<u8>, at: int, a: Seq<u8>, i: int)
    requires
        0 <= at,
        at + a.len() <= b.len(),
        b.subrange(at, at + a.len()) == a,
        0 <= i,
        i + 4 <= a.len(),
    ensures
        bytes::le32(b, at + i) == bytes::le32(a, i),
{
    assert forall|k: int| 0 <= k < a.len() implies a[k] == b[at + k] by {
        assert(b.subrange(at, at + a.len())[k] == b[at + k]);
    }
    assert(b.subrange(at + i, at + i + 4) =~= a.subrange(i, i + 4));
    bytes::lemma_le32_at(b, at + i);
    bytes::lemma_le32_at(a, i);
}

proof fn lemma_attr_numbers(ino: u64, meta: FileMeta)
    ensures
        bytes::le64(fuse::attr(ino, meta), 0) == ino,
        bytes::le64(fuse::attr(ino, meta), 8) == meta.size,
        512 * bytes::le64(fuse::attr(ino, meta), 16) >= meta.size,
        512 * bytes::le64(fuse::attr(ino, meta), 16) < meta.size + 512,
{
    lemma_attr_len(ino, meta);
    reveal(fuse::attr);
    let a = fuse::attr(ino, meta);
    bytes::law_le64_round_trip(ino);
    bytes::law_le64_round_trip(meta.size);
    bytes::law_le64_round_trip(fuse::blocks(meta.size));
    assert(a.subrange(0, 8) =~= bytes::le64_bytes(ino));
    assert(a.subrange(8, 16) =~= bytes::le64_bytes(meta.size));
    assert(a.subrange(16, 24) =~= bytes::le64_bytes(fuse::blocks(meta.size)));
    lemma_le64(a, 0, ino);
    lemma_le64(a, 8, meta.size);
    lemma_le64(a, 16, fuse::blocks(meta.size));
}

proof fn lemma_attr_words(ino: u64, meta: FileMeta)
    ensures
        bytes::le32(fuse::attr(ino, meta), 40) == meta.mode,
        bytes::le32(fuse::attr(ino, meta), 44) == if meta.is_dir {
            2u32
        } else {
            1
        },
{
    lemma_attr_len(ino, meta);
    reveal(fuse::attr);
    let a = fuse::attr(ino, meta);
    let links = if meta.is_dir {
        2u32
    } else {
        1
    };
    bytes::law_le64_round_trip(ino);
    bytes::law_le64_round_trip(meta.size);
    bytes::law_le64_round_trip(fuse::blocks(meta.size));
    bytes::law_le32_round_trip(meta.mode);
    bytes::law_le32_round_trip(links);
    assert(a.subrange(40, 44) =~= bytes::le32_bytes(meta.mode));
    assert(a.subrange(44, 48) =~= bytes::le32_bytes(links));
    lemma_le32(a, 40, meta.mode);
    lemma_le32(a, 44, links);
}

proof fn lemma_attr_len(ino: u64, meta: FileMeta)
    ensures
        fuse::attr(ino, meta).len() == 88,
{
    reveal(fuse::attr);
}

/// What the payload of an answer that names a file holds: the file's number, and
/// its attributes 40 bytes behind it.
pub proof fn law_entries_name_files(ino: u64, meta: FileMeta)
    ensures
        fuse::entry_payload(ino, meta).len() == 128,
        bytes::le64(fuse::entry_payload(ino, meta), 0) == ino,
        is_attr(fuse::entry_payload(ino, meta), 40, ino, meta),
{
    reveal(fuse::entry_payload);
    lemma_attr_len(ino, meta);
    let b = fuse::entry_payload(ino, meta);
    bytes::law_le64_round_trip(ino);
    bytes::law_le64_round_trip(1);
    assert(b.subrange(0, 8) =~= bytes::le64_bytes(ino));
    assert(b.subrange(40, 128) =~= fuse::attr(ino, meta));
    lemma_le64(b, 0, ino);
    lemma_attr(b, 40, ino, meta);
}

/// What the payload of an answer with attributes holds: them, behind 16 bytes.
pub proof fn law_attributes_are_given(ino: u64, meta: FileMeta)
    ensures
        fuse::attr_payload(ino, meta).len() == 104,
        is_attr(fuse::attr_payload(ino, meta), 16, ino, meta),
{
    reveal(fuse::attr_payload);
    lemma_attr_len(ino, meta);
    let b = fuse::attr_payload(ino, meta);
    bytes::law_le64_round_trip(1);
    assert(b.subrange(16, 104) =~= fuse::attr(ino, meta));
    lemma_attr(b, 16, ino, meta);
}

/// What the payload of an answer with a handle holds: the handle first.
pub proof fn law_handles_are_given(fh: u64)
    ensures
        fuse::open_payload(fh).len() == 16,
        bytes::le64(fuse::open_payload(fh), 0) == fh,
{
    reveal(fuse::open_payload);
    bytes::law_le64_round_trip(fh);
    let b = fuse::open_payload(fh);
    assert(b.subrange(0, 8) =~= bytes::le64_bytes(fh));
    lemma_le64(b, 0, fh);
}

/// A session is opened with protocol 7.31 and 128 KiB for reading ahead and for
/// writing.
pub proof fn law_session_opens(s: FuseView, req: Seq<u8>)
    requires
        req.len() >= 40,
        bytes::le32(req, 4) == 26,
    ensures
        s.requested(req).0 == s,
        s.requested(req).1 is Reply,
        ({
            let a = s.requested(req).1->Reply_0;
            let p = a.skip(16);
            &&& is_answer(a, bytes::le64(req, 8), 0, p)
            &&& p.len() >= 24
            &&& bytes::le32(p, 0) == 7
            &&& bytes::le32(p, 4) == 31
            &&& bytes::le32(p, 8) == 0x2_0000
            &&& bytes::le32(p, 20) == 0x2_0000
        }),
{
    reveal(fuse::init_payload);
    let p = fuse::init_payload();
    bytes::law_le32_round_trip(7);
    bytes::law_le32_round_trip(31);
    bytes::law_le32_round_trip(0x2_0000);
    assert(p.subrange(0, 4) =~= bytes::le32_bytes(7));
    assert(p.subrange(4, 8) =~= bytes::le32_bytes(31));
    assert(p.subrange(8, 12) =~= bytes::le32_bytes(0x2_0000));
    assert(p.subrange(20, 24) =~= bytes::le32_bytes(0x2_0000));
    lemma_le32(p, 0, 7);
    lemma_le32(p, 4, 31);
    lemma_le32(p, 8, 0x2_0000);
    lemma_le32(p, 20, 0x2_0000);
    law_answers_are_framed(bytes::le64(req, 8), p, 0);
}

/// A request to read from an open file has the host asked for as many bytes of that
/// file as the request wants, at most 128 KiB, from the offset on that it names.
pub proof fn law_read_names_file_and_place(s: FuseView, req: Seq<u8>)
    requires
        req.len() >= 80,
        bytes::le32(req, 4) == 15,
        s.handles.contains_key(bytes::le64(req, 40)),
        s.knows(s.handles[bytes::le64(req, 40)]),
    ensures
        s.requested(req).0 == s,
        s.requested(req).1 matches AnswerView::Ask(op, unique, wait) && unique == bytes::le64(
            req,
            8,
        ) && wait == WaitView::Read && (op matches HostOpView::Read(p, offset, size) && p
            == s.inodes[s.handles[bytes::le64(req, 40)] - 1].path && offset == bytes::le64(req, 48)
            && size == if bytes::le32(req, 56) < 0x2_0000 {
            bytes::le32(req, 56) as int
        } else {
            0x2_0000
        }),
{
    lemma_arguments(req);
}

/// Numbers behind the header of a request.
proof fn lemma_arguments(req: Seq<u8>)
    requires
        req.len() >= 80,
    ensures
        bytes::le64(req.skip(40), 0) == bytes::le64(req, 40),
        bytes::le64(req.skip(40), 8) == bytes::le64(req, 48),
        bytes::le32(req.skip(40), 16) == bytes::le32(req, 56),
{
    let d = req.skip(40);
    assert(d[0] == req[40] && d[1] == req[41] && d[2] == req[42] && d[3] == req[43] && d[4]
        == req[44] && d[5] == req[45] && d[6] == req[46] && d[7] == req[47]);
    assert(d[8] == req[48] && d[9] == req[49] && d[10] == req[50] && d[11] == req[51] && d[12]
        == req[52] && d[13] == req[53] && d[14] == req[54] && d[15] == req[55]);
    assert(d[16] == req[56] && d[17] == req[57] && d[18] == req[58] && d[19] == req[59]);
}

/// The bytes of a file from an offset on, at most so many.
pub open spec fn part_of(file: Seq<u8>, offset: int, size: int) -> Seq<u8> {
    let from = if offset < file.len() {
        offset
    } else {
        file.len() as int
    };
    let to = if from + size < file.len() {
        from + size
    } else {
        file.len() as int
    };
    file.subrange(from, to)
}

/// A guest that reads from an open file gets the file's bytes from its offset on,
/// as many as it wants and the file has, if the host hands over what it is asked
/// for; and its memory of files stays as it is.
pub proof fn law_read_gives_file(s: FuseView, req: Seq<u8>, file: Seq<u8>)
    requires
        req.len() >= 80,
        bytes::le32(req, 4) == 15,
        s.handles.contains_key(bytes::le64(req, 40)),
        s.knows(s.handles[bytes::le64(req, 40)]),
    ensures
        ({
            let size = if bytes::le32(req, 56) < 0x2_0000 {
                bytes::le32(req, 56) as int
            } else {
                0x2_0000
            };
            let op = s.requested(req).1->Ask_0;
            let given = part_of(file, op->Read_1 as int, op->Read_2 as int);
            let (t, a) = s.informed(
                s.requested(req).1->Ask_1,
                s.requested(req).1->Ask_2,
                HostReplyView::Data(given),
            );
            &&& t == s
            &&& is_answer(
                a,
                bytes::le64(req, 8),
                0,
                part_of(file, bytes::le64(req, 48) as int, size),
            )
        }),
{
    law_read_names_file_and_place(s, req);
    let size = if bytes::le32(req, 56) < 0x2_0000 {
        bytes::le32(req, 56) as int
    } else {
        0x2_0000
    };
    law_answers_are_framed(
        bytes::le64(req, 8),
        part_of(file, bytes::le64(req, 48) as int, size),
        0,
    );
}

/// A request to read or to list through a handle that is not open fails as a bad
/// handle.
pub proof fn law_closed_handles_are_bad(s: FuseView, req: Seq<u8>)
    requires
        req.len() >= 80,
        bytes::le32(req, 4) == 15 || bytes::le32(req, 4) == 28,
        !s.handles.contains_key(bytes::le64(req, 40)),
    ensures
        s.requested(req).0 == s,
        s.requested(req).1 matches AnswerView::Reply(a) && is_answer(
            a,
            bytes::le64(req, 8),
            -9,
            Seq::empty(),
        ),
{
    lemma_arguments(req);
    law_answers_are_framed(bytes::le64(req, 8), Seq::empty(), (-9) as i32);
}

/// A request to list an open directory has the host asked for the entries of that
/// directory, and keeps the offset and the size that it names.
pub proof fn law_list_names_directory(s: FuseView, req: Seq<u8>)
    requires
        req.len() >= 80,
        bytes::le32(req, 4) == 28,
        s.handles.contains_key(bytes::le64(req, 40)),
        s.knows(s.handles[bytes::le64(req, 40)]),
        s.inodes[s.handles[bytes::le64(req, 40)] - 1].meta.is_dir,
    ensures
        ({
            let p = s.inodes[s.handles[bytes::le64(req, 40)] - 1].path;
            s.requested(req) == (
                s,
                AnswerView::Ask(
                    HostOpView::List(p),
                    bytes::le64(req, 8),
                    WaitView::List(p, bytes::le64(req, 48), bytes::le32(req, 56)),
                ),
            )
        }),
{
    lemma_arguments(req);
}

/// A directory entry holds the file's number, the offset behind it, the length of
/// its name, its kind (4 for a directory, 8 for a file) and its name, filled up
/// with zeros to a multiple of eight bytes.
pub proof fn law_entry_layout(ino: u64, off: u64, is_dir: bool, name: Seq<u8>)
    requires
        name.len() <= u32::MAX,
    ensures
        ({
            let e = fuse::dirent(ino, off, is_dir, name);
            &&& e.len() >= 24 + name.len()
            &&& e.len() < 24 + name.len() + 8
            &&& e.len() % 8 == 0
            &&& bytes::le64(e, 0) == ino
            &&& bytes::le64(e, 8) == off
            &&& bytes::le32(e, 16) == name.len()
            &&& bytes::le32(e, 20) == if is_dir {
                4u32
            } else {
                8
            }
            &&& e.subrange(24, 24 + name.len() as int) == name
            &&& forall|i: int| 24 + name.len() <= i < e.len() ==> #[trigger] e[i] == 0
        }),
{
    let e = fuse::dirent(ino, off, is_dir, name);
    lemma_entry_head(ino, off, is_dir, name);
    lemma_entry_name(ino, off, is_dir, name);
    assert(e.subrange(24, 24 + name.len() as int) =~= name);
}

proof fn lemma_entry_head(ino: u64, off: u64, is_dir: bool, name: Seq<u8>)
    requires
        name.len() <= u32::MAX,
    ensures
        ({
            let e = fuse::dirent(ino, off, is_dir, name);
            &&& e.len() >= 24
            &&& bytes::le64(e, 0) == ino
            &&& bytes::le64(e, 8) == off
            &&& bytes::le32(e, 16) == name.len()
            &&& bytes::le32(e, 20) == if is_dir {
                4u32
            } else {
                8
            }
        }),
{
    reveal(fuse::dirent);
    let e = fuse::dirent(ino, off, is_dir, name);
    let kind = if is_dir {
        4u32
    } else {
        8
    };
    let (a, b, c, d) = (
        bytes::le64_bytes(ino),
        bytes::le64_bytes(off),
        bytes::le32_bytes(name.len() as u32),
        bytes::le32_bytes(kind),
    );
    let rest = name + fuse::zeros(((name.len() + 7) / 8 * 8 - name.len()) as nat);
    bytes::law_le64_round_trip(ino);
    bytes::law_le64_round_trip(off);
    bytes::law_le32_round_trip(name.len() as u32);
    bytes::law_le32_round_trip(kind);
    assert(e =~= a + b + c + d + rest);
    lemma_four_fields(a, b, c, d, rest);
    lemma_le64(e, 0, ino);
    lemma_le64(e, 8, off);
    lemma_le32(e, 16, name.len() as u32);
    lemma_le32(e, 20, kind);
}

proof fn lemma_four_fields(a: Seq<u8>, b: Seq<u8>, c: Seq<u8>, d: Seq<u8>, rest: Seq<u8>)
    requires
        a.len() == 8,
        b.len() == 8,
        c.len() == 4,
        d.len() == 4,
    ensures
        (a + b + c + d + rest).subrange(0, 8) == a,
        (a + b + c + d + rest).subrange(8, 16) == b,
        (a + b + c + d + rest).subrange(16, 20) == c,
        (a + b + c + d + rest).subrange(20, 24) == d,
{
    let e = a + b + c + d + rest;
    assert(e.subrange(0, 8) =~= a);
    assert(e.subrange(8, 16) =~= b);
    assert(e.subrange(16, 20) =~= c);
    assert(e.subrange(20, 24) =~= d);
}

proof fn lemma_entry_name(ino: u64, off: u64, is_dir: bool, name: Seq<u8>)
    requires
        name.len() <= u32::MAX,
    ensures
        ({
            let e = fuse::dirent(ino, off, is_dir, name);
            &&& e.len() >= 24 + name.len()
            &&& e.len() < 24 + name.len() + 8
            &&& e.len() % 8 == 0
            &&& forall|i: int| 0 <= i < name.len() ==> e[24 + i] == #[trigger] name[i]
            &&& forall|i: int| 24 + name.len() <= i < e.len() ==> #[trigger] e[i] == 0
        }),
{
    reveal(fuse::dirent);
    let kind = if is_dir {
        4u32
    } else {
        8
    };
    bytes::law_le64_round_trip(ino);
    bytes::law_le64_round_trip(off);
    bytes::law_le32_round_trip(name.len() as u32);
    bytes::law_le32_round_trip(kind);
    let head = bytes::le64_bytes(ino) + bytes::le64_bytes(off) + bytes::le32_bytes(
        name.len() as u32,
    ) + bytes::le32_bytes(kind);
    let pad = ((name.len() + 7) / 8 * 8 - name.len()) as nat;
    lemma_padded(head, name, pad);
    lemma_multiple(name.len());
}

proof fn lemma_multiple(n: nat)
    ensures
        n <= (n + 7) / 8 * 8 < n + 8,
        (24 + (n + 7) / 8 * 8) % 8 == 0,
{
}

proof fn lemma_padded(head: Seq<u8>, name: Seq<u8>, pad: nat)
    requires
        head.len() == 24,
    ensures
        ({
            let e = head + name + fuse::zeros(pad);
            &&& e.len() == 24 + name.len() + pad
            &&& forall|i: int| 0 <= i < name.len() ==> e[24 + i] == #[trigger] name[i]
            &&& forall|i: int| 24 + name.len() <= i < e.len() ==> #[trigger] e[i] == 0
        }),
{
}

/// Opening a file, or a directory as such, gives a new handle for it. A directory
/// cannot be opened as a file nor a file as a directory, and what is not known
/// cannot be opened.
pub proof fn law_open_gives_handle(s: FuseView, req: Seq<u8>)
    requires
        req.len() >= 40,
        bytes::le32(req, 4) == 14 || bytes::le32(req, 4) == 27,
    ensures
        ({
            let dir = bytes::le32(req, 4) == 27;
            let unique = bytes::le64(req, 8);
            let ino = bytes::le64(req, 16);
            let (t, a) = s.requested(req);
            &&& a is Reply
            &&& t.inodes == s.inodes
            &&& if !(1 <= ino <= s.inodes.len()) {
                t == s && is_answer(a->Reply_0, unique, -2, Seq::empty())
            } else if s.inodes[ino - 1].meta.is_dir && !dir {
                t == s && is_answer(a->Reply_0, unique, -21, Seq::empty())
            } else if !s.inodes[ino - 1].meta.is_dir && dir {
                t == s && is_answer(a->Reply_0, unique, -20, Seq::empty())
            } else {
                &&& t.handles == s.handles.insert(s.next_fh, ino)
                &&& t.next_fh != s.next_fh
                &&& is_answer(a->Reply_0, unique, 0, a->Reply_0.skip(16))
                &&& a->Reply_0.len() == 32
                &&& bytes::le64(a->Reply_0.skip(16), 0) == s.next_fh
            }
        }),
{
    law_handles_are_given(s.next_fh);
    law_answers_are_framed(bytes::le64(req, 8), fuse::open_payload(s.next_fh), (-2) as i32);
    law_answers_are_framed(bytes::le64(req, 8), Seq::empty(), (-21) as i32);
    law_answers_are_framed(bytes::le64(req, 8), Seq::empty(), (-20) as i32);
}

/// Closing a file or a directory forgets its handle and no other.
pub proof fn law_release_forgets_handle(s: FuseView, req: Seq<u8>)
    requires
        req.len() >= 80,
        bytes::le32(req, 4) == 18 || bytes::le32(req, 4) == 29,
    ensures
        s.requested(req).0.handles == s.handles.remove(bytes::le64(req, 40)),
        s.requested(req).0.inodes == s.inodes,
        s.requested(req).1 matches AnswerView::Reply(a) && is_answer(
            a,
            bytes::le64(req, 8),
            0,
            Seq::empty(),
        ),
{
    lemma_arguments(req);
    law_answers_are_framed(bytes::le64(req, 8), Seq::empty(), 0);
}

/// A request for a file's attributes is answered with those of that file.
pub proof fn law_attributes_of_file(s: FuseView, req: Seq<u8>)
    requires
        req.len() >= 40,
        bytes::le32(req, 4) == 3,
    ensures
        ({
            let ino = bytes::le64(req, 16);
            let (t, a) = s.requested(req);
            &&& t == s
            &&& a is Reply
            &&& if 1 <= ino <= s.inodes.len() {
                &&& is_answer(a->Reply_0, bytes::le64(req, 8), 0, a->Reply_0.skip(16))
                &&& a->Reply_0.len() == 120
                &&& is_attr(a->Reply_0.skip(16), 16, ino, s.inodes[ino - 1].meta)
            } else {
                is_answer(a->Reply_0, bytes::le64(req, 8), -2, Seq::empty())
            }
        }),
{
    let ino = bytes::le64(req, 16);
    if s.knows(ino) {
        law_attributes_are_given(ino, s.file(ino).meta);
        law_answers_are_framed(
            bytes::le64(req, 8),
            fuse::attr_payload(ino, s.file(ino).meta),
            0,
        );
    } else {
        law_answers_are_framed(bytes::le64(req, 8), Seq::empty(), (-2) as i32);
    }
}

/// Whether no file with this path is known.
pub open spec fn unheard(s: FuseView, p: Seq<u8>) -> bool {
    forall|i: int| 0 <= i < s.inodes.len() ==> !path::same_path((#[trigger] s.inodes[i]).path, p)
}

proof fn lemma_find(inodes: Seq<InodeView>, p: Seq<u8>, i: int)
    requires
        0 <= i <= inodes.len(),
    ensures
        i <= fuse::find_path(inodes, p, i) <= inodes.len(),
        fuse::find_path(inodes, p, i) < inodes.len() ==> path::same_path(
            inodes[fuse::find_path(inodes, p, i)].path,
            p,
        ),
        forall|k: int|
            i <= k < fuse::find_path(inodes, p, i) ==> !path::same_path(
                (#[trigger] inodes[k]).path,
                p,
            ),
    decreases inodes.len() - i,
{
    if i < inodes.len() && !path::same_path(inodes[i].path, p) {
        lemma_find(inodes, p, i + 1);
    }
}

proof fn lemma_zero(b: Seq<u8>, n: int, i: int)
    requires
        0 <= i <= n < b.len(),
        b[n] == 0,
        forall|k: int| i <= k < n ==> #[trigger] b[k] != 0,
    ensures
        fuse::zero_from(b, i) == n,
    decreases n - i,
{
    if i < n {
        lemma_zero(b, n, i + 1);
    }
}

/// Looking up a name in a directory that the guest has not heard of has the host
/// asked for the file of that name there. If there is one, it gets the next number
/// and the answer names it with its attributes; if not, the answer says so.
pub proof fn law_lookup_asks_host(s: FuseView, req: Seq<u8>, name: Seq<u8>, meta: FileMeta)
    requires
        bytes::le32(req, 4) == 1,
        1 <= bytes::le64(req, 16) <= s.inodes.len() < u64::MAX,
        s.inodes[bytes::le64(req, 16) - 1].meta.is_dir,
        req.len() > 40 + name.len(),
        req.subrange(40, 40 + name.len() as int) == name,
        req[40 + name.len() as int] == 0,
        forall|i: int| 0 <= i < name.len() ==> #[trigger] name[i] != 0,
        vstd::utf8::valid_utf8(name),
        unheard(s, path::joined(s.inodes[bytes::le64(req, 16) - 1].path, name)),
    ensures
        ({
            let p = path::joined(s.inodes[bytes::le64(req, 16) - 1].path, name);
            let unique = bytes::le64(req, 8);
            let wait = WaitView::Lookup(p);
            let ino = (s.inodes.len() + 1) as u64;
            let (t, a) = s.informed(unique, wait, HostReplyView::Meta(meta));
            let (u, b) = s.informed(unique, wait, HostReplyView::Missing);
            &&& s.requested(req) == (s, AnswerView::Ask(HostOpView::Stat(p), unique, wait))
            &&& t.inodes == s.inodes.push(InodeView { path: p, meta })
            &&& t.handles == s.handles
            &&& is_answer(a, unique, 0, a.skip(16))
            &&& a.len() == 144
            &&& bytes::le64(a.skip(16), 0) == ino
            &&& is_attr(a.skip(16), 40, ino, meta)
            &&& u == s
            &&& is_answer(b, unique, -2, Seq::empty())
        }),
{
    let d = req.skip(40);
    let p = path::joined(s.inodes[bytes::le64(req, 16) - 1].path, name);
    assert forall|k: int| 0 <= k < name.len() implies #[trigger] d[k] != 0 by {
        assert(req.subrange(40, 40 + name.len() as int)[k] == req[40 + k]);
        assert(d[k] == name[k]);
    }
    lemma_zero(d, name.len() as int, 0);
    assert(d.subrange(0, name.len() as int) =~= name);
    lemma_find(s.inodes, p, 0);
    let ino = (s.inodes.len() + 1) as u64;
    law_entries_name_files(ino, meta);
    law_answers_are_framed(bytes::le64(req, 8), fuse::entry_payload(ino, meta), 0);
    law_answers_are_framed(bytes::le64(req, 8), Seq::empty(), (-2) as i32);
}

/// A request that the file system does not know fails as not implemented, and so
/// does one that is shorter than its header.
pub proof fn law_unknown_requests_fail(s: FuseView, req: Seq<u8>)
    requires
        req.len() < 40 || !(seq![1u32, 2, 3, 14, 15, 18, 26, 27, 28, 29].contains(
            bytes::le32(req, 4),
        )),
    ensures
        s.requested(req).0 == s,
        s.requested(req).1 matches AnswerView::Reply(a) && is_answer(
            a,
            if req.len() < 40 {
                0
            } else {
                bytes::le64(req, 8)
            },
            -38,
            Seq::empty(),
        ),
{
    law_answers_are_framed(0, Seq::empty(), (-38) as i32);
    law_answers_are_framed(bytes::le64(req, 8), Seq::empty(), (-38) as i32);
    let all = seq![1u32, 2, 3, 14, 15, 18, 26, 27, 28, 29];
    assert(all[0] == 1 && all[1] == 2 && all[2] == 3 && all[3] == 14 && all[4] == 15 && all[5] == 18
        && all[6] == 26 && all[7] == 27 && all[8] == 28 && all[9] == 29);
    assert(all.contains(all[0]) && all.contains(all[1]) && all.contains(all[2]) && all.contains(
        all[3],
    ) && all.contains(all[4]) && all.contains(all[5]) && all.contains(all[6]) && all.contains(
        all[7],
    ) && all.contains(all[8]) && all.contains(all[9]));
}

/// Looking up a file that the guest has heard of is answered at once with its number
/// and its attributes.
pub proof fn law_lookup_answers(s: FuseView, req: Seq<u8>, name: Seq<u8>, i: int)
    requires
        bytes::le32(req, 4) == 1,
        1 <= bytes::le64(req, 16) <= s.inodes.len() < u64::MAX,
        s.inodes[bytes::le64(req, 16) - 1].meta.is_dir,
        req.len() > 40 + name.len(),
        req.subrange(40, 40 + name.len() as int) == name,
        req[40 + name.len() as int] == 0,
        forall|i: int| 0 <= i < name.len() ==> #[trigger] name[i] != 0,
        vstd::utf8::valid_utf8(name),
        0 <= i < s.inodes.len(),
        path::same_path(
            s.inodes[i].path,
            path::joined(s.inodes[bytes::le64(req, 16) - 1].path, name),
        ),
        forall|k: int|
            0 <= k < i ==> !path::same_path(
                (#[trigger] s.inodes[k]).path,
                path::joined(s.inodes[bytes::le64(req, 16) - 1].path, name),
            ),
    ensures
        s.requested(req).0 == s,
        s.requested(req).1 is Reply,
        ({
            let a = s.requested(req).1->Reply_0;
            &&& is_answer(a, bytes::le64(req, 8), 0, a.skip(16))
            &&& a.len() == 144
            &&& bytes::le64(a.skip(16), 0) == i + 1
            &&& is_attr(a.skip(16), 40, (i + 1) as u64, s.inodes[i].meta)
        }),
{
    let d = req.skip(40);
    let p = path::joined(s.inodes[bytes::le64(req, 16) - 1].path, name);
    assert forall|k: int| 0 <= k < name.len() implies #[trigger] d[k] != 0 by {
        assert(req.subrange(40, 40 + name.len() as int)[k] == req[40 + k]);
        assert(d[k] == name[k]);
    }
    lemma_zero(d, name.len() as int, 0);
    assert(d.subrange(0, name.len() as int) =~= name);
    lemma_find(s.inodes, p, 0);
    let f = fuse::find_path(s.inodes, p, 0);
    assert(f == i) by {
        if f < i {
            assert(!path::same_path(s.inodes[f].path, p));
        } else if i < f {
            assert(!path::same_path(s.inodes[i].path, p));
        }
    }
    law_entries_name_files((i + 1) as u64, s.inodes[i].meta);
    law_answers_are_framed(
        bytes::le64(req, 8),
        fuse::entry_payload((i + 1) as u64, s.inodes[i].meta),
        0,
    );
}

/// Looking up a name in a file that is not known fails as not there, and in one that
/// is no directory as such.
pub proof fn law_lookup_needs_directory(s: FuseView, req: Seq<u8>)
    requires
        req.len() >= 40,
        bytes::le32(req, 4) == 1,
        !(1 <= bytes::le64(req, 16) <= s.inodes.len()) || !s.inodes[bytes::le64(req, 16)
            - 1].meta.is_dir,
    ensures
        s.requested(req).0 == s,
        s.requested(req).1 matches AnswerView::Reply(a) && is_answer(
            a,
            bytes::le64(req, 8),
            if 1 <= bytes::le64(req, 16) <= s.inodes.len() {
                -20
            } else {
                -2
            },
            Seq::empty(),
        ),
{
    law_answers_are_framed(bytes::le64(req, 8), Seq::empty(), (-20) as i32);
    law_answers_are_framed(bytes::le64(req, 8), Seq::empty(), (-2) as i32);
}

/// A request to read or to list whose arguments are cut off fails as not
/// implemented.
pub proof fn law_short_requests_fail(s: FuseView, req: Seq<u8>)
    requires
        40 <= req.len() < 80,
        bytes::le32(req, 4) == 15 || bytes::le32(req, 4) == 28,
    ensures
        s.requested(req).0 == s,
        s.requested(req).1 matches AnswerView::Reply(a) && is_answer(
            a,
            bytes::le64(req, 8),
            -38,
            Seq::empty(),
        ),
{
    law_answers_are_framed(bytes::le64(req, 8), Seq::empty(), (-38) as i32);
}

/// A file that the host cannot read fails as a bad handle, and anything that the
/// host does not find as not there.
pub proof fn law_host_failures(s: FuseView, unique: u64, wait: WaitView)
    ensures
        s.informed(unique, WaitView::Read, HostReplyView::Unreadable).0 == s,
        is_answer(
            s.informed(unique, WaitView::Read, HostReplyView::Unreadable).1,
            unique,
            -9,
            Seq::empty(),
        ),
        s.informed(unique, wait, HostReplyView::Missing).0 == s,
        is_answer(
            s.informed(unique, wait, HostReplyView::Missing).1,
            unique,
            -2,
            Seq::empty(),
        ),
{
    law_answers_are_framed(unique, Seq::empty(), (-9) as i32);
    law_answers_are_framed(unique, Seq::empty(), (-2) as i32);
}

/// A file keeps the number that it got when the guest first heard of it. One that is
/// new gets the next number if the host knows what it is, and none if not.
pub proof fn law_files_have_numbers(s: FuseView, p: Seq<u8>, meta: Option<FileMeta>)
    requires
        s.inodes.len() < u64::MAX,
    ensures
        ({
            let (t, ino) = s.with_file(p, meta);
            &&& t.handles == s.handles && t.next_fh == s.next_fh
            &&& unheard(s, p) && meta is None ==> t == s && ino == 0
            &&& unheard(s, p) && meta is Some ==> t.inodes == s.inodes.push(
                InodeView { path: p, meta: meta->0 },
            ) && ino == s.inodes.len() + 1
            &&& !unheard(s, p) ==> t == s && 1 <= ino <= s.inodes.len() && path::same_path(
                s.inodes[ino - 1].path,
                p,
            )
        }),
{
    lemma_find(s.inodes, p, 0);
}

} // verus!
