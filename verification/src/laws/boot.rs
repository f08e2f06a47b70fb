//! What a guest finds in its memory when it boots.

use crate::boot::aarch64;
use crate::boot::x86_64;
use crate::bytes;
use crate::laws;
use crate::laws::queue;
use crate::memory::{self, MemView, MemoryError, PatchView};
use vstd::prelude::*;

verus! {

/// Whether an entry of the memory map stands at an address.
pub open spec fn entry_at(m: MemView, addr: int, start: int, size: int, kind: int) -> bool {
    &&& laws::u64_at(m, addr) == start
    &&& laws::u64_at(m, addr + 8) == size
    &&& laws::u32_at(m, addr + 16) == kind
}

proof fn lemma_bytes(m: MemView, addr: u64, b: Seq<u8>)
    requires
        b.len() <= usize::MAX,
        m.read(addr, b.len() as usize) == Ok::<Seq<u8>, MemoryError>(b),
    ensures
        forall|j: int| 0 <= j < b.len() ==> #[trigger] b[j] == laws::byte_at(m, addr + j),
{
    queue::lemma_slice(m, addr as int, b.len() as int);
}

proof fn lemma_u64(m: MemView, addr: u64, v: u64)
    requires
        m.read(addr, 8) == Ok::<Seq<u8>, MemoryError>(bytes::le64_bytes(v)),
    ensures
        laws::u64_at(m, addr as int) == v,
{
    let b = bytes::le64_bytes(v);
    bytes::law_le64_round_trip(v);
    lemma_bytes(m, addr, b);
    assert(b[0] == laws::byte_at(m, addr + 0) && b[1] == laws::byte_at(m, addr + 1) && b[2]
        == laws::byte_at(m, addr + 2) && b[3] == laws::byte_at(m, addr + 3) && b[4]
        == laws::byte_at(m, addr + 4) && b[5] == laws::byte_at(m, addr + 5) && b[6]
        == laws::byte_at(m, addr + 6) && b[7] == laws::byte_at(m, addr + 7));
}

proof fn lemma_u32(m: MemView, addr: u64, v: u32)
    requires
        m.read(addr, 4) == Ok::<Seq<u8>, MemoryError>(bytes::le32_bytes(v)),
    ensures
        laws::u32_at(m, addr as int) == v,
{
    let b = bytes::le32_bytes(v);
    bytes::law_le32_round_trip(v);
    lemma_bytes(m, addr, b);
    assert(b[0] == laws::byte_at(m, addr + 0) && b[1] == laws::byte_at(m, addr + 1) && b[2]
        == laws::byte_at(m, addr + 2) && b[3] == laws::byte_at(m, addr + 3));
}

proof fn lemma_u16(m: MemView, addr: u64, v: u16)
    requires
        m.read(addr, 2) == Ok::<Seq<u8>, MemoryError>(bytes::le16_bytes(v)),
    ensures
        laws::u16_at(m, addr as int) == v,
{
    let b = bytes::le16_bytes(v);
    bytes::law_le16_round_trip(v);
    lemma_bytes(m, addr, b);
    assert(b[0] == laws::byte_at(m, addr + 0) && b[1] == laws::byte_at(m, addr + 1));
}

/// The boot parameters say that the kernel can be booted, and where its command
/// line stands, which ends with a zero byte.
pub proof fn law_boot_parameters(m: MemView, cmdline: Seq<char>)
    requires
        x86_64::boot_memory(m, cmdline).1 is Ok,
    ensures
        ({
            let after = x86_64::boot_memory(m, cmdline).0;
            let line = vstd::utf8::encode_utf8(cmdline);
            &&& line.len() < 2048
            &&& forall|j: int|
                0 <= j < line.len() ==> #[trigger] line[j] == laws::byte_at(after, 0x2_0000 + j)
            &&& laws::byte_at(after, 0x2_0000 + line.len() as int) == 0
            &&& laws::u16_at(after, 0x71fe) == 0xaa55
            &&& laws::u32_at(after, 0x7202) == 0x5372_6448
            &&& laws::byte_at(after, 0x7210) == 0xff
            &&& laws::u32_at(after, 0x7228) == 0x2_0000
            &&& laws::u32_at(after, 0x7230) == 0x100_0000
        }),
{
    let after = x86_64::boot_memory(m, cmdline).0;
    let line = vstd::utf8::encode_utf8(cmdline);
    let ended = x86_64::cmdline_bytes(cmdline);
    x86_64::law_boot_params_in_place(m, cmdline);
    lemma_bytes(after, 0x2_0000, ended);
    assert forall|j: int| 0 <= j < line.len() implies #[trigger] line[j] == laws::byte_at(
        after,
        0x2_0000 + j,
    ) by {
        assert(ended[j] == line[j]);
    }
    assert(ended[line.len() as int] == 0);
    lemma_u16(after, 0x71fe, 0xaa55);
    lemma_u32(after, 0x7202, 0x5372_6448);
    lemma_u32(after, 0x7228, 0x2_0000);
    let list = x86_64::boot_patches(cmdline, m.end_addr());
    x86_64::lemma_boot_patch_places(cmdline, m.end_addr());
    x86_64::lemma_boot_patch_stays(m, cmdline, 523);
    x86_64::lemma_boot_patch_stays(m, cmdline, 525);
    assert(list[523] == x86_64::header_patches()[3]);
    assert(list[525] == x86_64::header_patches()[5]);
    let one = seq![0xffu8];
    lemma_bytes(after, 0x7210, one);
    assert(one[0] == laws::byte_at(after, 0x7210int + 0));
    bytes::law_le32_round_trip(0x100_0000);
    lemma_u32(after, 0x7230, 0x100_0000);
}

/// The segments that the processor starts with: none, code, data and a task, each
/// over all memory.
pub proof fn law_segments(m: MemView, cmdline: Seq<char>)
    requires
        x86_64::boot_memory(m, cmdline).1 is Ok,
    ensures
        x86_64::table_entry(x86_64::boot_memory(m, cmdline).0, 0x500, 0) == 0,
        x86_64::table_entry(x86_64::boot_memory(m, cmdline).0, 0x500, 1) == 0x00af_9b00_0000_ffff,
        x86_64::table_entry(x86_64::boot_memory(m, cmdline).0, 0x500, 2) == 0x00cf_9300_0000_ffff,
        x86_64::table_entry(x86_64::boot_memory(m, cmdline).0, 0x500, 3) == 0x008f_8b00_0000_ffff,
{
    x86_64::law_gdt_in_place(m, cmdline, 0);
    x86_64::law_gdt_in_place(m, cmdline, 1);
    x86_64::law_gdt_in_place(m, cmdline, 2);
    x86_64::law_gdt_in_place(m, cmdline, 3);
}

/// The writes of the command line's size and of the memory map, one by one.
proof fn lemma_tail(len: u32, end: u64)
    ensures
        ({
            let tail = x86_64::size_and_map_patches(len, end);
            let map = x86_64::e820_map(end);
            &&& tail.len() == 2 + 3 * map.len()
            &&& map.len() <= 3
            &&& tail[0] == (PatchView { addr: 0x7238, bytes: bytes::le32_bytes(len) })
            &&& forall|i: int|
                #![trigger map[i]]
                0 <= i < map.len() ==> {
                    let at = 0x72d0 + 20 * i;
                    &&& tail[1 + 3 * i] == (PatchView {
                        addr: at as u64,
                        bytes: bytes::le64_bytes(map[i].addr),
                    })
                    &&& tail[2 + 3 * i] == (PatchView {
                        addr: (at + 8) as u64,
                        bytes: bytes::le64_bytes(map[i].size),
                    })
                    &&& tail[3 + 3 * i] == (PatchView {
                        addr: (at + 16) as u64,
                        bytes: bytes::le32_bytes(map[i].mem_type),
                    })
                }
            &&& tail.last() == (PatchView { addr: 0x71e8, bytes: seq![map.len() as u8] })
        }),
{
    reveal_with_fuel(x86_64::map_patches, 4);
}

/// No write of the memory map touches another.
proof fn lemma_tail_apart(len: u32, end: u64, k: int, j: int)
    requires
        0 <= k < j < x86_64::size_and_map_patches(len, end).len(),
    ensures
        memory::disjoint(
            x86_64::size_and_map_patches(len, end)[k],
            x86_64::size_and_map_patches(len, end)[j],
        ),
{
    let tail = x86_64::size_and_map_patches(len, end);
    let map = x86_64::e820_map(end);
    lemma_tail(len, end);
    lemma_tail_place(len, end, k);
    lemma_tail_place(len, end, j);
}

/// Where a write of the memory map lies.
proof fn lemma_tail_place(len: u32, end: u64, k: int)
    requires
        0 <= k < x86_64::size_and_map_patches(len, end).len(),
    ensures
        ({
            let tail = x86_64::size_and_map_patches(len, end);
            let p = tail[k];
            let i = (k - 1) / 3;
            let f = (k - 1) % 3;
            &&& p.bytes.len() <= 8
            &&& k == 0 ==> p.addr == 0x7238 && p.bytes.len() == 4
            &&& k == tail.len() - 1 ==> p.addr == 0x71e8 && p.bytes.len() == 1
            &&& 0 < k < tail.len() - 1 ==> p.addr == 0x72d0 + 20 * i + 8 * f && p.bytes.len() == if f
                == 2 {
                4int
            } else {
                8
            }
        }),
{
    let tail = x86_64::size_and_map_patches(len, end);
    let map = x86_64::e820_map(end);
    lemma_tail(len, end);
    bytes::law_le32_round_trip(len);
    if 0 < k < tail.len() - 1 {
        let i = (k - 1) / 3;
        let e = map[i];
        bytes::law_le64_round_trip(e.addr);
        bytes::law_le64_round_trip(e.size);
        bytes::law_le32_round_trip(e.mem_type);
    }
}

proof fn lemma_tail_stays(x: MemView, len: u32, end: u64, k: int)
    requires
        x.writes(x86_64::size_and_map_patches(len, end)).1 is Ok,
        0 <= k < x86_64::size_and_map_patches(len, end).len(),
    ensures
        ({
            let tail = x86_64::size_and_map_patches(len, end);
            x.writes(tail).0.read(tail[k].addr, tail[k].bytes.len() as usize) == Ok::<
                Seq<u8>,
                MemoryError,
            >(tail[k].bytes)
        }),
{
    let tail = x86_64::size_and_map_patches(len, end);
    lemma_tail_place(len, end, k);
    assert forall|j: int| k < j < tail.len() implies memory::disjoint(
        tail[k],
        #[trigger] tail[j],
    ) by {
        lemma_tail_apart(len, end, k, j);
    }
    memory::law_writes_stay(x, tail, k);
}

proof fn lemma_map(x: MemView, len: u32, end: u64, i: int)
    requires
        x.writes(x86_64::size_and_map_patches(len, end)).1 is Ok,
        0 <= i < x86_64::e820_map(end).len(),
    ensures
        ({
            let after = x.writes(x86_64::size_and_map_patches(len, end)).0;
            let e = x86_64::e820_map(end)[i];
            entry_at(after, 0x72d0 + 20 * i, e.addr as int, e.size as int, e.mem_type as int)
        }),
{
    let after = x.writes(x86_64::size_and_map_patches(len, end)).0;
    let e = x86_64::e820_map(end)[i];
    let at = 0x72d0 + 20 * i;
    lemma_tail(len, end);
    lemma_tail_stays(x, len, end, 1 + 3 * i);
    lemma_tail_stays(x, len, end, 2 + 3 * i);
    lemma_tail_stays(x, len, end, 3 + 3 * i);
    bytes::law_le64_round_trip(e.addr);
    bytes::law_le64_round_trip(e.size);
    bytes::law_le32_round_trip(e.mem_type);
    lemma_u64(after, at as u64, e.addr);
    lemma_u64(after, (at + 8) as u64, e.size);
    lemma_u32(after, (at + 16) as u64, e.mem_type);
}

proof fn lemma_written_last(m: MemView, cmdline: Seq<char>) -> (x: MemView)
    requires
        x86_64::boot_memory(m, cmdline).1 is Ok,
    ensures
        vstd::utf8::encode_utf8(cmdline).len() <= u32::MAX,
        ({
            let tail = x86_64::size_and_map_patches(
                vstd::utf8::encode_utf8(cmdline).len() as u32,
                m.end_addr(),
            );
            &&& x.writes(tail).1 is Ok
            &&& x.writes(tail).0 == x86_64::boot_memory(m, cmdline).0
        }),
{
    reveal(x86_64::boot_memory);
    let m1 = m.writes(x86_64::gdt_patches()).0;
    let m2 = m1.writes(x86_64::page_table_patches()).0;
    let c = seq![
        PatchView {
            addr: crate::boot::CMDLINE_START,
            bytes: x86_64::cmdline_bytes(cmdline),
        },
    ];
    let m3 = m2.writes(c).0;
    memory::law_writes_keep_layout(m, x86_64::gdt_patches());
    memory::law_writes_keep_layout(m1, x86_64::page_table_patches());
    memory::law_writes_keep_layout(m2, c);
    m3.writes(x86_64::header_patches()).0
}

/// The boot parameters hold how long the command line is and the memory map: usable
/// memory up to 639 KiB and from 1 MiB to the end, and what lies between them is
/// reserved. A guest with 1 MiB or less can use all of it.
pub proof fn law_memory_map_in_place(m: MemView, cmdline: Seq<char>)
    requires
        x86_64::boot_memory(m, cmdline).1 is Ok,
    ensures
        ({
            let after = x86_64::boot_memory(m, cmdline).0;
            let end = m.end_addr();
            &&& laws::u32_at(after, 0x7238) == vstd::utf8::encode_utf8(cmdline).len()
            &&& end > 0x10_0000 ==> {
                &&& laws::byte_at(after, 0x71e8) == 3
                &&& entry_at(after, 0x72d0, 0, 0x9_fc00, 1)
                &&& entry_at(after, 0x72e4, 0x9_fc00, 0x6_0400, 2)
                &&& entry_at(after, 0x72f8, 0x10_0000, end - 0x10_0000, 1)
            }
            &&& end <= 0x10_0000 ==> {
                &&& laws::byte_at(after, 0x71e8) == 1
                &&& entry_at(after, 0x72d0, 0, end as int, 1)
            }
        }),
{
    let after = x86_64::boot_memory(m, cmdline).0;
    let end = m.end_addr();
    let len = vstd::utf8::encode_utf8(cmdline).len() as u32;
    let tail = x86_64::size_and_map_patches(len, end);
    let map = x86_64::e820_map(end);
    let x = lemma_written_last(m, cmdline);
    lemma_tail(len, end);
    lemma_tail_stays(x, len, end, 0);
    bytes::law_le32_round_trip(len);
    lemma_u32(after, 0x7238, len);
    lemma_tail_stays(x, len, end, tail.len() - 1);
    let count = seq![map.len() as u8];
    lemma_bytes(after, 0x71e8, count);
    assert(count[0] == laws::byte_at(after, 0x71e8int + 0));
    lemma_map(x, len, end, 0);
    if end > 0x10_0000 {
        lemma_map(x, len, end, 1);
        lemma_map(x, len, end, 2);
    }
}

/// A guest starts where its kernel says, with a stack, and knows where its boot
/// parameters and its page tables are.
pub proof fn law_start(m: MemView, kernel: Seq<u8>, cmdline: Seq<char>)
    ensures
        x86_64::booted(m, kernel, cmdline).1 matches Ok(c) ==> {
            &&& c.entry_point == bytes::le64(kernel, 24)
            &&& c.stack_pointer == 0x8ff0
            &&& c.boot_params_addr == 0x7000
            &&& c.pml4_addr == 0x9000
            &&& x86_64::booted(m, kernel, cmdline).0 == x86_64::boot_memory(
                x86_64::elf_loaded(m, kernel).0,
                cmdline,
            ).0
            &&& x86_64::elf_loaded(m, kernel).1 is Ok
            &&& x86_64::boot_memory(x86_64::elf_loaded(m, kernel).0, cmdline).1 is Ok
        },
{
}

/// An ARM kernel is loaded if and only if it has a header with the right magic and
/// fits. It is placed as far behind the start of memory as its header says, or 2 MiB
/// if that says nothing.
pub proof fn law_arm_kernel(m: MemView, data: Seq<u8>)
    requires
        m.end() <= u64::MAX,
        m.base <= 0x8000_0000,
    ensures
        ({
            let offset = bytes::le64(data, 8);
            let at = 0x8000_0000 + if offset == 0 {
                0x20_0000
            } else {
                offset as int
            };
            let (n, r) = aarch64::image_loaded(m, data);
            &&& r is Ok <==> data.len() >= 64 && bytes::le32(data, 0x38) == 0x644d_5241 && at
                + data.len() <= m.end()
            &&& r is Ok ==> r->Ok_0 == at && forall|i: int|
                0 <= i < data.len() ==> #[trigger] data[i] == laws::byte_at(n, at + i)
            &&& r is Err ==> n == m
        }),
{
    let (n, r) = aarch64::image_loaded(m, data);
    let at = aarch64::load_addr(data);
    if r is Ok {
        assert forall|i: int| 0 <= i < data.len() implies #[trigger] data[i] == laws::byte_at(
            n,
            at + i,
        ) by {}
    }
}

} // verus!
