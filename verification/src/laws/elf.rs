//! What loading an ELF puts into guest memory.

use crate::boot::x86_64::{self, ElfHeader};
use crate::bytes;
use crate::laws;
use crate::memory::MemView;
use vstd::prelude::*;

verus! {

/// Where the `i`-th program header of a file lies.
pub open spec fn ph(data: Seq<u8>, i: int) -> int {
    bytes::le64(data, 32) + bytes::le16(data, 54) * i
}

/// Whether the `i`-th program header is that of a segment to load.
pub open spec fn loadable(data: Seq<u8>, i: int) -> bool {
    bytes::le32(data, ph(data, i)) == 1
}

/// Where the bytes of the `i`-th segment stand in the file.
pub open spec fn file_start(data: Seq<u8>, i: int) -> int {
    bytes::le64(data, ph(data, i) + 8) as int
}

/// Where the `i`-th segment belongs in guest memory.
pub open spec fn place(data: Seq<u8>, i: int) -> int {
    bytes::le64(data, ph(data, i) + 24) as int
}

/// How many bytes the file has of the `i`-th segment.
pub open spec fn file_size(data: Seq<u8>, i: int) -> int {
    bytes::le64(data, ph(data, i) + 32) as int
}

/// How many bytes of guest memory the `i`-th segment takes.
pub open spec fn mem_size(data: Seq<u8>, i: int) -> int {
    bytes::le64(data, ph(data, i) + 40) as int
}

/// Whether the `i`-th segment takes the byte at an address.
pub open spec fn takes(data: Seq<u8>, i: int, addr: int) -> bool {
    &&& loadable(data, i)
    &&& place(data, i) <= addr
    &&& addr < place(data, i) + file_size(data, i) || addr < place(data, i) + mem_size(data, i)
}

/// Whether the `i`-th segment can be loaded.
pub open spec fn fits(m: MemView, data: Seq<u8>, i: int) -> bool {
    &&& 0x10_0000 <= place(data, i)
    &&& m.base <= place(data, i)
    &&& place(data, i) + mem_size(data, i) <= m.base + m.data.len()
    &&& place(data, i) + file_size(data, i) <= m.base + m.data.len()
    &&& file_start(data, i) + file_size(data, i) <= data.len()
}

proof fn lemma_segment(m: MemView, data: Seq<u8>, h: ElfHeader, i: int)
    requires
        h.phoff == bytes::le64(data, 32),
        h.phentsize == bytes::le16(data, 54),
        0 <= i,
        loadable(data, i),
    ensures
        ({
            let (n, r) = x86_64::segment_loaded(m, data, ph(data, i));
            &&& n.base == m.base
            &&& n.data.len() == m.data.len()
            &&& forall|addr: int|
                m.base <= addr < m.end() && !takes(data, i, addr) ==> #[trigger] laws::byte_at(n, addr)
                    == laws::byte_at(m, addr)
            &&& r is Ok ==> forall|k: int|
                0 <= k < file_size(data, i) ==> laws::byte_at(n, place(data, i) + k)
                    == #[trigger] data[file_start(data, i) + k]
            &&& r is Ok ==> forall|k: int|
                file_size(data, i) <= k < mem_size(data, i) ==> #[trigger] laws::byte_at(
                    n,
                    place(data, i) + k,
                ) == 0
            &&& r is Ok ==> m.base <= place(data, i) && place(data, i) + file_size(data, i)
                <= m.end() && place(data, i) + mem_size(data, i) <= m.end()
            &&& m.end() <= u64::MAX && data.len() <= usize::MAX && fits(m, data, i) ==> r is Ok
            &&& r is Ok && m.end() <= u64::MAX ==> fits(m, data, i)
        }),
{
    let (n, r) = x86_64::segment_loaded(m, data, ph(data, i));
    let offset = file_start(data, i);
    let file = data.subrange(offset, offset + file_size(data, i));
    if r is Ok {
        assert forall|k: int| 0 <= k < file_size(data, i) implies laws::byte_at(n, place(data, i) + k)
            == #[trigger] data[offset + k] by {
            assert(file[k] == data[offset + k]);
        }
    }
}

proof fn lemma_segments(m: MemView, data: Seq<u8>, h: ElfHeader, k: int)
    requires
        h.phoff == bytes::le64(data, 32),
        h.phentsize == bytes::le16(data, 54),
        h.phnum == bytes::le16(data, 56),
        0 <= k <= h.phnum,
    ensures
        ({
            let (n, r) = x86_64::segments_loaded(m, data, h, k);
            &&& n.base == m.base
            &&& n.data.len() == m.data.len()
            &&& forall|addr: int|
                m.base <= addr < m.end() && (forall|i: int|
                    k <= i < h.phnum ==> !#[trigger] takes(data, i, addr)) ==> #[trigger] laws::byte_at(
                    n,
                    addr,
                ) == laws::byte_at(m, addr)
            &&& r is Ok ==> forall|i: int|
                k <= i < h.phnum && #[trigger] loadable(data, i) ==> m.base <= place(data, i)
                    && place(data, i) + file_size(data, i) <= m.end() && place(data, i) + mem_size(
                    data,
                    i,
                ) <= m.end()
            &&& r is Ok ==> forall|i: int, b: int|
                #![trigger loadable(data, i), data[file_start(data, i) + b]]
                k <= i < h.phnum && loadable(data, i) && 0 <= b < file_size(data, i) && (forall|
                    j: int,
                |
                    i < j < h.phnum ==> !#[trigger] takes(data, j, place(data, i) + b)) ==> laws::byte_at(
                    n,
                    place(data, i) + b,
                ) == data[file_start(data, i) + b]
            &&& r is Ok ==> forall|i: int, b: int|
                #![trigger loadable(data, i), laws::byte_at(n, place(data, i) + b)]
                k <= i < h.phnum && loadable(data, i) && file_size(data, i) <= b < mem_size(data, i)
                    && (forall|j: int|
                    i < j < h.phnum ==> !#[trigger] takes(data, j, place(data, i) + b)) ==> laws::byte_at(
                    n,
                    place(data, i) + b,
                ) == 0
        }),
    decreases h.phnum - k,
{
    let at = h.phoff + h.phentsize * k;
    if k < h.phnum && h.phoff <= usize::MAX && at + 56 <= data.len() {
        if !loadable(data, k) {
            lemma_segments(m, data, h, k + 1);
        } else {
            lemma_segment(m, data, h, k);
            let (m1, r1) = x86_64::segment_loaded(m, data, at);
            if r1 is Ok {
                lemma_segments(m1, data, h, k + 1);
                let (n, r) = x86_64::segments_loaded(m, data, h, k);
                assert forall|addr: int|
                    m.base <= addr < m.end() && (forall|i: int|
                        k <= i < h.phnum ==> !#[trigger] takes(
                            data,
                            i,
                            addr,
                        )) implies #[trigger] laws::byte_at(n, addr) == laws::byte_at(m, addr) by {
                    assert(!takes(data, k, addr));
                    assert(laws::byte_at(n, addr) == laws::byte_at(m1, addr));
                }
                if r is Ok {
                    assert forall|i: int, b: int|
                        #![trigger loadable(data, i), data[file_start(data, i) + b]]
                        k <= i < h.phnum && loadable(data, i) && 0 <= b < file_size(data, i) && (
                        forall|j: int|
                            i < j < h.phnum ==> !#[trigger] takes(
                                data,
                                j,
                                place(data, i) + b,
                            )) implies laws::byte_at(n, place(data, i) + b) == data[file_start(data, i)
                        + b] by {
                        if i == k {
                            assert(laws::byte_at(m1, place(data, i) + b) == data[file_start(data, i)
                                + b]);
                            assert(laws::byte_at(n, place(data, i) + b) == laws::byte_at(
                                m1,
                                place(data, i) + b,
                            ));
                        }
                    }
                    assert forall|i: int, b: int|
                        #![trigger loadable(data, i), laws::byte_at(n, place(data, i) + b)]
                        k <= i < h.phnum && loadable(data, i) && file_size(data, i) <= b < mem_size(
                            data,
                            i,
                        ) && (forall|j: int|
                            i < j < h.phnum ==> !#[trigger] takes(
                                data,
                                j,
                                place(data, i) + b,
                            )) implies laws::byte_at(n, place(data, i) + b) == 0 by {
                        if i == k {
                            assert(laws::byte_at(m1, place(data, i) + b) == 0);
                        }
                    }
                }
            } else {
                let (n, r) = x86_64::segments_loaded(m, data, h, k);
                assert forall|addr: int|
                    m.base <= addr < m.end() && (forall|i: int|
                        k <= i < h.phnum ==> !#[trigger] takes(
                            data,
                            i,
                            addr,
                        )) implies #[trigger] laws::byte_at(n, addr) == laws::byte_at(m, addr) by {
                    assert(!takes(data, k, addr));
                }
            }
        }
    }
}

/// An ELF that was loaded lies in guest memory whole: of every program header of
/// a segment to load, the bytes of the file stand at its physical address, and
/// zeros behind them up to its size in memory, unless a later segment takes the
/// same place. The entry point is that of the ELF header.
pub proof fn law_every_segment_is_loaded(m: MemView, data: Seq<u8>)
    requires
        x86_64::elf_loaded(m, data).1 is Ok,
    ensures
        ({
            let (n, r) = x86_64::elf_loaded(m, data);
            &&& r->Ok_0 == bytes::le64(data, 24)
            &&& forall|i: int, b: int|
                #![trigger loadable(data, i), data[file_start(data, i) + b]]
                0 <= i < bytes::le16(data, 56) && loadable(data, i) && 0 <= b < file_size(data, i)
                    && (forall|j: int|
                    i < j < bytes::le16(data, 56) ==> !#[trigger] takes(
                        data,
                        j,
                        place(data, i) + b,
                    )) ==> laws::byte_at(n, place(data, i) + b) == data[file_start(data, i) + b]
            &&& forall|i: int, b: int|
                #![trigger loadable(data, i), laws::byte_at(n, place(data, i) + b)]
                0 <= i < bytes::le16(data, 56) && loadable(data, i) && file_size(data, i) <= b
                    < mem_size(data, i) && (forall|j: int|
                    i < j < bytes::le16(data, 56) ==> !#[trigger] takes(
                        data,
                        j,
                        place(data, i) + b,
                    )) ==> laws::byte_at(n, place(data, i) + b) == 0
        }),
{
    lemma_segments(m, data, x86_64::elf_header(data)->Ok_0, 0);
}

/// Loading an ELF, whether it succeeds or not, leaves every byte of guest memory
/// as it was that no segment takes, and guest memory where it is.
pub proof fn law_loading_spares_the_rest(m: MemView, data: Seq<u8>, addr: int)
    requires
        m.base <= addr < m.end(),
        forall|i: int| 0 <= i < bytes::le16(data, 56) ==> !#[trigger] takes(data, i, addr),
    ensures
        ({
            let n = x86_64::elf_loaded(m, data).0;
            &&& n.base == m.base
            &&& n.data.len() == m.data.len()
            &&& laws::byte_at(n, addr) == laws::byte_at(m, addr)
        }),
{
    match x86_64::elf_header(data) {
        Ok(h) => lemma_segments(m, data, h, 0),
        Err(_) => {},
    }
}

/// Whether a file starts with the header of a 64-bit little-endian x86-64
/// executable.
pub open spec fn is_executable(data: Seq<u8>) -> bool {
    &&& data.len() >= 64
    &&& data[0] == 0x7f && data[1] == 0x45 && data[2] == 0x4c && data[3] == 0x46
    &&& data[4] == 2 && data[5] == 1
    &&& bytes::le16(data, 16) == 2
    &&& bytes::le16(data, 18) == 62
    &&& bytes::le16(data, 54) >= 56
}

proof fn lemma_loads(m: MemView, data: Seq<u8>, h: ElfHeader, k: int)
    requires
        m.end() <= u64::MAX,
        data.len() <= usize::MAX,
        h.phoff == bytes::le64(data, 32),
        h.phentsize == bytes::le16(data, 54),
        h.phnum == bytes::le16(data, 56),
        0 <= k <= h.phnum,
    ensures
        x86_64::segments_loaded(m, data, h, k).1 is Ok <==> forall|i: int|
            k <= i < h.phnum ==> #[trigger] ph(data, i) + 56 <= data.len() && (loadable(data, i)
                ==> fits(m, data, i)),
    decreases h.phnum - k,
{
    let at = h.phoff + h.phentsize * k;
    if k < h.phnum {
        assert(h.phentsize * k >= 0) by (nonlinear_arith)
            requires
                k >= 0,
                h.phentsize >= 0,
        ;
        assert(ph(data, k) == at);
        if h.phoff <= usize::MAX && at + 56 <= data.len() {
            if loadable(data, k) {
                lemma_segment(m, data, h, k);
                let (m1, r1) = x86_64::segment_loaded(m, data, at);
                lemma_loads(m1, data, h, k + 1);
                if r1 is Ok {
                    assert(forall|i: int| fits(m1, data, i) == fits(m, data, i));
                }
            } else {
                lemma_loads(m, data, h, k + 1);
            }
        }
    }
}

/// An ELF is loaded if and only if it is an executable whose program headers all
/// lie in the file, and each segment to load has its bytes in the file and its
/// place in guest memory, at 1 MiB or above.
pub proof fn law_what_is_loaded(m: MemView, data: Seq<u8>)
    requires
        m.end() <= u64::MAX,
        data.len() <= usize::MAX,
    ensures
        x86_64::elf_loaded(m, data).1 is Ok <==> is_executable(data) && forall|i: int|
            0 <= i < bytes::le16(data, 56) ==> #[trigger] ph(data, i) + 56 <= data.len() && (
            loadable(data, i) ==> fits(m, data, i)),
{
    if data.len() >= 64 {
        let magic = seq![0x7fu8, 0x45u8, 0x4cu8, 0x46u8];
        let start = data.subrange(0, 4);
        assert(start[0] == data[0] && start[1] == data[1] && start[2] == data[2] && start[3]
            == data[3]);
        assert(magic[0] == 0x7f && magic[1] == 0x45 && magic[2] == 0x4c && magic[3] == 0x46);
        assert(start =~= magic <==> data[0] == 0x7f && data[1] == 0x45 && data[2] == 0x4c && data[3]
            == 0x46);
    }
    match x86_64::elf_header(data) {
        Ok(h) => lemma_loads(m, data, h, 0),
        Err(_) => {},
    }
}

} // verus!
