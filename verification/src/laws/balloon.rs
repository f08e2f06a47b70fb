//! How the balloon device takes the guest's lists of pages.

use crate::bytes;
use crate::devices::balloon::{self, BalloonRun, PageList};
use crate::laws;
use crate::laws::queue;
use crate::memory::{MemView, MemoryError};
use crate::transport::{self, VirtQueue};
use vstd::prelude::*;

verus! {

/// Where the page that stands at place `k` of a list starts.
pub open spec fn page_at(m: MemView, list: int, k: int) -> int {
    4096 * laws::u32_at(m, list + 4 * k)
}

/// Whether guest memory holds an address.
pub open spec fn is_guest(m: MemView, addr: int) -> bool {
    m.base <= addr < m.end()
}

/// Whether these are the pages of a list that guest memory holds, by their offsets
/// from its start.
#[verifier::opaque]
pub open spec fn are_pages(m: MemView, list: int, count: int, pages: Seq<u64>) -> bool {
    &&& forall|k: int|
        0 <= k < count && is_guest(m, #[trigger] page_at(m, list, k)) ==> pages.contains(
            (page_at(m, list, k) - m.base) as u64,
        )
    &&& forall|i: int| 0 <= i < pages.len() ==> is_page(m, list, count, #[trigger] pages[i])
    &&& pages.len() <= count
}

/// Whether an offset is that of a page of a list.
pub open spec fn is_page(m: MemView, list: int, count: int, offset: u64) -> bool {
    exists|k: int| 0 <= k < count && #[trigger] page_at(m, list, k) == m.base + offset
}

proof fn lemma_read32(m: MemView, addr: u64)
    requires
        m.in_bounds(addr as int, 4),
    ensures
        m.read(addr, 4) is Ok,
        bytes::le32(m.read(addr, 4)->Ok_0, 0) == laws::u32_at(m, addr as int),
{
    queue::lemma_slice(m, addr as int, 4);
    let b = m.slice(addr as int, 4);
    assert(b[0] == laws::byte_at(m, addr + 0) && b[1] == laws::byte_at(m, addr + 1) && b[2]
        == laws::byte_at(m, addr + 2) && b[3] == laws::byte_at(m, addr + 3));
}

proof fn lemma_pages(m: MemView, l: PageList, i: nat, released: Seq<u64>) -> (pages: Seq<u64>)
    requires
        0 <= m.base,
        m.end() <= u64::MAX,
        m.in_bounds(l.addr as int, 4 * l.count),
        i <= l.count,
    ensures
        balloon::pages_of(m, l, i, released) == (released + pages, None::<MemoryError>),
        pages.len() <= l.count - i,
        forall|k: int|
            i <= k < l.count && is_guest(m, #[trigger] page_at(m, l.addr as int, k))
                ==> pages.contains((page_at(m, l.addr as int, k) - m.base) as u64),
        forall|j: int|
            0 <= j < pages.len() ==> is_page(m, l.addr as int, l.count as int, #[trigger] pages[j]),
    decreases l.count - i,
{
    if i == l.count {
        let pages = Seq::<u64>::empty();
        assert(released + pages =~= released);
        pages
    } else {
        let addr = l.addr + 4 * i;
        lemma_read32(m, addr as u64);
        let page = page_at(m, l.addr as int, i as int);
        let offset = (page - m.base) as u64;
        if is_guest(m, page) {
            let rest = lemma_pages(m, l, i + 1, released.push(offset));
            let pages = seq![offset] + rest;
            assert(released.push(offset) + rest =~= released + pages);
            assert(pages[0] == offset);
            assert forall|k: int|
                i <= k < l.count && is_guest(
                    m,
                    #[trigger] page_at(m, l.addr as int, k),
                ) implies pages.contains((page_at(m, l.addr as int, k) - m.base) as u64) by {
                if k > i {
                    let o = (page_at(m, l.addr as int, k) - m.base) as u64;
                    assert(rest.contains(o));
                    let j = choose|j: int| 0 <= j < rest.len() && rest[j] == o;
                    assert(pages[j + 1] == o);
                }
            }
            assert(page_at(m, l.addr as int, i as int) == m.base + offset);
            assert forall|j: int| 0 <= j < pages.len() implies is_page(
                m,
                l.addr as int,
                l.count as int,
                #[trigger] pages[j],
            ) by {
                if j > 0 {
                    assert(pages[j] == rest[j - 1]);
                }
            }
            pages
        } else {
            lemma_pages(m, l, i + 1, released)
        }
    }
}

/// Whether a list that was taken was given back: its entry, with nothing stored,
/// stands at the end of the used ring, which is one entry longer, and nothing else
/// has changed.
#[verifier::opaque]
pub open spec fn is_given_back(m: MemView, n: MemView, q: VirtQueue, head: int) -> bool {
    let used = laws::u16_at(m, q.used_ring_addr + 2);
    let at = q.used_ring_addr + 4 + 8 * (used % (q.size as int));
    &&& n.base == m.base
    &&& n.data.len() == m.data.len()
    &&& laws::u32_at(n, at) == head
    &&& laws::u32_at(n, at + 4) == 0
    &&& laws::u16_at(n, q.used_ring_addr + 2) == (used + 1) % 0x1_0000
    &&& forall|addr: int|
        m.base <= addr < m.end() && !(at <= addr < at + 8) && !(q.used_ring_addr + 2 <= addr
            < q.used_ring_addr + 4) ==> #[trigger] laws::byte_at(n, addr) == laws::byte_at(m, addr)
}

proof fn lemma_given_back(m: MemView, q: VirtQueue, p: VirtQueue, head: u16)
    requires
        queue::laid_out(m, q),
        p == (VirtQueue { last_avail_idx: p.last_avail_idx, ..q }),
    ensures
        ({
            let (n, r, w) = balloon::given_back(m, p, head);
            &&& w is Ok
            &&& is_given_back(m, n, q, head as int)
            &&& r == (VirtQueue {
                last_used_idx: ((laws::u16_at(m, q.used_ring_addr + 2) + 1) % 0x1_0000) as u16,
                ..p
            })
        }),
{
    reveal(is_given_back);
    let ia = q.used_ring_addr + 2;
    let used = laws::u16_at(m, ia);
    assert(m.in_bounds(ia, 2));
    queue::lemma_slice(m, ia, 2);
    let s = m.slice(ia, 2);
    assert(s[0] == laws::byte_at(m, ia + 0) && s[1] == laws::byte_at(m, ia + 1));
    assert(bytes::le16(s, 0) == used);
    let i = used % (q.size as int);
    assert(0 <= i < q.size);
    let at = q.used_ring_addr + 4 + 8 * i;
    assert(m.in_bounds(at, 8));
    let h = bytes::le32_bytes(head as u32);
    let z = bytes::le32_bytes(0);
    bytes::law_le32_round_trip(head as u32);
    bytes::law_le32_round_trip(0);
    let m1 = m.store(at, h + z);
    let next = transport::ring_next(used as u16);
    bytes::law_le16_round_trip(next);
    let x = bytes::le16_bytes(next);
    let n = m1.store(ia, x);
    assert(balloon::given_back(m, p, head).0 == n);
    assert(laws::byte_at(n, ia) == x[0] && laws::byte_at(n, ia + 1) == x[1]);
    assert(laws::byte_at(n, at) == h[0] && laws::byte_at(n, at + 1) == h[1] && laws::byte_at(
        n,
        at + 2,
    ) == h[2] && laws::byte_at(n, at + 3) == h[3]);
    assert(laws::byte_at(n, at + 4) == z[0] && laws::byte_at(n, at + 5) == z[1] && laws::byte_at(
        n,
        at + 6,
    ) == z[2] && laws::byte_at(n, at + 7) == z[3]);
}

/// Whether the next chain of a queue is a list of pages that guest memory holds.
pub open spec fn list_waits(m: MemView, q: VirtQueue, addr: int, len: int) -> bool {
    let head = queue::head_at(m, q, 0);
    &&& queue::laid_out(m, q)
    &&& queue::waiting(m, q) > 0
    &&& head < q.size
    &&& addr == laws::u64_at(m, q.desc_table_addr + 16 * head)
    &&& len == laws::u32_at(m, q.desc_table_addr + 16 * head + 8)
    &&& m.in_bounds(addr, len)
}

/// While a list of pages waits, the work takes it: all its pages count, those that
/// the guest puts into the balloon are released as far as guest memory holds them,
/// the list is given back, and the work goes on behind it.
pub proof fn law_next_list_is_taken(
    m: MemView,
    q: VirtQueue,
    inflate: bool,
    n: nat,
    counted: nat,
    released: Seq<u64>,
    processed: bool,
    addr: int,
    len: int,
)
    requires
        n > 0,
        0 <= m.base,
        m.end() <= u64::MAX,
        list_waits(m, q, addr, len),
    ensures
        exists|a: MemView, pages: Seq<u64>|
            #![trigger is_given_back(m, a, q, queue::head_at(m, q, 0)), are_pages(m, addr, len / 4, pages)]
            is_given_back(m, a, q, queue::head_at(m, q, 0)) && (if inflate {
                are_pages(m, addr, len / 4, pages)
            } else {
                pages == Seq::<u64>::empty()
            }) && balloon::lists_taken(m, q, inflate, n, counted, released, processed)
                == balloon::lists_taken(
                a,
                VirtQueue {
                    last_avail_idx: ((q.last_avail_idx + 1) % 0x1_0000) as u16,
                    last_used_idx: laws::u16_at(a, q.used_ring_addr + 2) as u16,
                    ..q
                },
                inflate,
                (n - 1) as nat,
                (counted + len / 4) as nat,
                released + pages,
                true,
            ),
{
    let head = queue::head_at(m, q, 0) as u16;
    queue::lemma_moved(q, 0);
    queue::lemma_avail(m, q);
    queue::lemma_head(m, q, 0);
    let d = q.desc_table_addr + 16 * head;
    assert(m.in_bounds(d, 12));
    queue::lemma_slice(m, d, 12);
    let b = m.slice(d, 12);
    assert(b[0] == laws::byte_at(m, d + 0) && b[1] == laws::byte_at(m, d + 1) && b[2]
        == laws::byte_at(m, d + 2) && b[3] == laws::byte_at(m, d + 3) && b[4] == laws::byte_at(
        m,
        d + 4,
    ) && b[5] == laws::byte_at(m, d + 5) && b[6] == laws::byte_at(m, d + 6) && b[7]
        == laws::byte_at(m, d + 7) && b[8] == laws::byte_at(m, d + 8) && b[9] == laws::byte_at(
        m,
        d + 9,
    ) && b[10] == laws::byte_at(m, d + 10) && b[11] == laws::byte_at(m, d + 11));
    let l = PageList { idx: head, addr: addr as u64, count: (len / 4) as u32 };
    assert(bytes::le64(b, 0) == addr && bytes::le32(b, 8) == len);
    assert(balloon::list_at(m, q, head) == Ok::<PageList, MemoryError>(l));
    assert(balloon::next_list(m, q) == Some(l));
    let q1 = balloon::taken(q);
    lemma_given_back(m, q, q1, head);
    let a = balloon::given_back(m, q1, head).0;
    assert(laws::u16_at(a, q.used_ring_addr + 2) == (laws::u16_at(m, q.used_ring_addr + 2) + 1)
        % 0x1_0000) by {
        reveal(is_given_back);
    }
    if inflate {
        let pages = lemma_pages(m, l, 0, released);
        assert(are_pages(m, addr, len / 4, pages)) by {
            reveal(are_pages);
        }
        assert(is_given_back(m, a, q, queue::head_at(m, q, 0)));
    } else {
        let pages = Seq::<u64>::empty();
        assert(released + pages =~= released);
        assert(is_given_back(m, a, q, queue::head_at(m, q, 0)));
        let named = are_pages(m, addr, len / 4, pages);
    }
}

/// Work on a queue begins with nothing counted and ends when no list waits, short of
/// more lists than a 64-bit number counts.
pub proof fn law_work_takes_lists(
    m: MemView,
    q: VirtQueue,
    inflate: bool,
    n: nat,
    counted: nat,
    released: Seq<u64>,
    processed: bool,
)
    requires
        queue::laid_out(m, q),
    ensures
        balloon::queue_worked(m, q, inflate) == balloon::lists_taken(
            m,
            q,
            inflate,
            0xffff_ffff_ffff_ffff,
            0,
            Seq::empty(),
            false,
        ),
        queue::waiting(m, q) == 0 ==> balloon::lists_taken(
            m,
            q,
            inflate,
            n,
            counted,
            released,
            processed,
        ) == (BalloonRun { mem: m, queue: q, pages: counted, released, result: Ok(processed) }),
{
    queue::lemma_avail(m, q);
}

} // verus!
