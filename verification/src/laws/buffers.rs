//! What the buffers of a chain hold.

use crate::laws;
use crate::laws::queue;
use crate::memory::MemView;
use crate::transport::{VirtQueue, VirtqDesc};
use vstd::prelude::*;

verus! {

/// How many bytes the first `i` buffers hold.
pub open spec fn before(c: Seq<VirtqDesc>, i: int) -> int
    decreases i,
{
    if i <= 0 {
        0
    } else {
        before(c, i - 1) + c[i - 1].len
    }
}

/// Whether an address lies in the buffer of a descriptor.
pub open spec fn inside(d: VirtqDesc, addr: int) -> bool {
    d.addr <= addr < d.addr + d.len
}

/// Whether an address lies in one of the buffers.
pub open spec fn in_some(c: Seq<VirtqDesc>, addr: int) -> bool {
    exists|i: int| 0 <= i < c.len() && inside(#[trigger] c[i], addr)
}

/// Whether two stretches of guest memory do not touch.
pub open spec fn off(a: int, a_len: int, b: int, b_len: int) -> bool {
    a + a_len <= b || b + b_len <= a
}

/// Whether the buffers lie in guest memory, off each other and off the queue's
/// rings and descriptors.
#[verifier::opaque]
pub open spec fn separate(m: MemView, q: VirtQueue, c: Seq<VirtqDesc>) -> bool {
    &&& forall|i: int| 0 <= i < c.len() ==> queue::held(m, #[trigger] c[i])
    &&& forall|i: int, j: int|
        0 <= i < j < c.len() ==> off(
            (#[trigger] c[i]).addr as int,
            c[i].len as int,
            (#[trigger] c[j]).addr as int,
            c[j].len as int,
        )
    &&& forall|i: int| 0 <= i < c.len() ==> off_queue(q, #[trigger] c[i])
}

/// Whether a buffer lies off the queue's rings and descriptors.
pub open spec fn off_queue(q: VirtQueue, d: VirtqDesc) -> bool {
    &&& off(d.addr as int, d.len as int, q.desc_table_addr as int, 16 * q.size)
    &&& off(d.addr as int, d.len as int, q.avail_ring_addr as int, 4 + 2 * q.size)
    &&& off(d.addr as int, d.len as int, q.used_ring_addr as int, 4 + 8 * q.size)
}

/// Whether the buffers from the `k`-th on hold these bytes one behind the other, as
/// far as they have room: byte `j` of buffer `i` is the byte as far behind the
/// first.
#[verifier::opaque]
pub open spec fn hold_from(n: MemView, c: Seq<VirtqDesc>, b: Seq<u8>, k: int) -> bool {
    forall|i: int, j: int|
        #![trigger laws::byte_at(n, c[i].addr + j)]
        k <= i < c.len() && 0 <= j < c[i].len && before(c, i) + j < b.len() ==> laws::byte_at(
            n,
            c[i].addr + j,
        ) == b[before(c, i) + j]
}

/// Whether the buffers hold these bytes one behind the other, as far as they have
/// room.
pub open spec fn hold(n: MemView, c: Seq<VirtqDesc>, b: Seq<u8>) -> bool {
    hold_from(n, c, b, 0)
}

/// Whether guest memory changed in the buffers from the `k`-th on only.
#[verifier::opaque]
pub open spec fn only_changed_from(m: MemView, n: MemView, c: Seq<VirtqDesc>, k: int) -> bool {
    &&& n.base == m.base
    &&& n.data.len() == m.data.len()
    &&& forall|addr: int|
        m.base <= addr < m.end() && (forall|i: int| k <= i < c.len() ==> !inside(#[trigger] c[i], addr))
            ==> #[trigger] laws::byte_at(n, addr) == laws::byte_at(m, addr)
}

/// Whether guest memory changed in the buffers and in the used ring only.
pub open spec fn only_changed(m: MemView, n: MemView, q: VirtQueue, c: Seq<VirtqDesc>) -> bool {
    &&& n.base == m.base
    &&& n.data.len() == m.data.len()
    &&& forall|addr: int|
        m.base <= addr < m.end() && !in_some(c, addr) && !queue::in_used(q, addr)
            ==> #[trigger] laws::byte_at(n, addr) == laws::byte_at(m, addr)
}

/// The sums grow.
pub proof fn lemma_before(c: Seq<VirtqDesc>, i: int, j: int)
    requires
        0 <= i <= j,
    ensures
        0 <= before(c, i) <= before(c, j),
    decreases j,
{
    if i < j {
        lemma_before(c, i, j - 1);
    } else if i > 0 {
        lemma_before(c, i - 1, j - 1);
    }
}

/// What was stored into one buffer, and then into those behind it, is in all of
/// them.
pub proof fn lemma_hold_step(
    m: MemView,
    m1: MemView,
    n: MemView,
    q: VirtQueue,
    c: Seq<VirtqDesc>,
    b: Seq<u8>,
    k: int,
    len: int,
)
    requires
        separate(m, q, c),
        0 <= k < c.len(),
        0 <= len <= c[k].len,
        before(c, k) + len <= b.len(),
        len < c[k].len ==> before(c, k) + len == b.len(),
        m1 == m.store(c[k].addr as int, b.subrange(before(c, k), before(c, k) + len)),
        hold_from(n, c, b, k + 1),
        only_changed_from(m1, n, c, k + 1),
    ensures
        hold_from(n, c, b, k),
        only_changed_from(m, n, c, k),
{
    reveal(separate);
    reveal(hold_from);
    reveal(only_changed_from);
    let part = b.subrange(before(c, k), before(c, k) + len);
    lemma_before(c, 0, k);
    assert forall|i: int, j: int|
        #![trigger laws::byte_at(n, c[i].addr + j)]
        k <= i < c.len() && 0 <= j < c[i].len && before(c, i) + j < b.len() implies laws::byte_at(
        n,
        c[i].addr + j,
    ) == b[before(c, i) + j] by {
        if i == k {
            let addr = c[k].addr + j;
            assert forall|l: int| k + 1 <= l < c.len() implies !inside(#[trigger] c[l], addr) by {
                assert(off(
                    c[k].addr as int,
                    c[k].len as int,
                    c[l].addr as int,
                    c[l].len as int,
                ));
            }
            assert(queue::held(m, c[k]));
            assert(laws::byte_at(n, addr) == laws::byte_at(m1, addr));
            assert(laws::byte_at(m1, addr) == part[j]);
        }
    }
    assert forall|addr: int|
        m.base <= addr < m.end() && (forall|i: int|
            k <= i < c.len() ==> !inside(#[trigger] c[i], addr)) implies #[trigger] laws::byte_at(
        n,
        addr,
    ) == laws::byte_at(m, addr) by {
        assert(!inside(c[k], addr));
        assert(laws::byte_at(n, addr) == laws::byte_at(m1, addr));
    }
}

/// The descriptors read the same after buffers off them were filled.
pub proof fn lemma_same_descs(m: MemView, n: MemView, q: VirtQueue, c: Seq<VirtqDesc>, k: int)
    requires
        queue::laid_out(m, q),
        separate(m, q, c),
        0 <= k,
        only_changed_from(m, n, c, k),
    ensures
        queue::laid_out(n, q),
        forall|i: int|
            0 <= i < q.size ==> #[trigger] queue::desc_at(n, q, i) == queue::desc_at(m, q, i),
        forall|i: int| 0 <= i ==> #[trigger] queue::head_at(n, q, i) == queue::head_at(m, q, i),
        queue::waiting(n, q) == queue::waiting(m, q),
        forall|addr: int|
            queue::in_used(q, addr) ==> #[trigger] laws::byte_at(n, addr) == laws::byte_at(m, addr),
{
    reveal(queue::desc_at);
    reveal(queue::head_at);
    reveal(separate);
    reveal(hold_from);
    reveal(only_changed_from);
    assert forall|addr: int|
        q.desc_table_addr <= addr < q.desc_table_addr + 16 * q.size || q.avail_ring_addr <= addr
            < q.avail_ring_addr + 4 + 2 * q.size || queue::in_used(q, addr) implies #[trigger] laws::byte_at(
        n,
        addr,
    ) == laws::byte_at(m, addr) by {
        assert forall|i: int| k <= i < c.len() implies !inside(#[trigger] c[i], addr) by {
            assert(off_queue(q, c[i]));
        }
    }
    let a = q.avail_ring_addr as int;
    assert(laws::byte_at(n, a + 2) == laws::byte_at(m, a + 2) && laws::byte_at(n, a + 3)
        == laws::byte_at(m, a + 3));
    assert forall|i: int| 0 <= i implies #[trigger] queue::head_at(n, q, i) == queue::head_at(
        m,
        q,
        i,
    ) by {
        let x = queue::ring_index(q.last_avail_idx, i) % (q.size as int);
        assert(0 <= x < q.size);
        let at = a + 4 + 2 * x;
        assert(laws::byte_at(n, at) == laws::byte_at(m, at) && laws::byte_at(n, at + 1)
            == laws::byte_at(m, at + 1));
    }
    assert forall|i: int| 0 <= i < q.size implies #[trigger] queue::desc_at(n, q, i)
        == queue::desc_at(m, q, i) by {
        let at = q.desc_table_addr + 16 * i;
        assert(laws::byte_at(n, at) == laws::byte_at(m, at) && laws::byte_at(n, at + 1)
            == laws::byte_at(m, at + 1) && laws::byte_at(n, at + 2) == laws::byte_at(m, at + 2)
            && laws::byte_at(n, at + 3) == laws::byte_at(m, at + 3));
        assert(laws::byte_at(n, at + 4) == laws::byte_at(m, at + 4) && laws::byte_at(n, at + 5)
            == laws::byte_at(m, at + 5) && laws::byte_at(n, at + 6) == laws::byte_at(m, at + 6)
            && laws::byte_at(n, at + 7) == laws::byte_at(m, at + 7));
        assert(laws::byte_at(n, at + 8) == laws::byte_at(m, at + 8) && laws::byte_at(n, at + 9)
            == laws::byte_at(m, at + 9) && laws::byte_at(n, at + 10) == laws::byte_at(m, at + 10)
            && laws::byte_at(n, at + 11) == laws::byte_at(m, at + 11));
        assert(laws::byte_at(n, at + 12) == laws::byte_at(m, at + 12) && laws::byte_at(n, at + 13)
            == laws::byte_at(m, at + 13) && laws::byte_at(n, at + 14) == laws::byte_at(m, at + 14)
            && laws::byte_at(n, at + 15) == laws::byte_at(m, at + 15));
    }
}

/// Filling the used ring leaves what buffers off it hold.
pub proof fn lemma_used_spares(
    m: MemView,
    a: MemView,
    n: MemView,
    q: VirtQueue,
    c: Seq<VirtqDesc>,
    b: Seq<u8>,
)
    requires
        separate(m, q, c),
        only_changed_from(m, a, c, 0),
        hold(a, c, b),
        queue::only_used_changed(a, n, q),
    ensures
        hold(n, c, b),
        only_changed(m, n, q, c),
{
    reveal(separate);
    reveal(hold_from);
    reveal(only_changed_from);
    assert forall|i: int, j: int|
        #![trigger laws::byte_at(n, c[i].addr + j)]
        0 <= i < c.len() && 0 <= j < c[i].len && before(c, i) + j < b.len() implies laws::byte_at(
        n,
        c[i].addr + j,
    ) == b[before(c, i) + j] by {
        assert(off_queue(q, c[i]));
        assert(queue::held(m, c[i]));
        assert(laws::byte_at(n, c[i].addr + j) == laws::byte_at(a, c[i].addr + j));
    }
    assert forall|addr: int|
        m.base <= addr < m.end() && !in_some(c, addr) && !queue::in_used(
            q,
            addr,
        ) implies #[trigger] laws::byte_at(n, addr) == laws::byte_at(m, addr) by {
        assert forall|i: int| 0 <= i < c.len() implies !inside(#[trigger] c[i], addr) by {}
        assert(laws::byte_at(n, addr) == laws::byte_at(a, addr));
    }
}

/// What storing into one buffer leaves.
pub proof fn lemma_store(m: MemView, q: VirtQueue, c: Seq<VirtqDesc>, k: int, part: Seq<u8>)
    requires
        queue::laid_out(m, q),
        separate(m, q, c),
        0 <= k < c.len(),
        part.len() <= c[k].len,
    ensures
        ({
            let n = m.store(c[k].addr as int, part);
            &&& m.write(c[k].addr, part) == (n, Ok::<(), crate::memory::MemoryError>(()))
            &&& only_changed_from(m, n, c, k)
            &&& separate(n, q, c)
            &&& queue::laid_out(n, q)
            &&& part.len() == 0 ==> n == m
            &&& forall|i: int|
                0 <= i < q.size ==> #[trigger] queue::desc_at(n, q, i) == queue::desc_at(m, q, i)
        }),
{
    reveal(separate);
    reveal(hold_from);
    reveal(only_changed_from);
    let n = m.store(c[k].addr as int, part);
    assert(queue::held(m, c[k]));
    assert forall|addr: int|
        m.base <= addr < m.end() && (forall|i: int|
            k <= i < c.len() ==> !inside(#[trigger] c[i], addr)) implies #[trigger] laws::byte_at(
        n,
        addr,
    ) == laws::byte_at(m, addr) by {
        assert(!inside(c[k], addr));
    }
    assert forall|i: int| 0 <= i < c.len() implies queue::held(n, #[trigger] c[i]) by {
        assert(queue::held(m, c[i]));
    }
    if part.len() == 0 {
        assert(n =~= m);
    }
    lemma_same_descs(m, n, q, c, k);
}

/// Behind the last byte nothing is left to hold.
pub proof fn lemma_rest_empty(n: MemView, c: Seq<VirtqDesc>, b: Seq<u8>, k: int)
    requires
        0 <= k,
        k >= c.len() || before(c, k) >= b.len(),
    ensures
        hold_from(n, c, b, k),
        only_changed_from(n, n, c, k),
{
    reveal(separate);
    reveal(hold_from);
    reveal(only_changed_from);
    assert forall|i: int, j: int|
        #![trigger laws::byte_at(n, c[i].addr + j)]
        k <= i < c.len() && 0 <= j < c[i].len && before(c, i) + j < b.len() implies laws::byte_at(
        n,
        c[i].addr + j,
    ) == b[before(c, i) + j] by {
        lemma_before(c, k, i);
    }
}

/// Some of the buffers are as separate as all.
pub proof fn lemma_separate_part(m: MemView, q: VirtQueue, c: Seq<VirtqDesc>, from: int, to: int)
    requires
        separate(m, q, c),
        0 <= from <= to <= c.len(),
    ensures
        separate(m, q, c.subrange(from, to)),
{
    reveal(separate);
    let p = c.subrange(from, to);
    assert forall|i: int| 0 <= i < p.len() implies queue::held(m, #[trigger] p[i])
        && off_queue(q, p[i]) by {
        assert(p[i] == c[from + i]);
        assert(queue::held(m, c[from + i]) && off_queue(q, c[from + i]));
    }
    assert forall|i: int, j: int| 0 <= i < j < p.len() implies off(
        (#[trigger] p[i]).addr as int,
        p[i].len as int,
        (#[trigger] p[j]).addr as int,
        p[j].len as int,
    ) by {
        assert(p[i] == c[from + i] && p[j] == c[from + j]);
        assert(off(
            c[from + i].addr as int,
            c[from + i].len as int,
            c[from + j].addr as int,
            c[from + j].len as int,
        ));
    }
}

/// Buffers stay separate while guest memory stays where it is.
pub proof fn lemma_separate_stays(m: MemView, n: MemView, q: VirtQueue, c: Seq<VirtqDesc>)
    requires
        separate(m, q, c),
        n.base == m.base,
        n.data.len() == m.data.len(),
    ensures
        separate(n, q, c),
{
    reveal(separate);
    assert forall|i: int| 0 <= i < c.len() implies queue::held(n, #[trigger] c[i]) by {
        assert(queue::held(m, c[i]));
    }
}

} // verus!
