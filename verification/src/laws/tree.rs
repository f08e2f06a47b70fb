//! What the device tree tells a guest of its CPUs, its memory and its devices.

use crate::boot::aarch64::{self, FdtConfig, FdtMmioDevice};
use crate::boot::fdt::{self, FdtItem};
use crate::bytes;
use crate::text;
use vstd::prelude::*;

verus! {

/// Whether items stand in a list from `at` on.
pub open spec fn stand_at(all: Seq<FdtItem>, at: int, items: Seq<FdtItem>) -> bool {
    &&& 0 <= at
    &&& at + items.len() <= all.len()
    &&& forall|i: int| 0 <= i < items.len() ==> all[at + i] == #[trigger] items[i]
}

proof fn lemma_inside(all: Seq<FdtItem>, at: int, items: Seq<FdtItem>, k: int, part: Seq<FdtItem>)
    requires
        stand_at(all, at, items),
        stand_at(items, k, part),
    ensures
        stand_at(all, at + k, part),
{
    assert forall|i: int| 0 <= i < part.len() implies all[at + k + i] == #[trigger] part[i] by {
        assert(items[k + i] == part[i]);
        assert(all[at + (k + i)] == items[k + i]);
    }
}

proof fn lemma_eleven(
    a: Seq<FdtItem>,
    b: Seq<FdtItem>,
    c: Seq<FdtItem>,
    d: Seq<FdtItem>,
    e: Seq<FdtItem>,
    f: Seq<FdtItem>,
    g: Seq<FdtItem>,
    h: Seq<FdtItem>,
    i: Seq<FdtItem>,
    j: Seq<FdtItem>,
    k: Seq<FdtItem>,
)
    ensures
        ({
            let all = a + b + c + d + e + f + g + h + i + j + k;
            let n3 = (a.len() + b.len()) as int;
            let n4 = n3 + c.len();
            let n5 = n4 + d.len();
            let n8 = n5 + e.len() + f.len() + g.len();
            &&& stand_at(all, a.len() as int, b)
            &&& stand_at(all, n3, c)
            &&& stand_at(all, n4, d)
            &&& stand_at(all, n5, e)
            &&& stand_at(all, n8, h)
            &&& stand_at(all, n8 + h.len() + i.len(), j)
        }),
{
}

proof fn lemma_lengths(c: FdtConfig)
    ensures
        aarch64::memory_node_items(c.memory_size).len() == 4,
        aarch64::chosen_node_items(c.cmdline@).len() == 4,
        aarch64::gic_node_items(
            c.gic_dist_addr,
            c.gic_dist_size,
            c.gic_redist_addr,
            c.gic_redist_size,
        ).len() == 7,
        aarch64::timer_node_items().len() == 5,
        aarch64::psci_node_items().len() == 4,
        aarch64::clock_node_items().len() == 7,
{
    reveal(aarch64::memory_node_items);
    reveal(aarch64::chosen_node_items);
    reveal(aarch64::gic_node_items);
    reveal(aarch64::timer_node_items);
    reveal(aarch64::psci_node_items);
    reveal(aarch64::clock_node_items);
}

proof fn lemma_cpus_part(n: u32)
    ensures
        aarch64::cpus_items(n).len() == 4 + 6 * n,
        stand_at(aarch64::cpus_items(n), 3, aarch64::cpu_nodes(n as nat)),
{
    reveal(aarch64::cpus_items);
    lemma_cpus(n as nat, 0);
}

/// Where the parts of the tree stand.
proof fn lemma_parts(c: FdtConfig)
    ensures
        ({
            let t = aarch64::fdt_tree(c);
            let n = 6 * c.num_cpus;
            &&& stand_at(t, 5, aarch64::cpus_items(c.num_cpus))
            &&& stand_at(t, 9 + n, aarch64::memory_node_items(c.memory_size))
            &&& stand_at(t, 13 + n, aarch64::chosen_node_items(c.cmdline@))
            &&& stand_at(
                t,
                17 + n,
                aarch64::gic_node_items(
                    c.gic_dist_addr,
                    c.gic_dist_size,
                    c.gic_redist_addr,
                    c.gic_redist_size,
                ),
            )
            &&& stand_at(t, 33 + n, aarch64::virtio_mmio_nodes(c.mmio_devices@))
            &&& stand_at(t, 40 + n + 7 * c.mmio_devices@.len(), aarch64::uart_node_items())
        }),
{
    lemma_lengths(c);
    lemma_cpus_part(c.num_cpus);
    lemma_devices(c.mmio_devices@, 0);
    lemma_eleven(
        aarch64::root_head(),
        aarch64::cpus_items(c.num_cpus),
        aarch64::memory_node_items(c.memory_size),
        aarch64::chosen_node_items(c.cmdline@),
        aarch64::gic_node_items(
            c.gic_dist_addr,
            c.gic_dist_size,
            c.gic_redist_addr,
            c.gic_redist_size,
        ),
        aarch64::timer_node_items(),
        aarch64::psci_node_items(),
        aarch64::virtio_mmio_nodes(c.mmio_devices@),
        aarch64::clock_node_items(),
        aarch64::uart_node_items(),
        seq![FdtItem::End],
    );
}

proof fn lemma_cpus(n: nat, i: int)
    requires
        0 <= i,
    ensures
        aarch64::cpu_nodes(n).len() == 6 * n,
        i < n ==> stand_at(aarch64::cpu_nodes(n), 6 * i, aarch64::cpu_node_items(i as u32)),
    decreases n,
{
    if n > 0 {
        lemma_cpus((n - 1) as nat, i);
        assert(aarch64::cpu_node_items((n - 1) as u32).len() == 6) by {
            reveal(aarch64::cpu_node_items);
        }
        let before = aarch64::cpu_nodes((n - 1) as nat);
        let last = aarch64::cpu_node_items((n - 1) as u32);
        let all = aarch64::cpu_nodes(n);
        if i < n - 1 {
            let items = aarch64::cpu_node_items(i as u32);
            assert forall|k: int| 0 <= k < items.len() implies all[6 * i + k]
                == #[trigger] items[k] by {
                assert(before[6 * i + k] == items[k]);
            }
        }
    }
}

proof fn lemma_devices(devices: Seq<FdtMmioDevice>, i: int)
    requires
        0 <= i,
    ensures
        aarch64::virtio_mmio_nodes(devices).len() == 7 * devices.len(),
        i < devices.len() ==> stand_at(
            aarch64::virtio_mmio_nodes(devices),
            7 * i,
            aarch64::virtio_mmio_node_items(devices[i]),
        ),
    decreases devices.len(),
{
    if devices.len() > 0 {
        let rest = devices.drop_last();
        lemma_devices(rest, i);
        assert(aarch64::virtio_mmio_node_items(devices.last()).len() == 7) by {
            reveal(aarch64::virtio_mmio_node_items);
        }
        let before = aarch64::virtio_mmio_nodes(rest);
        let all = aarch64::virtio_mmio_nodes(devices);
        if i < rest.len() {
            let items = aarch64::virtio_mmio_node_items(devices[i]);
            assert(rest[i] == devices[i]);
            assert forall|k: int| 0 <= k < items.len() implies all[7 * i + k]
                == #[trigger] items[k] by {
                assert(before[7 * i + k] == items[k]);
            }
        }
    }
}

/// Every CPU has a node with its number, which is started through PSCI.
pub proof fn law_every_cpu_has_a_node(c: FdtConfig, i: u32)
    requires
        i < c.num_cpus,
    ensures
        stand_at(
            aarch64::fdt_tree(c),
            8 + 6 * i,
            seq![
                FdtItem::Begin("cpu@"@ + text::decimal(i as nat)),
                FdtItem::Prop("device_type"@, fdt::text_value("cpu"@)),
                FdtItem::Prop("compatible"@, fdt::text_value("arm,arm-v8"@)),
                FdtItem::Prop("enable-method"@, fdt::text_value("psci"@)),
                FdtItem::Prop("reg"@, bytes::be64_bytes(i as u64)),
                FdtItem::End,
            ],
        ),
{
    let t = aarch64::fdt_tree(c);
    let nodes = aarch64::cpu_nodes(c.num_cpus as nat);
    let cpus = aarch64::cpus_items(c.num_cpus);
    lemma_parts(c);
    lemma_cpus(c.num_cpus as nat, i as int);
    lemma_cpus_part(c.num_cpus);
    lemma_inside(t, 5, cpus, 3, nodes);
    lemma_inside(t, 8, nodes, 6 * i, aarch64::cpu_node_items(i));
    reveal(aarch64::cpu_node_items);
}

/// Two numbers of 64 bits one behind the other, the highest byte first.
pub open spec fn pair(a: u64, b: u64) -> Seq<u8> {
    bytes::be64_bytes(a) + bytes::be64_bytes(b)
}

/// Three numbers of 32 bits one behind the other, the highest byte first.
pub open spec fn triple(a: u32, b: u32, c: u32) -> Seq<u8> {
    bytes::be32_bytes(a) + bytes::be32_bytes(b) + bytes::be32_bytes(c)
}

proof fn lemma_pair(a: u64, b: u64)
    ensures
        fdt::wide_cells_value(seq![a, b]) == pair(a, b),
{
    reveal_with_fuel(fdt::wide_cells_value, 3);
    assert(seq![a, b].drop_last() =~= seq![a]);
    assert(seq![a].drop_last() =~= Seq::<u64>::empty());
    assert(fdt::wide_cells_value(seq![a, b]) =~= pair(a, b));
}

proof fn lemma_triple(a: u32, b: u32, c: u32)
    ensures
        fdt::cells_value(seq![a, b, c]) == triple(a, b, c),
{
    reveal_with_fuel(fdt::cells_value, 4);
    assert(seq![a, b, c].drop_last() =~= seq![a, b]);
    assert(seq![a, b].drop_last() =~= seq![a]);
    assert(seq![a].drop_last() =~= Seq::<u32>::empty());
    assert(fdt::cells_value(seq![a, b, c]) =~= triple(a, b, c));
}

/// Every device has a node with the place and the size of its registers and with its
/// shared interrupt, which is 32 above its number and level-triggered.
pub proof fn law_every_device_has_a_node(c: FdtConfig, i: int)
    requires
        0 <= i < c.mmio_devices@.len(),
        c.mmio_devices@[i].gsi + 32 <= u32::MAX,
    ensures
        ({
            let d = c.mmio_devices@[i];
            stand_at(
                aarch64::fdt_tree(c),
                33 + 6 * c.num_cpus + 7 * i,
                seq![
                    FdtItem::Begin("virtio_mmio@"@ + text::hex(d.base_addr as nat)),
                    FdtItem::Prop("compatible"@, fdt::text_value("virtio,mmio"@)),
                    FdtItem::Prop("dma-coherent"@, Seq::empty()),
                    FdtItem::Prop("reg"@, pair(d.base_addr, d.size)),
                    FdtItem::Prop("interrupts"@, triple(0, (d.gsi + 32) as u32, 4)),
                    FdtItem::Prop("interrupt-parent"@, bytes::be32_bytes(1)),
                    FdtItem::End,
                ],
            )
        }),
{
    let t = aarch64::fdt_tree(c);
    let d = c.mmio_devices@[i];
    let nodes = aarch64::virtio_mmio_nodes(c.mmio_devices@);
    lemma_parts(c);
    lemma_devices(c.mmio_devices@, i);
    lemma_inside(
        t,
        33 + 6 * c.num_cpus,
        nodes,
        7 * i,
        aarch64::virtio_mmio_node_items(d),
    );
    lemma_pair(d.base_addr, d.size);
    lemma_triple(0, (d.gsi + 32) as u32, 4);
    reveal(aarch64::virtio_mmio_node_items);
}

/// The tree says where memory starts and how much there is.
pub proof fn law_memory_node(c: FdtConfig)
    ensures
        stand_at(
            aarch64::fdt_tree(c),
            9 + 6 * c.num_cpus,
            seq![
                FdtItem::Begin("memory@80000000"@),
                FdtItem::Prop("device_type"@, fdt::text_value("memory"@)),
                FdtItem::Prop("reg"@, pair(0x8000_0000, c.memory_size)),
                FdtItem::End,
            ],
        ),
{
    lemma_parts(c);
    lemma_pair(0x8000_0000, c.memory_size);
    reveal(aarch64::memory_node_items);
}

/// The tree gives the guest its command line and its console.
pub proof fn law_command_line_node(c: FdtConfig)
    ensures
        stand_at(
            aarch64::fdt_tree(c),
            13 + 6 * c.num_cpus,
            seq![
                FdtItem::Begin("chosen"@),
                FdtItem::Prop("bootargs"@, fdt::text_value(c.cmdline@)),
                FdtItem::Prop("stdout-path"@, fdt::text_value("/pl011@9000000"@)),
                FdtItem::End,
            ],
        ),
{
    lemma_parts(c);
    reveal(aarch64::chosen_node_items);
}

/// The tree says where the interrupt controller is.
pub proof fn law_interrupt_controller_node(c: FdtConfig)
    ensures
        stand_at(
            aarch64::fdt_tree(c),
            17 + 6 * c.num_cpus,
            seq![
                FdtItem::Begin("intc@"@ + text::hex(c.gic_dist_addr as nat)),
                FdtItem::Prop("compatible"@, fdt::text_value("arm,gic-v3"@)),
                FdtItem::Prop("interrupt-controller"@, Seq::empty()),
                FdtItem::Prop("#interrupt-cells"@, bytes::be32_bytes(3)),
                FdtItem::Prop(
                    "reg"@,
                    pair(c.gic_dist_addr, c.gic_dist_size) + pair(
                        c.gic_redist_addr,
                        c.gic_redist_size,
                    ),
                ),
                FdtItem::Prop("phandle"@, bytes::be32_bytes(1)),
                FdtItem::End,
            ],
        ),
{
    lemma_parts(c);
    lemma_four(c.gic_dist_addr, c.gic_dist_size, c.gic_redist_addr, c.gic_redist_size);
    reveal(aarch64::gic_node_items);
}

proof fn lemma_four(a: u64, b: u64, c: u64, d: u64)
    ensures
        fdt::wide_cells_value(seq![a, b, c, d]) == pair(a, b) + pair(c, d),
{
    let v = seq![a, b, c, d];
    let w = seq![a, b, c];
    lemma_pair(a, b);
    assert(v.drop_last() =~= w);
    assert(w.drop_last() =~= seq![a, b]);
    assert(fdt::wide_cells_value(w) == pair(a, b) + bytes::be64_bytes(c));
    assert(fdt::wide_cells_value(v) =~= pair(a, b) + pair(c, d));
}

/// Numbers in the tree have their highest byte first.
pub proof fn law_highest_byte_first(v: u32, w: u64)
    ensures
        bytes::be32_bytes(v).len() == 4,
        v == 0x100_0000 * bytes::be32_bytes(v)[0] + 0x1_0000 * bytes::be32_bytes(v)[1] + 0x100
            * bytes::be32_bytes(v)[2] + bytes::be32_bytes(v)[3],
        bytes::be64_bytes(w).len() == 8,
        bytes::be64_bytes(w).take(4) == bytes::be32_bytes((w / 0x1_0000_0000) as u32),
        bytes::be64_bytes(w).skip(4) == bytes::be32_bytes((w % 0x1_0000_0000) as u32),
{
    let b = bytes::be64_bytes(w);
    assert(b.take(4) =~= bytes::be32_bytes((w / 0x1_0000_0000) as u32));
    assert(b.skip(4) =~= bytes::be32_bytes((w % 0x1_0000_0000) as u32));
}

} // verus!
