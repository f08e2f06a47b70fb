//! What the ACPI tables tell the guest of its CPUs and devices.

use crate::acpi::{self, MmioDeviceInfo};
use crate::bytes;
use vstd::prelude::*;

verus! {

proof fn lemma_grown(t: Seq<u8>, more: Seq<u8>)
    requires
        t.len() >= 10,
        t.len() + more.len() <= u32::MAX,
    ensures
        ({
            let g = acpi::grown(t, more);
            &&& g.len() == t.len() + more.len()
            &&& forall|i: int| 10 <= i < t.len() ==> #[trigger] g[i] == t[i]
            &&& forall|i: int| 0 <= i < 4 ==> #[trigger] g[i] == t[i]
            &&& g.subrange(t.len() as int, g.len() as int) == more
            &&& bytes::le32(g, 4) == g.len()
        }),
{
    let g = acpi::grown(t, more);
    let len = (t.len() + more.len()) as u32;
    bytes::law_le32_round_trip(len);
    assert(g.len() == t.len() + more.len());
    assert(g.subrange(t.len() as int, g.len() as int) =~= more);
    assert(g.subrange(4, 8) =~= bytes::le32_bytes(len));
    bytes::lemma_le32_at(g, 4);
}

/// The entry of the `k`-th CPU in the table of interrupt controllers.
pub open spec fn cpu_entry(k: int) -> Seq<u8> {
    seq![0u8, 8, k as u8, k as u8, 1, 0, 0, 0]
}

/// The table of interrupt controllers has one entry for the I/O APIC and then one
/// for every CPU, which gives the CPU its number and says that it can be used.
pub proof fn law_every_cpu_is_described(n: int)
    requires
        0 <= n <= 255,
    ensures
        ({
            let t = acpi::madt_table(n);
            &&& t.len() == 56 + 8 * n
            &&& t.subrange(0, 4) == seq![0x41u8, 0x50, 0x49, 0x43]
            &&& bytes::le32(t, 4) == t.len()
            &&& bytes::le32(t, 36) == 0xfee0_0000
            &&& t.subrange(44, 48) == seq![1u8, 12, 0, 0]
            &&& bytes::le32(t, 48) == 0xfec0_0000
            &&& bytes::le32(t, 52) == 0
            &&& forall|k: int|
                0 <= k < n ==> t.subrange(56 + 8 * k, 56 + 8 * k + 8) == #[trigger] cpu_entry(k)
        }),
    decreases n,
{
    let t = acpi::madt_table(n);
    if n == 0 {
        lemma_first_controllers();
    } else {
        let s = acpi::madt_table(n - 1);
        let e = acpi::local_apic((n - 1) as u8, (n - 1) as u8);
        law_every_cpu_is_described(n - 1);
        bytes::law_le32_round_trip(1);
        assert(e.len() == 8);
        lemma_grown(s, e);
        assert(bytes::le32_bytes(1) =~= seq![1u8, 0, 0, 0]) by {
            lemma_one();
        }
        assert(e =~= cpu_entry(n - 1));
        assert(t.subrange(0, 4) =~= s.subrange(0, 4));
        assert(t.subrange(44, 48) =~= s.subrange(44, 48));
        lemma_same32(s, t, 36);
        lemma_same32(s, t, 48);
        lemma_same32(s, t, 52);
        assert forall|k: int| 0 <= k < n implies t.subrange(56 + 8 * k, 56 + 8 * k + 8)
            == #[trigger] cpu_entry(k) by {
            if k < n - 1 {
                assert(t.subrange(56 + 8 * k, 56 + 8 * k + 8) =~= s.subrange(
                    56 + 8 * k,
                    56 + 8 * k + 8,
                ));
            }
        }
    }
}

proof fn lemma_one()
    ensures
        bytes::le32_bytes(1)[0] == 1,
        bytes::le32_bytes(1)[1] == 0,
        bytes::le32_bytes(1)[2] == 0,
        bytes::le32_bytes(1)[3] == 0,
{
    bytes::law_le32_round_trip(1);
}

proof fn lemma_same32(s: Seq<u8>, t: Seq<u8>, i: int)
    requires
        10 <= i,
        i + 4 <= s.len(),
        s.len() <= t.len(),
        forall|i: int| 10 <= i < s.len() ==> #[trigger] t[i] == s[i],
    ensures
        bytes::le32(t, i) == bytes::le32(s, i),
{
    assert(t[i] == s[i] && t[i + 1] == s[i + 1] && t[i + 2] == s[i + 2] && t[i + 3] == s[i + 3]);
}

proof fn lemma_first_controllers()
    ensures
        ({
            let t = acpi::madt_table(0);
            &&& t.len() == 56
            &&& t.subrange(0, 4) == seq![0x41u8, 0x50, 0x49, 0x43]
            &&& bytes::le32(t, 4) == t.len()
            &&& bytes::le32(t, 36) == 0xfee0_0000
            &&& t.subrange(44, 48) == seq![1u8, 12, 0, 0]
            &&& bytes::le32(t, 48) == 0xfec0_0000
            &&& bytes::le32(t, 52) == 0
        }),
{
    let sig = seq![0x41u8, 0x50u8, 0x49u8, 0x43u8];
    let h = acpi::table_header(
        sig,
        44,
        1,
        acpi::oem_id(),
        acpi::oem_table(0x4d, 0x41, 0x44),
        acpi::OEM_REVISION,
    );
    bytes::law_le32_round_trip(44);
    bytes::law_le32_round_trip(acpi::OEM_REVISION);
    bytes::law_le32_round_trip(0xfee0_0000);
    bytes::law_le32_round_trip(0xfec0_0000);
    bytes::law_le32_round_trip(0);
    assert(h.len() == 36);
    assert(h.subrange(0, 4) =~= sig);
    let a = bytes::le32_bytes(0xfee0_0000);
    let z = bytes::le32_bytes(0);
    let o = h + a + z;
    let s = acpi::sealed(o);
    assert(s.len() == 44);
    assert(s.subrange(36, 40) =~= a);
    bytes::lemma_le32_at(s, 36);
    let e = acpi::io_apic(0, 0xfec0_0000, 0);
    assert(e.len() == 12);
    lemma_grown(s, e);
    let t = acpi::madt_table(0);
    assert(t == acpi::grown(s, e));
    lemma_same32(s, t, 36);
    assert forall|i: int| 0 <= i < 4 implies #[trigger] t[i] == sig[i] by {
        assert(h.subrange(0, 4)[i] == h[i]);
    }
    assert(t.subrange(0, 4) =~= sig);
    let g = t.subrange(44, 56);
    assert(g == e);
    assert(t.subrange(44, 48) =~= g.subrange(0, 4));
    assert(e.subrange(0, 4) =~= seq![1u8, 12, 0, 0]);
    assert(t.subrange(48, 52) =~= g.subrange(4, 8));
    assert(e.subrange(4, 8) =~= bytes::le32_bytes(0xfec0_0000));
    assert(t.subrange(52, 56) =~= g.subrange(8, 12));
    assert(e.subrange(8, 12) =~= z);
    bytes::lemma_le32_at(t, 48);
    bytes::lemma_le32_at(t, 52);
}

/// The description of the `k`-th device.
#[verifier::opaque]
pub open spec fn description(devices: Seq<MmioDeviceInfo>, k: int) -> Seq<u8> {
    acpi::device_aml(devices[k], k)
}

/// How many bytes the descriptions of the first `k` devices take.
pub open spec fn described(devices: Seq<MmioDeviceInfo>, k: int) -> int
    decreases k,
{
    if k <= 0 {
        0
    } else {
        described(devices, k - 1) + description(devices, k - 1).len()
    }
}

proof fn lemma_described(devices: Seq<MmioDeviceInfo>, j: int, k: int)
    requires
        0 <= j <= k,
    ensures
        0 <= described(devices, j) <= described(devices, k),
    decreases k,
{
    if j < k {
        lemma_described(devices, j, k - 1);
    } else if j > 0 {
        lemma_described(devices, j - 1, k - 1);
    }
}

proof fn lemma_described_part(devices: Seq<MmioDeviceInfo>, k: int)
    requires
        0 <= k < devices.len(),
    ensures
        described(devices.drop_last(), k) == described(devices, k),
        k < devices.len() - 1 ==> description(devices.drop_last(), k) == description(devices, k),
    decreases k,
{
    if k < devices.len() - 1 {
        lemma_same_description(devices, k);
    }
    if k > 0 {
        lemma_described_part(devices, k - 1);
        lemma_same_description(devices, k - 1);
    }
}

proof fn lemma_same_description(devices: Seq<MmioDeviceInfo>, k: int)
    requires
        0 <= k < devices.len() - 1,
    ensures
        description(devices.drop_last(), k) == description(devices, k),
{
    assert(devices.drop_last()[k] == devices[k]);
    reveal(description);
}

proof fn lemma_last_description(devices: Seq<MmioDeviceInfo>)
    requires
        devices.len() > 0,
    ensures
        acpi::devices_aml(devices) == acpi::devices_aml(devices.drop_last()) + description(
            devices,
            devices.len() - 1,
        ),
{
    reveal(description);
}

/// Every device is described, with its own number, behind those before it.
pub proof fn law_every_device_is_described(devices: Seq<MmioDeviceInfo>, k: int)
    requires
        0 <= k < devices.len(),
    ensures
        acpi::devices_aml(devices).len() == described(devices, devices.len() as int),
        0 <= described(devices, k) <= described(devices, k + 1) <= acpi::devices_aml(devices).len(),
        acpi::devices_aml(devices).subrange(described(devices, k), described(devices, k + 1))
            == description(devices, k),
        description(devices, k) == acpi::device_aml(devices[k], k),
{
    lemma_descriptions(devices, k);
    reveal(description);
}

proof fn lemma_descriptions(devices: Seq<MmioDeviceInfo>, k: int)
    requires
        0 <= k < devices.len(),
    ensures
        acpi::devices_aml(devices).len() == described(devices, devices.len() as int),
        0 <= described(devices, k) <= described(devices, k + 1) <= acpi::devices_aml(devices).len(),
        acpi::devices_aml(devices).subrange(described(devices, k), described(devices, k + 1))
            == description(devices, k),
    decreases devices.len(),
{
    let n = devices.len() - 1;
    let rest = devices.drop_last();
    let b = acpi::devices_aml(rest);
    let last = description(devices, n);
    let all = acpi::devices_aml(devices);
    lemma_last_description(devices);
    lemma_described_part(devices, n);
    lemma_described(devices, k, k + 1);
    lemma_described(devices, k + 1, n + 1);
    if n > 0 {
        lemma_descriptions(rest, if k < n {
            k
        } else {
            0
        });
    }
    assert(b.len() == described(devices, n));
    if k < n {
        lemma_described_part(devices, k);
        lemma_described_part(devices, k + 1);
        lemma_described(devices, k + 1, n);
        lemma_front(b, last, described(devices, k), described(devices, k + 1));
    } else {
        lemma_back(b, last);
    }
}

proof fn lemma_front(a: Seq<u8>, b: Seq<u8>, i: int, j: int)
    requires
        0 <= i <= j <= a.len(),
    ensures
        (a + b).subrange(i, j) == a.subrange(i, j),
{
    assert((a + b).subrange(i, j) =~= a.subrange(i, j));
}

proof fn lemma_back(a: Seq<u8>, b: Seq<u8>)
    ensures
        (a + b).subrange(a.len() as int, (a + b).len() as int) == b,
{
    assert((a + b).subrange(a.len() as int, (a + b).len() as int) =~= b);
}

/// The description of a device ends with its resources: its registers in guest
/// memory, which can be written, by their place and size, and its interrupt, which
/// is level-triggered, active high and can be shared, by its number.
pub proof fn law_device_resources(dev: MmioDeviceInfo, i: int)
    ensures
        ({
            let d = acpi::device_aml(dev, i);
            let r = d.subrange(d.len() - 23, d.len() as int);
            &&& d.len() >= 25
            &&& d.subrange(0, 2) == seq![0x5bu8, 0x82]
            &&& r.subrange(0, 4) == seq![0x86u8, 9, 0, 1]
            &&& bytes::le32(r, 4) == dev.base_addr % 0x1_0000_0000
            &&& bytes::le32(r, 8) == dev.size % 0x1_0000_0000
            &&& r.subrange(12, 17) == seq![0x89u8, 6, 0, 9, 1]
            &&& bytes::le32(r, 17) == dev.gsi
            &&& r.subrange(21, 23) == seq![0x79u8, 0]
        }),
{
    let base = (dev.base_addr % 0x1_0000_0000) as u32;
    let size = (dev.size % 0x1_0000_0000) as u32;
    let mem = acpi::memory_aml((true, base, size));
    let irq = acpi::interrupt_aml((true, false, false, true, dev.gsi));
    bytes::law_le32_round_trip(base);
    bytes::law_le32_round_trip(size);
    bytes::law_le32_round_trip(dev.gsi);
    let body = mem + irq + seq![0x79u8, 0];
    assert(mem.len() == 12);
    assert(irq.len() == 9);
    assert(body.len() == 23);
    let d = acpi::device_aml(dev, i);
    let head = lemma_ends(dev, i, body);
    let r = d.subrange(d.len() - 23, d.len() as int);
    assert(r =~= body);
    assert(r.subrange(0, 4) =~= seq![0x86u8, 9, 0, 1]);
    assert(r.subrange(4, 8) =~= bytes::le32_bytes(base));
    assert(r.subrange(8, 12) =~= bytes::le32_bytes(size));
    assert(r.subrange(12, 17) =~= seq![0x89u8, 6, 0, 9, 1]);
    assert(r.subrange(17, 21) =~= bytes::le32_bytes(dev.gsi));
    assert(r.subrange(21, 23) =~= seq![0x79u8, 0]);
    assert(d.subrange(0, 2) =~= head.subrange(0, 2));
    bytes::lemma_le32_at(r, 4);
    bytes::lemma_le32_at(r, 8);
    bytes::lemma_le32_at(r, 17);
}

proof fn lemma_ends(dev: MmioDeviceInfo, i: int, body: Seq<u8>) -> (head: Seq<u8>)
    requires
        body == acpi::memory_aml(
            (
                true,
                (dev.base_addr % 0x1_0000_0000) as u32,
                (dev.size % 0x1_0000_0000) as u32,
            ),
        ) + acpi::interrupt_aml((true, false, false, true, dev.gsi)) + seq![0x79u8, 0],
    ensures
        acpi::device_aml(dev, i) == head + body,
        head.len() >= 2,
        head.subrange(0, 2) == seq![0x5bu8, 0x82],
{
    let o = acpi::device_objects(dev, i);
    let len = acpi::number_aml(body.len() as u64);
    let first = acpi::name_aml("_HID"@, acpi::text_aml("LNRO0005"@)) + acpi::name_aml(
        "_UID"@,
        acpi::number_aml(i as u64),
    ) + acpi::name_aml("_CCA"@, acpi::number_aml(1)) + seq![0x08u8] + crate::text::char_bytes(
        "_CRS"@,
    ) + seq![0x11u8] + acpi::pkg_length((len.len() + body.len()) as int) + len;
    assert(o =~= first + body);
    let start = seq![0x5bu8, 0x82u8] + acpi::pkg_length(4 + o.len() as int)
        + crate::text::char_bytes(acpi::device_name(i));
    assert(acpi::device_aml(dev, i) =~= start + first + body);
    let head = start + first;
    assert(head.subrange(0, 2) =~= seq![0x5bu8, 0x82]);
    head
}

/// The table that describes devices holds these descriptions behind its header.
pub proof fn law_descriptions_in_table(body: Seq<u8>)
    requires
        36 + body.len() <= u32::MAX,
    ensures
        ({
            let t = acpi::dsdt_table(body);
            &&& t.len() == 36 + body.len()
            &&& t.subrange(0, 4) == seq![0x44u8, 0x53, 0x44, 0x54]
            &&& bytes::le32(t, 4) == t.len()
            &&& t.subrange(36, t.len() as int) == body
        }),
{
    let sig = seq![0x44u8, 0x53u8, 0x44u8, 0x54u8];
    let h = acpi::table_header(
        sig,
        36,
        acpi::DSDT_REVISION,
        acpi::oem_id(),
        acpi::oem_table(0x44, 0x53, 0x44),
        acpi::OEM_REVISION,
    );
    bytes::law_le32_round_trip(36);
    bytes::law_le32_round_trip(acpi::OEM_REVISION);
    assert(h.len() == 36);
    assert(h.subrange(0, 4) =~= sig);
    let s = acpi::sealed(h);
    lemma_grown(s, body);
    let t = acpi::dsdt_table(body);
    assert(t == acpi::grown(s, body)) by {
        reveal(acpi::dsdt_table);
    }
    assert forall|i: int| 0 <= i < 4 implies #[trigger] t[i] == sig[i] by {
        assert(h.subrange(0, 4)[i] == h[i]);
    }
    assert(t.subrange(0, 4) =~= sig);
}

/// Where the tables stand: the first where the guest looks for it, and each behind
/// the one before.
pub proof fn law_places(body: Seq<u8>, n: int)
    requires
        0 <= n <= 255,
        body.len() <= 0xffff_0000,
    ensures
        ({
            let list = acpi::table_patches(body, n);
            &&& list.len() == 5
            &&& list[0].addr == 0xa_0000
            &&& list[1].addr == 0xa_0024
            &&& list[2].addr == 0xa_0048 + body.len()
            &&& list[3].addr == list[2].addr + 276
            &&& list[4].addr == list[3].addr + 56 + 8 * n
            &&& list[1].bytes == acpi::dsdt_table(body)
            &&& list[3].bytes == acpi::madt_table(n)
        }),
{
}

} // verus!
