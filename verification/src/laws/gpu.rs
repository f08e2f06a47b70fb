//! Which GPUs are found, chosen and set up.

use crate::bytes;
use crate::devices::gpu::{self, DmaRegion, GpuDevice, GpuFault, PciAttributes};
use crate::devices::vfio;
use crate::laws::names;
use crate::text;
use vstd::prelude::*;

verus! {

/// Whether the class of a device is that of a display controller.
pub open spec fn is_display(a: PciAttributes) -> bool {
    a.class is Some && gpu::attribute(a.class->0@) is Some && gpu::attribute(a.class->0@)->0
        / 0x1_0000 == 3
}

/// Every display controller is listed as a GPU.
pub proof fn law_every_gpu_is_listed(
    attributes: Seq<PciAttributes>,
    gpus: Seq<GpuDevice>,
    i: int,
) -> (k: int)
    requires
        gpu::gpus_of(attributes, gpus),
        0 <= i < attributes.len(),
        is_display(attributes[i]),
    ensures
        0 <= k < gpus.len(),
        attributes[i].describes(gpus[k]),
    decreases attributes.len(),
{
    let n = attributes.len() - 1;
    let rest = attributes.drop_last();
    if i == n {
        gpus.len() - 1
    } else {
        assert(rest[i] == attributes[i]);
        if attributes.last().of_gpu() {
            let k = law_every_gpu_is_listed(rest, gpus.drop_last(), i);
            assert(gpus[k] == gpus.drop_last()[k]);
            k
        } else {
            law_every_gpu_is_listed(rest, gpus, i)
        }
    }
}

/// Nothing but display controllers is listed as a GPU, and none twice.
pub proof fn law_only_gpus_are_listed(
    attributes: Seq<PciAttributes>,
    gpus: Seq<GpuDevice>,
    k: int,
) -> (i: int)
    requires
        gpu::gpus_of(attributes, gpus),
        0 <= k < gpus.len(),
    ensures
        k <= i < attributes.len(),
        is_display(attributes[i]),
        attributes[i].describes(gpus[k]),
    decreases attributes.len(),
{
    let n = attributes.len() - 1;
    let rest = attributes.drop_last();
    if attributes.last().of_gpu() {
        if k == gpus.len() - 1 {
            lemma_no_more_gpus(rest, gpus.drop_last());
            n
        } else {
            let i = law_only_gpus_are_listed(rest, gpus.drop_last(), k);
            assert(gpus[k] == gpus.drop_last()[k]);
            assert(rest[i] == attributes[i]);
            i
        }
    } else {
        let i = law_only_gpus_are_listed(rest, gpus, k);
        assert(rest[i] == attributes[i]);
        i
    }
}

proof fn lemma_no_more_gpus(attributes: Seq<PciAttributes>, gpus: Seq<GpuDevice>)
    requires
        gpu::gpus_of(attributes, gpus),
    ensures
        gpus.len() <= attributes.len(),
    decreases attributes.len(),
{
    if attributes.len() > 0 {
        if attributes.last().of_gpu() {
            lemma_no_more_gpus(attributes.drop_last(), gpus.drop_last());
        } else {
            lemma_no_more_gpus(attributes.drop_last(), gpus);
        }
    }
}

/// With an address, the first GPU there is meant: it is chosen unless the host needs
/// it as its display or it has no IOMMU group. None is found only if none is there.
pub proof fn law_gpu_at_address_is_chosen(gpus: Seq<GpuDevice>, a: Seq<char>, i: int)
    requires
        0 <= i <= gpus.len(),
    ensures
        match gpu::chosen(gpus, Some(a), i) {
            Ok(k) => {
                &&& i <= k < gpus.len()
                &&& gpus[k].pci_address@ == a
                &&& !gpus[k].is_boot_vga
                &&& gpus[k].iommu_group is Some
                &&& forall|j: int| i <= j < k ==> (#[trigger] gpus[j]).pci_address@ != a
            },
            Err(GpuFault::NotFound) => forall|j: int|
                i <= j < gpus.len() ==> (#[trigger] gpus[j]).pci_address@ != a,
            Err(GpuFault::BootVga) => exists|k: int|
                i <= k < gpus.len() && (#[trigger] gpus[k]).pci_address@ == a
                    && gpus[k].is_boot_vga && forall|j: int|
                    i <= j < k ==> (#[trigger] gpus[j]).pci_address@ != a,
            Err(GpuFault::NoneCapable) => exists|k: int|
                i <= k < gpus.len() && (#[trigger] gpus[k]).pci_address@ == a
                    && !gpus[k].is_boot_vga && gpus[k].iommu_group is None && forall|j: int|
                    i <= j < k ==> (#[trigger] gpus[j]).pci_address@ != a,
        },
    decreases gpus.len() - i,
{
    if i < gpus.len() {
        if gpus[i].pci_address@ != a {
            law_gpu_at_address_is_chosen(gpus, a, i + 1);
        }
    }
}

/// Without an address, the first GPU is chosen that the host does not need as its
/// display and that has an IOMMU group, if there is one.
pub proof fn law_first_capable_gpu_is_chosen(gpus: Seq<GpuDevice>, i: int)
    requires
        0 <= i <= gpus.len(),
    ensures
        match gpu::chosen(gpus, None, i) {
            Ok(k) => {
                &&& i <= k < gpus.len()
                &&& !gpus[k].is_boot_vga
                &&& gpus[k].iommu_group is Some
                &&& forall|j: int|
                    i <= j < k ==> (#[trigger] gpus[j]).is_boot_vga || gpus[j].iommu_group is None
            },
            Err(e) => {
                &&& e == GpuFault::NoneCapable
                &&& forall|j: int|
                    i <= j < gpus.len() ==> (#[trigger] gpus[j]).is_boot_vga
                        || gpus[j].iommu_group is None
            },
        },
    decreases gpus.len() - i,
{
    if i < gpus.len() && !gpu::capable(gpus[i]) {
        law_first_capable_gpu_is_chosen(gpus, i + 1);
    }
}

/// The GPU can access every region before the first empty one, each where it is and
/// as long as it is.
pub proof fn law_all_regions_are_set(regions: Seq<(u64, u64)>)
    ensures
        ({
            let t = gpu::taken(regions);
            &&& t.len() <= regions.len()
            &&& forall|i: int|
                0 <= i < t.len() ==> (#[trigger] t[i]) == (DmaRegion {
                    iova: regions[i].0,
                    size: regions[i].1,
                }) && regions[i].1 != 0
            &&& t.len() < regions.len() ==> regions[t.len() as int].1 == 0
        }),
    decreases regions.len(),
{
    if regions.len() > 0 && regions[0].1 != 0 {
        let rest = regions.skip(1);
        law_all_regions_are_set(rest);
        let t = gpu::taken(regions);
        let u = gpu::taken(rest);
        assert forall|i: int| 0 <= i < t.len() implies (#[trigger] t[i]) == (DmaRegion {
            iova: regions[i].0,
            size: regions[i].1,
        }) && regions[i].1 != 0 by {
            if i > 0 {
                assert(t[i] == u[i - 1]);
                assert(rest[i - 1] == regions[i]);
            }
        }
        if t.len() < regions.len() {
            assert(rest[u.len() as int] == regions[t.len() as int]);
        }
    }
}

proof fn lemma_eventfds(fds: Seq<i32>)
    ensures
        vfio::eventfd_bytes(fds).len() == 4 * fds.len(),
        forall|k: int|
            0 <= k < fds.len() ==> bytes::le32(vfio::eventfd_bytes(fds), 4 * k) == (
            #[trigger] fds[k]) as int % 0x1_0000_0000,
    decreases fds.len(),
{
    if fds.len() > 0 {
        let rest = fds.drop_last();
        let b = vfio::eventfd_bytes(fds);
        let c = vfio::eventfd_bytes(rest);
        lemma_eventfds(rest);
        let last = vfio::fd_bits(fds.last());
        bytes::law_le32_round_trip(last);
        assert forall|k: int| 0 <= k < fds.len() implies bytes::le32(b, 4 * k) == (
        #[trigger] fds[k]) as int % 0x1_0000_0000 by {
            bytes::lemma_le32_at(b, 4 * k);
            if k < rest.len() {
                assert(rest[k] == fds[k]);
                bytes::lemma_le32_at(c, 4 * k);
                assert(b.subrange(4 * k, 4 * k + 4) =~= c.subrange(4 * k, 4 * k + 4));
            } else {
                assert(b.subrange(4 * k, 4 * k + 4) =~= bytes::le32_bytes(last));
            }
        }
    }
}

/// The request that sets up interrupts holds its length, its flags, the index of
/// the MSI-X interrupts, a start of zero and the number of eventfds, and then every
/// eventfd.
pub proof fn law_interrupt_request(fds: Seq<i32>)
    requires
        20 + 4 * fds.len() <= u32::MAX,
    ensures
        vfio::msix_request(fds) is Ok,
        ({
            let b = vfio::msix_request(fds)->Ok_0;
            &&& b.len() == 20 + 4 * fds.len()
            &&& bytes::le32(b, 0) == b.len()
            &&& bytes::le32(b, 4) == 0x1c
            &&& bytes::le32(b, 8) == 2
            &&& bytes::le32(b, 12) == 0
            &&& bytes::le32(b, 16) == fds.len()
            &&& forall|k: int|
                0 <= k < fds.len() ==> bytes::le32(b, 20 + 4 * k) == (#[trigger] fds[k]) as int
                    % 0x1_0000_0000
        }),
{
    let b = vfio::msix_request(fds)->Ok_0;
    let c = vfio::eventfd_bytes(fds);
    let size = (20 + 4 * fds.len()) as u32;
    lemma_eventfds(fds);
    bytes::law_le32_round_trip(size);
    bytes::law_le32_round_trip(0x1c);
    bytes::law_le32_round_trip(2);
    bytes::law_le32_round_trip(0);
    bytes::law_le32_round_trip(fds.len() as u32);
    assert(b.subrange(0, 4) =~= bytes::le32_bytes(size));
    assert(b.subrange(4, 8) =~= bytes::le32_bytes(0x1c));
    assert(b.subrange(8, 12) =~= bytes::le32_bytes(2));
    assert(b.subrange(12, 16) =~= bytes::le32_bytes(0));
    assert(b.subrange(16, 20) =~= bytes::le32_bytes(fds.len() as u32));
    bytes::lemma_le32_at(b, 0);
    bytes::lemma_le32_at(b, 4);
    bytes::lemma_le32_at(b, 8);
    bytes::lemma_le32_at(b, 12);
    bytes::lemma_le32_at(b, 16);
    assert forall|k: int| 0 <= k < fds.len() implies bytes::le32(b, 20 + 4 * k) == (
    #[trigger] fds[k]) as int % 0x1_0000_0000 by {
        bytes::lemma_le32_at(b, 20 + 4 * k);
        bytes::lemma_le32_at(c, 4 * k);
        assert(b.subrange(20 + 4 * k, 20 + 4 * k + 4) =~= c.subrange(4 * k, 4 * k + 4));
    }
}

/// A number that the host tells in hexadecimal, with its mark and a line end, is read
/// as that number.
pub proof fn law_attributes_are_read(n: nat)
    requires
        n <= u32::MAX,
    ensures
        gpu::attribute("0x"@ + text::hex(n) + "\n"@) == Some(n),
        gpu::attribute(text::hex(n)) == Some(n),
{
    reveal_strlit("0x");
    reveal_strlit("\n");
    let h = text::hex(n);
    names::lemma_hex(n, u32::MAX as nat);
    lemma_hex_digits(n);
    assert(is_digit(h[0]) && is_digit(h[h.len() - 1]));
    let none = Seq::<char>::empty();
    let t = "0x"@ + h;
    assert("0x"@ =~= seq!['0', 'x']);
    assert("\n"@ =~= seq!['\n']);
    assert(t[0] == '0');
    assert(t.last() == h.last());
    names::law_white_space_is_trimmed(none, t, "\n"@);
    assert(none + t + "\n"@ =~= t + "\n"@);
    names::law_white_space_is_trimmed(none, h, none);
    assert(none + h + none =~= h);
    let a = text::ascii_codes(h);
    let b = text::ascii_codes(t);
    assert(b.skip(2) =~= a);
    assert(b[0] == 0x30 && b[1] == 0x78);
    assert(a.len() >= 2 ==> a[1] != 0x78) by {
        if a.len() >= 2 {
            assert(is_digit(h[1]));
        }
    }
    assert(gpu::without_marks(a) == a);
    assert(gpu::without_marks(b) == gpu::without_marks(a));
    assert(a[0] != 0x2b);
}

/// Whether a character is a hexadecimal digit.
spec fn is_digit(c: char) -> bool {
    ||| 0x30 <= c as u32 <= 0x39 && 0x30 <= c as u8 <= 0x39
    ||| 0x61 <= c as u32 <= 0x66 && 0x61 <= c as u8 <= 0x66
}

proof fn lemma_hex_digits(n: nat)
    ensures
        forall|i: int| 0 <= i < text::hex(n).len() ==> is_digit(#[trigger] text::hex(n)[i]),
    decreases n,
{
    lemma_digit(n % 16);
    if n >= 16 {
        lemma_hex_digits(n / 16);
        let rest = text::hex(n / 16);
        let all = text::hex(n);
        assert forall|i: int| 0 <= i < all.len() implies is_digit(#[trigger] all[i]) by {
            if i < rest.len() {
                assert(all[i] == rest[i]);
            }
        }
    }
}

proof fn lemma_digit(d: nat)
    requires
        d < 16,
    ensures
        is_digit(text::digit(d)),
{
}

} // verus!
