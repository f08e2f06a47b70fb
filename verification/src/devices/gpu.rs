//! GPU passthrough: which host devices are GPUs, which of them a guest can have,
//! and what is kept of one that it has.
//!
//! GPUs are PCI devices of base class `0x03`: VGA controllers (`0x0300xx`), 3D
//! controllers (`0x0302xx`) and other display controllers (`0x0380xx`).

use crate::failure;
use crate::text;
use std::io::Error as IoError;
use vstd::prelude::*;

verus! {

/// PCI base class of display controllers.
pub const PCI_CLASS_DISPLAY: u32 = 0x03;

/// Errors of GPU passthrough.
#[derive(Debug)]
#[non_exhaustive]
pub enum GpuError {
    /// There is no GPU on the host that a guest can have.
    NoGpuFound,
    /// There is no GPU at the address.
    GpuNotFound {
        /// The PCI address.
        address: String,
    },
    /// The GPU at the address is the boot VGA device.
    BootVga {
        /// The PCI address.
        address: String,
    },
    /// The GPUs could not be detected.
    Detection(IoError),
    /// The GPU could not be bound to vfio-pci.
    VfioBind(String),
    /// The DMA mappings could not be set up.
    DmaSetup(String),
    /// The GPU could not be reset.
    Reset {
        /// The PCI address.
        address: String,
        /// The I/O error.
        source: IoError,
    },
    /// VGA arbitration failed.
    VgaArbitration(IoError),
    /// Another error.
    Passthrough(String),
}

impl GpuError {
    /// What the text that describes the error is, or starts with.
    pub open spec fn spec_message(self) -> Seq<char> {
        match self {
            GpuError::NoGpuFound => "no GPU found on host"@,
            GpuError::GpuNotFound { address } => "GPU at "@ + address@ + " not found"@,
            GpuError::BootVga { address } => "GPU at "@ + address@
                + " is the boot VGA device and cannot be passed through"@,
            GpuError::Detection(_) => "failed to detect GPUs: "@,
            GpuError::VfioBind(t) => "failed to bind GPU to vfio-pci: "@ + t@,
            GpuError::DmaSetup(t) => "failed to set up DMA: "@ + t@,
            GpuError::Reset { address, source } => "failed to reset GPU at "@ + address@ + ": "@,
            GpuError::VgaArbitration(_) => "VGA arbitration failed: "@,
            GpuError::Passthrough(t) => "GPU passthrough error: "@ + t@,
        }
    }

    /// Whether the host's own text stands behind that of the error.
    pub open spec fn has_host_text(self) -> bool {
        self is Detection || self is Reset || self is VgaArbitration
    }

    /// The text that describes the error.
    pub fn message(&self) -> (r: String)
        ensures
            self.has_host_text() ==> text::begins_with(r@, self.spec_message()),
            !self.has_host_text() ==> r@ == self.spec_message(),
    {
        match self {
            GpuError::NoGpuFound => "no GPU found on host".to_owned(),
            GpuError::GpuNotFound { address } => {
                let mut s = "GPU at ".to_owned();
                s.append(address.as_str());
                s.append(" not found");
                s
            },
            GpuError::BootVga { address } => {
                let mut s = "GPU at ".to_owned();
                s.append(address.as_str());
                s.append(" is the boot VGA device and cannot be passed through");
                s
            },
            GpuError::Detection(e) => failure::io_message("failed to detect GPUs: ", e),
            GpuError::VfioBind(t) => joined("failed to bind GPU to vfio-pci: ", t),
            GpuError::DmaSetup(t) => joined("failed to set up DMA: ", t),
            GpuError::Reset { address, source } => {
                let mut s = "failed to reset GPU at ".to_owned();
                s.append(address.as_str());
                s.append(": ");
                failure::io_message(s.as_str(), source)
            },
            GpuError::VgaArbitration(e) => failure::io_message("VGA arbitration failed: ", e),
            GpuError::Passthrough(t) => joined("GPU passthrough error: ", t),
        }
    }
}

fn joined(a: &str, b: &String) -> (r: String)
    ensures
        r@ == a@ + b@,
{
    let mut s = a.to_owned();
    s.append(b.as_str());
    s
}

/// How a GPU is reset, in the order of preference.
#[derive(Debug, Clone, Copy, PartialEq, Eq, PartialOrd, Ord, Hash, Structural)]
#[non_exhaustive]
pub enum ResetMethod {
    /// Function Level Reset: only this PCI function.
    Flr,
    /// Bus reset: all devices on the bus.
    BusReset,
    /// Power management reset.
    PmReset,
}

impl Default for ResetMethod {
    fn default() -> (r: Self)
        ensures
            r == ResetMethod::Flr,
    {
        ResetMethod::Flr
    }
}

impl ResetMethod {
    /// The name of the method.
    #[must_use]
    pub fn name(&self) -> (r: &'static str)
        ensures
            r@ == match *self {
                ResetMethod::Flr => "FLR"@,
                ResetMethod::BusReset => "bus reset"@,
                ResetMethod::PmReset => "PM reset"@,
            },
    {
        match self {
            ResetMethod::Flr => "FLR",
            ResetMethod::BusReset => "bus reset",
            ResetMethod::PmReset => "PM reset",
        }
    }
}

/// What a BAR region is like: a set of bits.
#[derive(Debug, Clone, Copy, PartialEq, Eq, Structural)]
pub struct BarFlags {
    pub raw: u32,
}

impl Default for BarFlags {
    fn default() -> (r: Self)
        ensures
            r.raw == 0,
    {
        BarFlags { raw: 0 }
    }
}

impl BarFlags {
    /// Memory-mapped.
    #[must_use]
    pub fn memory() -> (r: Self)
        ensures
            r.raw == 0b0001,
    {
        BarFlags { raw: 0b0001 }
    }

    /// I/O-mapped.
    #[must_use]
    pub fn io() -> (r: Self)
        ensures
            r.raw == 0b0010,
    {
        BarFlags { raw: 0b0010 }
    }

    /// Prefetchable memory.
    #[must_use]
    pub fn prefetchable() -> (r: Self)
        ensures
            r.raw == 0b0100,
    {
        BarFlags { raw: 0b0100 }
    }

    /// 64-bit addressable.
    #[must_use]
    pub fn bits_64() -> (r: Self)
        ensures
            r.raw == 0b1000,
    {
        BarFlags { raw: 0b1000 }
    }

    /// Tells whether all flags of `other` are set.
    #[must_use]
    pub fn contains(self, other: Self) -> (r: bool)
        ensures
            r == (self.raw & other.raw == other.raw),
    {
        (self.raw & other.raw) == other.raw
    }

    /// Tells whether no flag is set.
    #[must_use]
    pub fn is_empty(self) -> (r: bool)
        ensures
            r == (self.raw == 0),
    {
        self.raw == 0
    }

    /// The bits.
    #[must_use]
    pub fn bits(self) -> (r: u32)
        ensures
            r == self.raw,
    {
        self.raw
    }
}

impl std::ops::BitOr for BarFlags {
    type Output = BarFlags;

    fn bitor(self, rhs: BarFlags) -> (r: BarFlags) {
        BarFlags { raw: self.raw | rhs.raw }
    }
}

impl vstd::std_specs::ops::BitOrSpecImpl for BarFlags {
    open spec fn obeys_bitor_spec() -> bool {
        true
    }

    open spec fn bitor_req(self, rhs: BarFlags) -> bool {
        true
    }

    open spec fn bitor_spec(self, rhs: BarFlags) -> BarFlags {
        BarFlags { raw: self.raw | rhs.raw }
    }
}

impl std::ops::BitAnd for BarFlags {
    type Output = BarFlags;

    fn bitand(self, rhs: BarFlags) -> (r: BarFlags) {
        BarFlags { raw: self.raw & rhs.raw }
    }
}

impl vstd::std_specs::ops::BitAndSpecImpl for BarFlags {
    open spec fn obeys_bitand_spec() -> bool {
        true
    }

    open spec fn bitand_req(self, rhs: BarFlags) -> bool {
        true
    }

    open spec fn bitand_spec(self, rhs: BarFlags) -> BarFlags {
        BarFlags { raw: self.raw & rhs.raw }
    }
}

/// The flags of two sets are those of either.
pub proof fn law_flags_united(a: u32, b: u32, f: u32)
    requires
        a & f == f || b & f == f,
    ensures
        (a | b) & f == f,
{
    assert((a | b) & f == f) by (bit_vector)
        requires
            a & f == f || b & f == f,
    ;
}

/// A BAR region of a GPU.
#[derive(Debug, Clone, Copy, PartialEq, Eq, Structural)]
pub struct GpuBarRegion {
    /// BAR index (0 to 5).
    pub index: u8,
    /// Offset within the VFIO device file.
    pub offset: u64,
    /// Size in bytes.
    pub size: u64,
    /// What the region is like.
    pub flags: BarFlags,
}

impl Default for GpuBarRegion {
    fn default() -> (r: Self)
        ensures
            r == (GpuBarRegion { index: 0, offset: 0, size: 0, flags: BarFlags { raw: 0 } }),
    {
        GpuBarRegion { index: 0, offset: 0, size: 0, flags: BarFlags { raw: 0 } }
    }
}

/// A region of guest memory that a GPU can access.
#[derive(Debug, Clone, Copy, PartialEq, Eq, Structural)]
pub struct DmaRegion {
    /// Address as the GPU sees it.
    pub iova: u64,
    /// Size in bytes.
    pub size: u64,
}

impl Default for DmaRegion {
    fn default() -> (r: Self)
        ensures
            r == (DmaRegion { iova: 0, size: 0 }),
    {
        DmaRegion { iova: 0, size: 0 }
    }
}

/// Which GPU a guest gets, and how.
#[derive(Debug, Clone, PartialEq, Eq)]
pub struct GpuConfig {
    /// The PCI address, or `None` for the first that fits.
    pub pci_address: Option<String>,
    /// Whether legacy VGA decoding is turned off.
    pub vga_arbitration: bool,
    /// How the GPU is reset.
    pub reset_method: ResetMethod,
}

impl Default for GpuConfig {
    fn default() -> (r: Self)
        ensures
            r.pci_address is None,
            r.vga_arbitration,
            r.reset_method == ResetMethod::Flr,
    {
        GpuConfig { pci_address: None, vga_arbitration: true, reset_method: ResetMethod::Flr }
    }
}

/// A GPU of the host.
#[derive(Debug, Clone, PartialEq, Eq)]
pub struct GpuDevice {
    /// PCI address.
    pub pci_address: String,
    /// PCI vendor ID.
    pub vendor_id: u16,
    /// PCI device ID.
    pub device_id: u16,
    /// Device name.
    pub device_name: String,
    /// Vendor name.
    pub vendor_name: String,
    /// PCI class code (24 bits).
    pub pci_class: u32,
    /// The driver that it is bound to, if any.
    pub current_driver: Option<String>,
    /// IOMMU group, if it has one.
    pub iommu_group: Option<u32>,
    /// Whether it is the boot VGA device.
    pub is_boot_vga: bool,
}

impl GpuDevice {
    /// The address, the name, the IDs and the driver in a line.
    pub open spec fn spec_describe(self) -> Seq<char> {
        self.pci_address@ + " "@ + (if self.device_name@.len() == 0 {
            self.vendor_name@
        } else {
            self.device_name@
        }) + " ["@ + text::hex_padded(self.vendor_id as nat, 4) + ":"@ + text::hex_padded(
            self.device_id as nat,
            4,
        ) + "] (driver: "@ + match self.current_driver {
            Some(d) => d@,
            None => "none"@,
        } + ")"@
    }

    /// The address, the name, the IDs and the driver in a line.
    #[must_use]
    pub fn describe(&self) -> (r: String)
        ensures
            r@ == self.spec_describe(),
    {
        let mut s = self.pci_address.as_str().to_owned();
        s.append(" ");
        if self.device_name.as_str().unicode_len() == 0 {
            s.append(self.vendor_name.as_str());
        } else {
            s.append(self.device_name.as_str());
        }
        s.append(" [");
        text::push_hex_padded(&mut s, self.vendor_id as u64, 4);
        s.append(":");
        text::push_hex_padded(&mut s, self.device_id as u64, 4);
        s.append("] (driver: ");
        match &self.current_driver {
            Some(d) => s.append(d.as_str()),
            None => s.append("none"),
        }
        s.append(")");
        s
    }

    /// Whether two values describe the same GPU.
    pub open spec fn same(self, other: GpuDevice) -> bool {
        &&& self.pci_address@ == other.pci_address@
        &&& self.vendor_id == other.vendor_id
        &&& self.device_id == other.device_id
        &&& self.device_name@ == other.device_name@
        &&& self.vendor_name@ == other.vendor_name@
        &&& self.pci_class == other.pci_class
        &&& same_text(self.current_driver, other.current_driver)
        &&& self.iommu_group == other.iommu_group
        &&& self.is_boot_vga == other.is_boot_vga
    }

    /// A copy.
    fn copy(&self) -> (r: Self)
        ensures
            r.same(*self),
    {
        GpuDevice {
            pci_address: self.pci_address.as_str().to_owned(),
            vendor_id: self.vendor_id,
            device_id: self.device_id,
            device_name: self.device_name.as_str().to_owned(),
            vendor_name: self.vendor_name.as_str().to_owned(),
            pci_class: self.pci_class,
            current_driver: copy_text(&self.current_driver),
            iommu_group: self.iommu_group,
            is_boot_vga: self.is_boot_vga,
        }
    }
}

/// Whether two optional texts are the same.
pub open spec fn same_text(a: Option<String>, b: Option<String>) -> bool {
    match (a, b) {
        (Some(x), Some(y)) => x@ == y@,
        (None, None) => true,
        _ => false,
    }
}

fn copy_text(t: &Option<String>) -> (r: Option<String>)
    ensures
        same_text(r, *t),
{
    match t {
        Some(s) => Some(s.as_str().to_owned()),
        None => None,
    }
}

/// Tells whether a PCI class code is that of a display controller.
#[must_use]
pub fn is_gpu_class(class_code: u32) -> (r: bool)
    ensures
        r == (class_code / 0x1_0000 == PCI_CLASS_DISPLAY),
{
    class_code / 0x1_0000 == PCI_CLASS_DISPLAY
}

/// Whether a guest can have a GPU: it is not the boot VGA device, which the host
/// needs, and it has an IOMMU group.
pub open spec fn capable(gpu: GpuDevice) -> bool {
    !gpu.is_boot_vga && gpu.iommu_group is Some
}

/// Tells whether a guest can have a GPU.
#[must_use]
pub fn is_passthrough_capable(gpu: &GpuDevice) -> (r: bool)
    ensures
        r == capable(*gpu),
{
    !gpu.is_boot_vga && gpu.iommu_group.is_some()
}

/// The name of a PCI vendor.
pub open spec fn spec_vendor_name(vendor_id: u16) -> Seq<char> {
    if vendor_id == 0x10de {
        "NVIDIA"@
    } else if vendor_id == 0x1002 {
        "AMD"@
    } else if vendor_id == 0x8086 {
        "Intel"@
    } else if vendor_id == 0x1a03 {
        "ASPEED Technology"@
    } else if vendor_id == 0x1022 {
        "AMD (ATI)"@
    } else if vendor_id == 0x15ad {
        "VMware"@
    } else if vendor_id == 0x1ab8 {
        "Parallels"@
    } else if vendor_id == 0x1414 {
        "Microsoft Hyper-V"@
    } else {
        "Unknown"@
    }
}

/// Tells the name of a PCI vendor.
#[must_use]
pub fn vendor_name(vendor_id: u16) -> (r: &'static str)
    ensures
        r@ == spec_vendor_name(vendor_id),
{
    match vendor_id {
        0x10de => "NVIDIA",
        0x1002 => "AMD",
        0x8086 => "Intel",
        0x1a03 => "ASPEED Technology",
        0x1022 => "AMD (ATI)",
        0x15ad => "VMware",
        0x1ab8 => "Parallels",
        0x1414 => "Microsoft Hyper-V",
        _ => "Unknown",
    }
}

/// A sequence without the `0x` at its beginning, however often it stands there.
pub open spec fn without_marks(s: Seq<u8>) -> Seq<u8>
    decreases s.len(),
{
    if s.len() >= 2 && s[0] == 0x30 && s[1] == 0x78 {
        without_marks(s.skip(2))
    } else {
        s
    }
}

/// The number in an attribute of a device, in hexadecimal.
pub open spec fn attribute(content: Seq<char>) -> Option<nat> {
    text::number(without_marks(text::ascii_codes(text::trimmed(content))), 16, u32::MAX as nat)
}

/// Reads the number in an attribute of a device.
pub fn parse_sysfs_hex(content: &str) -> (r: Option<u32>)
    ensures
        match attribute(content@) {
            Some(n) => r == Some(n as u32) && n <= u32::MAX,
            None => r is None,
        },
{
    let codes = text::trimmed_codes(content);
    let ghost all = codes@;
    let mut i: usize = 0;
    assert(all.skip(0) =~= all);
    while codes.len() - i >= 2 && codes[i] == 0x30 && codes[i + 1] == 0x78
        invariant
            i <= codes@.len(),
            codes@ == all,
            without_marks(all) == without_marks(all.skip(i as int)),
        decreases codes@.len() - i,
    {
        assert(all.skip(i as int).skip(2) =~= all.skip(i + 2));
        i = i + 2;
    }
    let rest = vstd::slice::slice_subrange(codes.as_slice(), i, codes.len());
    assert(rest@ =~= all.skip(i as int));
    match text::parse_number(rest, 16, 0xFFFF_FFFF) {
        Some(n) => Some(n as u32),
        None => None,
    }
}

/// What the host tells of a PCI device: the contents of its attributes, the name
/// of its driver and that of its IOMMU group, as far as there are any.
#[derive(Debug)]
pub struct PciAttributes {
    pub pci_address: String,
    pub class: Option<String>,
    pub vendor: Option<String>,
    pub device: Option<String>,
    pub driver: Option<String>,
    pub iommu_group: Option<String>,
    pub boot_vga: Option<String>,
}

/// The number in an attribute, or zero.
pub open spec fn attribute_or_zero(content: Option<String>) -> nat {
    match content {
        Some(t) => match attribute(t@) {
            Some(n) => n,
            None => 0,
        },
        None => 0,
    }
}

fn attribute_value(content: &Option<String>) -> (r: u32)
    ensures
        r == attribute_or_zero(*content),
{
    match content {
        Some(t) => match parse_sysfs_hex(t.as_str()) {
            Some(n) => n,
            None => 0,
        },
        None => 0,
    }
}

/// A 16-bit ID, or zero for a number that is none.
pub open spec fn id_of(n: nat) -> u16 {
    if n <= 0xffff {
        n as u16
    } else {
        0
    }
}

fn id_value(n: u32) -> (r: u16)
    ensures
        r == id_of(n as nat),
{
    if n <= 0xffff {
        n as u16
    } else {
        0
    }
}

/// The number of an IOMMU group.
pub open spec fn group_number(name: Seq<char>) -> Option<u32> {
    match text::number(vstd::utf8::encode_utf8(name), 10, u32::MAX as nat) {
        Some(n) => Some(n as u32),
        None => None,
    }
}

/// Reads the number of an IOMMU group.
pub fn parse_group(name: &str) -> (r: Option<u32>)
    ensures
        r == group_number(name@),
{
    match text::parse_number(name.as_bytes(), 10, 0xFFFF_FFFF) {
        Some(n) => Some(n as u32),
        None => None,
    }
}

impl PciAttributes {
    /// Whether the attributes are those of a GPU.
    pub open spec fn of_gpu(self) -> bool {
        attribute_or_zero(self.class) / 0x1_0000 == 0x03
    }

    /// Whether a GPU is the one with these attributes.
    pub open spec fn describes(self, gpu: GpuDevice) -> bool {
        &&& gpu.pci_address@ == self.pci_address@
        &&& gpu.vendor_id == id_of(attribute_or_zero(self.vendor))
        &&& gpu.device_id == id_of(attribute_or_zero(self.device))
        &&& gpu.device_name@.len() == 0
        &&& gpu.vendor_name@ == spec_vendor_name(gpu.vendor_id)
        &&& gpu.pci_class == attribute_or_zero(self.class)
        &&& same_text(gpu.current_driver, self.driver)
        &&& gpu.iommu_group == match self.iommu_group {
            Some(name) => group_number(name@),
            None => None,
        }
        &&& gpu.is_boot_vga == (self.boot_vga matches Some(t) && text::ascii_codes(
            text::trimmed(t@),
        ) == seq![0x31u8])
    }

    /// The GPU with these attributes, if they are those of a GPU.
    pub fn gpu(&self) -> (r: Option<GpuDevice>)
        ensures
            r is Some <==> self.of_gpu(),
            r matches Some(g) ==> self.describes(g),
    {
        let class = attribute_value(&self.class);
        if !is_gpu_class(class) {
            return None;
        }
        let vendor_id = id_value(attribute_value(&self.vendor));
        let device_id = id_value(attribute_value(&self.device));
        let iommu_group = match &self.iommu_group {
            Some(name) => parse_group(name.as_str()),
            None => None,
        };
        let is_boot_vga = match &self.boot_vga {
            Some(t) => {
                let codes = text::trimmed_codes(t.as_str());
                let one = codes.len() == 1 && codes[0] == 0x31;
                assert(one == (codes@ =~= seq![0x31u8]));
                one
            },
            None => false,
        };
        proof {
            reveal_strlit("");
        }
        Some(
            GpuDevice {
                pci_address: self.pci_address.as_str().to_owned(),
                vendor_id,
                device_id,
                device_name: "".to_owned(),
                vendor_name: vendor_name(vendor_id).to_owned(),
                pci_class: class,
                current_driver: copy_text(&self.driver),
                iommu_group,
                is_boot_vga,
            },
        )
    }
}

/// Whether GPUs are those among PCI devices, in their order.
pub open spec fn gpus_of(attributes: Seq<PciAttributes>, gpus: Seq<GpuDevice>) -> bool
    decreases attributes.len(),
{
    if attributes.len() == 0 {
        gpus.len() == 0
    } else if attributes.last().of_gpu() {
        gpus.len() > 0 && attributes.last().describes(gpus.last()) && gpus_of(
            attributes.drop_last(),
            gpus.drop_last(),
        )
    } else {
        gpus_of(attributes.drop_last(), gpus)
    }
}

/// Picks the GPUs out of the PCI devices of the host.
pub fn detect_gpus(devices: &Vec<PciAttributes>) -> (r: Vec<GpuDevice>)
    ensures
        gpus_of(devices@, r@),
{
    let mut r: Vec<GpuDevice> = Vec::new();
    let mut i: usize = 0;
    assert(devices@.take(0) =~= Seq::<PciAttributes>::empty());
    while i < devices.len()
        invariant
            i <= devices@.len(),
            gpus_of(devices@.take(i as int), r@),
        decreases devices@.len() - i,
    {
        let ghost before = r@;
        assert(devices@.take(i + 1).drop_last() =~= devices@.take(i as int));
        assert(devices@.take(i + 1).last() == devices@[i as int]);
        match devices[i].gpu() {
            Some(g) => {
                r.push(g);
                assert(r@.drop_last() =~= before);
            },
            None => {},
        }
        i = i + 1;
    }
    assert(devices@.take(i as int) =~= devices@);
    r
}

/// Which of the GPUs a guest gets, or why it gets none: the one at the address,
/// which must not be the boot VGA device and must have an IOMMU group, or the
/// first that a guest can have.
pub open spec fn chosen(gpus: Seq<GpuDevice>, address: Option<Seq<char>>, i: int) -> Result<
    int,
    GpuFault,
>
    decreases gpus.len() - i,
{
    match address {
        Some(a) => if i >= gpus.len() {
            Err(GpuFault::NotFound)
        } else if gpus[i].pci_address@ != a {
            chosen(gpus, address, i + 1)
        } else if gpus[i].is_boot_vga {
            Err(GpuFault::BootVga)
        } else if gpus[i].iommu_group is None {
            Err(GpuFault::NoneCapable)
        } else {
            Ok(i)
        },
        None => if i >= gpus.len() {
            Err(GpuFault::NoneCapable)
        } else if capable(gpus[i]) {
            Ok(i)
        } else {
            chosen(gpus, address, i + 1)
        },
    }
}

/// Why a guest gets no GPU.
pub enum GpuFault {
    NotFound,
    BootVga,
    NoneCapable,
}

impl GpuConfig {
    /// The address that is asked for.
    pub open spec fn address(self) -> Option<Seq<char>> {
        match self.pci_address {
            Some(a) => Some(a@),
            None => None,
        }
    }
}

/// A GPU that a guest has.
#[derive(Debug)]
pub struct GpuPassthrough {
    /// The GPU.
    pub device: GpuDevice,
    /// How the guest got it.
    pub config: GpuConfig,
    /// The driver that it was bound to.
    pub original_driver: Option<String>,
    /// The BAR regions, once they are known.
    pub bar_regions: Vec<GpuBarRegion>,
    /// The regions of guest memory that it can access.
    pub dma_regions: Vec<DmaRegion>,
    /// Whether legacy VGA decoding was turned off.
    pub vga_disabled: bool,
}

fn same_string(a: &str, b: &str) -> (r: bool)
    ensures
        r == (a@ == b@),
{
    let n: usize = a.unicode_len();
    if n != b.unicode_len() {
        return false;
    }
    let mut i: usize = 0;
    while i < n
        invariant
            i <= n,
            n == a@.len(),
            n == b@.len(),
            forall|k: int| 0 <= k < i ==> #[trigger] a@[k] == b@[k],
        decreases n - i,
    {
        if a.get_char(i) != b.get_char(i) {
            return false;
        }
        i = i + 1;
    }
    assert(a@ =~= b@);
    true
}

/// The regions of guest memory that are taken: those before the first empty one.
pub open spec fn taken(regions: Seq<(u64, u64)>) -> Seq<DmaRegion>
    decreases regions.len(),
{
    if regions.len() == 0 || regions[0].1 == 0 {
        Seq::empty()
    } else {
        seq![DmaRegion { iova: regions[0].0, size: regions[0].1 }] + taken(regions.skip(1))
    }
}

impl GpuPassthrough {
    /// Prepares the passthrough of one of the detected GPUs: the one at the
    /// address that is asked for, or the first that a guest can have. A guest
    /// never gets the boot VGA device or a GPU without an IOMMU group.
    pub fn prepare(config: &GpuConfig, detected: Result<Vec<GpuDevice>, IoError>) -> (r: Result<
        Self,
        GpuError,
    >)
        ensures
            match detected {
                Err(e) => r == Err::<Self, GpuError>(GpuError::Detection(e)),
                Ok(gpus) => match chosen(gpus@, config.address(), 0) {
                    Ok(i) => {
                        &&& r is Ok
                        &&& r->Ok_0.device.same(gpus@[i])
                        &&& same_text(r->Ok_0.original_driver, gpus@[i].current_driver)
                        &&& r->Ok_0.config.address() == config.address()
                        &&& r->Ok_0.config.vga_arbitration == config.vga_arbitration
                        &&& r->Ok_0.config.reset_method == config.reset_method
                        &&& r->Ok_0.bar_regions@.len() == 0
                        &&& r->Ok_0.dma_regions@.len() == 0
                        &&& !r->Ok_0.vga_disabled
                    },
                    Err(GpuFault::NotFound) => r matches Err(GpuError::GpuNotFound { address })
                        && Some(address@) == config.address(),
                    Err(GpuFault::BootVga) => r matches Err(GpuError::BootVga { address })
                        && Some(address@) == config.address(),
                    Err(GpuFault::NoneCapable) => r matches Err(GpuError::NoGpuFound),
                },
            },
    {
        let gpus = match detected {
            Ok(gpus) => gpus,
            Err(e) => return Err(GpuError::Detection(e)),
        };
        let i: usize = match &config.pci_address {
            Some(addr) => match find_at(&gpus, addr.as_str()) {
                Some(i) => {
                    if gpus[i].is_boot_vga {
                        return Err(GpuError::BootVga { address: addr.as_str().to_owned() });
                    }
                    if gpus[i].iommu_group.is_none() {
                        return Err(GpuError::NoGpuFound);
                    }
                    i
                },
                None => return Err(GpuError::GpuNotFound { address: addr.as_str().to_owned() }),
            },
            None => match find_capable(&gpus) {
                Some(i) => i,
                None => return Err(GpuError::NoGpuFound),
            },
        };
        Ok(
            GpuPassthrough {
                device: gpus[i].copy(),
                config: GpuConfig {
                    pci_address: copy_text(&config.pci_address),
                    vga_arbitration: config.vga_arbitration,
                    reset_method: config.reset_method,
                },
                original_driver: copy_text(&gpus[i].current_driver),
                bar_regions: Vec::new(),
                dma_regions: Vec::new(),
                vga_disabled: false,
            },
        )
    }

    /// The BAR regions.
    #[must_use]
    pub fn bar_regions(&self) -> (r: &[GpuBarRegion])
        ensures
            r@ == self.bar_regions@,
    {
        self.bar_regions.as_slice()
    }

    /// The regions of guest memory that the GPU can access.
    #[must_use]
    pub fn dma_regions(&self) -> (r: &[DmaRegion])
        ensures
            r@ == self.dma_regions@,
    {
        self.dma_regions.as_slice()
    }

    /// The file that a reset is written to, as `"1"`.
    #[must_use]
    pub fn reset_path(&self) -> (r: String)
        ensures
            r@ == "/sys/bus/pci/devices/"@ + self.device.pci_address@ + "/reset"@,
    {
        let mut s = "/sys/bus/pci/devices/".to_owned();
        s.append(self.device.pci_address.as_str());
        s.append("/reset");
        s
    }

    /// What resetting the GPU amounts to, given how the write went.
    pub fn reset(&self, written: Result<(), IoError>) -> (r: Result<(), GpuError>)
        ensures
            match written {
                Ok(_) => r is Ok,
                Err(e) => r matches Err(GpuError::Reset { address, source }) && address@
                    == self.device.pci_address@ && source == e,
            },
    {
        match written {
            Ok(_) => Ok(()),
            Err(e) => Err(
                GpuError::Reset { address: self.device.pci_address.as_str().to_owned(), source: e },
            ),
        }
    }

    /// What is written to the VGA arbiter to turn legacy VGA decoding off.
    #[must_use]
    pub fn vga_command(&self) -> (r: String)
        ensures
            r@ == "decodes none:PCI:"@ + self.device.pci_address@,
    {
        let mut s = "decodes none:PCI:".to_owned();
        s.append(self.device.pci_address.as_str());
        s
    }

    /// Notes that legacy VGA decoding was turned off, if the write went well.
    pub fn disable_vga_arbitration(&mut self, written: Result<(), IoError>) -> (r: Result<
        (),
        GpuError,
    >)
        ensures
            match written {
                Ok(_) => r is Ok && *final(self) == (GpuPassthrough {
                    vga_disabled: true,
                    ..*old(self)
                }),
                Err(e) => r == Err::<(), GpuError>(GpuError::VgaArbitration(e)) && *final(self)
                    == *old(self),
            },
    {
        match written {
            Ok(_) => {
                self.vga_disabled = true;
                Ok(())
            },
            Err(e) => Err(GpuError::VgaArbitration(e)),
        }
    }

    /// Sets the regions of guest memory that the GPU can access, in place of
    /// those before. Stops at an empty one, with those before it set.
    pub fn setup_dma(&mut self, guest_regions: &[(u64, u64)]) -> (r: Result<(), GpuError>)
        ensures
            final(self).dma_regions@ == taken(guest_regions@),
            final(self).device == old(self).device,
            final(self).config == old(self).config,
            final(self).original_driver == old(self).original_driver,
            final(self).bar_regions == old(self).bar_regions,
            final(self).vga_disabled == old(self).vga_disabled,
            r is Ok <==> taken(guest_regions@).len() == guest_regions@.len(),
            r is Err ==> (r->Err_0 matches GpuError::DmaSetup(t) && t@
                == "DMA region size must not be zero"@),
    {
        let mut list: Vec<DmaRegion> = Vec::new();
        let ghost all = guest_regions@;
        let mut i: usize = 0;
        assert(all.skip(0) =~= all);
        assert(list@ + taken(all) =~= taken(all));
        let mut sound = true;
        while i < guest_regions.len() && sound
            invariant
                i <= all.len(),
                guest_regions@ == all,
                taken(all) == list@ + taken(all.skip(i as int)),
                list@.len() == i,
                !sound ==> i < all.len() && all[i as int].1 == 0,
            decreases all.len() - i + if sound {
                1int
            } else {
                0
            },
        {
            let (iova, size) = guest_regions[i];
            if size == 0 {
                sound = false;
            } else {
                let ghost before = list@;
                list.push(DmaRegion { iova, size });
                assert(all.skip(i as int).skip(1) =~= all.skip(i + 1));
                assert(list@ + taken(all.skip(i + 1)) =~= before + taken(all.skip(i as int)));
                i = i + 1;
            }
        }
        assert(taken(all) =~= list@);
        self.dma_regions = list;
        if sound {
            Ok(())
        } else {
            Err(GpuError::DmaSetup("DMA region size must not be zero".to_owned()))
        }
    }
}

fn find_at(gpus: &Vec<GpuDevice>, addr: &str) -> (r: Option<usize>)
    ensures
        match r {
            Some(i) => i < gpus@.len() && chosen(gpus@, Some(addr@), 0) == if gpus@[i as int]
                .is_boot_vga {
                Err::<int, GpuFault>(GpuFault::BootVga)
            } else if gpus@[i as int].iommu_group is None {
                Err(GpuFault::NoneCapable)
            } else {
                Ok(i as int)
            },
            None => chosen(gpus@, Some(addr@), 0) == Err::<int, GpuFault>(GpuFault::NotFound),
        },
{
    let mut i: usize = 0;
    while i < gpus.len()
        invariant
            i <= gpus@.len(),
            chosen(gpus@, Some(addr@), 0) == chosen(gpus@, Some(addr@), i as int),
        decreases gpus@.len() - i,
    {
        if same_string(gpus[i].pci_address.as_str(), addr) {
            return Some(i);
        }
        i = i + 1;
    }
    None
}

fn find_capable(gpus: &Vec<GpuDevice>) -> (r: Option<usize>)
    ensures
        match r {
            Some(i) => i < gpus@.len() && chosen(gpus@, None, 0) == Ok::<int, GpuFault>(i as int),
            None => chosen(gpus@, None, 0) == Err::<int, GpuFault>(GpuFault::NoneCapable),
        },
{
    let mut i: usize = 0;
    while i < gpus.len()
        invariant
            i <= gpus@.len(),
            chosen(gpus@, None, 0) == chosen(gpus@, None, i as int),
        decreases gpus@.len() - i,
    {
        if is_passthrough_capable(&gpus[i]) {
            return Some(i);
        }
        i = i + 1;
    }
    None
}

/// The boot VGA device is never given to a guest, nor a GPU without an IOMMU
/// group.
pub proof fn law_host_keeps_its_display(gpus: Seq<GpuDevice>, address: Option<Seq<char>>, i: int)
    requires
        0 <= i,
    ensures
        chosen(gpus, address, i) matches Ok(k) ==> i <= k < gpus.len() && !gpus[k].is_boot_vga
            && gpus[k].iommu_group is Some,
    decreases gpus.len() - i,
{
    if i < gpus.len() {
        law_host_keeps_its_display(gpus, address, i + 1);
    }
}

} // verus!
