//! VFIO device passthrough: PCI addresses, the requests that go to the kernel
//! and its replies, and the errors.

use crate::bytes::{self, get_le32, get_le64, push_le32, push_le64};
use crate::failure;
use crate::path;
use crate::text;
use std::io::Error as IoError;
use std::str::FromStr;
use vstd::prelude::*;

verus! {

/// `VFIO_GET_API_VERSION`.
pub const VFIO_GET_API_VERSION: u64 = 0x3B64;

/// `VFIO_CHECK_EXTENSION`.
pub const VFIO_CHECK_EXTENSION: u64 = 0x3B65;

/// `VFIO_SET_IOMMU`.
pub const VFIO_SET_IOMMU: u64 = 0x3B66;

/// `VFIO_GROUP_GET_STATUS`.
pub const VFIO_GROUP_GET_STATUS: u64 = 0x3B67;

/// `VFIO_GROUP_SET_CONTAINER`.
pub const VFIO_GROUP_SET_CONTAINER: u64 = 0x3B68;

/// `VFIO_GROUP_GET_DEVICE_FD`.
pub const VFIO_GROUP_GET_DEVICE_FD: u64 = 0x3B6A;

/// `VFIO_DEVICE_GET_INFO`.
pub const VFIO_DEVICE_GET_INFO: u64 = 0x3B6B;

/// `VFIO_DEVICE_GET_REGION_INFO`.
pub const VFIO_DEVICE_GET_REGION_INFO: u64 = 0x3B6C;

/// `VFIO_DEVICE_SET_IRQS`.
pub const VFIO_DEVICE_SET_IRQS: u64 = 0x3B6E;

/// `VFIO_DEVICE_RESET`.
pub const VFIO_DEVICE_RESET: u64 = 0x3B6F;

/// `VFIO_IOMMU_MAP_DMA`.
pub const VFIO_IOMMU_MAP_DMA: u64 = 0x3B71;

/// `VFIO_IOMMU_UNMAP_DMA`.
pub const VFIO_IOMMU_UNMAP_DMA: u64 = 0x3B72;

/// The API version that there should be.
pub const VFIO_API_VERSION: i32 = 0;

/// IOMMU type 1 (x86 page tables).
pub const VFIO_TYPE1_IOMMU: u64 = 1;

/// Group status: all devices are bound to VFIO.
pub const VFIO_GROUP_FLAGS_VIABLE: u32 = 1;

/// DMA map flag: the device may read.
pub const VFIO_DMA_MAP_FLAG_READ: u32 = 1;

/// DMA map flag: the device may write.
pub const VFIO_DMA_MAP_FLAG_WRITE: u32 = 2;

/// IRQ flag: the data are event files.
pub const VFIO_IRQ_SET_DATA_EVENTFD: u32 = 0x04;

/// IRQ flag: the action is a trigger.
pub const VFIO_IRQ_SET_ACTION_TRIGGER: u32 = 0x18;

/// IRQ index of MSI-X.
pub const VFIO_PCI_MSIX_IRQ_INDEX: u32 = 2;

/// Size of the group status.
pub const ARGSZ_GROUP_STATUS: u32 = 8;

/// Size of the device info.
pub const ARGSZ_DEVICE_INFO: u32 = 16;

/// Size of the region info.
pub const ARGSZ_REGION_INFO: u32 = 32;

/// Size of a request to map DMA.
pub const ARGSZ_DMA_MAP: u32 = 32;

/// Size of a request to unmap DMA.
pub const ARGSZ_DMA_UNMAP: u32 = 24;

/// Size of an IRQ set without its data.
pub const IRQ_SET_HEADER_SIZE: usize = 20;

/// Why an attribute of a device could not be had.
#[derive(Debug)]
#[non_exhaustive]
pub enum SysfsFault {
    /// Reading it failed.
    Io(IoError),
    /// The link to the IOMMU group leads to nothing with a name.
    NoGroupName,
    /// The link to the IOMMU group leads to something with this name.
    NoGroupNumber(String),
}

/// Errors of VFIO operations.
#[derive(Debug)]
#[non_exhaustive]
pub enum VfioError {
    /// The container could not be opened.
    OpenContainer(IoError),
    /// The kernel has another API version.
    ApiVersion {
        /// The version that there should be.
        expected: i32,
        /// The version that there is.
        actual: i32,
    },
    /// The IOMMU type could not be set.
    SetIommuType(IoError),
    /// The group could not be opened.
    OpenGroup {
        /// IOMMU group.
        group_id: u32,
        /// The I/O error.
        source: IoError,
    },
    /// Not all devices of the group are bound to VFIO.
    GroupNotViable {
        /// IOMMU group.
        group_id: u32,
    },
    /// The group could not be attached to the container.
    AttachGroup(IoError),
    /// The device could not be had from the group.
    GetDevice {
        /// PCI address.
        device: String,
        /// The I/O error.
        source: IoError,
    },
    /// The region info could not be had.
    RegionInfo {
        /// Region index.
        index: u32,
        /// The I/O error.
        source: IoError,
    },
    /// The DMA region could not be mapped.
    DmaMap {
        /// Address as the device sees it.
        iova: u64,
        /// The I/O error.
        source: IoError,
    },
    /// The DMA region could not be unmapped.
    DmaUnmap {
        /// Address as the device sees it.
        iova: u64,
        /// The I/O error.
        source: IoError,
    },
    /// The device could not be reset.
    DeviceReset(IoError),
    /// The text is no PCI address.
    ParseAddress {
        /// The text.
        input: String,
    },
    /// The device could not be unbound from its driver.
    UnbindDevice {
        /// PCI address.
        address: String,
        /// The I/O error.
        source: IoError,
    },
    /// The device could not be bound to vfio-pci.
    BindVfioPci {
        /// PCI address.
        address: String,
        /// The I/O error.
        source: IoError,
    },
    /// The original driver could not be bound again.
    RestoreDriver {
        /// PCI address.
        address: String,
        /// The I/O error.
        source: IoError,
    },
    /// An attribute of the device could not be read.
    ReadSysfs {
        /// PCI address.
        address: String,
        /// Why.
        source: SysfsFault,
    },
    /// The interrupts could not be set up.
    IrqSetup(IoError),
}

/// A text, a name and another text.
fn around(a: &str, name: &String, b: &str) -> (r: String)
    ensures
        r@ == a@ + name@ + b@,
{
    let mut s = a.to_owned();
    s.append(name.as_str());
    s.append(b);
    s
}

/// A number in decimal, as a signed one is written.
pub open spec fn signed(n: int) -> Seq<char> {
    if n < 0 {
        "-"@ + text::decimal((-n) as nat)
    } else {
        text::decimal(n as nat)
    }
}

fn push_signed(s: &mut String, n: i32)
    ensures
        final(s)@ == old(s)@ + signed(n as int),
{
    if n < 0 {
        s.append("-");
        text::push_decimal(s, (-(n as i64)) as u64);
        assert(s@ =~= old(s)@ + signed(n as int));
    } else {
        text::push_decimal(s, n as u64);
    }
}

impl VfioError {
    /// What the text that describes the error is, or starts with.
    pub open spec fn spec_message(self) -> Seq<char> {
        match self {
            VfioError::OpenContainer(_) => "failed to open VFIO container: "@,
            VfioError::ApiVersion { expected, actual } => "VFIO API version mismatch: expected "@
                + signed(expected as int) + ", got "@ + signed(actual as int),
            VfioError::SetIommuType(_) => "failed to set IOMMU type: "@,
            VfioError::OpenGroup { group_id, source } => "failed to open VFIO group "@
                + text::decimal(group_id as nat) + ": "@,
            VfioError::GroupNotViable { group_id } => "VFIO group "@ + text::decimal(
                group_id as nat,
            ) + " is not viable (not all devices bound to vfio-pci)"@,
            VfioError::AttachGroup(_) => "failed to attach group to container: "@,
            VfioError::GetDevice { device, source } => "failed to get device FD for "@ + device@
                + ": "@,
            VfioError::RegionInfo { index, source } => "failed to query region "@ + text::decimal(
                index as nat,
            ) + " info: "@,
            VfioError::DmaMap { iova, source } => "failed to map DMA at IOVA 0x"@ + text::hex(
                iova as nat,
            ) + ": "@,
            VfioError::DmaUnmap { iova, source } => "failed to unmap DMA at IOVA 0x"@ + text::hex(
                iova as nat,
            ) + ": "@,
            VfioError::DeviceReset(_) => "failed to reset VFIO device: "@,
            VfioError::ParseAddress { input } => "invalid PCI address '"@ + input@
                + "': expected format DDDD:BB:DD.F"@,
            VfioError::UnbindDevice { address, source } => "failed to unbind device "@ + address@
                + ": "@,
            VfioError::BindVfioPci { address, source } => "failed to bind "@ + address@
                + " to vfio-pci: "@,
            VfioError::RestoreDriver { address, source } => "failed to restore driver for "@
                + address@ + ": "@,
            VfioError::ReadSysfs { address, source } => "failed to read sysfs for "@ + address@
                + ": "@ + (match source {
                SysfsFault::Io(_) => Seq::empty(),
                SysfsFault::NoGroupName => "invalid iommu_group symlink"@,
                SysfsFault::NoGroupNumber(name) => "non-numeric IOMMU group: "@ + name@,
            }),
            VfioError::IrqSetup(_) => "failed to set up IRQ for device: "@,
        }
    }

    /// Whether the host's own text stands behind that of the error.
    pub open spec fn has_host_text(self) -> bool {
        &&& !(self is ApiVersion || self is GroupNotViable || self is ParseAddress)
        &&& self matches VfioError::ReadSysfs { source, .. } ==> source is Io
    }

    /// The text that describes the error.
    pub fn message(&self) -> (r: String)
        ensures
            self.has_host_text() ==> text::begins_with(r@, self.spec_message()),
            !self.has_host_text() ==> r@ == self.spec_message(),
    {
        match self {
            VfioError::OpenContainer(e) => failure::io_message(
                "failed to open VFIO container: ",
                e,
            ),
            VfioError::ApiVersion { expected, actual } => {
                let mut s = "VFIO API version mismatch: expected ".to_owned();
                push_signed(&mut s, *expected);
                s.append(", got ");
                push_signed(&mut s, *actual);
                s
            },
            VfioError::SetIommuType(e) => failure::io_message("failed to set IOMMU type: ", e),
            VfioError::OpenGroup { group_id, source } => {
                let mut s = "failed to open VFIO group ".to_owned();
                text::push_decimal(&mut s, *group_id as u64);
                s.append(": ");
                failure::io_message(s.as_str(), source)
            },
            VfioError::GroupNotViable { group_id } => {
                let mut s = "VFIO group ".to_owned();
                text::push_decimal(&mut s, *group_id as u64);
                s.append(" is not viable (not all devices bound to vfio-pci)");
                s
            },
            VfioError::AttachGroup(e) => failure::io_message(
                "failed to attach group to container: ",
                e,
            ),
            VfioError::GetDevice { device, source } => failure::io_message(
                around("failed to get device FD for ", device, ": ").as_str(),
                source,
            ),
            VfioError::RegionInfo { index, source } => {
                let mut s = "failed to query region ".to_owned();
                text::push_decimal(&mut s, *index as u64);
                s.append(" info: ");
                failure::io_message(s.as_str(), source)
            },
            VfioError::DmaMap { iova, source } => {
                let mut s = "failed to map DMA at IOVA 0x".to_owned();
                text::push_hex(&mut s, *iova);
                s.append(": ");
                failure::io_message(s.as_str(), source)
            },
            VfioError::DmaUnmap { iova, source } => {
                let mut s = "failed to unmap DMA at IOVA 0x".to_owned();
                text::push_hex(&mut s, *iova);
                s.append(": ");
                failure::io_message(s.as_str(), source)
            },
            VfioError::DeviceReset(e) => failure::io_message("failed to reset VFIO device: ", e),
            VfioError::ParseAddress { input } => around(
                "invalid PCI address '",
                input,
                "': expected format DDDD:BB:DD.F",
            ),
            VfioError::UnbindDevice { address, source } => failure::io_message(
                around("failed to unbind device ", address, ": ").as_str(),
                source,
            ),
            VfioError::BindVfioPci { address, source } => failure::io_message(
                around("failed to bind ", address, " to vfio-pci: ").as_str(),
                source,
            ),
            VfioError::RestoreDriver { address, source } => failure::io_message(
                around("failed to restore driver for ", address, ": ").as_str(),
                source,
            ),
            VfioError::ReadSysfs { address, source } => {
                let mut s = around("failed to read sysfs for ", address, ": ");
                assert(s@ + Seq::<char>::empty() =~= s@);
                match source {
                    SysfsFault::Io(e) => failure::io_message(s.as_str(), e),
                    SysfsFault::NoGroupName => {
                        s.append("invalid iommu_group symlink");
                        s
                    },
                    SysfsFault::NoGroupNumber(name) => {
                        let ghost head = s@;
                        s.append("non-numeric IOMMU group: ");
                        s.append(name.as_str());
                        assert(s@ =~= head + ("non-numeric IOMMU group: "@ + name@));
                        s
                    },
                }
            },
            VfioError::IrqSetup(e) => failure::io_message(
                "failed to set up IRQ for device: ",
                e,
            ),
        }
    }
}

/// A PCI address: domain, bus, device and function.
#[derive(Debug, Clone, Copy, PartialEq, Eq, Hash, Structural)]
pub struct VfioPciAddress {
    domain: u16,
    bus: u8,
    device: u8,
    function: u8,
}

/// What a PCI address is.
pub struct PciAddressView {
    pub domain: u16,
    pub bus: u8,
    pub device: u8,
    pub function: u8,
}

impl View for VfioPciAddress {
    type V = PciAddressView;

    closed spec fn view(&self) -> PciAddressView {
        PciAddressView {
            domain: self.domain,
            bus: self.bus,
            device: self.device,
            function: self.function,
        }
    }
}

/// The text of a PCI address: `DDDD:BB:DD.F` in hexadecimal.
pub open spec fn address_text(a: PciAddressView) -> Seq<char> {
    text::hex_padded(a.domain as nat, 4) + ":"@ + text::hex_padded(a.bus as nat, 2) + ":"@
        + text::hex_padded(a.device as nat, 2) + "."@ + text::hex(a.function as nat)
}

/// The PCI address that a text stands for: three parts between colons, the last
/// of two parts around a point, all of them numbers in hexadecimal. A device is
/// one of 32, a function one of 8.
pub open spec fn address_of(s: Seq<u8>) -> Option<PciAddressView> {
    let i = text::index_of(s, 0, 0x3a);
    let j = text::index_of(s, i + 1, 0x3a);
    let k = text::index_of(s, j + 1, 0x2e);
    if i >= s.len() || j >= s.len() || text::index_of(s, j + 1, 0x3a) < s.len() || k >= s.len()
        || text::index_of(s, k + 1, 0x2e) < s.len() {
        None
    } else {
        match (
            text::number(s.subrange(0, i), 16, 0xffff),
            text::number(s.subrange(i + 1, j), 16, 0xff),
            text::number(s.subrange(j + 1, k), 16, 0xff),
            text::number(s.subrange(k + 1, s.len() as int), 16, 0xff),
        ) {
            (Some(domain), Some(bus), Some(device), Some(function)) => if device > 31 || function
                > 7 {
                None
            } else {
                Some(
                    PciAddressView {
                        domain: domain as u16,
                        bus: bus as u8,
                        device: device as u8,
                        function: function as u8,
                    },
                )
            },
            _ => None,
        }
    }
}

/// The file that takes the address of a device that is to be bound to vfio-pci.
pub const VFIO_PCI_BIND_PATH: &'static str = "/sys/bus/pci/drivers/vfio-pci/bind";

/// The name of what a link leads to, if it has one that is a text.
pub open spec fn link_name(target: Seq<u8>) -> Option<Seq<u8>> {
    match path::file_name(target) {
        Some(n) => if vstd::utf8::valid_utf8(n) {
            Some(n)
        } else {
            None
        },
        None => None,
    }
}

impl VfioError {
    /// Whether this says of a device why an attribute could not be had.
    pub open spec fn not_read(self, a: PciAddressView, why: SysfsFault) -> bool {
        self matches VfioError::ReadSysfs { address, source } && address@ == address_text(a)
            && source == why
    }
}

impl VfioPciAddress {
    /// A PCI address.
    #[must_use]
    pub fn new(domain: u16, bus: u8, device: u8, function: u8) -> (r: Self)
        ensures
            r@ == (PciAddressView { domain, bus, device, function }),
    {
        VfioPciAddress { domain, bus, device, function }
    }

    /// The domain.
    #[must_use]
    pub fn domain(&self) -> (r: u16)
        ensures
            r == self@.domain,
    {
        self.domain
    }

    /// The bus.
    #[must_use]
    pub fn bus(&self) -> (r: u8)
        ensures
            r == self@.bus,
    {
        self.bus
    }

    /// The device.
    #[must_use]
    pub fn device(&self) -> (r: u8)
        ensures
            r == self@.device,
    {
        self.device
    }

    /// The function.
    #[must_use]
    pub fn function(&self) -> (r: u8)
        ensures
            r == self@.function,
    {
        self.function
    }

    /// The text of the address.
    #[must_use]
    pub fn text(&self) -> (r: String)
        ensures
            r@ == address_text(self@),
    {
        let mut s = "".to_owned();
        proof {
            reveal_strlit("");
        }
        text::push_hex_padded(&mut s, self.domain as u64, 4);
        assert(s@ =~= text::hex_padded(self.domain as nat, 4));
        s.append(":");
        text::push_hex_padded(&mut s, self.bus as u64, 2);
        s.append(":");
        text::push_hex_padded(&mut s, self.device as u64, 2);
        s.append(".");
        text::push_hex(&mut s, self.function as u64);
        s
    }

    /// The directory of the device's attributes.
    #[must_use]
    pub fn sysfs_path(&self) -> (r: String)
        ensures
            r@ == "/sys/bus/pci/devices/"@ + address_text(self@),
    {
        let mut s = "/sys/bus/pci/devices/".to_owned();
        s.append(self.text().as_str());
        s
    }

    /// The link to the device's IOMMU group.
    #[must_use]
    pub fn iommu_group_link(&self) -> (r: String)
        ensures
            r@ == "/sys/bus/pci/devices/"@ + address_text(self@) + "/iommu_group"@,
    {
        let mut s = self.sysfs_path();
        s.append("/iommu_group");
        s
    }

    /// The link to the device's driver.
    #[must_use]
    pub fn driver_link(&self) -> (r: String)
        ensures
            r@ == "/sys/bus/pci/devices/"@ + address_text(self@) + "/driver"@,
    {
        let mut s = self.sysfs_path();
        s.append("/driver");
        s
    }

    /// The file that takes the address of a device that its driver is to leave.
    #[must_use]
    pub fn unbind_path(&self) -> (r: String)
        ensures
            r@ == "/sys/bus/pci/devices/"@ + address_text(self@) + "/driver/unbind"@,
    {
        let mut s = self.sysfs_path();
        s.append("/driver/unbind");
        s
    }

    /// The device's IOMMU group, from where the link to it leads.
    pub fn find_iommu_group(addr: &Self, target: Result<Vec<u8>, IoError>) -> (r: Result<
        u32,
        VfioError,
    >)
        ensures
            match target {
                Err(e) => r is Err && r->Err_0.not_read(addr@, SysfsFault::Io(e)),
                Ok(t) => match link_name(t@) {
                    None => r is Err && r->Err_0.not_read(addr@, SysfsFault::NoGroupName),
                    Some(name) => match text::number(name, 10, 0xffff_ffff) {
                        Some(n) => r == Ok::<u32, VfioError>(n as u32),
                        None => r matches Err(VfioError::ReadSysfs { address, source })
                            && address@ == address_text(addr@) && (source matches
                            SysfsFault::NoGroupNumber(s) && vstd::utf8::encode_utf8(s@) == name),
                    },
                },
            },
    {
        let t = match target {
            Ok(t) => t,
            Err(e) => {
                return Err(
                    VfioError::ReadSysfs { address: addr.text(), source: SysfsFault::Io(e) },
                );
            },
        };
        let name = path::last_name(t.as_slice());
        let text = match &name {
            Some(n) => text::utf8_str(n.as_slice()),
            None => None,
        };
        match text {
            None => Err(
                VfioError::ReadSysfs { address: addr.text(), source: SysfsFault::NoGroupName },
            ),
            Some(s) => match text::parse_number(s.as_bytes(), 10, 0xffff_ffff) {
                Some(n) => Ok(n as u32),
                None => Err(
                    VfioError::ReadSysfs {
                        address: addr.text(),
                        source: SysfsFault::NoGroupNumber(s.to_owned()),
                    },
                ),
            },
        }
    }

    /// The name of the device's driver, from where the link to it leads. Without
    /// a link it has none.
    pub fn current_driver(addr: &Self, target: Result<Option<Vec<u8>>, IoError>) -> (r: Result<
        Option<String>,
        VfioError,
    >)
        ensures
            match target {
                Err(e) => r is Err && r->Err_0.not_read(addr@, SysfsFault::Io(e)),
                Ok(None) => r == Ok::<Option<String>, VfioError>(None),
                Ok(Some(t)) => r is Ok && r->Ok_0 is Some && match link_name(t@) {
                    Some(name) => vstd::utf8::encode_utf8(r->Ok_0->0@) == name,
                    None => r->Ok_0->0@ == "unknown"@,
                },
            },
    {
        let found = match target {
            Ok(t) => t,
            Err(e) => {
                return Err(
                    VfioError::ReadSysfs { address: addr.text(), source: SysfsFault::Io(e) },
                );
            },
        };
        let t = match found {
            Some(t) => t,
            None => {
                return Ok(None);
            },
        };
        let name = path::last_name(t.as_slice());
        let text = match &name {
            Some(n) => text::utf8_str(n.as_slice()),
            None => None,
        };
        match text {
            Some(s) => Ok(Some(s.to_owned())),
            None => Ok(Some("unknown".to_owned())),
        }
    }

    /// What came of writing the address to [`Self::unbind_path`].
    pub fn unbind_device(addr: &Self, written: Result<(), IoError>) -> (r: Result<(), VfioError>)
        ensures
            match written {
                Ok(_) => r == Ok::<(), VfioError>(()),
                Err(e) => r matches Err(VfioError::UnbindDevice { address, source }) && address@
                    == address_text(addr@) && source == e,
            },
    {
        match written {
            Ok(_) => Ok(()),
            Err(source) => Err(VfioError::UnbindDevice { address: addr.text(), source }),
        }
    }

    /// What came of writing the address to [`VFIO_PCI_BIND_PATH`].
    pub fn bind_to_vfio(addr: &Self, written: Result<(), IoError>) -> (r: Result<(), VfioError>)
        ensures
            match written {
                Ok(_) => r == Ok::<(), VfioError>(()),
                Err(e) => r matches Err(VfioError::BindVfioPci { address, source }) && address@
                    == address_text(addr@) && source == e,
            },
    {
        match written {
            Ok(_) => Ok(()),
            Err(source) => Err(VfioError::BindVfioPci { address: addr.text(), source }),
        }
    }

    /// Reads a PCI address.
    pub fn parse_address(s: &str) -> (r: Result<Self, VfioError>)
        ensures
            match address_of(vstd::utf8::encode_utf8(s@)) {
                Some(a) => r is Ok && r->Ok_0@ == a,
                None => r matches Err(VfioError::ParseAddress { input }) && input@ == s@,
            },
    {
        match parse_parts(s.as_bytes()) {
            Some(a) => Ok(a),
            None => Err(VfioError::ParseAddress { input: s.to_owned() }),
        }
    }
}

/// Reads the bytes of a PCI address.
fn parse_parts(b: &[u8]) -> (r: Option<VfioPciAddress>)
    ensures
        match address_of(b@) {
            Some(a) => r is Some && r->0@ == a,
            None => r is None,
        },
{
    let n: usize = b.len();
    let i = text::find_byte(b, 0, 0x3a);
    if i >= n {
        return None;
    }
    let j = text::find_byte(b, i + 1, 0x3a);
    if j >= n {
        return None;
    }
    if text::find_byte(b, j + 1, 0x3a) < n {
        return None;
    }
    let k = text::find_byte(b, j + 1, 0x2e);
    if k >= n {
        return None;
    }
    if text::find_byte(b, k + 1, 0x2e) < n {
        return None;
    }
    let domain = text::parse_number(vstd::slice::slice_subrange(b, 0, i), 16, 0xffff);
    let bus = text::parse_number(vstd::slice::slice_subrange(b, i + 1, j), 16, 0xff);
    let device = text::parse_number(vstd::slice::slice_subrange(b, j + 1, k), 16, 0xff);
    let function = text::parse_number(vstd::slice::slice_subrange(b, k + 1, n), 16, 0xff);
    match (domain, bus, device, function) {
        (Some(domain), Some(bus), Some(device), Some(function)) => {
            if device > 31 || function > 7 {
                None
            } else {
                Some(
                    VfioPciAddress::new(domain as u16, bus as u8, device as u8, function as u8),
                )
            }
        },
        _ => None,
    }
}

impl FromStr for VfioPciAddress {
    type Err = VfioError;

    fn from_str(s: &str) -> (r: Result<Self, VfioError>)
        ensures
            match address_of(vstd::utf8::encode_utf8(s@)) {
                Some(a) => r is Ok && r->Ok_0@ == a,
                None => r matches Err(VfioError::ParseAddress { input }) && input@ == s@,
            },
    {
        VfioPciAddress::parse_address(s)
    }
}

/// What a region of a device is like.
#[derive(Debug, Clone, Copy, PartialEq, Eq, Structural)]
#[non_exhaustive]
pub struct VfioRegionInfo {
    /// Region index (0 to 5 for BARs).
    pub index: u32,
    /// Size in bytes.
    pub size: u64,
    /// Offset in the device file.
    pub offset: u64,
    /// Flags.
    pub flags: u32,
}

impl VfioRegionInfo {
    /// A region.
    #[must_use]
    pub fn new(index: u32, size: u64, offset: u64, flags: u32) -> (r: Self)
        ensures
            r == (VfioRegionInfo { index, size, offset, flags }),
    {
        VfioRegionInfo { index, size, offset, flags }
    }

    /// Tells whether the region can be read.
    #[must_use]
    pub fn is_readable(&self) -> (r: bool)
        ensures
            r == (self.flags & 1 != 0),
    {
        self.flags & 1 != 0
    }

    /// Tells whether the region can be written.
    #[must_use]
    pub fn is_writable(&self) -> (r: bool)
        ensures
            r == (self.flags & 2 != 0),
    {
        self.flags & 2 != 0
    }

    /// Tells whether the region can be mapped.
    #[must_use]
    pub fn is_mmapable(&self) -> (r: bool)
        ensures
            r == (self.flags & 4 != 0),
    {
        self.flags & 4 != 0
    }

    /// The request for the region with an index: the size of the request, no
    /// flags, the index, and room for the reply.
    pub fn request(index: u32) -> (r: Vec<u8>)
        ensures
            r@ == bytes::le32_bytes(ARGSZ_REGION_INFO) + bytes::le32_bytes(0) + bytes::le32_bytes(
                index,
            ) + bytes::le32_bytes(0) + bytes::le64_bytes(0) + bytes::le64_bytes(0),
    {
        let mut r = bytes::le32_vec(ARGSZ_REGION_INFO);
        push_le32(&mut r, 0);
        push_le32(&mut r, index);
        push_le32(&mut r, 0);
        push_le64(&mut r, 0);
        push_le64(&mut r, 0);
        r
    }

    /// The region that a reply describes.
    pub fn from_reply(reply: &[u8]) -> (r: Option<Self>)
        ensures
            r == if reply@.len() < 32 {
                None
            } else {
                Some(
                    VfioRegionInfo {
                        flags: bytes::le32(reply@, 4),
                        index: bytes::le32(reply@, 8),
                        size: bytes::le64(reply@, 16),
                        offset: bytes::le64(reply@, 24),
                    },
                )
            },
    {
        if reply.len() < 32 {
            return None;
        }
        Some(
            VfioRegionInfo {
                flags: get_le32(reply, 4),
                index: get_le32(reply, 8),
                size: get_le64(reply, 16),
                offset: get_le64(reply, 24),
            },
        )
    }
}

/// A request to map memory for the DMA of a device.
#[derive(Debug, Clone, Copy, PartialEq, Eq, Structural)]
#[non_exhaustive]
pub struct VfioDmaMap {
    /// Address as the device sees it.
    pub iova: u64,
    /// Size in bytes.
    pub size: u64,
    /// Host virtual address.
    pub user_addr: u64,
    /// Flags.
    pub flags: u32,
}

impl VfioDmaMap {
    /// A request for memory that the device may read and write.
    #[must_use]
    pub fn new_rw(iova: u64, size: u64, user_addr: u64) -> (r: Self)
        ensures
            r == (VfioDmaMap { iova, size, user_addr, flags: 3 }),
    {
        assert(1u32 | 2u32 == 3u32) by (bit_vector);
        VfioDmaMap {
            iova,
            size,
            user_addr,
            flags: VFIO_DMA_MAP_FLAG_READ | VFIO_DMA_MAP_FLAG_WRITE,
        }
    }

    /// The bytes of the request.
    pub fn request(&self) -> (r: Vec<u8>)
        ensures
            r@ == bytes::le32_bytes(ARGSZ_DMA_MAP) + bytes::le32_bytes(self.flags)
                + bytes::le64_bytes(self.user_addr) + bytes::le64_bytes(self.iova)
                + bytes::le64_bytes(self.size),
    {
        let mut r = bytes::le32_vec(ARGSZ_DMA_MAP);
        push_le32(&mut r, self.flags);
        push_le64(&mut r, self.user_addr);
        push_le64(&mut r, self.iova);
        push_le64(&mut r, self.size);
        r
    }
}

/// The bytes of a request to unmap memory.
pub fn unmap_request(iova: u64, size: u64) -> (r: Vec<u8>)
    ensures
        r@ == bytes::le32_bytes(ARGSZ_DMA_UNMAP) + bytes::le32_bytes(0) + bytes::le64_bytes(iova)
            + bytes::le64_bytes(size),
{
    let mut r = bytes::le32_vec(ARGSZ_DMA_UNMAP);
    push_le32(&mut r, 0);
    push_le64(&mut r, iova);
    push_le64(&mut r, size);
    r
}

/// Checks the API version of the kernel.
pub fn check_api_version(actual: i32) -> (r: Result<(), VfioError>)
    ensures
        r == if actual == VFIO_API_VERSION {
            Ok::<(), VfioError>(())
        } else {
            Err(VfioError::ApiVersion { expected: VFIO_API_VERSION, actual })
        },
{
    if actual == VFIO_API_VERSION {
        Ok(())
    } else {
        Err(VfioError::ApiVersion { expected: VFIO_API_VERSION, actual })
    }
}

/// Checks the status of a group: all its devices must be bound to VFIO.
pub fn check_viable(group_id: u32, flags: u32) -> (r: Result<(), VfioError>)
    ensures
        r == if flags & VFIO_GROUP_FLAGS_VIABLE != 0 {
            Ok::<(), VfioError>(())
        } else {
            Err(VfioError::GroupNotViable { group_id })
        },
{
    if flags & VFIO_GROUP_FLAGS_VIABLE != 0 {
        Ok(())
    } else {
        Err(VfioError::GroupNotViable { group_id })
    }
}

/// Why interrupts cannot be set up.
#[derive(Debug, Clone, Copy, PartialEq, Eq, Structural)]
pub enum IrqFault {
    /// There are too many event files.
    TooManyEventfds,
    /// The request would be too large.
    BufferTooLarge,
}

impl IrqFault {
    /// The text that describes what is wrong.
    pub fn text(&self) -> (r: &'static str)
        ensures
            r@ == match *self {
                IrqFault::TooManyEventfds => "too many eventfds"@,
                IrqFault::BufferTooLarge => "IRQ set buffer too large"@,
            },
    {
        match self {
            IrqFault::TooManyEventfds => "too many eventfds",
            IrqFault::BufferTooLarge => "IRQ set buffer too large",
        }
    }
}

/// A file descriptor as 32 bits.
pub open spec fn fd_bits(fd: i32) -> u32 {
    if fd < 0 {
        (fd + 0x1_0000_0000) as u32
    } else {
        fd as u32
    }
}

/// The bytes of event files, four for each.
pub open spec fn eventfd_bytes(fds: Seq<i32>) -> Seq<u8>
    decreases fds.len(),
{
    if fds.len() == 0 {
        Seq::empty()
    } else {
        eventfd_bytes(fds.drop_last()) + bytes::le32_bytes(fd_bits(fds.last()))
    }
}

/// The request that lets each MSI-X interrupt signal an event file: the header
/// with the size of the request, the flags, the index of MSI-X, the first
/// interrupt and the number of them, and then the event files.
pub open spec fn msix_request(fds: Seq<i32>) -> Result<Seq<u8>, IrqFault> {
    if fds.len() > u32::MAX {
        Err(IrqFault::TooManyEventfds)
    } else if 20 + 4 * fds.len() > u32::MAX {
        Err(IrqFault::BufferTooLarge)
    } else {
        Ok(
            bytes::le32_bytes((20 + 4 * fds.len()) as u32) + bytes::le32_bytes(0x1c)
                + bytes::le32_bytes(VFIO_PCI_MSIX_IRQ_INDEX) + bytes::le32_bytes(0)
                + bytes::le32_bytes(fds.len() as u32) + eventfd_bytes(fds),
        )
    }
}

/// Makes the request that lets each MSI-X interrupt signal an event file.
pub fn msix_irq_set(eventfds: &[i32]) -> (r: Result<Vec<u8>, IrqFault>)
    ensures
        match msix_request(eventfds@) {
            Ok(b) => r is Ok && r->Ok_0@ == b,
            Err(e) => r == Err::<Vec<u8>, IrqFault>(e),
        },
{
    let n: u64 = eventfds.len() as u64;
    if n > 0xffff_ffff {
        return Err(IrqFault::TooManyEventfds);
    }
    let total: u64 = IRQ_SET_HEADER_SIZE as u64 + 4 * n;
    if total > 0xffff_ffff {
        return Err(IrqFault::BufferTooLarge);
    }
    assert(0x04u32 | 0x18u32 == 0x1cu32) by (bit_vector);
    let mut r = bytes::le32_vec(total as u32);
    push_le32(&mut r, VFIO_IRQ_SET_DATA_EVENTFD | VFIO_IRQ_SET_ACTION_TRIGGER);
    push_le32(&mut r, VFIO_PCI_MSIX_IRQ_INDEX);
    push_le32(&mut r, 0);
    push_le32(&mut r, n as u32);
    let ghost head = r@;
    let mut i: usize = 0;
    assert(eventfds@.take(0) =~= Seq::<i32>::empty());
    assert(head + eventfd_bytes(eventfds@.take(0)) =~= head);
    while i < eventfds.len()
        invariant
            i <= eventfds@.len(),
            r@ == head + eventfd_bytes(eventfds@.take(i as int)),
        decreases eventfds@.len() - i,
    {
        let fd: i32 = eventfds[i];
        let bits: u32 = if fd < 0 {
            (fd as i64 + 0x1_0000_0000) as u32
        } else {
            fd as u32
        };
        push_le32(&mut r, bits);
        let ghost more = eventfds@.take(i + 1);
        assert(more.drop_last() =~= eventfds@.take(i as int) && more.last() == fd);
        assert(r@ =~= head + eventfd_bytes(more));
        i = i + 1;
    }
    assert(eventfds@.take(i as int) =~= eventfds@);
    Ok(r)
}

/// The code of a digit.
pub open spec fn digit_code(d: nat) -> u8 {
    text::digit(d) as u8
}

proof fn lemma_digit_code(d: nat)
    requires
        d < 16,
    ensures
        text::digit_value(digit_code(d)) == d,
        digit_code(d) != 0x3a,
        digit_code(d) != 0x2e,
        digit_code(d) != 0x2b,
        text::digit(d) as u32 <= 0x7f,
{
}

/// A number of two digits.
proof fn lemma_two_digits(n: nat)
    requires
        n <= 0xff,
    ensures
        text::hex_padded(n, 2) == seq![text::digit(n / 16 % 16), text::digit(n % 16)],
        text::number(seq![digit_code(n / 16 % 16), digit_code(n % 16)], 16, 0xff) == Some(n),
{
    let s = seq![digit_code(n / 16 % 16), digit_code(n % 16)];
    reveal_with_fuel(text::hex_padded, 3);
    assert(text::hex_padded(n, 2) =~= seq![text::digit(n / 16 % 16), text::digit(n % 16)]);
    lemma_digit_code(n / 16 % 16);
    lemma_digit_code(n % 16);
    reveal_with_fuel(text::number_from, 3);
    assert(s.skip(1) =~= seq![digit_code(n % 16)]);
    assert(s.skip(1).skip(1) =~= Seq::<u8>::empty());
    assert(n == (n / 16 % 16) * 16 + n % 16);
}

/// A number of four digits.
proof fn lemma_four_digits(n: nat)
    requires
        n <= 0xffff,
    ensures
        ({
            let d0 = n / 16 / 16 / 16 % 16;
            let d1 = n / 16 / 16 % 16;
            let d2 = n / 16 % 16;
            let d3 = n % 16;
            &&& text::hex_padded(n, 4) == seq![
                text::digit(d0),
                text::digit(d1),
                text::digit(d2),
                text::digit(d3),
            ]
            &&& text::number(
                seq![digit_code(d0), digit_code(d1), digit_code(d2), digit_code(d3)],
                16,
                0xffff,
            ) == Some(n)
        }),
{
    let d0 = n / 16 / 16 / 16 % 16;
    let d1 = n / 16 / 16 % 16;
    let d2 = n / 16 % 16;
    let d3 = n % 16;
    let s = seq![digit_code(d0), digit_code(d1), digit_code(d2), digit_code(d3)];
    reveal_with_fuel(text::hex_padded, 5);
    assert(text::hex_padded(n, 4) =~= seq![
        text::digit(d0),
        text::digit(d1),
        text::digit(d2),
        text::digit(d3),
    ]);
    lemma_digit_code(d0);
    lemma_digit_code(d1);
    lemma_digit_code(d2);
    lemma_digit_code(d3);
    let s1 = s.skip(1);
    let s2 = s1.skip(1);
    let s3 = s2.skip(1);
    assert(s1[0] == s[1] && s2[0] == s[2] && s3[0] == s[3]);
    assert(s3.skip(1) =~= Seq::<u8>::empty());
    let a = n / 16;
    let b = a / 16;
    let c = b / 16;
    assert(n == 16 * a + d3 && a == 16 * b + d2 && b == 16 * c + d1 && c == d0);
    assert(text::number_from(n, s3.skip(1), 16, 0xffff) == Some(n));
    assert(text::number_from(a, s3, 16, 0xffff) == Some(n));
    assert(text::number_from(b, s2, 16, 0xffff) == Some(n));
    assert(text::number_from(c, s1, 16, 0xffff) == Some(n));
    assert(text::number_from(0, s, 16, 0xffff) == Some(n));
}

/// The bytes of the text of a PCI address.
pub open spec fn address_bytes(a: PciAddressView) -> Seq<u8> {
    let n = a.domain as nat;
    seq![
        digit_code(n / 16 / 16 / 16 % 16),
        digit_code(n / 16 / 16 % 16),
        digit_code(n / 16 % 16),
        digit_code(n % 16),
        0x3au8,
        digit_code(a.bus as nat / 16 % 16),
        digit_code(a.bus as nat % 16),
        0x3au8,
        digit_code(a.device as nat / 16 % 16),
        digit_code(a.device as nat % 16),
        0x2eu8,
        digit_code(a.function as nat),
    ]
}

proof fn lemma_address_bytes(a: PciAddressView)
    requires
        a.function <= 7,
    ensures
        vstd::utf8::encode_utf8(address_text(a)) == address_bytes(a),
{
    let t = address_text(a);
    let n = a.domain as nat;
    lemma_four_digits(n);
    lemma_two_digits(a.bus as nat);
    lemma_two_digits(a.device as nat);
    reveal_strlit(":");
    reveal_strlit(".");
    let b = address_bytes(a);
    let c = seq![
        text::digit(n / 16 / 16 / 16 % 16),
        text::digit(n / 16 / 16 % 16),
        text::digit(n / 16 % 16),
        text::digit(n % 16),
        ':',
        text::digit(a.bus as nat / 16 % 16),
        text::digit(a.bus as nat % 16),
        ':',
        text::digit(a.device as nat / 16 % 16),
        text::digit(a.device as nat % 16),
        '.',
        text::digit(a.function as nat),
    ];
    assert(t =~= c);
    lemma_ascii_digits();
    assert(vstd::utf8::is_ascii_chars(t));
    vstd::utf8::is_ascii_chars_encode_utf8(t);
    assert(vstd::utf8::encode_utf8(t) =~= b);
}

proof fn lemma_ascii_digits()
    ensures
        forall|d: nat| (#[trigger] text::digit(d)) as u32 <= 0x7f,
{
}

/// Where the separators stand in the text of a PCI address.
proof fn lemma_separators(a: PciAddressView)
    requires
        a.device <= 31,
        a.function <= 7,
    ensures
        ({
            let b = address_bytes(a);
            &&& text::index_of(b, 0, 0x3a) == 4
            &&& text::index_of(b, 5, 0x3a) == 7
            &&& text::index_of(b, 8, 0x3a) == 12
            &&& text::index_of(b, 8, 0x2e) == 10
            &&& text::index_of(b, 11, 0x2e) == 12
        }),
{
    let b = address_bytes(a);
    let n = a.domain as nat;
    lemma_digit_code(n / 16 / 16 / 16 % 16);
    lemma_digit_code(n / 16 / 16 % 16);
    lemma_digit_code(n / 16 % 16);
    lemma_digit_code(n % 16);
    lemma_digit_code(a.bus as nat / 16 % 16);
    lemma_digit_code(a.bus as nat % 16);
    lemma_digit_code(a.device as nat / 16 % 16);
    lemma_digit_code(a.device as nat % 16);
    lemma_digit_code(a.function as nat);
    text::lemma_index_of(b, 0, 4, 0x3a);
    text::lemma_index_of(b, 5, 7, 0x3a);
    text::lemma_index_of(b, 8, 12, 0x3a);
    text::lemma_index_of(b, 8, 10, 0x2e);
    text::lemma_index_of(b, 11, 12, 0x2e);
}

/// The text of a PCI address stands for that address.
pub proof fn law_address_round_trip(a: PciAddressView)
    requires
        a.device <= 31,
        a.function <= 7,
    ensures
        address_of(vstd::utf8::encode_utf8(address_text(a))) == Some(a),
{
    let b = address_bytes(a);
    lemma_address_bytes(a);
    lemma_separators(a);
    let n = a.domain as nat;
    lemma_four_digits(n);
    lemma_two_digits(a.bus as nat);
    lemma_two_digits(a.device as nat);
    assert(b.subrange(0, 4) =~= seq![
        digit_code(n / 16 / 16 / 16 % 16),
        digit_code(n / 16 / 16 % 16),
        digit_code(n / 16 % 16),
        digit_code(n % 16),
    ]);
    assert(b.subrange(5, 7) =~= seq![
        digit_code(a.bus as nat / 16 % 16),
        digit_code(a.bus as nat % 16),
    ]);
    assert(b.subrange(8, 10) =~= seq![
        digit_code(a.device as nat / 16 % 16),
        digit_code(a.device as nat % 16),
    ]);
    let f = b.subrange(11, 12);
    assert(f =~= seq![digit_code(a.function as nat)]);
    lemma_digit_code(a.function as nat);
    reveal_with_fuel(text::number_from, 2);
    assert(f.skip(1) =~= Seq::<u8>::empty());
    assert(text::number(f, 16, 0xff) == Some(a.function as nat));
}

/// What stands for a PCI address has a device below 32 and a function below 8.
pub proof fn law_addresses_are_valid(s: Seq<u8>)
    ensures
        address_of(s) matches Some(a) ==> a.device <= 31 && a.function <= 7,
{
}

} // verus!
