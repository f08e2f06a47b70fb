//! What the host makes of exits of the guest, of frames, of disks, of links and of
//! sockets.

use crate::acpi;
use crate::bytes;
use crate::comms::muxer;
use crate::cpu_template::{self, CpuIdFilter};
use crate::devices;
use crate::devices::block;
use crate::devices::net;
use crate::devices::pl011;
use crate::devices::serial;
use crate::devices::uart::UartView;
use crate::devices::vfio;
use crate::devices::vsock::{self, ConnMapKey, Entry};
use crate::devices::vsock_conn::ConnState;
use crate::devices::vsock_muxer::{self, GuestAnswer, StreamWrite};
use crate::laws::names;
use crate::path;
use crate::text;
use crate::transport::DeviceType;
use crate::vm::{ExitAction, VmExit};
use std::io::Error as IoError;
use vstd::prelude::*;

verus! {

/// A guest stops when it shuts down or reboots, also by the keyboard controller's
/// reset, by the reset register of PCI or by the fast reset, and goes on after
/// every other exit.
pub proof fn law_exits(exit: VmExit)
    ensures
        devices::action_after(exit) == ExitAction::Stop <==> exit is Shutdown || exit is Reboot || (
        exit matches VmExit::IoOut { port, data } && data@.len() > 0 && ((port == 0x64 && data@[0]
            == 0xfe) || (port == 0xcf9 && data@[0] / 4 % 2 == 1) || (port == 0x92 && data@[0] % 2
            == 1))),
        devices::action_after(exit) != ExitAction::Stop ==> devices::action_after(exit)
            == ExitAction::Continue,
{
    match exit {
        VmExit::IoOut { port, data } => {
            if data@.len() > 0 {
                let b = data@[0];
                assert((b & 4 != 0 <==> b / 4 % 2 == 1) && (b & 1 != 0 <==> b % 2 == 1)) by (
                bit_vector);
            }
        },
        _ => {},
    }
}

/// Accesses of one byte reach the registers of the console, and others leave it.
pub proof fn law_console_accesses(v: UartView, offset: u64, data: Seq<u8>)
    ensures
        data.len() == 1 && offset < 8 ==> serial::bus_read(v, offset, data) == (
            v.after_read(offset as u8).0,
            seq![v.after_read(offset as u8).1],
        ),
        data.len() == 1 && offset < 8 ==> serial::bus_write(v, offset, data) == v.after_write(
            offset as u8,
            data[0],
        ),
        data.len() != 1 ==> serial::bus_read(v, offset, data) == (v, data) && serial::bus_write(
            v,
            offset,
            data,
        ) == v,
{
}

/// An access of four bytes to a PL011 reads and writes a whole register, and a
/// shorter write the register with zeros for the missing bytes.
pub proof fn law_pl011_accesses(data: Seq<u8>, value: u32)
    ensures
        data.len() == 4 ==> pl011::padded(data) == bytes::le32(data, 0),
        data.len() == 1 ==> pl011::padded(data) == data[0],
        data.len() == 2 ==> pl011::padded(data) == data[0] + 256 * data[1],
        data.len() == 4 ==> bytes::le32(pl011::overlaid(data, value), 0) == value,
        data.len() == 1 ==> pl011::overlaid(data, value)[0] == value % 256,
        pl011::overlaid(data, value).len() == data.len(),
{
    bytes::law_le32_round_trip(value);
    if data.len() == 4 {
        assert(pl011::overlaid(data, value) =~= bytes::le32_bytes(value));
    }
    lemma_low_byte(value);
}

proof fn lemma_low_byte(value: u32)
    ensures
        bytes::le32_bytes(value).len() == 4,
        bytes::le32_bytes(value)[0] == value % 256,
{
    let b = bytes::le32_bytes(value);
    bytes::law_le32_round_trip(value);
    assert(value == b[0] + 256 * b[1] + 0x1_0000 * b[2] + 0x100_0000 * b[3]);
}

/// A frame is what a backend stored, and none if it stored nothing or failed.
pub proof fn law_frames_of_backend(r: Result<usize, IoError>, buf: Seq<u8>)
    ensures
        net::frame_of(r, buf) is Some <==> r is Ok && 0 < r->Ok_0 <= buf.len(),
        net::frame_of(r, buf) matches Some(f) ==> f == buf.take(r->Ok_0 as int),
{
    if r is Ok && 0 < r->Ok_0 <= buf.len() {
        assert(buf.subrange(0, r->Ok_0 as int) =~= buf.take(r->Ok_0 as int));
    }
}

/// A disk is named by the numbers of its device and of its file, in 20 bytes.
pub proof fn law_disk_name(dev: u64, rdev: u64, ino: u64, i: int)
    requires
        0 <= i < 20,
    ensures
        ({
            let t = text::decimal(dev as nat) + text::decimal(rdev as nat) + text::decimal(
                ino as nat,
            );
            let id = block::id_bytes(Some((dev, rdev, ino)));
            &&& id.len() == 20
            &&& i < t.len() ==> id[i] == t[i] as u8
            &&& i >= t.len() ==> id[i] == 0
            &&& block::id_bytes(None)[i] == 0
        }),
{
}

/// A link is called by the last part of what it points to.
pub proof fn law_link_name(dir: Seq<u8>, name: Seq<u8>)
    requires
        names::is_name(name),
    ensures
        vfio::link_name(dir.push(0x2f) + name) == if vstd::utf8::valid_utf8(name) {
            Some(name)
        } else {
            None
        },
{
    names::law_file_name(dir, name);
}

/// The bytes of a text of ASCII characters.
pub open spec fn ascii(s: Seq<char>) -> Seq<u8> {
    Seq::new(s.len(), |i: int| s[i] as u8)
}

proof fn lemma_relative(base: Seq<u8>, name: Seq<u8>)
    requires
        base.len() > 0,
        base.last() != 0x2f,
        name.len() > 0,
        name[0] != 0x2f,
    ensures
        path::joined(base, name) == base + seq![0x2fu8] + name,
{
    assert(path::joined(base, name) =~= base + seq![0x2fu8] + name);
}

/// The socket for a port of a guest is a file of the port's number in a directory of
/// the guest's.
pub proof fn law_socket_of_port(dir: Seq<u8>, cid: u32, port: u32)
    requires
        dir.len() > 0,
        dir.last() != 0x2f,
    ensures
        muxer::port_path(dir, cid, port) == dir + seq![0x2fu8] + ascii(text::decimal(cid as nat))
            + seq![0x2fu8] + ascii(text::decimal(port as nat) + ".sock"@),
{
    let c = ascii(text::decimal(cid as nat));
    let p = ascii(text::decimal(port as nat) + ".sock"@);
    text::lemma_decimal(cid as nat);
    text::lemma_decimal(port as nat);
    let dc = text::decimal(cid as nat);
    let dp = text::decimal(port as nat);
    assert(0x30 <= dc[0] as u8 <= 0x39 && 0x30 <= dc[dc.len() - 1] as u8 <= 0x39 && 0x30 <= dp[0] as u8
        <= 0x39);
    assert(text::char_bytes(dc) =~= c);
    assert(vsock_muxer::sock_name(port as nat) =~= p);
    assert(p[0] == dp[0] as u8);
    lemma_relative(dir, c);
    let base = dir + seq![0x2fu8] + c;
    assert(base.last() == c[c.len() - 1]);
    lemma_relative(base, p);
}

/// A host process that was connected is told the local port.
pub proof fn law_connected_reply(port: nat)
    ensures
        vsock_muxer::ok_reply(port) == seq![0x4fu8, 0x4b, 0x20] + ascii(text::decimal(port)) + seq![
            0x0au8,
        ],
{
    reveal_strlit("OK ");
    reveal_strlit("\n");
    assert("OK "@ =~= seq!['O', 'K', ' ']);
    assert("\n"@ =~= seq!['\n']);
    assert(vsock_muxer::ok_reply(port) =~= seq![0x4fu8, 0x4b, 0x20] + ascii(text::decimal(port))
        + seq![0x0au8]);
}

/// A connection that a host process waits for is accepted once it stands, refused if
/// it is gone or killed, and else still open.
pub proof fn law_answer_for_process(conns: Seq<Entry>, i: int)
    requires
        vsock::keys_distinct(conns),
        0 <= i < conns.len(),
    ensures
        vsock_muxer::answer_for(conns, conns[i].0) == if conns[i].1.state == ConnState::Established {
            GuestAnswer::Established
        } else if conns[i].1.state == ConnState::Killed {
            GuestAnswer::Rejected
        } else {
            GuestAnswer::Pending
        },
{
    let key = conns[i].0;
    vsock::lemma_find(conns, key, 0);
    let k = vsock::find_from(conns, key, 0);
    if k < i {
        assert(conns[k].0 != conns[i].0);
    } else if i < k {
        assert(conns[i].0 != key);
    }
}

/// A connection that is gone is refused.
pub proof fn law_answer_without_connection(conns: Seq<Entry>, key: ConnMapKey)
    requires
        forall|i: int| 0 <= i < conns.len() ==> (#[trigger] conns[i]).0 != key,
    ensures
        vsock_muxer::answer_for(conns, key) == GuestAnswer::Rejected,
{
    vsock::lemma_find(conns, key, 0);
}

/// Every stream that cannot be written to is given up, with those given up before,
/// and no other.
pub proof fn law_failed_streams_are_given_up(
    dead: Seq<ConnMapKey>,
    tx: Seq<(ConnMapKey, Vec<u8>)>,
    writes: Seq<StreamWrite>,
    n: int,
    key: ConnMapKey,
)
    requires
        0 <= n <= writes.len(),
        writes.len() == tx.len(),
    ensures
        vsock_muxer::with_failed(dead, tx, writes, n).contains(key) <==> dead.contains(key) || exists|
            i: int,
        |
            0 <= i < n && #[trigger] writes[i] == StreamWrite::Failed && tx[i].0 == key,
    decreases n,
{
    if n > 0 {
        law_failed_streams_are_given_up(dead, tx, writes, n - 1, key);
        let rest = vsock_muxer::with_failed(dead, tx, writes, n - 1);
        let all = vsock_muxer::with_failed(dead, tx, writes, n);
        if writes[n - 1] == StreamWrite::Failed {
            let k = tx[n - 1].0;
            if !rest.contains(k) {
                assert(all == rest.push(k));
                assert(all[rest.len() as int] == k);
                if rest.contains(key) {
                    let j = choose|j: int| 0 <= j < rest.len() && rest[j] == key;
                    assert(all[j] == key);
                }
                if all.contains(key) && key != k {
                    let j = choose|j: int| 0 <= j < all.len() && all[j] == key;
                    assert(rest[j] == key);
                }
            }
        }
    }
}

/// The numbers that the virtio standard gives to devices.
pub proof fn law_device_numbers()
    ensures
        DeviceType::Net.spec_id() == 1,
        DeviceType::Block.spec_id() == 2,
        DeviceType::Rng.spec_id() == 4,
        DeviceType::Balloon.spec_id() == 5,
        DeviceType::Vsock.spec_id() == 19,
        DeviceType::Fs.spec_id() == 26,
{
}

/// Devices stand in the scope of the system bus, behind its name.
pub proof fn law_devices_in_scope(children: Seq<u8>)
    requires
        children.len() > 0,
    ensures
        ({
            let b = acpi::in_scope(children);
            let n = b.len() - children.len();
            &&& n >= 6
            &&& b[0] == 0x10
            &&& b.subrange(n - 4, n) == seq![0x5fu8, 0x53, 0x42, 0x5f]
            &&& b.skip(n) == children
        }),
{
    let b = acpi::in_scope(children);
    let n = b.len() - children.len();
    assert(b.subrange(n - 4, n) =~= seq![0x5fu8, 0x53, 0x42, 0x5f]);
    assert(b.skip(n) =~= children);
}

/// The filters that the built-in templates are made of hide bits of one register.
pub proof fn law_built_in_filters(leaf: u32, mask: u32)
    ensures
        cpu_template::leaf_one_filter() == (CpuIdFilter {
            leaf: 1,
            subleaf: 0,
            eax_mask: 0xffff_ffff,
            ebx_mask: 0xffff_ffff,
            ecx_mask: 0x7eff_ffff,
            edx_mask: 0xffff_ffff,
        }),
        cpu_template::ebx_filter(leaf, mask) == (CpuIdFilter {
            leaf,
            subleaf: 0,
            eax_mask: 0xffff_ffff,
            ebx_mask: mask,
            ecx_mask: 0xffff_ffff,
            edx_mask: 0xffff_ffff,
        }),
        cpu_template::ecx_filter(leaf, mask) == (CpuIdFilter {
            leaf,
            subleaf: 0,
            eax_mask: 0xffff_ffff,
            ebx_mask: 0xffff_ffff,
            ecx_mask: mask,
            edx_mask: 0xffff_ffff,
        }),
{
}

} // verus!
