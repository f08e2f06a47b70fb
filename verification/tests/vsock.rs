use std::io::Error;

use visor_vmm::devices::vsock::{
    ConnMapKey, VsockConnection, VsockDevice, VsockError, VsockOp, VsockPacket, HOST_CID, RXQ, TXQ,
    VIRTIO_F_VERSION_1, VSOCK_PKT_HDR_SIZE,
};
use visor_vmm::devices::vsock_conn::{
    ConnState, TxBuf, CONN_REQUEST_TIMEOUT_MS, CONN_SHUTDOWN_TIMEOUT_MS, CONN_TX_BUF_SIZE,
    VSOCK_FLAGS_SHUTDOWN_RCV, VSOCK_FLAGS_SHUTDOWN_SEND,
};
use visor_vmm::memory::GuestMemory;
use visor_vmm::transport::{DeviceType, VIRTQ_DESC_F_NEXT, VIRTQ_DESC_F_WRITE};

const CID: u64 = 3;

fn guest_packet(op: VsockOp, len: u32) -> VsockPacket {
    VsockPacket {
        src_cid: CID,
        dst_cid: HOST_CID,
        src_port: 1000,
        dst_port: 52,
        len,
        pkt_type: 1,
        op: op.code(),
        flags: 0,
        buf_alloc: 4096,
        fwd_cnt: 0,
    }
}

fn shutdown(flags: u32) -> VsockPacket {
    VsockPacket {
        flags,
        ..guest_packet(VsockOp::Shutdown, 0)
    }
}

/// A connection that the guest asked for and the host accepted.
fn established() -> VsockConnection {
    let mut c = VsockConnection::new_peer_init(HOST_CID, CID, 52, 1000, 4096);
    let (pkt, _) = c.recv_pkt(4096, 0).unwrap();
    assert_eq!(pkt.op, VsockOp::Response.code());
    assert_eq!(c.state(), ConnState::Established);
    c
}

// Packets

#[test]
fn packet_round_trip() {
    let pkt = VsockPacket {
        src_cid: 0x1122_3344_5566_7788,
        dst_cid: 2,
        src_port: 7,
        dst_port: 8,
        len: 9,
        pkt_type: 1,
        op: 5,
        flags: 3,
        buf_alloc: 10,
        fwd_cnt: 11,
    };
    let bytes = pkt.to_bytes();
    assert_eq!(bytes.len(), VSOCK_PKT_HDR_SIZE);
    assert_eq!(&bytes[24..28], &9u32.to_le_bytes());
    assert_eq!(VsockPacket::from_bytes(&bytes), Some(pkt));
    assert_eq!(VsockPacket::from_bytes(&bytes[..43]), None);
}

#[test]
fn operation_codes() {
    for v in 1..=7 {
        assert_eq!(VsockOp::from_u16(v).unwrap().code(), v);
    }
    assert!(VsockOp::from_u16(0).is_none());
    assert!(VsockOp::from_u16(8).is_none());
}

// Connections

#[test]
fn host_request_is_answered_by_the_guest() {
    let mut c = VsockConnection::new_local_init(HOST_CID, CID, 52, 1000);
    let (pkt, payload) = c.recv_pkt(4096, 100).unwrap();
    assert_eq!(pkt.op, VsockOp::Request.code());
    assert!(payload.is_empty());
    assert!(!c.has_expired(100 + CONN_REQUEST_TIMEOUT_MS - 1));
    assert!(c.has_expired(100 + CONN_REQUEST_TIMEOUT_MS));
    c.send_pkt(&guest_packet(VsockOp::Response, 0), &[], 200).unwrap();
    assert_eq!(c.state(), ConnState::Established);
    assert!(!c.has_expired(u64::MAX));
}

#[test]
fn delivery_keeps_order_and_credit() {
    let mut c = established();
    let data: Vec<u8> = (0..6000u32).map(|i| (i % 251) as u8).collect();
    c.push_host_data(&data);
    let update = |fwd_cnt: u32| VsockPacket {
        fwd_cnt,
        ..guest_packet(VsockOp::CreditUpdate, 0)
    };
    let (_, first) = c.recv_pkt(3000, 0).unwrap();
    assert_eq!(first.len(), 3000);
    // The rest is taken up again when the guest is heard of.
    c.send_pkt(&update(0), &[], 0).unwrap();
    let (_, second) = c.recv_pkt(3000, 0).unwrap();
    // The guest had room for 4096 bytes.
    assert_eq!(second.len(), 1096);
    assert_eq!(c.peer_avail_credit(), 0);
    c.send_pkt(&update(4096), &[], 0).unwrap();
    let (_, third) = c.recv_pkt(3000, 0).unwrap();
    assert_eq!([first, second, third].concat(), data);
}

#[test]
fn close_follows_the_data() {
    let mut c = established();
    c.push_host_data(b"last words");
    c.notify_host_closed();
    let (pkt, payload) = c.recv_pkt(4096, 0).unwrap();
    assert_eq!(pkt.op, VsockOp::Rw.code());
    assert_eq!(payload, b"last words");
    let (pkt, _) = c.recv_pkt(4096, 0).unwrap();
    assert_eq!(pkt.op, VsockOp::Shutdown.code());
    assert_eq!(
        pkt.flags,
        VSOCK_FLAGS_SHUTDOWN_RCV | VSOCK_FLAGS_SHUTDOWN_SEND
    );
    assert_eq!(c.state(), ConnState::LocalClosed);
    assert!(c.has_expired(CONN_SHUTDOWN_TIMEOUT_MS));
}

#[test]
fn guest_bytes_wait_for_the_host_stream() {
    let mut c = established();
    c.send_pkt(&guest_packet(VsockOp::Rw, 5), b"hello", 0).unwrap();
    c.send_pkt(&guest_packet(VsockOp::Rw, 6), b" world", 0).unwrap();
    let (a, b) = c.tx_runs();
    assert_eq!([a, b].concat(), b"hello world");
    assert_eq!(c.flush_tx_buf(Ok(6)).unwrap(), 6);
    let err = c.flush_tx_buf(Err(Error::other("stuck"))).unwrap_err();
    assert_eq!(err.message(), "TX buffer flush I/O error: stuck");
    assert_eq!(c.drain_tx(), b"world");
}

#[test]
fn overfull_buffer_is_refused() {
    let mut c = established();
    let all = vec![7u8; CONN_TX_BUF_SIZE as usize];
    c.send_pkt(&guest_packet(VsockOp::Rw, CONN_TX_BUF_SIZE), &all, 0)
        .unwrap();
    let err = c.send_pkt(&guest_packet(VsockOp::Rw, 1), &[1], 0).unwrap_err();
    assert!(matches!(err, VsockError::TxBufFull));
    assert_eq!(err.message(), "TX buffer is full");
    // Taking the bytes out makes the guest hear of the room.
    assert_eq!(c.drain_tx(), all);
    let (pkt, _) = c.recv_pkt(4096, 0).unwrap();
    assert_eq!(pkt.op, VsockOp::CreditUpdate.code());
    assert_eq!(pkt.fwd_cnt, CONN_TX_BUF_SIZE);
}

#[test]
fn ring_buffer_wraps() {
    let mut buf = TxBuf::new();
    buf.push(&[1; 60_000]).unwrap();
    buf.consume(50_000);
    buf.push(&[2; 20_000]).unwrap();
    assert_eq!(buf.len(), 30_000);
    let (first, second) = (buf.first_run(), buf.second_run());
    assert_eq!(first.len(), 65_536 - 50_000);
    let all = [first, second].concat();
    assert_eq!(&all[..10_000], &[1; 10_000][..]);
    assert_eq!(&all[10_000..], &[2; 20_000][..]);
}

#[test]
fn shutdown_by_the_guest_is_sticky() {
    let mut c = established();
    c.send_pkt(&shutdown(VSOCK_FLAGS_SHUTDOWN_RCV), &[], 0).unwrap();
    assert_eq!(c.state(), ConnState::PeerClosed(true, false));
    c.send_pkt(&shutdown(VSOCK_FLAGS_SHUTDOWN_SEND), &[], 0).unwrap();
    assert_eq!(c.state(), ConnState::PeerClosed(true, true));
    let (pkt, _) = c.recv_pkt(4096, 0).unwrap();
    assert_eq!(pkt.op, VsockOp::Rst.code());
    let err = c.recv_pkt(4096, 0).unwrap_err();
    assert!(matches!(err, VsockError::NoData));
    assert_eq!(err.message(), "no pending RX data");
}

#[test]
fn killed_connection_is_reset() {
    let mut c = established();
    c.kill();
    assert_eq!(c.state(), ConnState::Killed);
    let (pkt, _) = c.recv_pkt(4096, 0).unwrap();
    assert_eq!(pkt.op, VsockOp::Rst.code());
    c.send_pkt(&guest_packet(VsockOp::Response, 0), &[], 0).unwrap();
    assert_eq!(c.state(), ConnState::Killed);
}

// The device

/// Sets up queue `idx` of a device with one buffer.
fn set_up(
    dev: &mut VsockDevice,
    memory: &mut GuestMemory,
    idx: usize,
    at: u64,
    len: u32,
    flags: u16,
) {
    let q = &mut dev.queues_mut()[idx];
    q.size = 16;
    q.ready = true;
    q.desc_table_addr = at;
    q.avail_ring_addr = at + 0x1000;
    q.used_ring_addr = at + 0x2000;
    memory.write_bytes(at, &(at + 0x3000).to_le_bytes()).unwrap();
    memory.write_bytes(at + 8, &len.to_le_bytes()).unwrap();
    memory.write_bytes(at + 12, &flags.to_le_bytes()).unwrap();
    memory.write_bytes(at + 0x1002, &1u16.to_le_bytes()).unwrap();
}

#[test]
fn device_has_the_guest_cid_in_its_configuration() {
    let mut dev = VsockDevice::new(CID);
    assert_eq!(dev.device_type(), DeviceType::Vsock);
    assert_eq!(dev.guest_cid(), CID);
    assert_eq!(dev.queues().len(), 3);
    assert_ne!(dev.avail_features() & VIRTIO_F_VERSION_1, 0);
    let mut data = [0xFFu8; 10];
    dev.read_config(0, &mut data);
    assert_eq!(data, [3, 0, 0, 0, 0, 0, 0, 0, 0, 0]);
    dev.write_config(0, &[9; 8]);
    dev.read_config(0, &mut data[..8]);
    assert_eq!(data[0], 3);
    dev.activate().unwrap();
    assert!(dev.is_activated());
    dev.reset();
    assert!(!dev.is_activated());
}

#[test]
fn packets_travel_through_the_queues() {
    let mut dev = VsockDevice::new(CID);
    let mut memory = GuestMemory::new(0x2_0000, 0).unwrap();
    let key = ConnMapKey {
        local_port: 52,
        peer_port: 1000,
    };
    dev.add_connection(key, established());
    dev.connections_mut().get_mut(&key).unwrap().push_host_data(b"pong");

    // The header and the payload have a descriptor each.
    set_up(&mut dev, &mut memory, TXQ, 0x4000, 44, VIRTQ_DESC_F_NEXT);
    memory.write_bytes(0x400e, &1u16.to_le_bytes()).unwrap();
    memory.write_bytes(0x4010, &0x7100u64.to_le_bytes()).unwrap();
    memory.write_bytes(0x4018, &4u32.to_le_bytes()).unwrap();
    let header = guest_packet(VsockOp::Rw, 4).to_bytes();
    memory.write_bytes(0x7000, &header).unwrap();
    memory.write_bytes(0x7100, b"ping").unwrap();
    set_up(&mut dev, &mut memory, RXQ, 0x8000, 256, VIRTQ_DESC_F_WRITE);

    assert!(!dev.tx_notify());
    assert_eq!(dev.process_queue(TXQ, &mut memory, 0), Ok(true));
    assert!(dev.tx_notify());
    assert!(!dev.tx_notify());
    assert_eq!(
        dev.connections_mut().get_mut(&key).unwrap().drain_tx(),
        b"ping"
    );
    // The reply is in the receive queue's buffer.
    let reply = memory.read_bytes(0xb000, VSOCK_PKT_HDR_SIZE + 4).unwrap();
    let header = VsockPacket::from_bytes(&reply).unwrap();
    assert_eq!(header.op, VsockOp::Rw.code());
    assert_eq!(header.len, 4);
    assert_eq!(&reply[VSOCK_PKT_HDR_SIZE..], b"pong");
    assert_eq!(memory.read_bytes(0xa002, 2).unwrap(), vec![1, 0]);
    assert!(!dev.any_pending_rx());
}

#[test]
fn unknown_connection_is_reset_or_opened() {
    let mut dev = VsockDevice::new(CID);
    let mut memory = GuestMemory::new(0x2_0000, 0).unwrap();
    let request = guest_packet(VsockOp::Request, 0).to_bytes();
    set_up(&mut dev, &mut memory, TXQ, 0x4000, 44, 0);
    memory.write_bytes(0x7000, &request).unwrap();
    dev.process_queue(TXQ, &mut memory, 0).unwrap();
    let key = ConnMapKey {
        local_port: 52,
        peer_port: 1000,
    };
    assert_eq!(
        dev.connections().get(&key).unwrap().state(),
        ConnState::PeerInit
    );
    assert!(dev.any_pending_rx());
    assert!(dev.remove_connection(&key).is_some());
    assert!(dev.remove_connection(&key).is_none());
}

#[test]
fn expired_connections_are_dropped() {
    let mut dev = VsockDevice::new(CID);
    let key = ConnMapKey {
        local_port: 1,
        peer_port: 2,
    };
    let mut c = VsockConnection::new_local_init(HOST_CID, CID, 1, 2);
    c.recv_pkt(4096, 0).unwrap();
    dev.add_connection(key, c);
    dev.expire_connections(CONN_REQUEST_TIMEOUT_MS - 1);
    assert_eq!(dev.connections().len(), 1);
    dev.expire_connections(CONN_REQUEST_TIMEOUT_MS);
    assert_eq!(dev.connections().len(), 0);
}

#[test]
fn other_queues_and_unready_queues_do_nothing() {
    let mut dev = VsockDevice::new(CID);
    let mut memory = GuestMemory::new(0x1000, 0).unwrap();
    for idx in [RXQ, TXQ, 2, 99] {
        assert_eq!(dev.process_queue(idx, &mut memory, 0), Ok(false));
    }
}

#[test]
fn shrunken_buffer_leaves_no_credit() {
    let mut c = VsockConnection::new_peer_init(2, 3, 1024, 5000, 10);
    c.recv_pkt(0, 0).unwrap();
    c.push_host_data(&[7; 8]);
    let (pkt, payload) = c.recv_pkt(64, 0).unwrap();
    assert_eq!((pkt.len, payload), (8, vec![7; 8]));
    assert_eq!(c.peer_avail_credit(), 2);
    let update = VsockPacket {
        src_cid: 3,
        dst_cid: 2,
        src_port: 5000,
        dst_port: 1024,
        len: 0,
        pkt_type: 1,
        op: VsockOp::CreditUpdate.code(),
        flags: 0,
        buf_alloc: 4,
        fwd_cnt: 0,
    };
    c.send_pkt(&update, &[], 0).unwrap();
    assert_eq!(c.peer_avail_credit(), 0);
    c.push_host_data(&[1]);
    let (pkt, payload) = c.recv_pkt(64, 0).unwrap();
    assert_eq!(pkt.op, VsockOp::CreditRequest.code());
    assert!(payload.is_empty());
    let update = VsockPacket {
        fwd_cnt: 8,
        ..update
    };
    c.send_pkt(&update, &[], 0).unwrap();
    assert_eq!(c.peer_avail_credit(), 4);
}

#[test]
fn flush_takes_two_runs_in_order() {
    let mut c = established();
    assert_eq!(c.flush_first(), None);
    assert_eq!(c.flush_end(0, None), 0);
    // The bytes of the second packet lie at both ends of the storage.
    let size = CONN_TX_BUF_SIZE as usize;
    let send = |c: &mut VsockConnection, data: &[u8]| {
        let pkt = guest_packet(VsockOp::Rw, data.len() as u32);
        c.send_pkt(&pkt, data, 0).unwrap();
    };
    send(&mut c, &vec![0; size - 3]);
    assert_eq!(c.flush_tx_buf(Ok(size - 3)).unwrap(), size - 3);
    send(&mut c, &[1, 2, 3, 4, 5]);
    assert_eq!(c.flush_first(), Some(vec![1, 2, 3]));
    assert_eq!(c.flush_after(Ok(2)).unwrap(), None);
    assert_eq!(c.flush_after(Ok(3)).unwrap(), Some(vec![4, 5]));
    let failed = c.flush_after(Err(Error::other("gone")));
    assert!(matches!(failed, Err(VsockError::TxBufFlush(_))));
    // A second write that fails leaves its bytes for the next flush.
    assert_eq!(c.flush_end(3, Some(Err(Error::other("gone")))), 3);
    assert_eq!(c.flush_first(), Some(vec![4, 5]));
    assert_eq!(c.flush_after(Ok(2)).unwrap(), None);
    send(&mut c, &[6]);
    assert_eq!(c.flush_end(1, None), 1);
    assert_eq!(c.drain_tx(), vec![5, 6]);
}
