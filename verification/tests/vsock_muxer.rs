use std::io::{Error, ErrorKind};

use visor_vmm::devices::vsock::{ConnMapKey, VsockConnection, VsockDevice, VsockOp, VsockPacket};
use visor_vmm::devices::vsock_conn::ConnState;
use visor_vmm::devices::vsock_muxer::{
    mark_failed, parse_connect, ConnectStep, GuestAnswer, HandshakeRead, StreamRead, StreamWrite,
    VsockMuxer, VsockMuxerError, LOCAL_PORT_END, LOCAL_PORT_START, MAX_CONNECTIONS,
};

const CID: u64 = 3;

fn muxer() -> (VsockMuxer, VsockDevice) {
    (
        VsockMuxer::new(CID, b"/run/vsock".to_vec()),
        VsockDevice::new(CID),
    )
}

/// A packet of the guest for a connection.
fn packet(key: ConnMapKey, op: VsockOp, len: u32) -> VsockPacket {
    VsockPacket {
        src_cid: CID,
        dst_cid: 2,
        src_port: key.peer_port,
        dst_port: key.local_port,
        len,
        pkt_type: 1,
        op: op.code(),
        flags: 0,
        buf_alloc: 65536,
        fwd_cnt: 0,
    }
}

fn conn<'a>(device: &'a mut VsockDevice, key: &ConnMapKey) -> &'a mut VsockConnection {
    device.connections_mut().get_mut(key).unwrap()
}

/// Takes a host stream through to an open connection.
fn connect(muxer: &mut VsockMuxer, device: &mut VsockDevice, port: u32) -> ConnMapKey {
    assert!(matches!(muxer.begin_connect(), ConnectStep::ReadLine));
    let line = HandshakeRead::Line(format!("CONNECT {port}\n"));
    let ConnectStep::AwaitGuest { key, kick: true } = muxer.take_line(device, line) else {
        panic!("the guest is asked");
    };
    assert_eq!(key.peer_port, port);
    assert_eq!(muxer.guest_answer(device, key), GuestAnswer::Pending);
    assert!(matches!(
        muxer.take_guest(device, key, true),
        ConnectStep::AwaitGuest { kick: false, .. }
    ));
    let c = conn(device, &key);
    c.recv_pkt(4096, 0).unwrap();
    c.send_pkt(&packet(key, VsockOp::Response, 0), &[], 0).unwrap();
    assert_eq!(c.state(), ConnState::Established);
    let ConnectStep::Answer { reply, .. } = muxer.take_guest(device, key, true) else {
        panic!("the host is told");
    };
    assert_eq!(reply, format!("OK {}\n", key.local_port).into_bytes());
    assert!(matches!(
        muxer.take_answer(key, Ok(())),
        ConnectStep::Done { .. }
    ));
    assert!(muxer.streams().contains(&key));
    key
}

#[test]
fn listener_stands_in_the_socket_dir() {
    let (muxer, _) = muxer();
    assert_eq!(muxer.listener_path(), b"/run/vsock/3.sock");
}

#[test]
fn connect_lines_are_read() {
    assert_eq!(parse_connect("CONNECT 52\n").unwrap(), 52);
    assert_eq!(parse_connect("  CONNECT 4294967295 \r\n").unwrap(), u32::MAX);
    let text = |line: &str| parse_connect(line).unwrap_err().message();
    assert_eq!(
        text("HELLO\n"),
        "invalid CONNECT handshake: expected 'CONNECT <port>', got: HELLO"
    );
    assert_eq!(
        text("CONNECT x\n"),
        "invalid CONNECT handshake: invalid port number: x"
    );
    assert_eq!(
        text("CONNECT 4294967296\n"),
        "invalid CONNECT handshake: invalid port number: 4294967296"
    );
    assert_eq!(
        text("CONNECT \n"),
        "invalid CONNECT handshake: expected 'CONNECT <port>', got: CONNECT"
    );
}

#[test]
fn broken_handshakes_are_refused() {
    let (mut muxer, mut device) = muxer();
    let mut refuse = |read| match muxer.take_line(&mut device, read) {
        ConnectStep::Refuse { reply, error } => (reply, error.message()),
        _ => panic!("the stream is refused"),
    };
    let (reply, error) = refuse(HandshakeRead::Closed);
    assert_eq!(reply, b"ERR invalid handshake\n");
    assert!(error.ends_with("connection closed before handshake"));
    let late = Error::new(ErrorKind::TimedOut, "too late");
    let (reply, error) = refuse(HandshakeRead::TimedOut(late));
    assert_eq!(reply, b"ERR handshake timeout\n");
    assert_eq!(error, "I/O error: too late");
    let lost = Error::new(ErrorKind::ConnectionReset, "lost");
    let (reply, error) = refuse(HandshakeRead::Failed(lost));
    assert_eq!(reply, b"ERR invalid handshake\n");
    assert_eq!(error, "I/O error: lost");
    let (reply, error) = refuse(HandshakeRead::Line("GET /\n".into()));
    assert_eq!(reply, b"ERR invalid handshake\n");
    assert!(error.contains("got: GET /"));
    assert_eq!(device.connections().len(), 0);
}

#[test]
fn ports_are_handed_out_in_turn() {
    let (mut muxer, mut device) = muxer();
    assert_eq!(muxer.next_local_port(), LOCAL_PORT_START);
    let a = connect(&mut muxer, &mut device, 52);
    assert_eq!(a.local_port, LOCAL_PORT_START);
    muxer.set_next_local_port(LOCAL_PORT_END - 1);
    let b = connect(&mut muxer, &mut device, 52);
    assert_eq!(b.local_port, LOCAL_PORT_END - 1);
    // The range is counted round, and a taken port is passed over.
    assert_eq!(muxer.next_local_port(), LOCAL_PORT_START);
    let c = connect(&mut muxer, &mut device, 52);
    assert_eq!(c.local_port, LOCAL_PORT_START + 1);
    muxer.cleanup_dead_connections(&mut device, &[a]);
    muxer.set_next_local_port(LOCAL_PORT_START);
    let d = connect(&mut muxer, &mut device, 52);
    assert_eq!(d.local_port, LOCAL_PORT_START);
}

#[test]
fn refused_connections_leave_nothing() {
    let (mut muxer, mut device) = muxer();
    for in_time in [true, false] {
        let line = HandshakeRead::Line("CONNECT 7\n".into());
        let ConnectStep::AwaitGuest { key, .. } = muxer.take_line(&mut device, line) else {
            panic!("the guest is asked");
        };
        conn(&mut device, &key).kill();
        let ConnectStep::Refuse { reply, error } = muxer.take_guest(&mut device, key, in_time)
        else {
            panic!("the stream is refused");
        };
        if in_time {
            assert_eq!(reply, b"ERR guest connection failed\n");
            assert!(error.message().ends_with("guest rejected connection"));
        } else {
            assert_eq!(reply, b"ERR guest connection timeout\n");
            assert!(error.message().ends_with("guest connection timeout"));
        }
        assert_eq!(device.connections().len(), 0);
        muxer.set_next_local_port(key.local_port);
    }
    let key = connect(&mut muxer, &mut device, 7);
    assert_eq!(key.local_port, LOCAL_PORT_START);
}

#[test]
fn failed_answer_is_no_stream() {
    let (mut muxer, mut device) = muxer();
    let key = connect(&mut muxer, &mut device, 7);
    let other = ConnMapKey {
        local_port: 1,
        peer_port: 2,
    };
    let step = muxer.take_answer(other, Err(Error::new(ErrorKind::BrokenPipe, "gone")));
    assert!(matches!(
        step,
        ConnectStep::Close {
            error: VsockMuxerError::Io(_)
        }
    ));
    assert_eq!(muxer.streams(), &vec![key]);
    assert_eq!(
        VsockMuxerError::PortExhausted.message(),
        "port allocation exhausted"
    );
}

#[test]
fn number_of_streams_is_limited() {
    let (mut muxer, mut device) = muxer();
    for _ in 0..MAX_CONNECTIONS {
        connect(&mut muxer, &mut device, 52);
    }
    let ConnectStep::Refuse { reply, error } = muxer.begin_connect() else {
        panic!("the stream is refused");
    };
    assert_eq!(reply, b"ERR too many connections\n");
    assert!(error.message().ends_with("connection limit reached"));
}

#[test]
fn round_carries_bytes_both_ways() {
    let (mut muxer, mut device) = muxer();
    let a = connect(&mut muxer, &mut device, 52);
    let b = connect(&mut muxer, &mut device, 53);
    conn(&mut device, &b)
        .send_pkt(&packet(b, VsockOp::Rw, 5), b"guest", 0)
        .unwrap();
    let reads = vec![StreamRead::Bytes(b"host".to_vec()), StreamRead::WouldBlock];
    let outcome = muxer.sync_connections(&mut device, &reads, 0);
    assert!(outcome.host_data_pushed);
    assert!(outcome.kick());
    assert_eq!(outcome.tx_data, vec![(b, b"guest".to_vec())]);
    assert!(outcome.dead_keys.is_empty());
    let (pkt, payload) = conn(&mut device, &a).recv_pkt(4096, 0).unwrap();
    assert_eq!(pkt.op, VsockOp::Rw.code());
    assert_eq!(payload, b"host");

    let reads = vec![StreamRead::WouldBlock, StreamRead::WouldBlock];
    let outcome = muxer.sync_connections(&mut device, &reads, 0);
    assert!(!outcome.kick());
    assert!(outcome.tx_data.is_empty());
}

#[test]
fn ended_streams_are_closed() {
    let (mut muxer, mut device) = muxer();
    let a = connect(&mut muxer, &mut device, 52);
    let b = connect(&mut muxer, &mut device, 53);
    let c = connect(&mut muxer, &mut device, 54);
    let d = connect(&mut muxer, &mut device, 55);
    conn(&mut device, &b).kill();
    conn(&mut device, &d)
        .send_pkt(&packet(d, VsockOp::Rw, 2), b"hi", 0)
        .unwrap();
    let reads = vec![
        StreamRead::Bytes(Vec::new()),
        StreamRead::WouldBlock,
        StreamRead::Failed,
        StreamRead::WouldBlock,
    ];
    let mut outcome = muxer.sync_connections(&mut device, &reads, 0);
    assert_eq!(outcome.dead_keys, vec![b, a, c]);
    mark_failed(
        &outcome.tx_data,
        &vec![StreamWrite::Failed],
        &mut outcome.dead_keys,
    );
    assert_eq!(outcome.dead_keys, vec![b, a, c, d]);
    mark_failed(
        &outcome.tx_data,
        &vec![StreamWrite::WouldBlock],
        &mut outcome.dead_keys,
    );
    muxer.cleanup_dead_connections(&mut device, &outcome.dead_keys[..3]);
    assert_eq!(muxer.streams(), &vec![d]);
    assert_eq!(device.connections().len(), 1);
    assert!(device.connections().contains_key(&d));
}

#[test]
fn round_without_streams_does_nothing() {
    let (muxer, mut device) = muxer();
    let key = ConnMapKey {
        local_port: 1,
        peer_port: 2,
    };
    let conn = VsockConnection::new_local_init(2, CID, 1, 2);
    device.add_connection(key, conn);
    let outcome = muxer.sync_connections(&mut device, &Vec::new(), u64::MAX);
    assert!(!outcome.kick());
    assert_eq!(device.connections().len(), 1);
}
