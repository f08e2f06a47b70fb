use std::io::{Error, ErrorKind};
use std::time::Duration;

use visor_vmm::comms::backend::{CommsError, ConnectFault, DEFAULT_CONNECT_TIMEOUT};
use visor_vmm::comms::create_comms_backend;
use visor_vmm::comms::linux::LinuxCommsBackend;
use visor_vmm::comms::macos::MacosCommsBackend;
use visor_vmm::comms::muxer::{
    connect_line, DialEvent, DialStep, MuxerCommsBackend, DEFAULT_SOCKET_DIR, SOCKET_DIR_ENV,
};
use visor_vmm::comms::windows::WindowsCommsBackend;

fn refused() -> Error {
    Error::new(ErrorKind::ConnectionRefused, "refused")
}

// Errors

#[test]
fn comms_error_connect_display() {
    let err = CommsError::Connect {
        cid: 3,
        port: 52,
        source: ConnectFault::Io(refused()),
    };
    let msg = err.message();
    assert!(msg.contains('3'), "should contain CID: {msg}");
    assert!(msg.contains("52"), "should contain port: {msg}");
    assert!(msg.contains("refused"), "should contain source: {msg}");
}

#[test]
fn comms_error_timeout_display() {
    let err = CommsError::Timeout {
        cid: 3,
        port: 52,
        timeout: 10,
    };
    let msg = err.message();
    assert!(msg.contains('3'), "should contain CID: {msg}");
    assert!(msg.contains("52"), "should contain port: {msg}");
    assert!(msg.contains("10"), "should contain timeout: {msg}");
    assert_eq!(msg, "connection to CID 3 port 52 timed out after 10s");
}

#[test]
fn comms_error_unsupported_display() {
    let err = CommsError::Unsupported;
    let msg = err.message();
    assert!(
        msg.to_lowercase().contains("not supported") || msg.to_lowercase().contains("unsupported"),
        "Unsupported error should mention unsupported: {msg}"
    );
}

#[test]
fn default_connect_timeout_is_10s() {
    assert_eq!(
        Duration::from_secs(DEFAULT_CONNECT_TIMEOUT),
        Duration::from_secs(10)
    );
}

// Linux

#[test]
fn linux_comms_backend_default() {
    let _backend = LinuxCommsBackend::default();
}

#[test]
fn linux_comms_backend_new() {
    let _backend = LinuxCommsBackend::new(None);
}

// Windows

#[test]
fn windows_backend_connect_returns_unsupported() {
    let backend = WindowsCommsBackend;
    let result = backend.connect(3, 52);
    assert!(result.is_err());
    let err = result.unwrap_err();
    assert!(
        matches!(err, CommsError::Unsupported),
        "expected Unsupported, got: {err:?}"
    );
}

// macOS

#[test]
fn macos_comms_backend_new() {
    let backend = MacosCommsBackend::new(None);
    assert_eq!(backend.socket_dir(), DEFAULT_SOCKET_DIR.as_bytes());
}

#[test]
fn macos_comms_backend_default() {
    let backend = MacosCommsBackend::default();
    assert_eq!(backend.socket_dir(), DEFAULT_SOCKET_DIR.as_bytes());
}

#[test]
fn macos_comms_backend_custom_socket_dir() {
    let backend = MacosCommsBackend::with_socket_dir(b"/tmp/visor-test".to_vec());
    assert_eq!(backend.socket_dir(), b"/tmp/visor-test");
}

#[test]
fn macos_comms_backend_debug() {
    let backend = MacosCommsBackend::new(None);
    let debug = format!("{backend:?}");
    assert!(debug.contains("MacosCommsBackend"));
    assert!(debug.contains("socket_dir"));
}

#[test]
fn socket_path_format() {
    let backend = MacosCommsBackend::with_socket_dir(b"/var/run/visor/vsock".to_vec());
    let path = backend.socket_path(3, 52);
    assert_eq!(path, b"/var/run/visor/vsock/3/52.sock");
}

#[test]
fn socket_path_different_cid_and_port() {
    let backend = MacosCommsBackend::with_socket_dir(b"/tmp/socks".to_vec());
    assert_eq!(
        backend.socket_path(100, 1024),
        b"/tmp/socks/100/1024.sock"
    );
}

#[test]
fn socket_path_cid_zero() {
    let backend = MacosCommsBackend::new(None);
    let path = String::from_utf8(backend.socket_path(0, 0)).unwrap();
    assert!(path.contains("0/0.sock"));
}

#[test]
fn macos_test_muxer_socket_path_format() {
    let backend = MacosCommsBackend::with_socket_dir(b"/var/run/visor/vsock".to_vec());
    let path = backend.muxer_socket_path(3);
    assert_eq!(path, b"/var/run/visor/vsock/3.sock");
}

#[test]
fn muxer_socket_path_different_cid() {
    let backend = MacosCommsBackend::with_socket_dir(b"/tmp/socks".to_vec());
    assert_eq!(backend.muxer_socket_path(42), b"/tmp/socks/42.sock");
}

#[test]
fn macos_test_connect_to_missing_socket_returns_error() {
    let backend = MacosCommsBackend::with_socket_dir(b"/nowhere".to_vec());
    let missing = Error::new(ErrorKind::NotFound, "no such socket");
    let step = backend.connect(3, 52, DialEvent::Opened(Err(missing)));
    let DialStep::Failed(err) = step else {
        panic!("connecting to missing socket should fail");
    };
    assert!(
        matches!(
            err,
            CommsError::Connect {
                cid: 3,
                port: 52,
                ..
            }
        ),
        "expected Connect error for cid=3 port=52, got: {err:?}"
    );
}

#[test]
fn connect_error_contains_cid_and_port() {
    let backend = MacosCommsBackend::with_socket_dir(b"/nowhere".to_vec());
    let missing = Error::new(ErrorKind::NotFound, "no such socket");
    let DialStep::Failed(err) = backend.connect(42, 9999, DialEvent::Opened(Err(missing))) else {
        panic!("connecting to missing socket should fail");
    };
    let msg = err.message();
    assert!(msg.contains("42"), "error should mention CID: {msg}");
    assert!(msg.contains("9999"), "error should mention port: {msg}");
}

#[test]
fn connect_to_listening_socket_succeeds() {
    let backend = MacosCommsBackend::with_socket_dir(b"/tmp/d".to_vec());
    let DialStep::Open(path) = backend.connect(5, 1024, DialEvent::Start) else {
        panic!("first the stream is opened");
    };
    assert_eq!(path, b"/tmp/d/5.sock");
    let DialStep::Send(line) = backend.connect(5, 1024, DialEvent::Opened(Ok(()))) else {
        panic!("then a line is sent");
    };
    assert!(line.starts_with(b"CONNECT "), "expected CONNECT, got: {line:?}");
    assert!(matches!(
        backend.connect(5, 1024, DialEvent::Sent(Ok(()))),
        DialStep::ReadLine
    ));
    assert!(matches!(
        backend.connect(5, 1024, DialEvent::Response(Ok("OK 1073741824\n".into()))),
        DialStep::Ready
    ));
}

// Muxer

#[test]
fn muxer_comms_backend_default() {
    let backend = MuxerCommsBackend::default();
    assert_eq!(backend.socket_dir(), DEFAULT_SOCKET_DIR.as_bytes());
}

#[test]
fn muxer_comms_backend_custom_socket_dir() {
    let backend = MuxerCommsBackend::with_socket_dir(b"/tmp/visor-test".to_vec());
    assert_eq!(backend.socket_dir(), b"/tmp/visor-test");
}

#[test]
fn muxer_test_muxer_socket_path_format() {
    let backend = MuxerCommsBackend::with_socket_dir(b"/tmp/visor-test".to_vec());
    assert_eq!(backend.muxer_socket_path(7), b"/tmp/visor-test/7.sock");
}

#[test]
fn muxer_test_connect_to_missing_socket_returns_error() {
    let backend = MuxerCommsBackend::with_socket_dir(b"/nowhere".to_vec());
    let missing = Error::new(ErrorKind::NotFound, "no such socket");
    let DialStep::Failed(error) = backend.connect(3, 52, DialEvent::Opened(Err(missing))) else {
        panic!("connecting to a missing muxer socket should fail");
    };
    assert!(matches!(
        error,
        CommsError::Connect {
            cid: 3,
            port: 52,
            ..
        }
    ));
}

#[test]
fn connect_to_muxer_socket_succeeds() {
    let backend = MuxerCommsBackend::with_socket_dir(b"/tmp/d".to_vec());
    let (cid, port) = (9_u32, 52_u32);
    let DialStep::Send(line) = backend.connect(cid, port, DialEvent::Opened(Ok(()))) else {
        panic!("a line is sent");
    };
    let line = String::from_utf8(line).unwrap();
    assert_eq!(line.trim(), format!("CONNECT {port}"));
    assert_eq!(connect_line(port), line.as_bytes());
    assert!(matches!(
        backend.connect(cid, port, DialEvent::Response(Ok("OK 1073741824\n".into()))),
        DialStep::Ready
    ));
}

#[test]
fn rejection_is_reported() {
    let backend = MuxerCommsBackend::default();
    let answer = "ERR guest connection failed\n".to_string();
    let DialStep::Failed(err) = backend.connect(9, 52, DialEvent::Response(Ok(answer))) else {
        panic!("a refused connection fails");
    };
    assert_eq!(
        err.message(),
        "connection to CID 9 port 52 failed: muxer rejected: ERR guest connection failed"
    );
    let DialStep::Failed(err) = backend.connect(9, 52, DialEvent::TimedOut) else {
        panic!("a connection that takes too long fails");
    };
    assert!(matches!(err, CommsError::Timeout { timeout: 10, .. }));
    assert!(matches!(
        backend.connect(9, 52, DialEvent::Sent(Err(refused()))),
        DialStep::Failed(_)
    ));
    assert!(matches!(
        backend.connect(9, 52, DialEvent::Response(Err(refused()))),
        DialStep::Failed(_)
    ));
}

#[test]
fn socket_dir_can_be_set() {
    assert_eq!(SOCKET_DIR_ENV, "VISOR_VSOCK_SOCKET_DIR");
    assert_eq!(
        MuxerCommsBackend::configured_socket_dir(Some(b"/run/other".to_vec())),
        b"/run/other"
    );
    assert_eq!(
        MuxerCommsBackend::configured_socket_dir(Some(Vec::new())),
        DEFAULT_SOCKET_DIR.as_bytes()
    );
    assert_eq!(
        create_comms_backend(None).socket_dir(),
        DEFAULT_SOCKET_DIR.as_bytes()
    );
    let absolute = MuxerCommsBackend::with_socket_dir(b"/run/".to_vec());
    assert_eq!(absolute.muxer_socket_path(1), b"/run/1.sock");
}
