use adb_proxy::addr::SocketAddr;
use adb_proxy::fault::IoKind;
use adb_proxy::peercred::{
    diag_request, is_loopback, multi_user_supported, multi_user_unsupported_reason, tcp_peer_uid,
    ByteOrder, PeerCred, Platform, AF_INET, AF_INET6, DUMP_FLAGS, IPPROTO_TCP, NLMSG_DONE,
    NLMSG_ERROR,
};

fn v4(ip: [u8; 4], port: u16) -> SocketAddr {
    SocketAddr::V4 { ip, port }
}

fn v6(octets: [u8; 16], text: &str, port: u16) -> SocketAddr {
    SocketAddr::V6 {
        octets,
        ip_text: text.into(),
        port,
        flowinfo: 0,
        scope_id: 0,
    }
}

fn one() -> [u8; 16] {
    let mut o = [0u8; 16];
    o[15] = 1;
    o
}

#[test]
fn loopback_detection() {
    assert!(is_loopback(&v4([127, 0, 0, 1], 5037)));
    assert!(is_loopback(&v6(one(), "::1", 5037)));
    assert!(!is_loopback(&v4([192, 168, 1, 1], 5037)));
}

#[test]
fn mapped_loopback_counts() {
    let mut o = [0u8; 16];
    o[10] = 0xff;
    o[11] = 0xff;
    o[12] = 127;
    o[15] = 1;
    assert!(is_loopback(&v6(o, "::ffff:127.0.0.1", 1)));
    o[12] = 10;
    assert!(!is_loopback(&v6(o, "::ffff:10.0.0.1", 1)));
    o[12] = 127;
    o[0] = 1;
    assert!(!is_loopback(&v6(o, "100::ffff:7f00:1", 1)));
    assert!(!is_loopback(&v6([0; 16], "::", 1)));
}

#[test]
fn only_linux_shares_the_port() {
    assert!(multi_user_supported(Platform::Linux));
    assert_eq!(multi_user_unsupported_reason(Platform::Linux), "");
    for p in [Platform::MacOs, Platform::Windows, Platform::Other] {
        assert!(!multi_user_supported(p));
        assert!(multi_user_unsupported_reason(p).contains("port per user"));
    }
}

#[test]
fn numbers_are_those_of_the_kernel() {
    assert_eq!(AF_INET as i32, libc::AF_INET);
    assert_eq!(AF_INET6 as i32, libc::AF_INET6);
    assert_eq!(IPPROTO_TCP as i32, libc::IPPROTO_TCP);
    assert_eq!(DUMP_FLAGS as i32, libc::NLM_F_REQUEST | libc::NLM_F_DUMP);
    assert_eq!(NLMSG_ERROR as i32, libc::NLMSG_ERROR);
    assert_eq!(NLMSG_DONE as i32, libc::NLMSG_DONE);
}

const LOCAL: [u8; 4] = [127, 0, 0, 1];

#[test]
fn requests_ask_for_the_client_side() {
    let r = diag_request(&v4(LOCAL, 5037), &v4(LOCAL, 40000), ByteOrder::Little).unwrap();
    assert_eq!(r.len(), 72);
    assert_eq!(&r[0..8], [72, 0, 0, 0, 20, 0, 1, 3]);
    assert_eq!(&r[8..16], [1, 0, 0, 0, 0, 0, 0, 0]);
    assert_eq!(&r[16..24], [2, 6, 2, 0, 14, 0, 0, 0]);
    assert_eq!(&r[24..28], [0x9c, 0x40, 0x13, 0xad]);
    assert_eq!(&r[28..32], LOCAL);
    assert_eq!(&r[32..44], [0; 12]);
    assert_eq!(&r[44..48], LOCAL);
    assert_eq!(&r[60..64], [0; 4]);
    assert_eq!(&r[64..72], [0xff; 8]);
    let big = diag_request(&v4(LOCAL, 5037), &v4(LOCAL, 40000), ByteOrder::Big).unwrap();
    assert_eq!(&big[0..8], [0, 0, 0, 72, 0, 20, 3, 1]);
    assert_eq!(&big[24..28], [0x9c, 0x40, 0x13, 0xad]);
    let err = diag_request(&v4(LOCAL, 1), &v6(one(), "::1", 2), ByteOrder::Little).unwrap_err();
    assert_eq!(err.kind, IoKind::InvalidInput);
    assert_eq!(err.message, "src/dst address family mismatch");
}

/// One message of a dump, in little-endian order.
fn message(ty: u16, src: ([u8; 4], u16), dst: ([u8; 4], u16), uid: u32) -> Vec<u8> {
    let mut m = Vec::new();
    m.extend_from_slice(&88u32.to_le_bytes());
    m.extend_from_slice(&ty.to_le_bytes());
    m.extend_from_slice(&[0; 10]);
    m.extend_from_slice(&[2, 1, 0, 0]);
    m.extend_from_slice(&src.1.to_be_bytes());
    m.extend_from_slice(&dst.1.to_be_bytes());
    m.extend_from_slice(&src.0);
    m.extend_from_slice(&[9; 12]);
    m.extend_from_slice(&dst.0);
    m.extend_from_slice(&[0; 12]);
    m.extend_from_slice(&[0; 12]);
    m.extend_from_slice(&[0; 12]);
    m.extend_from_slice(&uid.to_le_bytes());
    m.extend_from_slice(&[0; 4]);
    assert_eq!(m.len(), 88);
    m
}

fn done() -> Vec<u8> {
    let mut m = Vec::new();
    m.extend_from_slice(&20u32.to_le_bytes());
    m.extend_from_slice(&3u16.to_le_bytes());
    m.extend_from_slice(&[0; 14]);
    m
}

fn resolve(reply: &[u8]) -> Result<u32, (IoKind, String)> {
    tcp_peer_uid(
        &v4(LOCAL, 5037),
        &v4(LOCAL, 40000),
        reply,
        ByteOrder::Little,
    )
    .map_err(|f| (f.kind, f.message))
}

#[test]
fn the_owner_of_the_client_socket_is_found() {
    let client = (LOCAL, 40000);
    let server = (LOCAL, 5037);
    let mut reply = message(20, server, client, 0);
    reply.extend(message(20, (LOCAL, 40001), server, 2000));
    reply.extend(message(20, client, server, 1000));
    reply.extend(done());
    reply.extend(message(20, client, server, 3000));
    assert_eq!(resolve(&reply), Ok(1000));
}

#[test]
fn unclear_owners_are_nobody() {
    let client = (LOCAL, 40000);
    let server = (LOCAL, 5037);
    let none = (
        IoKind::NotFound,
        "no matching TCP socket for peer UID lookup".to_string(),
    );
    assert_eq!(resolve(&[]), Err(none.clone()));
    assert_eq!(resolve(&done()), Err(none.clone()));
    assert_eq!(resolve(&message(20, server, client, 0)), Err(none.clone()));
    let cut = message(20, client, server, 1000);
    assert_eq!(resolve(&cut[..87]), Err(none));
    let mut twice = message(20, client, server, 1000);
    twice.extend(message(20, client, server, 1001));
    assert_eq!(
        resolve(&twice),
        Err((
            IoKind::Other,
            "ambiguous TCP peer UID (multiple matches)".to_string()
        ))
    );
    let mut failed = message(20, client, server, 1000);
    failed.extend(message(2, client, server, 1000));
    assert_eq!(
        resolve(&failed),
        Err((IoKind::Other, "netlink sock_diag error".to_string()))
    );
}

#[test]
fn unaligned_messages_are_padded() {
    let client = (LOCAL, 40000);
    let server = (LOCAL, 5037);
    let mut odd = message(20, server, client, 0);
    odd[0] = 90;
    odd.extend_from_slice(&[7, 7, 0, 0]);
    odd.extend(message(20, client, server, 1000));
    assert_eq!(resolve(&odd), Ok(1000));
}

#[test]
fn six_byte_families_compare_whole_addresses() {
    let mut m = message(20, (LOCAL, 40000), (LOCAL, 5037), 1000);
    m[16] = AF_INET6;
    for (at, byte) in [(24, 0), (31, 0), (40, 0), (47, 0)] {
        m[at] = byte;
    }
    m[24..40].copy_from_slice(&one());
    m[40..56].copy_from_slice(&one());
    let at = |reply: &[u8]| {
        tcp_peer_uid(
            &v6(one(), "::1", 5037),
            &v6(one(), "::1", 40000),
            reply,
            ByteOrder::Little,
        )
    };
    assert_eq!(at(&m).unwrap(), 1000);
    m[24] = 1;
    assert!(at(&m).is_err());
}

#[test]
fn credentials_are_plain_values() {
    let c = PeerCred {
        uid: 1000,
        pid: 1,
        gid: 100,
    };
    assert_eq!(c, c.clone());
}
