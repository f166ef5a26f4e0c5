//! Peer identity for multi-user mode.
//!
//! The owner of a local TCP connection is looked up with a `sock_diag` dump:
//! this module builds the request and reads the reply. Requests and replies
//! are in the byte order of the machine.

use vstd::prelude::*;
use vstd::string::*;

use crate::addr::{AddrView, SocketAddr};
use crate::fault::{fault, fault_view, FaultView, IoFault, IoKind};
use crate::octets::push_bytes;
use crate::tenant::Uid;

verus! {

/// Credentials of a connected local peer.
#[derive(Clone, Copy, Debug, PartialEq, Eq, Structural)]
pub struct PeerCred {
    pub uid: Uid,
    pub pid: u32,
    pub gid: u32,
}

/// The operating system that the program runs on.
#[derive(Clone, Copy, Debug, PartialEq, Eq, Structural)]
pub enum Platform {
    Linux,
    MacOs,
    Windows,
    Other,
}

/// Whether the shared-5037 mode is supported.
pub fn multi_user_supported(platform: Platform) -> (r: bool)
    ensures
        r == (platform == Platform::Linux),
{
    platform == Platform::Linux
}

/// Why the shared-5037 mode is unavailable.
pub open spec fn unsupported_chars(platform: Platform) -> Seq<char> {
    match platform {
        Platform::Linux => ""@,
        Platform::MacOs =>
            "macOS does not support shared :5037 multi-user mode: no portable unprivileged API to resolve the owner UID of an accepted loopback TCP peer. Use one port per user with ADB_SERVER_SOCKET=tcp:127.0.0.1:<port>."@,
        Platform::Windows =>
            "Windows does not support shared :5037 multi-user mode yet. Use one port per user with ADB_SERVER_SOCKET=tcp:127.0.0.1:<port>."@,
        Platform::Other =>
            "shared :5037 multi-user mode is only supported on Linux (same network namespace). Use one port per user or an isolated network namespace."@,
    }
}

/// Why the shared-5037 mode is unavailable; empty where it is available.
pub fn multi_user_unsupported_reason(platform: Platform) -> (s: String)
    ensures
        s@ == unsupported_chars(platform),
{
    match platform {
        Platform::Linux => "".to_owned(),
        Platform::MacOs =>
            "macOS does not support shared :5037 multi-user mode: no portable unprivileged API to resolve the owner UID of an accepted loopback TCP peer. Use one port per user with ADB_SERVER_SOCKET=tcp:127.0.0.1:<port>.".to_owned(),
        Platform::Windows =>
            "Windows does not support shared :5037 multi-user mode yet. Use one port per user with ADB_SERVER_SOCKET=tcp:127.0.0.1:<port>.".to_owned(),
        Platform::Other =>
            "shared :5037 multi-user mode is only supported on Linux (same network namespace). Use one port per user or an isolated network namespace.".to_owned(),
    }
}

/// The IPv6 address `::1`.
pub open spec fn v6_loopback(octets: Seq<u8>) -> bool {
    octets[15] == 1 && forall|i: int| 0 <= i < 15 ==> octets[i] == 0
}

/// An IPv6 address `::ffff:127.x.y.z`.
pub open spec fn v6_mapped_loopback(octets: Seq<u8>) -> bool {
    octets[10] == 0xff && octets[11] == 0xff && octets[12] == 127 && forall|i: int|
        0 <= i < 10 ==> octets[i] == 0
}

/// Whether an endpoint is on this machine only.
pub open spec fn loopback_addr(addr: AddrView) -> bool {
    match addr {
        AddrView::V4 { ip, .. } => ip[0] == 127,
        AddrView::V6 { octets, .. } => v6_loopback(octets) || v6_mapped_loopback(octets),
    }
}

/// Whether the first `n` of the octets are zero.
fn zeros(octets: &[u8; 16], n: usize) -> (r: bool)
    requires
        n <= 16,
    ensures
        r == (forall|i: int| 0 <= i < n ==> octets@[i] == 0),
{
    let mut i: usize = 0;
    while i < n
        invariant
            i <= n <= 16,
            forall|j: int| 0 <= j < i ==> octets@[j] == 0,
        decreases n - i,
    {
        if octets[i] != 0 {
            return false;
        }
        i += 1;
    }
    true
}

/// Whether an endpoint is on this machine only.
pub fn is_loopback(addr: &SocketAddr) -> (r: bool)
    ensures
        r == loopback_addr(addr@),
{
    match addr {
        SocketAddr::V4 { ip, .. } => ip[0] == 127,
        SocketAddr::V6 { octets, .. } => (octets[15] == 1 && zeros(octets, 15)) || (octets[10]
            == 0xff && octets[11] == 0xff && octets[12] == 127 && zeros(octets, 10)),
    }
}

/// Byte order of the machine.
#[derive(Clone, Copy, Debug, PartialEq, Eq, Structural)]
pub enum ByteOrder {
    Little,
    Big,
}

/// Address family of IPv4.
pub const AF_INET: u8 = 2;

/// Address family of IPv6.
pub const AF_INET6: u8 = 10;

/// Protocol number of TCP.
pub const IPPROTO_TCP: u8 = 6;

/// Netlink message type of a socket dump.
pub const SOCK_DIAG_BY_FAMILY: u16 = 20;

/// Extension that asks for the socket's details.
pub const INET_DIAG_INFO: u8 = 2;

/// `NLM_F_REQUEST | NLM_F_DUMP`.
pub const DUMP_FLAGS: u16 = 0x301;

/// The states ESTABLISHED, SYN_SENT and SYN_RECV, one bit each.
pub const OPEN_STATES: u32 = 14;

/// Netlink message type of an error.
pub const NLMSG_ERROR: u16 = 2;

/// Netlink message type of the end of a dump.
pub const NLMSG_DONE: u16 = 3;

/// Length of a netlink header.
pub const NLMSG_HDR_LEN: usize = 16;

/// Length of a dump request with its header.
pub const DIAG_REQUEST_LEN: u32 = 72;

/// Length of one socket's description.
pub const DIAG_MSG_LEN: usize = 72;

/// The bytes of a 16-bit number.
pub open spec fn bytes16(v: u16, order: ByteOrder) -> Seq<u8> {
    let hi = (v / 0x100) as u8;
    let lo = (v % 0x100) as u8;
    match order {
        ByteOrder::Little => seq![lo, hi],
        ByteOrder::Big => seq![hi, lo],
    }
}

/// The bytes of a 32-bit number.
pub open spec fn bytes32(v: u32, order: ByteOrder) -> Seq<u8> {
    let hi = (v / 0x1_0000) as u16;
    let lo = (v % 0x1_0000) as u16;
    match order {
        ByteOrder::Little => bytes16(lo, order) + bytes16(hi, order),
        ByteOrder::Big => bytes16(hi, order) + bytes16(lo, order),
    }
}

/// The 16-bit number at a position.
pub open spec fn num16(b: Seq<u8>, at: int, order: ByteOrder) -> int {
    match order {
        ByteOrder::Little => b[at] + b[at + 1] * 0x100,
        ByteOrder::Big => b[at] * 0x100 + b[at + 1],
    }
}

/// The 32-bit number at a position.
pub open spec fn num32(b: Seq<u8>, at: int, order: ByteOrder) -> int {
    match order {
        ByteOrder::Little => num16(b, at, order) + num16(b, at + 2, order) * 0x1_0000,
        ByteOrder::Big => num16(b, at, order) * 0x1_0000 + num16(b, at + 2, order),
    }
}

/// Append a 16-bit number.
fn push16(out: &mut Vec<u8>, v: u16, order: ByteOrder)
    ensures
        final(out)@ == old(out)@ + bytes16(v, order),
{
    let hi: u8 = (v / 0x100) as u8;
    let lo: u8 = (v % 0x100) as u8;
    match order {
        ByteOrder::Little => {
            out.push(lo);
            out.push(hi);
        },
        ByteOrder::Big => {
            out.push(hi);
            out.push(lo);
        },
    }
    assert(out@ =~= old(out)@ + bytes16(v, order));
}

/// Append a 32-bit number.
fn push32(out: &mut Vec<u8>, v: u32, order: ByteOrder)
    ensures
        final(out)@ == old(out)@ + bytes32(v, order),
{
    let hi: u16 = (v / 0x1_0000) as u16;
    let lo: u16 = (v % 0x1_0000) as u16;
    match order {
        ByteOrder::Little => {
            push16(out, lo, order);
            push16(out, hi, order);
        },
        ByteOrder::Big => {
            push16(out, hi, order);
            push16(out, lo, order);
        },
    }
    assert(out@ =~= old(out)@ + bytes32(v, order));
}

/// The 16-bit number at a position.
fn read16(b: &[u8], at: usize, order: ByteOrder) -> (v: u16)
    requires
        at + 2 <= b@.len(),
    ensures
        v == num16(b@, at as int, order),
{
    match order {
        ByteOrder::Little => b[at] as u16 + b[at + 1] as u16 * 0x100,
        ByteOrder::Big => b[at] as u16 * 0x100 + b[at + 1] as u16,
    }
}

/// The 32-bit number at a position.
fn read32(b: &[u8], at: usize, order: ByteOrder) -> (v: u32)
    requires
        at + 4 <= b@.len(),
    ensures
        v == num32(b@, at as int, order),
{
    let total = b.len();
    assert(at + 2 < total);
    match order {
        ByteOrder::Little => read16(b, at, order) as u32 + read16(b, at + 2, order) as u32
            * 0x1_0000,
        ByteOrder::Big => read16(b, at, order) as u32 * 0x1_0000 + read16(b, at + 2, order) as u32,
    }
}

/// A TCP connection as its owner sees it: addresses as 16 octets, those of
/// IPv4 followed by zeros.
pub struct SockView {
    pub family: u8,
    pub sport: u16,
    pub dport: u16,
    pub src: Seq<u8>,
    pub dst: Seq<u8>,
}

/// The 16 octets that stand for an address.
pub open spec fn wide(addr: AddrView) -> Seq<u8> {
    match addr {
        AddrView::V4 { ip, .. } => ip + Seq::new(12, |i: int| 0u8),
        AddrView::V6 { octets, .. } => octets,
    }
}

/// The connection from `src` to `dst`; none between different families.
pub open spec fn socket_of(src: AddrView, dst: AddrView) -> Option<SockView> {
    let view = |family: u8|
        Some(
            SockView {
                family,
                sport: src.port(),
                dport: dst.port(),
                src: wide(src),
                dst: wide(dst),
            },
        );
    match (src, dst) {
        (AddrView::V4 { .. }, AddrView::V4 { .. }) => view(AF_INET),
        (AddrView::V6 { .. }, AddrView::V6 { .. }) => view(AF_INET6),
        _ => None,
    }
}

/// The failure for endpoints of different families.
pub open spec fn family_mismatch() -> FaultView {
    fault_view(IoKind::InvalidInput, "src/dst address family mismatch"@)
}

/// A TCP connection as its owner sees it.
#[derive(Debug)]
pub struct SockId {
    pub family: u8,
    pub sport: u16,
    pub dport: u16,
    pub src: Vec<u8>,
    pub dst: Vec<u8>,
}

impl View for SockId {
    type V = SockView;

    open spec fn view(&self) -> SockView {
        SockView {
            family: self.family,
            sport: self.sport,
            dport: self.dport,
            src: self.src@,
            dst: self.dst@,
        }
    }
}

/// The 16 octets that stand for an address.
fn wide_octets(addr: &SocketAddr) -> (v: Vec<u8>)
    ensures
        v@ == wide(addr@),
        v@.len() == 16,
{
    let mut v: Vec<u8> = Vec::new();
    match addr {
        SocketAddr::V4 { ip, .. } => {
            push_bytes(&mut v, ip.as_slice());
            while v.len() < 16
                invariant
                    4 <= v@.len() <= 16,
                    v@ =~= ip@ + Seq::new((v@.len() - 4) as nat, |i: int| 0u8),
                decreases 16 - v@.len(),
            {
                v.push(0);
            }
        },
        SocketAddr::V6 { octets, .. } => {
            push_bytes(&mut v, octets.as_slice());
        },
    }
    assert(v@ =~= wide(addr@));
    v
}

/// The connection from `src` to `dst`.
pub fn socket_between(src: &SocketAddr, dst: &SocketAddr) -> (r: Result<SockId, IoFault>)
    ensures
        match socket_of(src@, dst@) {
            Some(k) => r matches Ok(id) && id@ == k && id.src@.len() == 16 && id.dst@.len() == 16,
            None => r matches Err(f) && f@ == family_mismatch(),
        },
{
    let family: u8 = match (src, dst) {
        (SocketAddr::V4 { .. }, SocketAddr::V4 { .. }) => AF_INET,
        (SocketAddr::V6 { .. }, SocketAddr::V6 { .. }) => AF_INET6,
        _ => {
            return Err(fault(IoKind::InvalidInput, "src/dst address family mismatch"));
        },
    };
    Ok(
        SockId {
            family,
            sport: src.port(),
            dport: dst.port(),
            src: wide_octets(src),
            dst: wide_octets(dst),
        },
    )
}

/// The bytes of a dump request for the sockets of one connection. Ports and
/// addresses are in network order whatever the machine's.
pub open spec fn request_bytes(k: SockView, order: ByteOrder) -> Seq<u8> {
    bytes32(DIAG_REQUEST_LEN, order) + bytes16(SOCK_DIAG_BY_FAMILY, order) + bytes16(
        DUMP_FLAGS,
        order,
    ) + bytes32(1, order) + bytes32(0, order) + seq![k.family, IPPROTO_TCP, INET_DIAG_INFO, 0u8]
        + bytes32(OPEN_STATES, order) + bytes16(k.sport, ByteOrder::Big) + bytes16(
        k.dport,
        ByteOrder::Big,
    ) + k.src + k.dst + bytes32(0, order) + Seq::new(8, |i: int| 0xffu8)
}

/// The dump request for the sockets of one connection.
fn encode_request(k: &SockId, order: ByteOrder) -> (b: Vec<u8>)
    ensures
        b@ == request_bytes(k@, order),
{
    let mut b: Vec<u8> = Vec::new();
    push32(&mut b, DIAG_REQUEST_LEN, order);
    push16(&mut b, SOCK_DIAG_BY_FAMILY, order);
    push16(&mut b, DUMP_FLAGS, order);
    push32(&mut b, 1, order);
    push32(&mut b, 0, order);
    b.push(k.family);
    b.push(IPPROTO_TCP);
    b.push(INET_DIAG_INFO);
    b.push(0);
    push32(&mut b, OPEN_STATES, order);
    push16(&mut b, k.sport, ByteOrder::Big);
    push16(&mut b, k.dport, ByteOrder::Big);
    push_bytes(&mut b, k.src.as_slice());
    push_bytes(&mut b, k.dst.as_slice());
    push32(&mut b, 0, order);
    let cookie: [u8; 8] = [0xff, 0xff, 0xff, 0xff, 0xff, 0xff, 0xff, 0xff];
    push_bytes(&mut b, cookie.as_slice());
    assert(cookie@ =~= Seq::new(8, |i: int| 0xffu8));
    assert(b@ =~= request_bytes(k@, order));
    b
}

/// The request that looks up the client side of a connection that was accepted
/// at `local` from `peer`.
pub fn diag_request(local: &SocketAddr, peer: &SocketAddr, order: ByteOrder) -> (r: Result<
    Vec<u8>,
    IoFault,
>)
    ensures
        match socket_of(peer@, local@) {
            Some(k) => r matches Ok(b) && b@ == request_bytes(k, order),
            None => r matches Err(f) && f@ == family_mismatch(),
        },
{
    match socket_between(peer, local) {
        Ok(k) => Ok(encode_request(&k, order)),
        Err(f) => Err(f),
    }
}

/// Whether a socket's description is that of the connection `k`. An IPv4
/// address is its first four octets.
pub open spec fn describes(msg: Seq<u8>, k: SockView) -> bool {
    let n: int = if k.family == AF_INET {
        4
    } else {
        16
    };
    &&& msg[0] == k.family
    &&& num16(msg, 4, ByteOrder::Big) == k.sport
    &&& num16(msg, 6, ByteOrder::Big) == k.dport
    &&& msg.subrange(8, 8 + n) == k.src.take(n)
    &&& msg.subrange(24, 24 + n) == k.dst.take(n)
}

/// The owner in a socket's description.
pub open spec fn described_uid(msg: Seq<u8>, order: ByteOrder) -> Uid {
    num32(msg, 64, order) as u32
}

/// `n` rounded up to a multiple of four.
pub open spec fn align4(n: int) -> int {
    (n + 3) / 4 * 4
}

/// What one message of a dump says, as far as `rest` begins with one.
pub enum Item {
    /// No further message.
    End,
    /// The kernel reports an error.
    Failed,
    /// A message of this length, and the owner of the connection that was
    /// looked for, if the message describes it.
    Socket { len: int, uid: Option<Uid> },
}

/// What the first message of `rest` says of the connection `k`.
#[verifier::opaque]
pub open spec fn first_item(rest: Seq<u8>, k: SockView, order: ByteOrder) -> Item {
    if rest.len() < NLMSG_HDR_LEN {
        Item::End
    } else {
        let len = num32(rest, 0, order);
        let ty = num16(rest, 4, order);
        if len < NLMSG_HDR_LEN || len > rest.len() || ty == NLMSG_DONE {
            Item::End
        } else if ty == NLMSG_ERROR {
            Item::Failed
        } else {
            let msg = rest.subrange(NLMSG_HDR_LEN as int, NLMSG_HDR_LEN + DIAG_MSG_LEN);
            Item::Socket {
                len,
                uid: if len >= NLMSG_HDR_LEN + DIAG_MSG_LEN && describes(msg, k) {
                    Some(described_uid(msg, order))
                } else {
                    None
                },
            }
        }
    }
}

/// `rest` after a message of length `len`.
pub open spec fn after_item(rest: Seq<u8>, len: int) -> Seq<u8> {
    if align4(len) <= rest.len() {
        rest.skip(align4(len))
    } else {
        Seq::empty()
    }
}

/// The owners of the sockets in a dump that belong to the connection `k`,
/// behind those found so far; none where the kernel reports an error.
pub open spec fn owners(rest: Seq<u8>, k: SockView, order: ByteOrder, found: Seq<Uid>) -> Option<
    Seq<Uid>,
>
    decreases rest.len(),
{
    match first_item(rest, k, order) {
        Item::End => Some(found),
        Item::Failed => None,
        Item::Socket { len, uid } => if 0 < len <= rest.len() {
            owners(
                after_item(rest, len),
                k,
                order,
                match uid {
                    Some(u) => found.push(u),
                    None => found,
                },
            )
        } else {
            None
        },
    }
}

/// The owner of a connection: there must be exactly one.
pub open spec fn sole_owner(found: Option<Seq<Uid>>) -> Result<Uid, FaultView> {
    match found {
        None => Err(fault_view(IoKind::Other, "netlink sock_diag error"@)),
        Some(uids) => if uids.len() == 1 {
            Ok(uids[0])
        } else if uids.len() == 0 {
            Err(fault_view(IoKind::NotFound, "no matching TCP socket for peer UID lookup"@))
        } else {
            Err(fault_view(IoKind::Other, "ambiguous TCP peer UID (multiple matches)"@))
        },
    }
}

/// Whether `n` bytes at two positions are the same.
fn same_run(a: &[u8], at: usize, b: &[u8], n: usize) -> (r: bool)
    requires
        at + n <= a@.len(),
        n <= b@.len(),
    ensures
        r == (a@.subrange(at as int, at + n) == b@.take(n as int)),
{
    let total = a.len();
    let mut i: usize = 0;
    while i < n
        invariant
            i <= n,
            at + n <= a@.len(),
            a@.len() == total,
            n <= b@.len(),
            forall|j: int| 0 <= j < i ==> a@[at + j] == #[trigger] b@[j],
        decreases n - i,
    {
        if a[at + i] != b[i] {
            assert(a@.subrange(at as int, at + n)[i as int] != b@.take(n as int)[i as int]);
            return false;
        }
        i += 1;
    }
    assert(a@.subrange(at as int, at + n) =~= b@.take(n as int));
    true
}

/// Whether the description at `at` is that of the connection `k`.
fn is_described(buf: &[u8], at: usize, k: &SockId) -> (r: bool)
    requires
        at + DIAG_MSG_LEN <= buf@.len(),
        k.src@.len() == 16,
        k.dst@.len() == 16,
    ensures
        r == describes(buf@.subrange(at as int, at + DIAG_MSG_LEN), k@),
{
    let ghost msg = buf@.subrange(at as int, at + DIAG_MSG_LEN);
    let n: usize = if k.family == AF_INET {
        4
    } else {
        16
    };
    proof {
        assert(msg.subrange(8, 8 + n as int) =~= buf@.subrange(at + 8, at + 8 + n));
        assert(msg.subrange(24, 24 + n as int) =~= buf@.subrange(at + 24, at + 24 + n));
    }
    buf[at] == k.family && read16(buf, at + 4, ByteOrder::Big) == k.sport && read16(
        buf,
        at + 6,
        ByteOrder::Big,
    ) == k.dport && same_run(buf, at + 8, k.src.as_slice(), n) && same_run(
        buf,
        at + 24,
        k.dst.as_slice(),
        n,
    )
}

/// What the first message at a position says.
enum Message {
    End,
    Failed,
    Socket { len: usize, uid: Option<Uid> },
}

impl Message {
    spec fn item(self) -> Item {
        match self {
            Message::End => Item::End,
            Message::Failed => Item::Failed,
            Message::Socket { len, uid } => Item::Socket { len: len as int, uid },
        }
    }
}

/// What the message at `offset` says of the connection `k`.
fn read_item(buf: &[u8], offset: usize, k: &SockId, order: ByteOrder) -> (r: Message)
    requires
        offset <= buf@.len(),
        k.src@.len() == 16,
        k.dst@.len() == 16,
    ensures
        r.item() == first_item(buf@.skip(offset as int), k@, order),
        r matches Message::Socket { len, .. } ==> 0 < len <= buf@.len() - offset,
{
    reveal(first_item);
    let ghost rest = buf@.skip(offset as int);
    if buf.len() - offset < NLMSG_HDR_LEN {
        return Message::End;
    }
    let len = read32(buf, offset, order) as usize;
    let ty = read16(buf, offset + 4, order);
    assert(num32(rest, 0, order) == len);
    assert(num16(rest, 4, order) == ty);
    if len < NLMSG_HDR_LEN || len > buf.len() - offset || ty == NLMSG_DONE {
        return Message::End;
    }
    if ty == NLMSG_ERROR {
        return Message::Failed;
    }
    let mut uid: Option<Uid> = None;
    if len >= NLMSG_HDR_LEN + DIAG_MSG_LEN {
        let at = offset + NLMSG_HDR_LEN;
        let ghost msg = rest.subrange(NLMSG_HDR_LEN as int, NLMSG_HDR_LEN + DIAG_MSG_LEN);
        assert(buf@.subrange(at as int, at + DIAG_MSG_LEN) =~= msg);
        if is_described(buf, at, k) {
            let owner = read32(buf, at + 64, order);
            assert(owner == num32(msg, 64, order));
            uid = Some(owner);
        }
    }
    Message::Socket { len, uid }
}

/// The position after a message of length `len` at `offset`.
fn next_offset(buf: &[u8], offset: usize, len: usize) -> (r: usize)
    requires
        offset + len <= buf@.len(),
    ensures
        offset + len <= r <= buf@.len(),
        buf@.skip(r as int) == after_item(buf@.skip(offset as int), len as int),
{
    let total: usize = buf.len();
    let end: usize = offset + len;
    let pad: usize = (4 - len % 4) % 4;
    let ghost rest = buf@.skip(offset as int);
    assert(align4(len as int) == len + pad);
    if pad > total - end {
        assert(after_item(rest, len as int) =~= buf@.skip(total as int));
        total
    } else {
        assert(after_item(rest, len as int) =~= buf@.skip(end + pad));
        end + pad
    }
}

/// The owner of the connection `k` according to a dump.
pub fn parse_inet_diag_uid(buf: &[u8], k: &SockId, order: ByteOrder) -> (r: Result<Uid, IoFault>)
    requires
        k.src@.len() == 16,
        k.dst@.len() == 16,
    ensures
        match sole_owner(owners(buf@, k@, order, Seq::empty())) {
            Ok(u) => r matches Ok(uid) && uid == u,
            Err(e) => r matches Err(f) && f@ == e,
        },
{
    let mut matches: Vec<Uid> = Vec::new();
    let mut offset: usize = 0;
    let ghost whole = owners(buf@, k@, order, Seq::empty());
    assert(buf@.skip(0) =~= buf@);
    loop
        invariant_except_break
            offset <= buf@.len(),
            k.src@.len() == 16,
            k.dst@.len() == 16,
            whole == owners(buf@, k@, order, Seq::empty()),
            whole == owners(buf@.skip(offset as int), k@, order, matches@),
        ensures
            whole == Some(matches@),
        decreases buf@.len() - offset,
    {
        let (len, uid) = match read_item(buf, offset, k, order) {
            Message::End => {
                break;
            },
            Message::Failed => {
                return Err(fault(IoKind::Other, "netlink sock_diag error"));
            },
            Message::Socket { len, uid } => (len, uid),
        };
        if let Some(uid) = uid {
            matches.push(uid);
        }
        offset = next_offset(buf, offset, len);
    }
    if matches.len() == 1 {
        Ok(matches[0])
    } else if matches.len() == 0 {
        Err(fault(IoKind::NotFound, "no matching TCP socket for peer UID lookup"))
    } else {
        Err(fault(IoKind::Other, "ambiguous TCP peer UID (multiple matches)"))
    }
}

/// The user behind a connection that was accepted at `local` from `peer`,
/// according to the reply to [`diag_request`].
pub fn tcp_peer_uid(local: &SocketAddr, peer: &SocketAddr, reply: &[u8], order: ByteOrder) -> (r:
    Result<Uid, IoFault>)
    ensures
        match socket_of(peer@, local@) {
            None => r matches Err(f) && f@ == family_mismatch(),
            Some(k) => match sole_owner(owners(reply@, k, order, Seq::empty())) {
                Ok(u) => r matches Ok(uid) && uid == u,
                Err(e) => r matches Err(f) && f@ == e,
            },
        },
{
    match socket_between(peer, local) {
        Ok(k) => parse_inet_diag_uid(reply, &k, order),
        Err(f) => Err(f),
    }
}

/// Whether `m` is one complete message of a dump that describes a socket.
pub open spec fn socket_message(m: Seq<u8>, order: ByteOrder) -> bool {
    &&& m.len() == NLMSG_HDR_LEN + DIAG_MSG_LEN
    &&& num32(m, 0, order) == m.len()
    &&& num16(m, 4, order) != NLMSG_DONE
    &&& num16(m, 4, order) != NLMSG_ERROR
}

/// In a dump, a socket of the connection that is looked for counts with its
/// owner, and any other socket does not count.
pub proof fn only_matching_sockets_count(
    m: Seq<u8>,
    rest: Seq<u8>,
    k: SockView,
    order: ByteOrder,
    found: Seq<Uid>,
)
    requires
        socket_message(m, order),
    ensures
        owners(m + rest, k, order, found) == owners(
            rest,
            k,
            order,
            if describes(m.skip(NLMSG_HDR_LEN as int), k) {
                found.push(described_uid(m.skip(NLMSG_HDR_LEN as int), order))
            } else {
                found
            },
        ),
{
    reveal(first_item);
    let all = m + rest;
    let len = m.len() as int;
    assert(num32(all, 0, order) == len);
    assert(num16(all, 4, order) == num16(m, 4, order));
    assert(all.subrange(NLMSG_HDR_LEN as int, NLMSG_HDR_LEN + DIAG_MSG_LEN) =~= m.skip(
        NLMSG_HDR_LEN as int,
    ));
    assert(align4(len) == len);
    assert(after_item(all, len) =~= rest);
}

/// A connection has an owner only where exactly one socket was found for it:
/// no match, several matches and a failed dump identify nobody.
pub proof fn unclear_owners_are_refused(found: Option<Seq<Uid>>, uid: Uid)
    ensures
        sole_owner(found) == Ok::<Uid, FaultView>(uid) <==> found == Some(seq![uid]),
{
    if let Some(uids) = found {
        if uids.len() == 1 {
            assert(uids =~= seq![uids[0]]);
        }
    }
    assert(seq![uid].len() == 1 && seq![uid][0] == uid);
}

/// The lookup is for the client's side of the connection: its address is the
/// source, that of the server the destination.
pub proof fn lookup_is_for_the_client_side(local: AddrView, peer: AddrView)
    ensures
        socket_of(peer, local) matches Some(k) ==> k.sport == peer.port() && k.dport == local.port()
            && k.src == wide(peer) && k.dst == wide(local),
        socket_of(peer, local) is None <==> (peer is V4) != (local is V4),
{
}

/// Only these addresses are on this machine alone: `127.x.y.z`, `::1` and
/// `::ffff:127.x.y.z`.
pub proof fn loopback_addresses(addr: AddrView, octets: Seq<u8>)
    requires
        octets.len() == 16,
    ensures
        addr matches AddrView::V4 { ip, .. } ==> (loopback_addr(addr) <==> ip[0] == 127),
        addr matches AddrView::V6 { octets: o, .. } && o == octets ==> (loopback_addr(addr) <==> (
        octets =~= seq![0u8, 0u8, 0u8, 0u8, 0u8, 0u8, 0u8, 0u8, 0u8, 0u8, 0u8, 0u8, 0u8, 0u8, 0u8, 1u8]
            || octets.take(13) =~= seq![
            0u8,
            0u8,
            0u8,
            0u8,
            0u8,
            0u8,
            0u8,
            0u8,
            0u8,
            0u8,
            0xffu8,
            0xffu8,
            127u8,
        ])),
{
    let one = seq![0u8, 0u8, 0u8, 0u8, 0u8, 0u8, 0u8, 0u8, 0u8, 0u8, 0u8, 0u8, 0u8, 0u8, 0u8, 1u8];
    let mapped = seq![
        0u8,
        0u8,
        0u8,
        0u8,
        0u8,
        0u8,
        0u8,
        0u8,
        0u8,
        0u8,
        0xffu8,
        0xffu8,
        127u8,
    ];
    if octets == one {
        assert(v6_loopback(octets));
    }
    if octets.take(13) == mapped {
        assert forall|i: int| 0 <= i < 13 implies octets[i] == mapped[i] by {
            assert(octets.take(13)[i] == octets[i]);
        }
        assert(v6_mapped_loopback(octets));
    }
}

/// Numbers are read back from their bytes in the machine's order.
pub proof fn numbers_are_read_back_from_bytes(v: u16, w: u32, order: ByteOrder)
    ensures
        bytes16(v, order).len() == 2,
        num16(bytes16(v, order), 0, order) == v,
        bytes32(w, order).len() == 4,
        num32(bytes32(w, order), 0, order) == w,
        bytes16(v, ByteOrder::Big)[0] == v / 0x100,
        bytes16(v, ByteOrder::Little)[0] == v % 0x100,
        bytes32(w, ByteOrder::Big)[0] == w / 0x100_0000,
        bytes32(w, ByteOrder::Little)[0] == w % 0x100,
{
    let hi = (w / 0x1_0000) as u16;
    let lo = (w % 0x1_0000) as u16;
    let b = bytes32(w, order);
    assert(num16(bytes16(hi, order), 0, order) == hi);
    assert(num16(bytes16(lo, order), 0, order) == lo);
    assert(b.len() == 4);
    if order == ByteOrder::Little {
        assert(b[0] == bytes16(lo, order)[0] && b[1] == bytes16(lo, order)[1]);
        assert(b[2] == bytes16(hi, order)[0] && b[3] == bytes16(hi, order)[1]);
    } else {
        assert(b[0] == bytes16(hi, order)[0] && b[1] == bytes16(hi, order)[1]);
        assert(b[2] == bytes16(lo, order)[0] && b[3] == bytes16(lo, order)[1]);
    }
}

/// A request asks the kernel for the open TCP sockets of the family, with the ports
/// and addresses of the connection in network order.
pub proof fn requests_ask_for_the_connection(k: SockView, order: ByteOrder)
    requires
        k.src.len() == 16,
        k.dst.len() == 16,
    ensures
        ({
            let b = request_bytes(k, order);
            &&& b.len() == 72
            &&& num32(b, 0, order) == 72
            &&& num16(b, 4, order) == 20
            &&& num16(b, 6, order) == 0x301
            &&& b[16] == k.family
            &&& b[17] == 6
            &&& num32(b, 20, order) == 14
            &&& b[24] * 0x100 + b[25] == k.sport
            &&& b[26] * 0x100 + b[27] == k.dport
            &&& b.subrange(28, 44) == k.src
            &&& b.subrange(44, 60) == k.dst
        }),
{
    let b = request_bytes(k, order);
    numbers_are_read_back_from_bytes(SOCK_DIAG_BY_FAMILY, DIAG_REQUEST_LEN, order);
    numbers_are_read_back_from_bytes(DUMP_FLAGS, 1, order);
    numbers_are_read_back_from_bytes(k.sport, 0, ByteOrder::Big);
    numbers_are_read_back_from_bytes(k.dport, OPEN_STATES, order);
    numbers_are_read_back_from_bytes(k.dport, 0, ByteOrder::Big);
    numbers_are_read_back_from_bytes(k.dport, 0, order);
    let a = bytes32(DIAG_REQUEST_LEN, order);
    let c = bytes16(SOCK_DIAG_BY_FAMILY, order);
    let d = bytes16(DUMP_FLAGS, order);
    let e = bytes32(OPEN_STATES, order);
    assert(b.subrange(0, 4) =~= a);
    assert(b[0] == a[0] && b[1] == a[1] && b[2] == a[2] && b[3] == a[3]);
    assert(b[4] == c[0] && b[5] == c[1]);
    assert(b[6] == d[0] && b[7] == d[1]);
    assert(b[20] == e[0] && b[21] == e[1] && b[22] == e[2] && b[23] == e[3]);
    assert(b.subrange(28, 44) =~= k.src);
    assert(b.subrange(44, 60) =~= k.dst);
    let s = bytes16(k.sport, ByteOrder::Big);
    let t = bytes16(k.dport, ByteOrder::Big);
    assert(b[24] == s[0] && b[25] == s[1]);
    assert(b[26] == t[0] && b[27] == t[1]);
}

/// A socket belongs to a connection exactly if its family, both ports and both
/// addresses are those of the connection; its owner is the number at its place.
pub proof fn sockets_are_told_by_ports_and_addresses(msg: Seq<u8>, k: SockView, order: ByteOrder)
    requires
        msg.len() == 72,
        k.src.len() == 16,
        k.dst.len() == 16,
    ensures
        ({
            let n: int = if k.family == 2 {
                4
            } else {
                16
            };
            describes(msg, k) <==> {
                &&& msg[0] == k.family
                &&& msg[4] * 0x100 + msg[5] == k.sport
                &&& msg[6] * 0x100 + msg[7] == k.dport
                &&& forall|i: int| 0 <= i < n ==> msg[8 + i] == #[trigger] k.src[i]
                &&& forall|i: int| 0 <= i < n ==> msg[24 + i] == #[trigger] k.dst[i]
            }
        }),
        order == ByteOrder::Little ==> described_uid(msg, order) == msg[64] + msg[65] * 0x100
            + msg[66] * 0x1_0000 + msg[67] * 0x100_0000,
        order == ByteOrder::Big ==> described_uid(msg, order) == msg[67] + msg[66] * 0x100 + msg[65]
            * 0x1_0000 + msg[64] * 0x100_0000,
{
    let n: int = if k.family == 2 {
        4
    } else {
        16
    };
    let a = msg.subrange(8, 8 + n);
    let b = msg.subrange(24, 24 + n);
    assert forall|i: int| 0 <= i < n implies a[i] == msg[8 + i] && k.src.take(n)[i]
        == #[trigger] k.src[i] by {}
    assert forall|i: int| 0 <= i < n implies b[i] == msg[24 + i] && k.dst.take(n)[i]
        == #[trigger] k.dst[i] by {}
    if (forall|i: int| 0 <= i < n ==> msg[8 + i] == #[trigger] k.src[i]) {
        assert(a =~= k.src.take(n));
    }
    if (forall|i: int| 0 <= i < n ==> msg[24 + i] == #[trigger] k.dst[i]) {
        assert(b =~= k.dst.take(n));
    }
    if a == k.src.take(n) {
        assert forall|i: int| 0 <= i < n implies msg[8 + i] == #[trigger] k.src[i] by {
            assert(a[i] == k.src.take(n)[i]);
        }
    }
    if b == k.dst.take(n) {
        assert forall|i: int| 0 <= i < n implies msg[24 + i] == #[trigger] k.dst[i] by {
            assert(b[i] == k.dst.take(n)[i]);
        }
    }
}

/// A dump ends with its last message; an error in it makes it void.
pub proof fn dumps_end_or_fail(m: Seq<u8>, rest: Seq<u8>, k: SockView, order: ByteOrder, found: Seq<Uid>)
    requires
        m.len() >= 16,
        num32(m, 0, order) == m.len(),
    ensures
        num16(m, 4, order) == 3 ==> owners(m + rest, k, order, found) == Some(found),
        num16(m, 4, order) == 2 ==> owners(m + rest, k, order, found) is None,
        owners(Seq::empty(), k, order, found) == Some(found),
{
    reveal(first_item);
    let all = m + rest;
    assert(num32(all, 0, order) == m.len());
    assert(num16(all, 4, order) == num16(m, 4, order));
}

/// The shared listener is supported on Linux alone, and elsewhere there is a reason.
pub proof fn linux_alone_is_supported(p: Platform, r: bool, why: String)
    requires
        call_ensures(multi_user_supported, (p,), r),
        call_ensures(multi_user_unsupported_reason, (p,), why),
    ensures
        r <==> p == Platform::Linux,
        r <==> why@.len() == 0,
{
    reveal_strlit("");
    reveal_strlit(
        "macOS does not support shared :5037 multi-user mode: no portable unprivileged API to resolve the owner UID of an accepted loopback TCP peer. Use one port per user with ADB_SERVER_SOCKET=tcp:127.0.0.1:<port>.",
    );
    reveal_strlit(
        "Windows does not support shared :5037 multi-user mode yet. Use one port per user with ADB_SERVER_SOCKET=tcp:127.0.0.1:<port>.",
    );
    reveal_strlit(
        "shared :5037 multi-user mode is only supported on Linux (same network namespace). Use one port per user or an isolated network namespace.",
    );
}

} // verus!
