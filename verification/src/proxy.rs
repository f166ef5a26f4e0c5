//! The proxy in front of an adb server: what it does for one client.
//!
//! A connection is served in steps. Each step says what to send to the client
//! and to the upstream server, and what to wait for next; the function for
//! that decides the following step.

use vstd::prelude::*;
use vstd::string::*;
use vstd::utf8::*;

use crate::addr::{AddrView, SocketAddr};
use crate::auth::{
    accept_auth, auth_chars, auth_refusal, only_the_pair_code_passes, valid_pair_code,
};
use crate::compat::PROXY_VERSION_SERVICE;
use crate::fault::{benign, is_benign, FaultView, IoFault, IoKind};
use crate::octets::{lossy_seq, lossy_text, push_bytes};
use crate::policy::{
    enabled_by, filter_devices_by, filter_lines, filtered_list_holds_the_kept_lines,
    kept_devices_stay_listed, transport_requests_name_a_device, transport_serial, transport_target,
    DevicePolicyTable,
};
use crate::protocol::{
    fail_bytes, is_fail, is_okay, okay_payload_bytes, okay_status, packet_bytes, service_bytes,
    write_packet, write_service,
};
use crate::registry::device_fields;
use crate::session::{done_view, fail_reply, payload_view, text_reply};
use crate::text::{cat2, cat3, has_prefix, lines_seq, str_eq, without_cr};

verus! {

/// How a proxy is to run.
#[derive(Clone, Debug, PartialEq, Eq)]
pub struct ProxyConfig {
    pub listen: SocketAddr,
    pub target: SocketAddr,
    /// 8-character A-Z0-9 pair code required on every client connection.
    pub pair_code: String,
    /// Path to the device policy, which is reloaded when it changes.
    pub policy_path: String,
}

/// What a served connection came to.
#[derive(Clone, Debug, PartialEq, Eq)]
pub struct ProxyStats {
    pub client_addr: SocketAddr,
    pub target_addr: SocketAddr,
    pub bytes_client_to_server: u64,
    pub bytes_server_to_client: u64,
    pub duration_ms: u64,
}

/// Why the proxy failed.
#[derive(Debug)]
pub enum ProxyError {
    Io(IoFault),
    PortNotReady { addr: SocketAddr, timeout_ms: u64 },
}

/// How `std::time::Duration` of that many milliseconds shows itself in `Debug`
/// form.
pub uninterp spec fn duration_text(ms: u64) -> Seq<char>;

/// `Debug` of `std::time::Duration::from_millis` depends on the number of
/// milliseconds alone.
#[verifier::external_body]
fn debug_millis(ms: u64) -> (s: String)
    ensures
        s@ == duration_text(ms),
{
    format!("{:?}", std::time::Duration::from_millis(ms))
}

/// The message for a port that was not ready within the time `shown`.
pub open spec fn not_ready_chars(addr: AddrView, shown: Seq<char>) -> Seq<char> {
    "port "@ + addr.chars() + " did not become ready within "@ + shown
}

/// The message for a port that was not ready within the time `shown`.
pub fn not_ready_message(addr: &SocketAddr, shown: &str) -> (s: String)
    ensures
        s@ == not_ready_chars(addr@, shown@),
{
    let at = addr.to_string();
    let mut s = cat3("port ", at.as_str(), " did not become ready within ");
    s.append(shown);
    s
}

impl ProxyError {
    /// The message shown to the user.
    pub open spec fn chars(self) -> Seq<char> {
        match self {
            ProxyError::Io(f) => "io error: "@ + f.message@,
            ProxyError::PortNotReady { addr, timeout_ms } => not_ready_chars(
                addr@,
                duration_text(timeout_ms),
            ),
        }
    }

    /// The message shown to the user.
    pub fn to_string(&self) -> (s: String)
        ensures
            s@ == self.chars(),
    {
        match self {
            ProxyError::Io(f) => cat2("io error: ", f.message.as_str()),
            ProxyError::PortNotReady { addr, timeout_ms } => {
                let shown = debug_millis(*timeout_ms);
                not_ready_message(addr, shown.as_str())
            },
        }
    }
}

/// Whether a connection ended because a peer went away.
pub fn is_expected_disconnect(err: &ProxyError) -> (r: bool)
    ensures
        r == (err matches ProxyError::Io(f) && benign(f.kind)),
{
    match err {
        ProxyError::Io(f) => is_benign(f.kind),
        ProxyError::PortNotReady { .. } => false,
    }
}

/// One attempt to connect to a port.
#[derive(Debug)]
pub enum Attempt {
    Connected,
    Failed(IoFault),
    TimedOut,
}

/// What to do after an attempt to connect.
#[derive(Debug)]
pub enum WaitAction {
    Ready,
    GiveUp(ProxyError),
    Retry,
}

/// Decide what to do after an attempt to connect, `elapsed_ms` after the first.
pub fn wait_for_port(
    addr: &SocketAddr,
    attempt: Attempt,
    elapsed_ms: u64,
    max_wait_ms: u64,
) -> (a: WaitAction)
    ensures
        match attempt {
            Attempt::Connected => a is Ready,
            Attempt::Failed(f) => if elapsed_ms >= max_wait_ms {
                a == WaitAction::GiveUp(ProxyError::Io(f))
            } else {
                a is Retry
            },
            Attempt::TimedOut => if elapsed_ms >= max_wait_ms {
                a matches WaitAction::GiveUp(ProxyError::PortNotReady { addr: at, timeout_ms })
                    && at@ == addr@ && timeout_ms == max_wait_ms
            } else {
                a is Retry
            },
        },
{
    match attempt {
        Attempt::Connected => WaitAction::Ready,
        Attempt::Failed(f) => if elapsed_ms >= max_wait_ms {
            WaitAction::GiveUp(ProxyError::Io(f))
        } else {
            WaitAction::Retry
        },
        Attempt::TimedOut => if elapsed_ms >= max_wait_ms {
            WaitAction::GiveUp(
                ProxyError::PortNotReady { addr: addr.clone(), timeout_ms: max_wait_ms },
            )
        } else {
            WaitAction::Retry
        },
    }
}

/// How a connection ended.
#[derive(Debug)]
pub enum ProxyEnd {
    /// The client did not authenticate.
    Rejected,
    /// The client was served; so many bytes were piped.
    Served { client_to_server: u64, server_to_client: u64 },
    /// The connection failed.
    Failed(IoFault),
}

/// What a connection waits for.
#[derive(Debug)]
pub enum Awaiting {
    /// The client's service: [`choose_service`].
    Service,
    /// The connection to the upstream server: [`open_upstream`].
    Upstream { service: String },
    /// The upstream's device list: [`relay_list`].
    List,
    /// The upstream's answer to a tracking request: [`relay_track_status`].
    TrackStatus,
    /// The upstream's reason for refusing it: [`relay_track_reason`].
    TrackReason,
    /// The next device list: [`relay_next_list`]. `told` once one was sent.
    NextList { told: bool },
    /// The end of the pipe between client and upstream: [`finish_pipe`].
    Pipe,
    /// Nothing more.
    End(ProxyEnd),
}

/// One step of a connection: what to send, then what to wait for.
#[derive(Debug)]
pub struct ProxyStep {
    pub to_client: Vec<u8>,
    pub to_upstream: Vec<u8>,
    pub then_await: Awaiting,
}

/// Model of [`ProxyEnd`].
pub enum EndView {
    Rejected,
    Served { client_to_server: u64, server_to_client: u64 },
    Failed(FaultView),
}

/// Model of [`Awaiting`].
pub enum AwaitView {
    Service,
    Upstream { service: Seq<char> },
    List,
    TrackStatus,
    TrackReason,
    NextList { told: bool },
    Pipe,
    End(EndView),
}

/// Model of [`ProxyStep`].
pub struct StepView {
    pub to_client: Seq<u8>,
    pub to_upstream: Seq<u8>,
    pub then_await: AwaitView,
}

impl View for ProxyEnd {
    type V = EndView;

    open spec fn view(&self) -> EndView {
        match self {
            ProxyEnd::Rejected => EndView::Rejected,
            ProxyEnd::Served { client_to_server, server_to_client } => EndView::Served {
                client_to_server: *client_to_server,
                server_to_client: *server_to_client,
            },
            ProxyEnd::Failed(f) => EndView::Failed(f@),
        }
    }
}

impl View for Awaiting {
    type V = AwaitView;

    open spec fn view(&self) -> AwaitView {
        match self {
            Awaiting::Service => AwaitView::Service,
            Awaiting::Upstream { service } => AwaitView::Upstream { service: service@ },
            Awaiting::List => AwaitView::List,
            Awaiting::TrackStatus => AwaitView::TrackStatus,
            Awaiting::TrackReason => AwaitView::TrackReason,
            Awaiting::NextList { told } => AwaitView::NextList { told: *told },
            Awaiting::Pipe => AwaitView::Pipe,
            Awaiting::End(e) => AwaitView::End(e@),
        }
    }
}

impl View for ProxyStep {
    type V = StepView;

    open spec fn view(&self) -> StepView {
        StepView {
            to_client: self.to_client@,
            to_upstream: self.to_upstream@,
            then_await: self.then_await@,
        }
    }
}

/// A client that was served without a pipe.
pub open spec fn served() -> AwaitView {
    AwaitView::End(EndView::Served { client_to_server: 0, server_to_client: 0 })
}

/// A step that only sends to the client.
pub open spec fn to_client(bytes: Seq<u8>, then_await: AwaitView) -> StepView {
    StepView { to_client: bytes, to_upstream: Seq::empty(), then_await }
}

/// A step that only sends to the upstream server.
pub open spec fn to_upstream(bytes: Seq<u8>, then_await: AwaitView) -> StepView {
    StepView { to_client: Seq::empty(), to_upstream: bytes, then_await }
}

/// The connection failed.
pub open spec fn failed(f: FaultView) -> StepView {
    to_client(Seq::empty(), AwaitView::End(EndView::Failed(f)))
}

fn reply_step(bytes: Vec<u8>, then_await: Awaiting) -> (s: ProxyStep)
    ensures
        s@ == to_client(bytes@, then_await@),
{
    ProxyStep { to_client: bytes, to_upstream: Vec::new(), then_await }
}

fn failed_step(f: IoFault) -> (s: ProxyStep)
    ensures
        s@ == failed(f@),
{
    reply_step(Vec::new(), Awaiting::End(ProxyEnd::Failed(f)))
}

fn served_end() -> (a: Awaiting)
    ensures
        a@ == served(),
{
    Awaiting::End(ProxyEnd::Served { client_to_server: 0, server_to_client: 0 })
}

fn service_step(service: &str, then_await: Awaiting) -> (s: ProxyStep)
    ensures
        s@ == to_upstream(service_bytes(service@), then_await@),
{
    let mut b: Vec<u8> = Vec::new();
    write_service(&mut b, service);
    assert(b@ =~= service_bytes(service@));
    ProxyStep { to_client: Vec::new(), to_upstream: b, then_await }
}

/// The step after the client's first packet.
pub open spec fn auth_step(first: Result<Seq<u8>, FaultView>, pair_code: Seq<char>) -> StepView {
    let missing = first matches Err(f) && f.kind == IoKind::UnexpectedEof;
    match first {
        Err(f) if !missing => failed(f),
        _ => {
            let packet = match first {
                Ok(p) => Some(p),
                Err(_) => None,
            };
            match auth_refusal(packet, pair_code) {
                None => to_client(okay_status(), AwaitView::Service),
                Some(why) => to_client(fail_bytes(why), AwaitView::End(EndView::Rejected)),
            }
        },
    }
}

/// Judge the first packet of a client, which must hold the pair code.
pub fn authenticate(first: Result<Vec<u8>, IoFault>, pair_code: &str) -> (s: ProxyStep)
    ensures
        s@ == auth_step(payload_view(first), pair_code@),
{
    let mut reply: Vec<u8> = Vec::new();
    let accepted = match first {
        Ok(p) => accept_auth(Some(p.as_slice()), pair_code, &mut reply),
        Err(f) => {
            if f.kind != IoKind::UnexpectedEof {
                return failed_step(f);
            }
            accept_auth(None, pair_code, &mut reply)
        },
    };
    if accepted {
        assert(reply@ =~= okay_status());
        reply_step(reply, Awaiting::Service)
    } else {
        let ghost packet = match payload_view(first) {
            Ok(p) => Some(p),
            Err(_) => None,
        };
        assert(reply@ =~= fail_bytes(auth_refusal(packet, pair_code@)->0));
        reply_step(reply, Awaiting::End(ProxyEnd::Rejected))
    }
}

/// The step for a service of an authenticated client.
pub open spec fn service_choice(
    service: Seq<char>,
    policy: Map<Seq<char>, bool>,
    version: Seq<char>,
) -> StepView {
    let target = transport_target(service);
    if target is Some && !enabled_by(policy, target->0) {
        to_client(fail_bytes("device '"@ + target->0 + "' is disabled"@), served())
    } else if service == PROXY_VERSION_SERVICE@ {
        to_client(okay_payload_bytes(encode_utf8(version)), served())
    } else {
        to_client(Seq::empty(), AwaitView::Upstream { service })
    }
}

/// The step after an authenticated client's service packet.
pub open spec fn choice_step(
    packet: Result<Seq<u8>, FaultView>,
    policy: Map<Seq<char>, bool>,
    version: Seq<char>,
) -> StepView {
    match packet {
        Err(f) => if f.kind == IoKind::UnexpectedEof {
            to_client(Seq::empty(), served())
        } else {
            failed(f)
        },
        Ok(p) => service_choice(lossy_seq(p), policy, version),
    }
}

/// Decide what to do for the service of an authenticated client. A transport
/// to a disabled device is refused; `version` answers `proxy:version`.
pub fn choose_service(
    packet: Result<Vec<u8>, IoFault>,
    policy: &DevicePolicyTable,
    version: &str,
) -> (s: ProxyStep)
    ensures
        s@ == choice_step(payload_view(packet), policy@, version@),
{
    let packet = match packet {
        Ok(p) => p,
        Err(f) => {
            if f.kind == IoKind::UnexpectedEof {
                return reply_step(Vec::new(), served_end());
            }
            return failed_step(f);
        },
    };
    let service = lossy_text(packet.as_slice());
    if let Some(serial) = transport_serial(service.as_str()) {
        if !policy.is_enabled(serial) {
            let reason = cat3("device '", serial, "' is disabled");
            return reply_step(fail_reply(reason.as_str()), served_end());
        }
    }
    if str_eq(service.as_str(), PROXY_VERSION_SERVICE) {
        return reply_step(text_reply(version), served_end());
    }
    reply_step(Vec::new(), Awaiting::Upstream { service })
}

/// What is awaited from the upstream server for a service.
pub open spec fn awaited_for(service: Seq<char>) -> AwaitView {
    if service == "host:devices"@ || service == "host:devices-l"@ {
        AwaitView::List
    } else if service == "host:track-devices"@ || service == "host:track-devices-l"@ {
        AwaitView::TrackStatus
    } else {
        AwaitView::Pipe
    }
}

/// The step after connecting to the upstream server.
pub open spec fn upstream_step(service: Seq<char>, connected: Result<(), FaultView>) -> StepView {
    match connected {
        Err(f) => failed(f),
        Ok(_) => to_upstream(service_bytes(service), awaited_for(service)),
    }
}

/// Replay the service to the upstream server. Device lists are waited for, all
/// else is piped.
pub fn open_upstream(service: &str, connected: Result<(), IoFault>) -> (s: ProxyStep)
    ensures
        s@ == upstream_step(service@, done_view(connected)),
{
    if let Err(f) = connected {
        return failed_step(f);
    }
    if str_eq(service, "host:devices") || str_eq(service, "host:devices-l") {
        service_step(service, Awaiting::List)
    } else if str_eq(service, "host:track-devices") || str_eq(service, "host:track-devices-l") {
        service_step(service, Awaiting::TrackStatus)
    } else {
        service_step(service, Awaiting::Pipe)
    }
}

/// A device list without the disabled devices.
pub open spec fn filtered_body(body: Seq<u8>, policy: Map<Seq<char>, bool>) -> Seq<char> {
    filter_lines(lines_seq(lossy_seq(body)), |s: Seq<char>| enabled_by(policy, s))
}

/// A device list without the disabled devices.
fn filter_body(body: &[u8], policy: &DevicePolicyTable) -> (s: String)
    ensures
        s@ == filtered_body(body@, policy@),
{
    let text = lossy_text(body);
    filter_devices_by(text.as_str(), policy)
}

/// The step after the upstream's device list.
pub open spec fn list_step(
    body: Result<Seq<u8>, FaultView>,
    policy: Map<Seq<char>, bool>,
) -> StepView {
    match body {
        Err(f) => failed(f),
        Ok(b) => to_client(
            okay_payload_bytes(encode_utf8(filtered_body(b, policy))),
            served(),
        ),
    }
}

/// Pass the upstream's device list on, without the disabled devices.
pub fn relay_list(body: Result<Vec<u8>, IoFault>, policy: &DevicePolicyTable) -> (s: ProxyStep)
    ensures
        s@ == list_step(payload_view(body), policy@),
{
    match body {
        Err(f) => failed_step(f),
        Ok(b) => {
            let text = filter_body(b.as_slice(), policy);
            reply_step(text_reply(text.as_str()), served_end())
        },
    }
}

/// The model of a status that was read.
pub open spec fn status_view(status: Result<[u8; 4], IoFault>) -> Result<Seq<u8>, FaultView> {
    match status {
        Ok(s) => Ok(s@),
        Err(f) => Err(f@),
    }
}

/// The step after the upstream's answer to a tracking request.
pub open spec fn track_status_step(status: Result<Seq<u8>, FaultView>) -> StepView {
    match status {
        Err(f) => failed(f),
        Ok(s) => to_client(
            s,
            if s == okay_status() {
                AwaitView::NextList { told: false }
            } else if s == crate::protocol::fail_status() {
                AwaitView::TrackReason
            } else {
                served()
            },
        ),
    }
}

/// Pass the upstream's answer to a tracking request on.
pub fn relay_track_status(status: Result<[u8; 4], IoFault>) -> (s: ProxyStep)
    ensures
        s@ == track_status_step(status_view(status)),
{
    match status {
        Err(f) => failed_step(f),
        Ok(st) => {
            let mut b: Vec<u8> = Vec::new();
            push_bytes(&mut b, st.as_slice());
            assert(b@ =~= st@);
            assert(okay_status() != crate::protocol::fail_status()) by {
                assert(okay_status()[0] != crate::protocol::fail_status()[0]);
            }
            if is_okay(&st) {
                reply_step(b, Awaiting::NextList { told: false })
            } else if is_fail(&st) {
                reply_step(b, Awaiting::TrackReason)
            } else {
                reply_step(b, served_end())
            }
        },
    }
}

/// The step after the upstream's reason: it is passed on, or an empty one
/// where none could be read.
pub open spec fn track_reason_step(reason: Result<Seq<u8>, FaultView>) -> StepView {
    to_client(
        packet_bytes(
            match reason {
                Ok(r) => r,
                Err(_) => Seq::empty(),
            },
        ),
        served(),
    )
}

/// Pass the upstream's reason for refusing to track on.
pub fn relay_track_reason(reason: Result<Vec<u8>, IoFault>) -> (s: ProxyStep)
    ensures
        s@ == track_reason_step(payload_view(reason)),
{
    let reason: Vec<u8> = match reason {
        Ok(r) => r,
        Err(_) => Vec::new(),
    };
    let mut b: Vec<u8> = Vec::new();
    write_packet(&mut b, reason.as_slice());
    assert(b@ =~= packet_bytes(reason@));
    reply_step(b, served_end())
}

/// The step after another device list of the upstream server.
pub open spec fn next_list_step(
    body: Result<Seq<u8>, FaultView>,
    policy: Map<Seq<char>, bool>,
) -> StepView {
    match body {
        Err(f) => if benign(f.kind) {
            to_client(Seq::empty(), served())
        } else {
            failed(f)
        },
        Ok(b) => to_client(
            packet_bytes(encode_utf8(filtered_body(b, policy))),
            AwaitView::NextList { told: true },
        ),
    }
}

/// Pass another device list on, without the disabled devices.
pub fn relay_next_list(body: Result<Vec<u8>, IoFault>, policy: &DevicePolicyTable) -> (s: ProxyStep)
    ensures
        s@ == next_list_step(payload_view(body), policy@),
{
    match body {
        Err(f) => {
            if is_benign(f.kind) {
                return reply_step(Vec::new(), served_end());
            }
            failed_step(f)
        },
        Ok(b) => {
            let text = filter_body(b.as_slice(), policy);
            let mut out: Vec<u8> = Vec::new();
            write_packet(&mut out, text.as_str().as_bytes());
            assert(out@ =~= packet_bytes(encode_utf8(text@)));
            reply_step(out, Awaiting::NextList { told: true })
        },
    }
}

/// How a connection ends with its pipe.
pub fn finish_pipe(copied: Result<(u64, u64), IoFault>) -> (e: ProxyEnd)
    ensures
        match copied {
            Ok(n) => e@ == (EndView::Served { client_to_server: n.0, server_to_client: n.1 }),
            Err(f) => e@ == EndView::Failed(f@),
        },
{
    match copied {
        Ok((client_to_server, server_to_client)) => ProxyEnd::Served {
            client_to_server,
            server_to_client,
        },
        Err(f) => ProxyEnd::Failed(f),
    }
}

/// How a connection ends when a step could not be sent: a client that tracks
/// devices may leave at any time, all else is a failure.
pub fn send_failed(then_await: &Awaiting, f: IoFault) -> (e: ProxyEnd)
    ensures
        e@ == (if then_await@ == (AwaitView::NextList { told: true }) && benign(f.kind) {
            EndView::Served { client_to_server: 0, server_to_client: 0 }
        } else {
            EndView::Failed(f@)
        }),
{
    match then_await {
        Awaiting::NextList { told } if *told && is_benign(f.kind) => ProxyEnd::Served {
            client_to_server: 0,
            server_to_client: 0,
        },
        _ => ProxyEnd::Failed(f),
    }
}

/// What a finished connection is reported as: nothing for a rejected client,
/// its statistics for a served one.
pub fn connection_stats(
    end: ProxyEnd,
    client_addr: &SocketAddr,
    target_addr: &SocketAddr,
    duration_ms: u64,
) -> (r: Result<Option<ProxyStats>, ProxyError>)
    ensures
        match end {
            ProxyEnd::Rejected => r matches Ok(None),
            ProxyEnd::Served { client_to_server, server_to_client } => r matches Ok(Some(st))
                && st.client_addr@ == client_addr@ && st.target_addr@ == target_addr@
                && st.bytes_client_to_server == client_to_server && st.bytes_server_to_client
                == server_to_client && st.duration_ms == duration_ms,
            ProxyEnd::Failed(f) => r matches Err(ProxyError::Io(g)) && g@ == f@,
        },
{
    match end {
        ProxyEnd::Rejected => Ok(None),
        ProxyEnd::Served { client_to_server, server_to_client } => Ok(
            Some(
                ProxyStats {
                    client_addr: client_addr.clone(),
                    target_addr: target_addr.clone(),
                    bytes_client_to_server: client_to_server,
                    bytes_server_to_client: server_to_client,
                    duration_ms,
                },
            ),
        ),
        ProxyEnd::Failed(f) => Err(ProxyError::Io(f)),
    }
}

/// Without the pair code a client gets no further: nothing is sent upstream,
/// it is told why and the connection ends.
pub proof fn unauthenticated_clients_are_rejected(
    first: Result<Seq<u8>, FaultView>,
    pair_code: Seq<char>,
)
    requires
        valid_pair_code(pair_code),
    ensures
        auth_step(first, pair_code).to_upstream == Seq::<u8>::empty(),
        auth_step(first, pair_code).then_await is Service <==> first == Ok::<Seq<u8>, FaultView>(
            encode_utf8(auth_chars(pair_code)),
        ),
        !(auth_step(first, pair_code).then_await is Service) ==> auth_step(
            first,
            pair_code,
        ).then_await is End,
{
    if let Ok(p) = first {
        only_the_pair_code_passes(p, pair_code);
    }
}

/// A transport to a disabled device is refused before the upstream server is
/// contacted; one to an enabled device is not.
pub proof fn disabled_devices_are_unreachable(
    service: Seq<char>,
    policy: Map<Seq<char>, bool>,
    version: Seq<char>,
)
    requires
        transport_target(service) is Some,
    ensures
        service_choice(service, policy, version).then_await is Upstream <==> enabled_by(
            policy,
            transport_target(service)->0,
        ),
        !enabled_by(policy, transport_target(service)->0) ==> service_choice(
            service,
            policy,
            version,
        ) == to_client(
            fail_bytes("device '"@ + transport_target(service)->0 + "' is disabled"@),
            served(),
        ),
{
    reveal_strlit("proxy:version");
    reveal_strlit("host:transport:");
    reveal_strlit("host:tport:serial:");
    assert(service[0] == 'h') by {
        if has_prefix(service, "host:transport:"@) {
            assert(service.take("host:transport:"@.len() as int)[0] == service[0]);
        } else {
            assert(service.take("host:tport:serial:"@.len() as int)[0] == service[0]);
        }
    }
}

/// A service that is neither about device lists, nor a transport to a disabled
/// device, nor for the proxy itself passes unchanged: the upstream server is sent
/// the very packet, and the connections are joined.
pub proof fn other_services_pass_unchanged(
    packet: Seq<u8>,
    policy: Map<Seq<char>, bool>,
    version: Seq<char>,
)
    requires
        valid_utf8(packet),
        transport_target(decode_utf8(packet)) matches Some(serial) ==> enabled_by(policy, serial),
        decode_utf8(packet) != PROXY_VERSION_SERVICE@,
        awaited_for(decode_utf8(packet)) is Pipe,
    ensures
        choice_step(Ok(packet), policy, version) == to_client(
            Seq::empty(),
            AwaitView::Upstream { service: decode_utf8(packet) },
        ),
        upstream_step(decode_utf8(packet), Ok(())) == to_upstream(
            packet_bytes(packet),
            AwaitView::Pipe,
        ),
{
    decode_utf8_encode_utf8(packet);
}

/// No disabled device is left in a device list that passed the proxy.
pub proof fn filtered_lists_show_no_disabled_device(
    body: Seq<u8>,
    policy: Map<Seq<char>, bool>,
    i: int,
)
    requires
        0 <= i < lines_seq(filtered_body(body, policy)).len(),
    ensures
        device_fields(lines_seq(filtered_body(body, policy))[i]) matches Some((serial, _, _))
            ==> enabled_by(policy, serial),
{
    filtered_list_holds_the_kept_lines(
        lossy_seq(body),
        |s: Seq<char>| enabled_by(policy, s),
        i,
    );
}

/// The first packet decides: the pair code is granted, anything else is told why it
/// is refused, a client that leaves at once counts as one without a code, and a
/// broken connection is a failure.
pub proof fn first_packets_are_judged(p: Seq<u8>, f: FaultView, code: Seq<char>)
    ensures
        auth_step(Ok(p), code) == (match auth_refusal(Some(p), code) {
            None => to_client(okay_status(), AwaitView::Service),
            Some(why) => to_client(fail_bytes(why), AwaitView::End(EndView::Rejected)),
        }),
        f.kind == IoKind::UnexpectedEof ==> auth_step(Err(f), code) == to_client(
            fail_bytes("missing auth"@),
            AwaitView::End(EndView::Rejected),
        ),
        f.kind != IoKind::UnexpectedEof ==> auth_step(Err(f), code) == to_client(
            Seq::empty(),
            AwaitView::End(EndView::Failed(f)),
        ),
{
}

/// A transport to a device is refused exactly when the policy disables the device;
/// otherwise the service is replayed to the upstream server as it is.
pub proof fn only_disabled_devices_are_refused(
    serial: Seq<char>,
    policy: Map<Seq<char>, bool>,
    version: Seq<char>,
)
    ensures
        ({
            let answer = |service: Seq<char>|
                if policy.contains_key(serial) && !policy[serial] {
                    to_client(
                        fail_bytes("device '"@ + serial + "' is disabled"@),
                        AwaitView::End(
                            EndView::Served { client_to_server: 0, server_to_client: 0 },
                        ),
                    )
                } else {
                    to_client(Seq::empty(), AwaitView::Upstream { service })
                };
            let a = "host:transport:"@ + serial;
            let b = "host:tport:serial:"@ + serial;
            &&& serial != "any"@ && serial != "usb"@ && serial != "local"@ ==> service_choice(
                a,
                policy,
                version,
            ) == answer(a)
            &&& service_choice(b, policy, version) == answer(b)
        }),
{
    transport_requests_name_a_device(Seq::empty(), serial);
    let a = "host:transport:"@ + serial;
    let b = "host:tport:serial:"@ + serial;
    if serial != "any"@ && serial != "usb"@ && serial != "local"@ {
        disabled_devices_are_unreachable(a, policy, version);
    }
    disabled_devices_are_unreachable(b, policy, version);
}

/// `proxy:version` is answered by the proxy itself. Every other service that is no
/// transport is replayed to the upstream server as it is.
pub proof fn services_are_replayed(
    service: Seq<char>,
    policy: Map<Seq<char>, bool>,
    version: Seq<char>,
)
    requires
        !has_prefix(service, "host:transport:"@),
        !has_prefix(service, "host:tport:serial:"@),
    ensures
        service == "proxy:version"@ ==> service_choice(service, policy, version) == to_client(
            okay_payload_bytes(encode_utf8(version)),
            AwaitView::End(EndView::Served { client_to_server: 0, server_to_client: 0 }),
        ),
        service != "proxy:version"@ ==> service_choice(service, policy, version) == to_client(
            Seq::empty(),
            AwaitView::Upstream { service },
        ),
{
}

/// A client that leaves instead of asking is let go, and a broken connection is a
/// failure; else the packet's text is the service.
pub proof fn service_packets_are_read(
    p: Seq<u8>,
    f: FaultView,
    policy: Map<Seq<char>, bool>,
    version: Seq<char>,
)
    ensures
        valid_utf8(p) ==> choice_step(Ok(p), policy, version) == service_choice(
            decode_utf8(p),
            policy,
            version,
        ),
        f.kind == IoKind::UnexpectedEof ==> choice_step(Err(f), policy, version) == to_client(
            Seq::empty(),
            AwaitView::End(EndView::Served { client_to_server: 0, server_to_client: 0 }),
        ),
        f.kind != IoKind::UnexpectedEof ==> choice_step(Err(f), policy, version) == to_client(
            Seq::empty(),
            AwaitView::End(EndView::Failed(f)),
        ),
{
}

/// The upstream server is sent the very service. Its device lists are waited for,
/// so that they can be filtered; all else is piped.
pub proof fn upstream_is_sent_the_service(service: Seq<char>, f: FaultView)
    ensures
        upstream_step(service, Err(f)) == to_client(
            Seq::empty(),
            AwaitView::End(EndView::Failed(f)),
        ),
        upstream_step(service, Ok(())).to_client == Seq::<u8>::empty(),
        upstream_step(service, Ok(())).to_upstream == packet_bytes(encode_utf8(service)),
        upstream_step(service, Ok(())).then_await == (if service == "host:devices"@ || service
            == "host:devices-l"@ {
            AwaitView::List
        } else if service == "host:track-devices"@ || service == "host:track-devices-l"@ {
            AwaitView::TrackStatus
        } else {
            AwaitView::Pipe
        }),
{
}

/// A device list passes the proxy line by line: every device that the policy does
/// not disable stays listed, in whatever state it is.
pub proof fn enabled_devices_pass_the_proxy(body: Seq<u8>, policy: Map<Seq<char>, bool>, i: int)
    requires
        0 <= i < lines_seq(lossy_seq(body)).len(),
        device_fields(lines_seq(lossy_seq(body))[i]) matches Some(f) && !(policy.contains_key(f.0)
            && !policy[f.0]),
    ensures
        lines_seq(filtered_body(body, policy)).contains(
            without_cr(lines_seq(lossy_seq(body))[i]),
        ),
{
    kept_devices_stay_listed(lossy_seq(body), |s: Seq<char>| enabled_by(policy, s), i);
}

/// Filtered lists are passed on with the framing of the request that they answer:
/// one list after `OKAY`, or one packet after another for a client that tracks.
pub proof fn lists_are_passed_on(b: Seq<u8>, f: FaultView, policy: Map<Seq<char>, bool>)
    ensures
        list_step(Ok(b), policy) == to_client(
            okay_status() + packet_bytes(encode_utf8(filtered_body(b, policy))),
            AwaitView::End(EndView::Served { client_to_server: 0, server_to_client: 0 }),
        ),
        list_step(Err(f), policy) == to_client(Seq::empty(), AwaitView::End(EndView::Failed(f))),
        next_list_step(Ok(b), policy) == to_client(
            packet_bytes(encode_utf8(filtered_body(b, policy))),
            AwaitView::NextList { told: true },
        ),
        next_list_step(Err(f), policy) == to_client(
            Seq::empty(),
            AwaitView::End(
                if f.kind == IoKind::BrokenPipe || f.kind == IoKind::ConnectionReset || f.kind
                    == IoKind::ConnectionAborted || f.kind == IoKind::UnexpectedEof {
                    EndView::Served { client_to_server: 0, server_to_client: 0 }
                } else {
                    EndView::Failed(f)
                },
            ),
        ),
        filtered_body(b, policy) == filter_lines(
            lines_seq(lossy_seq(b)),
            |s: Seq<char>| !(policy.contains_key(s) && !policy[s]),
        ),
{
    let x = |s: Seq<char>| enabled_by(policy, s);
    let y = |s: Seq<char>| !(policy.contains_key(s) && !policy[s]);
    assert(x =~= y);
}

/// The upstream's answer to a tracking request is passed on as it is; after `OKAY`
/// lists follow, after `FAIL` the reason, and anything else ends the connection.
pub proof fn track_answers_are_passed_on(status: Seq<u8>, reason: Seq<u8>, f: FaultView)
    ensures
        track_status_step(Ok(status)).to_client == status,
        track_status_step(Ok(status)).to_upstream == Seq::<u8>::empty(),
        track_status_step(Ok(status)).then_await == (if status == okay_status() {
            AwaitView::NextList { told: false }
        } else if status == crate::protocol::fail_status() {
            AwaitView::TrackReason
        } else {
            AwaitView::End(EndView::Served { client_to_server: 0, server_to_client: 0 })
        }),
        track_status_step(Err(f)) == to_client(
            Seq::empty(),
            AwaitView::End(EndView::Failed(f)),
        ),
        track_reason_step(Ok(reason)).to_client == packet_bytes(reason),
        track_reason_step(Err(f)).to_client == packet_bytes(Seq::empty()),
        track_reason_step(Ok(reason)).then_await == served(),
{
}

/// A port is waited for until it can be connected to or the time is up; what is
/// reported then is the last failure, or that the port did not become ready.
pub proof fn ports_are_waited_for(
    addr: &SocketAddr,
    attempt: Attempt,
    elapsed_ms: u64,
    max_wait_ms: u64,
    a: WaitAction,
)
    requires
        call_ensures(wait_for_port, (addr, attempt, elapsed_ms, max_wait_ms), a),
    ensures
        a is Ready <==> attempt is Connected,
        a is Retry <==> !(attempt is Connected) && elapsed_ms < max_wait_ms,
        a matches WaitAction::GiveUp(e) ==> e.chars() == (match attempt {
            Attempt::Failed(f) => "io error: "@ + f.message@,
            _ => "port "@ + addr@.chars() + " did not become ready within "@ + duration_text(
                max_wait_ms,
            ),
        }),
{
}

/// How a connection ended is what is reported of it: nothing of a rejected client,
/// the bytes that were piped for a served one, and a failure as it was.
pub proof fn connections_are_reported(
    end: ProxyEnd,
    client_addr: &SocketAddr,
    target_addr: &SocketAddr,
    duration_ms: u64,
    r: Result<Option<ProxyStats>, ProxyError>,
    copied: Result<(u64, u64), IoFault>,
)
    requires
        call_ensures(connection_stats, (end, client_addr, target_addr, duration_ms), r),
        call_ensures(finish_pipe, (copied,), end),
    ensures
        copied matches Ok(n) ==> (r matches Ok(Some(st)) && st.bytes_client_to_server == n.0
            && st.bytes_server_to_client == n.1 && st.client_addr@ == client_addr@
            && st.target_addr@ == target_addr@ && st.duration_ms == duration_ms),
        copied matches Err(f) ==> (r matches Err(ProxyError::Io(g)) && g@ == f@),
{
}

/// A client that tracks devices may leave once it has been told of them; any other
/// failure to send is one.
pub proof fn trackers_may_leave(then_await: &Awaiting, f: IoFault, e: ProxyEnd)
    requires
        call_ensures(send_failed, (then_await, f), e),
    ensures
        e@ is Failed <==> !((then_await@ matches AwaitView::NextList { told } && told) && (f.kind
            == IoKind::BrokenPipe || f.kind == IoKind::ConnectionReset || f.kind
            == IoKind::ConnectionAborted || f.kind == IoKind::UnexpectedEof)),
        e@ matches EndView::Failed(g) ==> g == f@,
{
}

} // verus!
