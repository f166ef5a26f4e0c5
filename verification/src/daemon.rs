//! Shared multi-user daemon.
//!
//! Owns `127.0.0.1:5037`, the shared local ADB backend, the routing by user and
//! the agents. Pair codes never enter this process.

use std::collections::HashMap;

use vstd::prelude::*;
use vstd::std_specs::hash::*;
use vstd::string::*;
use vstd::utf8::*;

use crate::addr::{AddrView, SocketAddr};
use crate::backend::{polled_body, polled_lists, unreachable_backends_have_no_devices};
use crate::config::{loopback, loopback_view, BackendConfig, BackendView};
use crate::digits::{
    dec_seq, hex_padded, hex_seq, hex_value, lemma_hex_seq_value, lemma_hex_zeros, pad_left,
    push_dec,
};
use crate::fault::{benign, fault, fault_view, is_benign, FaultView, IoFault, IoKind};
use crate::hub::{bind_chars, bind_message};
use crate::ipc::{
    private_entries, sanitized_to_snapshot, sanitized_views, IpcMessage, MessageView,
    OpenPrivateStream, SanitizedDevice, SanitizedView, DEFAULT_CONTROL_ABSTRACT, PROTOCOL_VERSION,
};
use crate::local::LocalAdb;
use crate::octets::{lemma_text_bytes, utf8_text};
use crate::peercred::{
    is_loopback, loopback_addr, multi_user_supported, multi_user_unsupported_reason,
    unsupported_chars, Platform,
};
use crate::protocol::{fail_bytes, okay_payload_bytes, okay_status};
use crate::registry::{
    all_reports, devices_body, every_backend_is_heard, lemma_find_index, line_reports, list_views,
    merged, told_apart, DeviceSnapshot, EntryView, ListView, ReportView,
};
use crate::session::{
    about_device, any_device_is_the_preferred_one, asked, concerns, devices_reply,
    every_backend_has_a_place, extend_order, fail_reply, is_about_device, lemma_concerns_listed,
    lemma_opaque, lemma_order_keeps_start, lemma_prefixed, lemma_tport,
    no_device_is_refused_for_none, no_preference, okay_reply, payload_view, pick_preferred_device,
    preferred, preferred_device_is_unique, requests_by_serial_are_about_the_device,
    rewrite_refusal, rewrite_upstream_service, seen_order, starts_with_serial, text_reply, track_step, transports_open_the_named_device, upstream_service, Asked, TrackEvent,
    TrackView, LOCAL_BACKEND,
};
use crate::tenant::{
    private_device, private_devices, views_hold_every_device, TenantRegistry, TenantView, Uid,
};
use crate::text::{
    cat2, find_char, has_prefix, lines_seq, opt_view, split_once, starts_with, str_eq,
    strip_prefix, views,
};

verus! {

/// Why the daemon failed.
#[derive(Debug)]
pub enum DaemonError {
    Io(IoFault),
    Bind { addr: SocketAddr, source: IoFault },
    LocalAdb(IoFault),
    UnsupportedPlatform(Platform),
}

impl DaemonError {
    /// The message shown to the user.
    pub open spec fn chars(self) -> Seq<char> {
        match self {
            DaemonError::Io(f) => "io error: "@ + f.message@,
            DaemonError::Bind { addr, source } => bind_chars(addr@, source.message@),
            DaemonError::LocalAdb(f) => "local adb server error: "@ + f.message@,
            DaemonError::UnsupportedPlatform(p) => unsupported_chars(p),
        }
    }

    /// The message shown to the user.
    pub fn to_string(&self) -> (s: String)
        ensures
            s@ == self.chars(),
    {
        match self {
            DaemonError::Io(f) => cat2("io error: ", f.message.as_str()),
            DaemonError::Bind { addr, source } => bind_message(addr, source.message.as_str()),
            DaemonError::LocalAdb(f) => cat2("local adb server error: ", f.message.as_str()),
            DaemonError::UnsupportedPlatform(p) => multi_user_unsupported_reason(*p),
        }
    }
}

/// How a daemon is to run.
#[derive(Clone, Debug)]
pub struct DaemonConfig {
    pub listen: SocketAddr,
    pub local_adb_port: u16,
    pub include_local: bool,
    pub control_abstract: String,
    pub control_path: Option<String>,
    pub poll_interval_ms: u64,
    pub adb_version: u32,
}

impl Default for DaemonConfig {
    fn default() -> (c: Self)
        ensures
            c.listen@ == loopback_view(5037),
            c.local_adb_port == 5039,
            c.include_local,
            c.control_abstract@ == DEFAULT_CONTROL_ABSTRACT@,
            c.control_path is None,
            c.poll_interval_ms == 1000,
            c.adb_version == 41,
    {
        DaemonConfig {
            listen: loopback(5037),
            local_adb_port: 5039,
            include_local: true,
            control_abstract: DEFAULT_CONTROL_ABSTRACT.to_owned(),
            control_path: None,
            poll_interval_ms: 1000,
            adb_version: 41,
        }
    }
}

/// Whether a daemon may start: on Linux, and on a loopback address.
pub fn check_start(platform: Platform, listen: &SocketAddr) -> (r: Result<(), DaemonError>)
    ensures
        if platform != Platform::Linux {
            r == Err::<(), DaemonError>(DaemonError::UnsupportedPlatform(platform))
        } else if !loopback_addr(listen@) {
            r matches Err(DaemonError::Io(f)) && f@ == fault_view(
                IoKind::InvalidInput,
                "multi-user daemon must listen on loopback only"@,
            )
        } else {
            r is Ok
        },
{
    if !multi_user_supported(platform) {
        return Err(DaemonError::UnsupportedPlatform(platform));
    }
    if !is_loopback(listen) {
        return Err(
            DaemonError::Io(
                fault(IoKind::InvalidInput, "multi-user daemon must listen on loopback only"),
            ),
        );
    }
    Ok(())
}

/// The version to report: that of the local adb server where it could be read,
/// else the configured one.
pub fn synced_version(configured: u32, fetched: Result<u32, IoFault>) -> (v: u32)
    ensures
        v == match fetched {
            Ok(n) => n,
            Err(_) => configured,
        },
{
    match fetched {
        Ok(n) => n,
        Err(_) => configured,
    }
}

/// Where a device service goes.
#[derive(Debug)]
pub enum Route {
    /// To a shared device's server.
    Shared { addr: SocketAddr, upstream: String },
    /// To the user's own agent.
    Private { route_id: String, upstream: String },
}

/// Model of [`Route`].
pub enum RouteTo {
    Shared { addr: AddrView, upstream: Seq<char> },
    Private { route_id: Seq<char>, upstream: Seq<char> },
}

impl View for Route {
    type V = RouteTo;

    open spec fn view(&self) -> RouteTo {
        match self {
            Route::Shared { addr, upstream } => RouteTo::Shared {
                addr: addr@,
                upstream: upstream@,
            },
            Route::Private { route_id, upstream } => RouteTo::Private {
                route_id: route_id@,
                upstream: upstream@,
            },
        }
    }
}

/// The model of an optional backend.
pub open spec fn opt_backend(b: Option<&BackendConfig>) -> Option<BackendView> {
    match b {
        Some(b) => Some(b@),
        None => None,
    }
}

/// The order in which the daemon prefers backends: the shared one, then as
/// first seen.
pub open spec fn daemon_order(s: Seq<EntryView>, local: bool) -> Seq<Seq<char>> {
    seen_order(
        if local {
            seq![LOCAL_BACKEND@]
        } else {
            Seq::empty()
        },
        s,
    )
}

/// The order in which the daemon prefers backends.
pub fn backend_order(snap: &DeviceSnapshot, local: Option<&BackendConfig>) -> (r: Vec<String>)
    ensures
        views(r@) == daemon_order(snap@, local is Some),
{
    let mut order: Vec<String> = Vec::new();
    if local.is_some() {
        order.push(LocalAdb::backend_name().to_owned());
        assert(views(order@) =~= seq![LOCAL_BACKEND@]);
    } else {
        assert(views(order@) =~= Seq::<Seq<char>>::empty());
    }
    extend_order(order, snap)
}

/// Why a service is not routed, if it is not.
pub open spec fn route_refusal(
    service: Seq<char>,
    s: Seq<EntryView>,
    order: Seq<Seq<char>>,
    local: Option<BackendView>,
) -> Option<Seq<char>> {
    match rewrite_refusal(service, s, order) {
        Some(why) => Some(why),
        None => if asked(service, s) is Opaque && local is None {
            Some("no shared local backend"@)
        } else {
            None
        },
    }
}

/// The route of a service about device `d`.
pub open spec fn device_route(
    service: Seq<char>,
    s: Seq<EntryView>,
    d: EntryView,
) -> RouteTo {
    match d.route_id {
        Some(route_id) => RouteTo::Private {
            route_id,
            upstream: upstream_service(service, s, d),
        },
        None => RouteTo::Shared {
            addr: d.backend_addr,
            upstream: upstream_service(service, s, d),
        },
    }
}

/// Whether `r` is where a service goes: to the device that it is about, else to
/// the shared local backend as it is.
pub open spec fn routed(
    service: Seq<char>,
    s: Seq<EntryView>,
    order: Seq<Seq<char>>,
    local: Option<BackendView>,
    r: RouteTo,
) -> bool {
    if asked(service, s) is Opaque {
        r == (RouteTo::Shared { addr: local->0.addr, upstream: service })
    } else {
        exists|d: EntryView| #[trigger]
            concerns(service, s, order, d) && r == device_route(service, s, d)
    }
}

/// Decide where a service goes.
pub fn route_multi(
    service: &str,
    snap: &DeviceSnapshot,
    order: &Vec<String>,
    local: Option<&BackendConfig>,
) -> (r: Result<Route, String>)
    ensures
        match r {
            Err(e) => route_refusal(service@, snap@, views(order@), opt_backend(local)) == Some(
                e@,
            ),
            Ok(to) => route_refusal(service@, snap@, views(order@), opt_backend(local)) is None
                && routed(service@, snap@, views(order@), opt_backend(local), to@),
        },
{
    match rewrite_upstream_service(service, snap, order) {
        Err(e) => Err(e),
        Ok(Some((d, upstream))) => {
            assert(concerns(service@, snap@, views(order@), d@));
            match &d.route_id {
                Some(route_id) => Ok(Route::Private { route_id: route_id.clone(), upstream }),
                None => Ok(Route::Shared { addr: d.backend_addr.clone(), upstream }),
            }
        },
        Ok(None) => match local {
            Some(b) => Ok(Route::Shared { addr: b.addr.clone(), upstream: service.to_owned() }),
            None => Err("no shared local backend".to_owned()),
        },
    }
}

/// Whether the daemon answers a service itself.
pub open spec fn answered_here(service: Seq<char>) -> bool {
    ||| service == "host:devices"@
    ||| service == "host:devices-l"@
    ||| service == "host:track-devices"@
    ||| service == "host:track-devices-l"@
    ||| service == "host:kill"@
    ||| service == "host:version"@
    ||| about_preferred(service)
}

/// Whether a service is a request to an adb server, and not to a device.
pub open spec fn host_request(service: Seq<char>) -> bool {
    has_prefix(service, "host:"@) || has_prefix(service, "host-"@)
}

/// Requests about no device that are known to be safe for all users: they tell
/// what the shared server can do, or wait for a device, and change nothing.
pub open spec fn safe_global(service: Seq<char>) -> bool {
    service == "host:features"@ || service == "host:host-features"@ || has_prefix(
        service,
        "host:wait-for-"@,
    )
}

/// Services that choose a device of the server that they are sent to.
pub open spec fn selects_device(service: Seq<char>) -> bool {
    service == "host:tport:usb"@ || service == "host:tport:local"@ || has_prefix(
        service,
        "host:transport-id:"@,
    )
}

/// Requests that a server carries out for one device.
pub open spec fn device_request(request: Seq<char>) -> bool {
    request == "features"@ || has_prefix(request, "get-"@) || has_prefix(request, "forward:"@)
        || has_prefix(request, "killforward:"@)
}

/// Services that ask the server that they are sent to for something of one of its
/// devices, which they choose by its connection or its number, or leave to it.
pub open spec fn asks_chosen_device(service: Seq<char>) -> bool {
    ||| has_prefix(service, "host:get-"@)
    ||| has_prefix(service, "host-usb:"@) && device_request(service.skip("host-usb:"@.len() as int))
    ||| has_prefix(service, "host-local:"@) && device_request(
        service.skip("host-local:"@.len() as int),
    )
    ||| has_prefix(service, "host-transport-id:"@) && {
        let rest = service.skip("host-transport-id:"@.len() as int);
        let k = find_char(rest, ':');
        k < rest.len() && device_request(rest.skip(k + 1))
    }
}

/// Services about a device of the shared server that name it otherwise than by
/// its serial. The server is handed them as they are.
pub open spec fn device_scoped(service: Seq<char>) -> bool {
    selects_device(service) || asks_chosen_device(service)
}

/// Requests that the shared server must not be handed: all that are about no
/// device, are not answered by the daemon itself and are not known to be safe.
pub open spec fn unsafe_global(service: Seq<char>) -> bool {
    host_request(service) && !answered_here(service) && !about_device(service) && !device_scoped(
        service,
    ) && !safe_global(service)
}

/// Whether a service asks for the state or the serial of the preferred device.
fn asks_for_preferred(service: &str) -> (r: bool)
    ensures
        r == about_preferred(service@),
{
    str_eq(service, "host:get-state") || str_eq(service, "host:get-serialno") || str_eq(
        service,
        "host:get-connection-state",
    )
}

/// Whether a request about no device is known to be safe for all users.
pub fn is_safe_global_host(service: &str) -> (r: bool)
    ensures
        r == safe_global(service@),
{
    str_eq(service, "host:features") || str_eq(service, "host:host-features") || starts_with(
        service,
        "host:wait-for-",
    )
}

/// Whether a server carries a request out for one device.
fn is_device_request(request: &str) -> (r: bool)
    ensures
        r == device_request(request@),
{
    str_eq(request, "features") || starts_with(request, "get-") || starts_with(request, "forward:")
        || starts_with(request, "killforward:")
}

/// Whether a service is about a device of the shared server that it names
/// otherwise than by its serial.
pub fn is_device_scoped(service: &str) -> (r: bool)
    ensures
        r == device_scoped(service@),
{
    if str_eq(service, "host:tport:usb") || str_eq(service, "host:tport:local") || starts_with(
        service,
        "host:transport-id:",
    ) || starts_with(service, "host:get-") {
        return true;
    }
    let by_usb = match strip_prefix(service, "host-usb:") {
        Some(request) => is_device_request(request),
        None => false,
    };
    let by_network = match strip_prefix(service, "host-local:") {
        Some(request) => is_device_request(request),
        None => false,
    };
    let by_number = match strip_prefix(service, "host-transport-id:") {
        Some(rest) => match split_once(rest, ':') {
            Some((_, request)) => is_device_request(request),
            None => false,
        },
        None => false,
    };
    by_usb || by_network || by_number
}

/// Whether the shared server must not be handed a request: it is about no
/// device, the daemon does not answer it itself, and it is not known to be safe.
pub fn is_unsafe_global_host(service: &str) -> (r: bool)
    ensures
        r == unsafe_global(service@),
{
    let answered = str_eq(service, "host:devices") || str_eq(service, "host:devices-l") || str_eq(
        service,
        "host:track-devices",
    ) || str_eq(service, "host:track-devices-l") || str_eq(service, "host:kill") || str_eq(
        service,
        "host:version",
    ) || asks_for_preferred(service);
    let to_server = starts_with(service, "host:") || starts_with(service, "host-");
    to_server && !answered && !is_about_device(service) && !is_device_scoped(service)
        && !is_safe_global_host(service)
}

/// What the daemon does for a client.
#[derive(Debug)]
pub enum ServeAction {
    /// The client left without asking for anything.
    Close,
    /// The connection failed.
    Fault(IoFault),
    /// Answer with these bytes.
    Reply(Vec<u8>),
    /// Keep the client informed about the user's device list.
    Track { long: bool },
    /// Hand the connection on.
    Forward(Route),
}

/// Model of [`ServeAction`].
pub enum ServeView {
    Close,
    Fault(FaultView),
    Reply(Seq<u8>),
    Track { long: bool },
    Forward(RouteTo),
}

impl View for ServeAction {
    type V = ServeView;

    open spec fn view(&self) -> ServeView {
        match self {
            ServeAction::Close => ServeView::Close,
            ServeAction::Fault(f) => ServeView::Fault(f@),
            ServeAction::Reply(b) => ServeView::Reply(b@),
            ServeAction::Track { long } => ServeView::Track { long: *long },
            ServeAction::Forward(r) => ServeView::Forward(r@),
        }
    }
}

/// Whether a connection is served at all: only clients on this machine are, and
/// the connection must still have a local address.
pub fn admits(local: &Result<SocketAddr, IoFault>, peer: &SocketAddr) -> (r: bool)
    ensures
        r == (local is Ok && loopback_addr(peer@)),
{
    local.is_ok() && is_loopback(peer)
}

/// The reason for refusing a client whose user is not known.
pub open spec fn unidentified() -> Seq<char> {
    "unable to identify client user"@
}

/// The user of a client, or the bytes that refuse a client whose user is not
/// known for certain.
pub fn identify(uid: Result<Uid, IoFault>) -> (r: Result<Uid, Vec<u8>>)
    ensures
        match uid {
            Ok(u) => r == Ok::<Uid, Vec<u8>>(u),
            Err(_) => r matches Err(b) && b@ == fail_bytes(unidentified()),
        },
{
    match uid {
        Ok(u) => Ok(u),
        Err(_) => Err(fail_reply("unable to identify client user")),
    }
}

/// A version in four hexadecimal digits.
pub open spec fn version_chars(version: u32) -> Seq<char> {
    pad_left(hex_seq(version as nat), '0', 4)
}

/// Whether a service asks for the state or the serial of the preferred device.
pub open spec fn about_preferred(service: Seq<char>) -> bool {
    service == "host:get-state"@ || service == "host:get-serialno"@ || service
        == "host:get-connection-state"@
}

/// Whether `a` answers a question about the preferred device.
pub open spec fn preferred_answer(
    service: Seq<char>,
    s: Seq<EntryView>,
    order: Seq<Seq<char>>,
    a: ServeView,
) -> bool {
    match no_preference(s, order) {
        Some(why) => a == ServeView::Reply(fail_bytes(why)),
        None => exists|d: EntryView| #[trigger]
            preferred(s, order, d) && a == ServeView::Reply(
                okay_payload_bytes(
                    encode_utf8(
                        if service == "host:get-serialno"@ {
                            d.public_serial
                        } else {
                            d.state
                        },
                    ),
                ),
            ),
    }
}

/// Whether `a` is how the daemon answers a service of a user who sees the
/// devices `s`.
pub open spec fn serve_answer(
    service: Seq<char>,
    s: Seq<EntryView>,
    local: Option<BackendView>,
    version: u32,
    a: ServeView,
) -> bool {
    let order = daemon_order(s, local is Some);
    if service == "host:devices"@ || service == "host:devices-l"@ {
        a == ServeView::Reply(devices_reply(s, service == "host:devices-l"@))
    } else if service == "host:track-devices"@ || service == "host:track-devices-l"@ {
        a == (ServeView::Track { long: service == "host:track-devices-l"@ })
    } else if service == "host:kill"@ {
        a == ServeView::Reply(okay_status())
    } else if service == "host:version"@ {
        a == ServeView::Reply(okay_payload_bytes(encode_utf8(version_chars(version))))
    } else if about_preferred(service) {
        preferred_answer(service, s, order, a)
    } else if unsafe_global(service) {
        a == ServeView::Reply(fail_bytes("host command not permitted on multi-user daemon"@))
    } else {
        match route_refusal(service, s, order, local) {
            Some(why) => a == ServeView::Reply(fail_bytes(why)),
            None => a matches ServeView::Forward(r) && routed(service, s, order, local, r),
        }
    }
}

/// Whether `a` is how the daemon answers what it read from a client of a user
/// who sees the devices `s`.
pub open spec fn client_serve(
    payload: Result<Seq<u8>, FaultView>,
    s: Seq<EntryView>,
    local: Option<BackendView>,
    version: u32,
    a: ServeView,
) -> bool {
    match payload {
        Err(f) => if f.kind == IoKind::UnexpectedEof {
            a == ServeView::Close
        } else {
            a == ServeView::Fault(f)
        },
        Ok(p) => if valid_utf8(p) {
            serve_answer(decode_utf8(p), s, local, version, a)
        } else {
            a == ServeView::Reply(fail_bytes("invalid utf8 service"@))
        },
    }
}

/// Answer a service of a user who sees the devices of `snap`.
fn serve_service(
    service: &str,
    snap: &DeviceSnapshot,
    local: Option<&BackendConfig>,
    version: u32,
) -> (a: ServeAction)
    ensures
        serve_answer(service@, snap@, opt_backend(local), version, a@),
{
    proof {
        reveal_strlit("host:devices");
        reveal_strlit("host:devices-l");
        assert("host:devices"@.len() != "host:devices-l"@.len());
        reveal_strlit("host:track-devices");
        reveal_strlit("host:track-devices-l");
        assert("host:track-devices"@.len() != "host:track-devices-l"@.len());
    }
    if str_eq(service, "host:devices") || str_eq(service, "host:devices-l") {
        let body = snap.format_devices(str_eq(service, "host:devices-l"));
        return ServeAction::Reply(text_reply(body.as_str()));
    }
    if str_eq(service, "host:track-devices") || str_eq(service, "host:track-devices-l") {
        return ServeAction::Track { long: str_eq(service, "host:track-devices-l") };
    }
    if str_eq(service, "host:kill") {
        return ServeAction::Reply(okay_reply());
    }
    if str_eq(service, "host:version") {
        let body = hex_padded(version as u64, 4);
        return ServeAction::Reply(text_reply(body.as_str()));
    }
    let order = backend_order(snap, local);
    if asks_for_preferred(service) {
        return match pick_preferred_device(snap, &order) {
            Ok(d) => {
                assert(preferred(snap@, views(order@), d@));
                if str_eq(service, "host:get-serialno") {
                    ServeAction::Reply(text_reply(d.public_serial.as_str()))
                } else {
                    ServeAction::Reply(text_reply(d.state.as_str()))
                }
            },
            Err(reason) => ServeAction::Reply(fail_reply(reason.as_str())),
        };
    }
    if is_unsafe_global_host(service) {
        return ServeAction::Reply(fail_reply("host command not permitted on multi-user daemon"));
    }
    match route_multi(service, snap, &order, local) {
        Ok(r) => ServeAction::Forward(r),
        Err(reason) => ServeAction::Reply(fail_reply(reason.as_str())),
    }
}

/// What came of asking an agent for a stream.
#[derive(Debug)]
pub struct OpenOutcome {
    pub ok: bool,
    pub fail_reason: Option<String>,
}

/// What the daemon does for a message of an agent.
#[derive(Debug)]
pub enum AgentEvent {
    /// The user's devices were replaced; tell their clients if they changed.
    Devices { changed: bool },
    /// Tell whoever waits for the stream.
    Opened { stream_id: u32, outcome: OpenOutcome },
    /// Hand the bytes to the client of the stream, if there is one.
    Deliver { stream_id: u32, data: Vec<u8> },
    /// End the stream, and tell whoever waits for it to open.
    Closed { stream_id: u32, outcome: OpenOutcome },
    /// Send this message.
    Send(IpcMessage),
    /// Nothing.
    Ignore,
}

/// Model of [`AgentEvent`].
pub enum EventView {
    Devices { changed: bool },
    Opened { stream_id: u32, ok: bool, fail_reason: Option<Seq<char>> },
    Deliver { stream_id: u32, data: Seq<u8> },
    Closed { stream_id: u32, ok: bool, fail_reason: Option<Seq<char>> },
    Send(MessageView),
    Ignore,
}

impl View for AgentEvent {
    type V = EventView;

    open spec fn view(&self) -> EventView {
        match self {
            AgentEvent::Devices { changed } => EventView::Devices { changed: *changed },
            AgentEvent::Opened { stream_id, outcome } => EventView::Opened {
                stream_id: *stream_id,
                ok: outcome.ok,
                fail_reason: opt_view(outcome.fail_reason),
            },
            AgentEvent::Deliver { stream_id, data } => EventView::Deliver {
                stream_id: *stream_id,
                data: data@,
            },
            AgentEvent::Closed { stream_id, outcome } => EventView::Closed {
                stream_id: *stream_id,
                ok: outcome.ok,
                fail_reason: opt_view(outcome.fail_reason),
            },
            AgentEvent::Send(m) => EventView::Send(m@),
            AgentEvent::Ignore => EventView::Ignore,
        }
    }
}

/// The devices in a message that reports devices.
pub open spec fn reported_devices(msg: MessageView) -> Option<Seq<SanitizedView>> {
    match msg {
        MessageView::DeviceSnapshot { devices, .. } => Some(devices),
        MessageView::DeviceSnapshotChanged { devices, .. } => Some(devices),
        _ => None,
    }
}

/// The tenants after a message of a user's agent: only a report of devices
/// changes them, and only that user's.
pub open spec fn tenants_after(t: TenantView, uid: Uid, msg: MessageView) -> TenantView {
    match reported_devices(msg) {
        Some(devices) => TenantView {
            private: t.private.insert(uid, private_entries(devices)),
            ..t
        },
        None => t,
    }
}

/// What the daemon does for a message of a user's agent.
pub open spec fn event_for(t: TenantView, uid: Uid, msg: MessageView) -> EventView {
    match msg {
        MessageView::DeviceSnapshot { devices, .. } => EventView::Devices {
            changed: !(t.private.contains_key(uid) && t.private[uid] == private_entries(devices)),
        },
        MessageView::DeviceSnapshotChanged { devices, .. } => EventView::Devices {
            changed: !(t.private.contains_key(uid) && t.private[uid] == private_entries(devices)),
        },
        MessageView::OpenResult { stream_id, ok, fail_reason } => EventView::Opened {
            stream_id,
            ok,
            fail_reason,
        },
        MessageView::StreamData { stream_id, data } => EventView::Deliver { stream_id, data },
        MessageView::StreamClose { stream_id, reason } => EventView::Closed {
            stream_id,
            ok: false,
            fail_reason: Some(reason),
        },
        MessageView::Ping => EventView::Send(MessageView::Pong),
        _ => EventView::Ignore,
    }
}

/// Why an agent's first message does not register it, if it does not.
pub open spec fn registration_refusal(first: MessageView) -> Option<FaultView> {
    match first {
        MessageView::RegisterAgent { version, .. } => if version == PROTOCOL_VERSION {
            None
        } else {
            Some(
                fault_view(
                    IoKind::InvalidData,
                    "unsupported agent protocol version "@ + dec_seq(version as nat) + " (want "@
                        + dec_seq(PROTOCOL_VERSION as nat) + ")"@,
                ),
            )
        },
        _ => Some(fault_view(IoKind::InvalidData, "expected RegisterAgent"@)),
    }
}

/// What the daemon knows: the devices of all users, the agent of each user by
/// its instance token, and the shared backend.
pub struct DaemonState {
    tenants: TenantRegistry,
    agents: HashMap<Uid, String>,
    next_stream_id: u32,
    local_backend: Option<BackendConfig>,
    adb_version: u32,
}

/// Model of [`DaemonState`].
pub struct DaemonView {
    pub tenants: TenantView,
    pub agents: Map<Uid, Seq<char>>,
    pub next_stream_id: u32,
    pub local: Option<BackendView>,
    pub adb_version: u32,
}

/// Whether a device is shared: reached without an agent and without a pair code.
pub open spec fn shared_device(d: EntryView) -> bool {
    d.route_id is None && d.pair_code is None
}

impl DaemonView {
    /// No pair code is held, and the routes of agents are private.
    pub open spec fn wf(self) -> bool {
        &&& self.tenants.wf()
        &&& self.local matches Some(b) ==> b.pair_code is None
        &&& forall|i: int|
            0 <= i < self.tenants.shared.len() ==> shared_device(#[trigger] self.tenants.shared[i])
    }

    /// The daemon after the agent of a user has registered.
    pub open spec fn registered(self, uid: Uid, token: Seq<char>) -> DaemonView {
        DaemonView { agents: self.agents.insert(uid, token), ..self }
    }

    /// Whether the agent of a user is the one with this token.
    pub open spec fn is_agent(self, uid: Uid, token: Seq<char>) -> bool {
        self.agents.contains_key(uid) && self.agents[uid] == token
    }

    /// The daemon after the agent with this token has left: its devices are
    /// gone, unless another agent of the user has replaced it.
    pub open spec fn departed(self, uid: Uid, token: Seq<char>) -> DaemonView {
        if self.is_agent(uid, token) {
            DaemonView {
                tenants: TenantView {
                    private: self.tenants.private.remove(uid),
                    ..self.tenants
                },
                agents: self.agents.remove(uid),
                ..self
            }
        } else {
            self
        }
    }

    /// The daemon after a message of a user's agent.
    pub open spec fn informed(self, uid: Uid, msg: MessageView) -> DaemonView {
        DaemonView { tenants: tenants_after(self.tenants, uid, msg), ..self }
    }

    /// The daemon after polling the shared backend.
    pub open spec fn polled(self, fetched: Result<String, IoFault>) -> DaemonView {
        match self.local {
            Some(b) => DaemonView {
                tenants: TenantView {
                    shared: merged(all_reports(shared_lists(b, fetched))),
                    ..self.tenants
                },
                ..self
            },
            None => self,
        }
    }

    /// The daemon after asking an agent for a stream.
    pub open spec fn asked(self) -> DaemonView {
        DaemonView { next_stream_id: following_id(self.next_stream_id), ..self }
    }
}

/// The agents of all users.
spec fn agents_view(m: Map<Uid, String>) -> Map<Uid, Seq<char>> {
    Map::new(|uid: Uid| m.contains_key(uid), |uid: Uid| m[uid]@)
}

impl View for DaemonState {
    type V = DaemonView;

    closed spec fn view(&self) -> DaemonView {
        DaemonView {
            tenants: self.tenants@,
            agents: agents_view(self.agents@),
            next_stream_id: self.next_stream_id,
            local: match self.local_backend {
                Some(b) => Some(b@),
                None => None,
            },
            adb_version: self.adb_version,
        }
    }
}

/// The stream id after `id`.
pub open spec fn following_id(id: u32) -> u32 {
    if id == u32::MAX {
        0
    } else {
        (id + 1) as u32
    }
}

/// The lists that register the shared devices after a poll.
pub open spec fn shared_lists(b: BackendView, fetched: Result<String, IoFault>) -> Seq<ListView> {
    seq![ListView { backend: b, body: polled_body(fetched) }]
}

impl DaemonState {
    /// A daemon without devices and agents.
    pub fn new(local_backend: Option<BackendConfig>, adb_version: u32) -> (d: Self)
        ensures
            d@ == (DaemonView {
                tenants: TenantView { shared: Seq::empty(), private: Map::empty() },
                agents: Map::empty(),
                next_stream_id: 1,
                local: match local_backend {
                    Some(b) => Some(b@),
                    None => None,
                },
                adb_version,
            }),
            d@.wf() == (local_backend matches Some(b) ==> b.pair_code is None),
    {
        broadcast use group_hash_axioms;

        let agents: HashMap<Uid, String> = HashMap::new();
        assert(agents_view(agents@) =~= Map::empty());
        DaemonState {
            tenants: TenantRegistry::new(),
            agents,
            next_stream_id: 1,
            local_backend,
            adb_version,
        }
    }

    /// Register the shared devices after polling the shared backend; one that
    /// could not be reached has none. Tells whether they changed.
    pub fn poll_shared_once(&mut self, fetched: Result<String, IoFault>) -> (changed: bool)
        ensures
            final(self)@ == old(self)@.polled(fetched),
            changed == (old(self)@.tenants.shared != final(self)@.tenants.shared),
            old(self)@.wf() ==> final(self)@.wf(),
    {
        let backend = match &self.local_backend {
            Some(b) => b.clone(),
            None => {
                return false;
            },
        };
        let mut backends: Vec<BackendConfig> = Vec::new();
        backends.push(backend);
        let mut bodies: Vec<Result<String, IoFault>> = Vec::new();
        bodies.push(fetched);
        let lists = polled_lists(&backends, bodies);
        assert(list_views(lists@) =~= shared_lists(backends@[0]@, fetched));
        proof {
            if self@.wf() {
                lemma_polled_wf(self@, fetched);
            }
        }
        self.tenants.update_shared_from_lists(lists.as_slice())
    }

    /// Register the agent of a user by its first message; an earlier agent of
    /// the user is replaced. Gives the agent's token and that of the one it
    /// replaces.
    pub fn register_agent(&mut self, uid: Uid, first: IpcMessage) -> (r: Result<
        (String, Option<String>),
        IoFault,
    >)
        ensures
            match registration_refusal(first@) {
                Some(e) => (r matches Err(f) && f@ == e) && final(self)@ == old(self)@,
                None => (r matches Ok(p) && p.0@ == first@->instance_token && opt_view(p.1) == (
                if old(self)@.agents.contains_key(uid) {
                    Some(old(self)@.agents[uid])
                } else {
                    None
                })) && final(self)@ == old(self)@.registered(uid, first@->instance_token),
            },
            old(self)@.wf() ==> final(self)@.wf(),
    {
        broadcast use group_hash_axioms;

        let reg = match first {
            IpcMessage::RegisterAgent(reg) => reg,
            _ => {
                return Err(fault(IoKind::InvalidData, "expected RegisterAgent"));
            },
        };
        if reg.version != PROTOCOL_VERSION {
            let mut m = "unsupported agent protocol version ".to_owned();
            push_dec(&mut m, reg.version as u128);
            m.append(" (want ");
            push_dec(&mut m, PROTOCOL_VERSION as u128);
            m.append(")");
            return Err(fault(IoKind::InvalidData, m.as_str()));
        }
        let token = reg.instance_token;
        let old_token = self.agents.insert(uid, token.clone());
        assert(self@.agents =~= old(self)@.agents.insert(uid, token@));
        Ok((token, old_token))
    }

    /// Take note of a message of a user's agent.
    pub fn agent_message(&mut self, uid: Uid, msg: IpcMessage) -> (e: AgentEvent)
        ensures
            e@ == event_for(old(self)@.tenants, uid, msg@),
            final(self)@ == old(self)@.informed(uid, msg@),
            old(self)@.wf() ==> final(self)@.wf(),
    {
        match msg {
            IpcMessage::DeviceSnapshot(m) => self.agent_devices(uid, m.devices),
            IpcMessage::DeviceSnapshotChanged(m) => self.agent_devices(uid, m.devices),
            IpcMessage::OpenResult(r) => AgentEvent::Opened {
                stream_id: r.stream_id,
                outcome: OpenOutcome { ok: r.ok, fail_reason: r.fail_reason },
            },
            IpcMessage::StreamData { stream_id, data } => AgentEvent::Deliver { stream_id, data },
            IpcMessage::StreamClose(c) => AgentEvent::Closed {
                stream_id: c.stream_id,
                outcome: OpenOutcome { ok: false, fail_reason: Some(c.reason) },
            },
            IpcMessage::Ping => AgentEvent::Send(IpcMessage::Pong),
            _ => AgentEvent::Ignore,
        }
    }

    /// Replace a user's private devices.
    fn agent_devices(&mut self, uid: Uid, devices: Vec<SanitizedDevice>) -> (e: AgentEvent)
        ensures
            ({
                let t = old(self)@.tenants;
                let entries = private_entries(sanitized_views(devices@));
                &&& e@ == (EventView::Devices {
                    changed: !(t.private.contains_key(uid) && t.private[uid] == entries),
                })
                &&& final(self)@ == (DaemonView {
                    tenants: TenantView { private: t.private.insert(uid, entries), ..t },
                    ..old(self)@
                })
            }),
            old(self)@.wf() ==> final(self)@.wf(),
    {
        let snap = sanitized_to_snapshot(devices.as_slice());
        assert(private_devices(snap@));
        let changed = self.tenants.update_agent_devices(uid, snap);
        AgentEvent::Devices { changed }
    }

    /// Take note that an agent with this token has left. Its devices are
    /// removed unless another agent of the user has replaced it. Tells whether
    /// they were.
    pub fn agent_left(&mut self, uid: Uid, token: &str) -> (removed: bool)
        ensures
            removed == old(self)@.is_agent(uid, token@),
            final(self)@ == old(self)@.departed(uid, token@),
            old(self)@.wf() ==> final(self)@.wf(),
    {
        broadcast use group_hash_axioms;

        let current = match self.agents.get(&uid) {
            Some(t) => str_eq(t.as_str(), token),
            None => false,
        };
        if !current {
            return false;
        }
        self.agents.remove(&uid);
        assert(self@.agents =~= old(self)@.agents.remove(uid));
        self.tenants.remove_agent(uid);
        true
    }

    /// The devices that a user sees.
    pub fn snapshot_for(&self, uid: Uid) -> (snap: DeviceSnapshot)
        ensures
            snap@ == self@.tenants.visible(uid),
            self@.tenants.wf(),
    {
        self.tenants.snapshot_for(uid)
    }

    /// Decide what to do for a client of a user, whose first packet is
    /// `payload`. Only the devices that the user sees are looked at.
    pub fn handle_adb_client(&self, uid: Uid, payload: Result<Vec<u8>, IoFault>) -> (a: ServeAction)
        ensures
            client_serve(
                payload_view(payload),
                self@.tenants.visible(uid),
                self@.local,
                self@.adb_version,
                a@,
            ),
    {
        let payload = match payload {
            Ok(p) => p,
            Err(f) => {
                return if f.kind == IoKind::UnexpectedEof {
                    ServeAction::Close
                } else {
                    ServeAction::Fault(f)
                };
            },
        };
        let service = match utf8_text(payload.as_slice()) {
            Some(s) => s,
            None => {
                return ServeAction::Reply(fail_reply("invalid utf8 service"));
            },
        };
        let snap = self.tenants.snapshot_for(uid);
        let local = match &self.local_backend {
            Some(b) => Some(b),
            None => None,
        };
        serve_service(service.as_str(), &snap, local, self.adb_version)
    }

    /// Ask a user's agent to open a stream along one of its routes: the stream
    /// and the message to send, or the bytes that refuse a client whose user
    /// has no agent.
    pub fn forward_private(&mut self, uid: Uid, route_id: String, service: String) -> (r: Result<
        (u32, IpcMessage),
        Vec<u8>,
    >)
        ensures
            if old(self)@.agents.contains_key(uid) {
                (r matches Ok(p) && p.0 == old(self)@.next_stream_id && p.1@ == (
                MessageView::OpenPrivateStream {
                    stream_id: p.0,
                    route_id: route_id@,
                    service: service@,
                })) && final(self)@ == old(self)@.asked()
            } else {
                (r matches Err(b) && b@ == fail_bytes("device not found"@)) && final(self)@
                    == old(self)@
            },
            old(self)@.wf() ==> final(self)@.wf(),
    {
        broadcast use group_hash_axioms;

        if !self.agents.contains_key(&uid) {
            return Err(fail_reply("device not found"));
        }
        let stream_id = self.next_stream_id;
        self.next_stream_id = if stream_id == u32::MAX {
            0
        } else {
            stream_id + 1
        };
        Ok(
            (
                stream_id,
                IpcMessage::OpenPrivateStream(OpenPrivateStream { stream_id, route_id, service }),
            ),
        )
    }
}

/// How waiting for an agent to open a stream ended.
#[derive(Debug)]
pub enum OpenWait {
    /// The agent did not answer in time.
    Late,
    /// The agent went away.
    Dropped,
    /// The agent answered.
    Answered(OpenOutcome),
}

/// Longest wait for an agent to open a stream, in milliseconds.
pub const OPEN_WAIT_MS: u64 = 10000;

/// What to do once waiting for a stream has ended.
#[derive(Debug)]
pub enum OpenedAction {
    /// Carry bytes between the client and the agent.
    Bridge,
    /// Refuse the client with these bytes.
    Refuse(Vec<u8>),
    /// The connection failed.
    Fail(IoFault),
}

/// Decide what to do once waiting for a stream has ended.
pub fn private_opened(wait: OpenWait) -> (a: OpenedAction)
    ensures
        match wait {
            OpenWait::Late => a matches OpenedAction::Fail(f) && f@ == fault_view(
                IoKind::TimedOut,
                "open private stream timeout"@,
            ),
            OpenWait::Dropped => a matches OpenedAction::Fail(f) && f@ == fault_view(
                IoKind::BrokenPipe,
                "open waiter dropped"@,
            ),
            OpenWait::Answered(o) => if o.ok {
                a is Bridge
            } else {
                a matches OpenedAction::Refuse(b) && b@ == fail_bytes(
                    match o.fail_reason {
                        Some(why) => why@,
                        None => "open failed"@,
                    },
                )
            },
        },
{
    match wait {
        OpenWait::Late => OpenedAction::Fail(
            fault(IoKind::TimedOut, "open private stream timeout"),
        ),
        OpenWait::Dropped => OpenedAction::Fail(fault(IoKind::BrokenPipe, "open waiter dropped")),
        OpenWait::Answered(o) => if o.ok {
            OpenedAction::Bridge
        } else {
            match o.fail_reason {
                Some(why) => OpenedAction::Refuse(fail_reply(why.as_str())),
                None => OpenedAction::Refuse(fail_reply("open failed")),
            }
        },
    }
}

/// What to do after reading from the client of a stream.
#[derive(Debug)]
pub enum BridgeAction {
    /// Send this message to the agent.
    Send(IpcMessage),
    /// The stream is over.
    Stop,
    /// The connection failed.
    Fail(IoFault),
}

/// Decide what to do after reading from the client of a stream: no bytes mean
/// that the client is done.
pub fn bridge_client(stream_id: u32, read: Result<Vec<u8>, IoFault>) -> (a: BridgeAction)
    ensures
        match read {
            Ok(data) => if data@.len() == 0 {
                a is Stop
            } else {
                a matches BridgeAction::Send(m) && m@ == (MessageView::StreamData {
                    stream_id,
                    data: data@,
                })
            },
            Err(f) => if benign(f.kind) {
                a is Stop
            } else {
                a == BridgeAction::Fail(f)
            },
        },
{
    match read {
        Ok(data) => if data.len() == 0 {
            BridgeAction::Stop
        } else {
            BridgeAction::Send(IpcMessage::StreamData { stream_id, data })
        },
        Err(f) => if is_benign(f.kind) {
            BridgeAction::Stop
        } else {
            BridgeAction::Fail(f)
        },
    }
}

/// `adb kill-server` is granted and changes nothing: neither the daemon nor the
/// shared server stops.
pub proof fn kill_is_granted_and_ignored(
    s: Seq<EntryView>,
    local: Option<BackendView>,
    version: u32,
    a: ServeView,
)
    requires
        serve_answer("host:kill"@, s, local, version, a),
    ensures
        a == ServeView::Reply(okay_status()),
{
    reveal_strlit("host:kill");
    reveal_strlit("host:devices");
    reveal_strlit("host:devices-l");
    reveal_strlit("host:track-devices");
    reveal_strlit("host:track-devices-l");
    assert("host:kill"@.len() == 9);
    assert("host:devices"@.len() == 12);
    assert("host:devices-l"@.len() == 14);
    assert("host:track-devices"@.len() == 18);
    assert("host:track-devices-l"@.len() == 20);
}

/// Polling keeps the invariant: shared devices have neither route nor pair code.
proof fn lemma_polled_wf(d: DaemonView, fetched: Result<String, IoFault>)
    requires
        d.wf(),
    ensures
        d.polled(fetched).wf(),
{
    if let Some(b) = d.local {
        let lists = shared_lists(b, fetched);
        let reports = line_reports(b, lines_seq(polled_body(fetched)));
        assert(lists.drop_last() =~= Seq::<ListView>::empty());
        assert(all_reports(lists.drop_last()) =~= Seq::<ReportView>::empty());
        assert(all_reports(lists) =~= reports);
        let shared = merged(reports);
        assert forall|i: int| 0 <= i < shared.len() implies shared_device(
            #[trigger] shared[i],
        ) by {
            lemma_reports_name_backend(b, lines_seq(polled_body(fetched)), i);
        }
    }
}

proof fn lemma_reports_name_backend(b: BackendView, all: Seq<Seq<char>>, i: int)
    requires
        0 <= i < line_reports(b, all).len(),
    ensures
        line_reports(b, all)[i].backend == b,
    decreases all.len(),
{
    if all.len() > 0 && i < line_reports(b, all.drop_last()).len() {
        lemma_reports_name_backend(b, all.drop_last(), i);
    }
}

/// No pair code ever reaches the daemon: none of the devices that a user sees
/// has one, nor has the shared backend.
pub proof fn daemon_holds_no_pair_code(d: DaemonView, uid: Uid, i: int)
    requires
        d.wf(),
        0 <= i < d.tenants.visible(uid).len(),
    ensures
        d.tenants.visible(uid)[i].pair_code is None,
        d.local matches Some(b) ==> b.pair_code is None,
{
    let t = d.tenants;
    views_hold_every_device(t, uid, i);
    if i < t.shared.len() {
        assert(shared_device(t.shared[i]));
    } else {
        assert(private_devices(t.private[uid]));
        assert(private_device(t.private[uid][i - t.shared.len()]));
    }
}

/// A private route that a client is given is one that the agent of the
/// client's own user has published, for a device that the user sees.
pub proof fn private_routes_are_the_users_own(
    d: DaemonView,
    uid: Uid,
    service: Seq<char>,
    order: Seq<Seq<char>>,
    route_id: Seq<char>,
    upstream: Seq<char>,
)
    requires
        d.wf(),
        routed(
            service,
            d.tenants.visible(uid),
            order,
            d.local,
            RouteTo::Private { route_id, upstream },
        ),
    ensures
        d.tenants.private.contains_key(uid),
        exists|i: int|
            0 <= i < d.tenants.private[uid].len() && (#[trigger] d.tenants.private[uid][i]).route_id
                == Some(route_id),
{
    let t = d.tenants;
    let s = t.visible(uid);
    let e = choose|e: EntryView| #[trigger]
        concerns(service, s, order, e) && (RouteTo::Private { route_id, upstream })
            == device_route(service, s, e);
    lemma_concerns_listed(service, s, order, e);
    let k = choose|k: int| 0 <= k < s.len() && s[k] == e;
    views_hold_every_device(t, uid, k);
    if k < t.shared.len() {
        assert(shared_device(t.shared[k]));
    } else {
        let i = k - t.shared.len();
        assert(t.private[uid][i].route_id == Some(route_id));
    }
}

/// The serial of the device that a service names, if it names one.
pub open spec fn named_serial(service: Seq<char>, s: Seq<EntryView>) -> Option<Seq<char>> {
    match asked(service, s) {
        Asked::Transport { serial, .. } => Some(serial),
        Asked::HostSerial { serial, .. } => Some(serial),
        _ => None,
    }
}

/// A request that names a device which is neither shared nor the user's own is
/// answered that the device is not found, whoever else may have it.
pub proof fn foreign_devices_are_refused(
    d: DaemonView,
    uid: Uid,
    service: Seq<char>,
    serial: Seq<char>,
    a: ServeView,
)
    requires
        named_serial(service, d.tenants.visible(uid)) == Some(serial),
        forall|i: int|
            0 <= i < d.tenants.visible(uid).len() ==> (#[trigger] d.tenants.visible(
                uid,
            )[i]).public_serial != serial,
        serve_answer(service, d.tenants.visible(uid), d.local, d.adb_version, a),
    ensures
        a == ServeView::Reply(fail_bytes("device '"@ + serial + "' not found"@)),
{
    let s = d.tenants.visible(uid);
    lemma_named_is_routed(service, s);
    lemma_find_index(s, serial);
}

/// Of the requests to a server, the shared one is handed only those about a
/// device and those that are known to be safe. A service about a listed device
/// goes to that device; any other goes to the shared server as it is.
pub proof fn only_safe_requests_reach_the_shared_server(
    service: Seq<char>,
    s: Seq<EntryView>,
    local: Option<BackendView>,
    version: u32,
    r: RouteTo,
)
    requires
        serve_answer(service, s, local, version, ServeView::Forward(r)),
    ensures
        host_request(service) ==> about_device(service) || selects_device(service)
            || asks_chosen_device(service) || safe_global(service),
        !about_device(service) ==> local is Some && r == (RouteTo::Shared {
            addr: local->0.addr,
            upstream: service,
        }),
        about_device(service) ==> exists|i: int|
            0 <= i < s.len() && r == device_route(service, s, #[trigger] s[i]),
{
    lemma_opaque(service, s);
    let order = daemon_order(s, local is Some);
    if about_device(service) {
        let e = choose|e: EntryView| #[trigger]
            concerns(service, s, order, e) && r == device_route(service, s, e);
        lemma_concerns_listed(service, s, order, e);
        let i = choose|i: int| 0 <= i < s.len() && s[i] == e;
        assert(r == device_route(service, s, s[i]));
    }
}

/// Services about a device that do not name it by its serial reach the shared
/// server unchanged.
pub proof fn device_scoped_requests_are_routed(
    service: Seq<char>,
    s: Seq<EntryView>,
    local: Option<BackendView>,
    version: u32,
    a: ServeView,
)
    requires
        device_scoped(service),
        !answered_here(service),
        !about_device(service),
        local is Some,
        serve_answer(service, s, local, version, a),
    ensures
        a == ServeView::Forward(RouteTo::Shared { addr: local->0.addr, upstream: service }),
{
    lemma_opaque(service, s);
}

/// Every other request to a server is refused, unless the daemon answers it
/// itself.
pub proof fn unsafe_requests_are_refused(
    service: Seq<char>,
    s: Seq<EntryView>,
    local: Option<BackendView>,
    version: u32,
    a: ServeView,
)
    requires
        host_request(service),
        !about_device(service),
        !device_scoped(service),
        !safe_global(service),
        !answered_here(service),
        serve_answer(service, s, local, version, a),
    ensures
        a == ServeView::Reply(fail_bytes("host command not permitted on multi-user daemon"@)),
{
}

/// A service that names a device is none of those that are answered otherwise.
proof fn lemma_named_is_routed(service: Seq<char>, s: Seq<EntryView>)
    requires
        named_serial(service, s) is Some,
    ensures
        service != "host:devices"@ && service != "host:devices-l"@,
        service != "host:track-devices"@ && service != "host:track-devices-l"@,
        service != "host:kill"@ && service != "host:version"@,
        !about_preferred(service),
        !unsafe_global(service),
{
    lemma_opaque(service, s);
    reveal_strlit("host:transport:");
    reveal_strlit("host:tport:serial:");
    reveal_strlit("host-serial:");
    reveal_strlit("host:devices");
    reveal_strlit("host:devices-l");
    reveal_strlit("host:track-devices");
    reveal_strlit("host:track-devices-l");
    reveal_strlit("host:kill");
    reveal_strlit("host:version");
    reveal_strlit("host:get-state");
    reveal_strlit("host:get-serialno");
    reveal_strlit("host:get-connection-state");
    lemma_prefix_chars(service, "host:transport:"@);
    lemma_prefix_chars(service, "host:tport:serial:"@);
    lemma_prefix_chars(service, "host-serial:"@);
    assert(service[4] == '-' || service[5] == 't');
    assert(service[4] == '-' || service[6] == 'p' || service[8] == 'n');
}

/// A text has the characters of its prefix.
proof fn lemma_prefix_chars(s: Seq<char>, p: Seq<char>)
    ensures
        has_prefix(s, p) ==> forall|i: int| 0 <= i < p.len() ==> #[trigger] s[i] == p[i],
{
    if has_prefix(s, p) {
        assert forall|i: int| 0 <= i < p.len() implies #[trigger] s[i] == p[i] by {
            assert(s.take(p.len() as int)[i] == p[i]);
        }
    }
}

/// Nothing that one user's agent does changes what another user sees, nor who
/// their agent is.
pub proof fn agents_do_not_affect_other_users(
    d: DaemonView,
    uid: Uid,
    other: Uid,
    token: Seq<char>,
    msg: MessageView,
)
    requires
        uid != other,
    ensures
        d.informed(uid, msg).tenants.visible(other) == d.tenants.visible(other),
        d.registered(uid, token).tenants.visible(other) == d.tenants.visible(other),
        d.departed(uid, token).tenants.visible(other) == d.tenants.visible(other),
        forall|t: Seq<char>|
            d.registered(uid, token).is_agent(other, t) == #[trigger] d.is_agent(other, t),
        forall|t: Seq<char>|
            d.departed(uid, token).is_agent(other, t) == #[trigger] d.is_agent(other, t),
{
}

/// A client that tracks the devices is sent nothing when another user's agent
/// registers, reports or leaves: it cannot tell that anything happened.
pub proof fn trackers_are_not_told_of_other_users(
    d: DaemonView,
    uid: Uid,
    other: Uid,
    token: Seq<char>,
    msg: MessageView,
    event: TrackEvent,
    long: bool,
)
    requires
        uid != other,
        event != TrackEvent::Closed,
    ensures
        ({
            let sent = devices_body(d.tenants.visible(other), long);
            let after = |e: DaemonView| track_step(event, sent, e.tenants.visible(other), long);
            &&& after(d.registered(uid, token)) == TrackView::Quiet
            &&& after(d.informed(uid, msg)) == TrackView::Quiet
            &&& after(d.departed(uid, token)) == TrackView::Quiet
        }),
{
    agents_do_not_affect_other_users(d, uid, other, token, msg);
}

/// When a user's agent leaves, the user is left with the shared devices, told
/// apart where needed.
pub proof fn departed_agents_take_their_devices(d: DaemonView, uid: Uid, token: Seq<char>)
    requires
        d.is_agent(uid, token),
    ensures
        d.departed(uid, token).tenants.visible(uid) == told_apart(d.tenants.shared),
        d.departed(uid, token).tenants.shared == d.tenants.shared,
{
}

/// An agent that was replaced takes nothing with it when it leaves: only the
/// agent that registered last can remove a user's devices.
pub proof fn replaced_agents_leave_quietly(
    d: DaemonView,
    uid: Uid,
    replaced: Seq<char>,
    latest: Seq<char>,
)
    requires
        replaced != latest,
    ensures
        d.registered(uid, replaced).registered(uid, latest).departed(uid, replaced)
            == d.registered(uid, latest),
        d.registered(uid, latest).is_agent(uid, latest),
{
    assert(d.agents.insert(uid, replaced).insert(uid, latest) =~= d.agents.insert(uid, latest));
}

/// A report of devices, be it a first one or one of a change, replaces the user's
/// private devices by exactly the reported ones, and nothing else changes. It counts
/// as a change exactly when the list was another one before, or there was none.
pub proof fn reports_replace_the_users_devices(
    d: DaemonView,
    uid: Uid,
    generation: u64,
    devices: Seq<SanitizedView>,
    msg: MessageView,
)
    requires
        msg == (MessageView::DeviceSnapshot { generation, devices }) || msg == (
        MessageView::DeviceSnapshotChanged { generation, devices }),
    ensures
        ({
            let after = d.informed(uid, msg);
            let entries = Seq::new(
                devices.len(),
                |i: int|
                    EntryView {
                        public_serial: devices[i].public_serial,
                        upstream_serial: devices[i].upstream_serial,
                        state: devices[i].state,
                        extras: devices[i].extras,
                        backend_name: devices[i].backend_name,
                        backend_addr: loopback_view(0),
                        pair_code: None,
                        route_id: Some(devices[i].route_id),
                    },
            );
            &&& after.tenants.private == d.tenants.private.insert(uid, entries)
            &&& after.tenants.shared == d.tenants.shared
            &&& after.agents == d.agents
            &&& after.next_stream_id == d.next_stream_id
            &&& after.local == d.local
            &&& after.adb_version == d.adb_version
            &&& after.tenants.devices_of(uid) == d.tenants.shared + entries
            &&& event_for(d.tenants, uid, msg) == (EventView::Devices {
                changed: d.tenants.private.get(uid) != Some(entries),
            })
        }),
{
    let entries = Seq::new(
        devices.len(),
        |i: int|
            EntryView {
                public_serial: devices[i].public_serial,
                upstream_serial: devices[i].upstream_serial,
                state: devices[i].state,
                extras: devices[i].extras,
                backend_name: devices[i].backend_name,
                backend_addr: loopback_view(0),
                pair_code: None,
                route_id: Some(devices[i].route_id),
            },
    );
    assert(private_entries(devices) =~= entries);
}

/// A device that an agent reports is seen by its user behind the shared ones, with
/// the serial, the state and the route that were reported.
pub proof fn reported_devices_are_seen(
    d: DaemonView,
    uid: Uid,
    generation: u64,
    devices: Seq<SanitizedView>,
    msg: MessageView,
    i: int,
)
    requires
        msg == (MessageView::DeviceSnapshot { generation, devices }) || msg == (
        MessageView::DeviceSnapshotChanged { generation, devices }),
        0 <= i < devices.len(),
    ensures
        ({
            let seen = d.informed(uid, msg).tenants.visible(uid);
            let k = d.tenants.shared.len() + i;
            &&& seen.len() == d.tenants.shared.len() + devices.len()
            &&& seen[k].upstream_serial == devices[i].upstream_serial
            &&& seen[k].state == devices[i].state
            &&& seen[k].extras == devices[i].extras
            &&& seen[k].backend_name == devices[i].backend_name
            &&& seen[k].route_id == Some(devices[i].route_id)
            &&& seen[k].pair_code is None
        }),
{
    let t = d.informed(uid, msg).tenants;
    views_hold_every_device(t, uid, d.tenants.shared.len() + i);
}

/// The other messages of an agent change nothing that the daemon knows. They open,
/// feed and end streams by their ids, a ping is answered, and the rest is ignored.
pub proof fn stream_messages_reach_their_streams(
    d: DaemonView,
    uid: Uid,
    stream_id: u32,
    ok: bool,
    fail_reason: Option<Seq<char>>,
    data: Seq<u8>,
    reason: Seq<char>,
    msg: MessageView,
)
    ensures
        !(msg is DeviceSnapshot) && !(msg is DeviceSnapshotChanged) ==> d.informed(uid, msg) == d,
        event_for(
            d.tenants,
            uid,
            MessageView::OpenResult { stream_id, ok, fail_reason },
        ) == (EventView::Opened { stream_id, ok, fail_reason }),
        event_for(d.tenants, uid, MessageView::StreamData { stream_id, data }) == (
        EventView::Deliver { stream_id, data }),
        event_for(d.tenants, uid, MessageView::StreamClose { stream_id, reason }) == (
        EventView::Closed { stream_id, ok: false, fail_reason: Some(reason) }),
        event_for(d.tenants, uid, MessageView::Ping) == EventView::Send(MessageView::Pong),
        event_for(d.tenants, uid, msg) is Ignore <==> msg is RegisterAgent
            || msg is OpenPrivateStream || msg is Pong,
{
}

/// A user's clients are answered from the devices that the user sees: lists, short
/// or long, and tracking; the version is the one that the daemon reports.
pub proof fn clients_are_answered_from_their_view(
    service: Seq<char>,
    s: Seq<EntryView>,
    local: Option<BackendView>,
    version: u32,
    a: ServeView,
)
    requires
        serve_answer(service, s, local, version, a),
    ensures
        service == "host:devices"@ ==> a == ServeView::Reply(
            okay_payload_bytes(encode_utf8(devices_body(s, false))),
        ),
        service == "host:devices-l"@ ==> a == ServeView::Reply(
            okay_payload_bytes(encode_utf8(devices_body(s, true))),
        ),
        service == "host:track-devices"@ ==> a == (ServeView::Track { long: false }),
        service == "host:track-devices-l"@ ==> a == (ServeView::Track { long: true }),
        service == "host:kill"@ ==> a == ServeView::Reply(okay_status()),
        service == "host:version"@ ==> a == ServeView::Reply(
            okay_payload_bytes(encode_utf8(pad_left(hex_seq(version as nat), '0', 4))),
        ),
{
    lemma_answered_apart();
}

proof fn lemma_answered_apart()
    ensures
        "host:devices"@.len() == 12,
        "host:devices-l"@.len() == 14,
        "host:track-devices"@.len() == 18,
        "host:track-devices-l"@.len() == 20,
        "host:kill"@.len() == 9,
        "host:version"@.len() == 12,
        "host:devices"@[5] == 'd',
        "host:devices-l"@[5] == 'd',
        "host:kill"@[5] == 'k',
        "host:version"@[5] == 'v',
        "host:get-state"@[5] == 'g',
        "host:get-serialno"@[5] == 'g',
        "host:get-connection-state"@[5] == 'g',
        "host:track-devices"@[5] == 't',
        "host:track-devices"@[8] == 'c',
        "host:track-devices-l"@[5] == 't',
        "host:track-devices-l"@[8] == 'c',
        "host:get-state"@[8] == '-',
        "host:get-state"@.len() == 14,
        "host:get-serialno"@.len() == 17,
        "host:get-connection-state"@.len() == 25,
{
    reveal_strlit("host:devices");
    reveal_strlit("host:devices-l");
    reveal_strlit("host:track-devices");
    reveal_strlit("host:track-devices-l");
    reveal_strlit("host:kill");
    reveal_strlit("host:version");
    reveal_strlit("host:get-state");
    reveal_strlit("host:get-serialno");
    reveal_strlit("host:get-connection-state");
}

/// The version that clients are told is read back from its four digits.
pub proof fn version_is_read_back(version: u32)
    ensures
        hex_value(version_chars(version)) == version,
        version_chars(version).len() >= 4,
{
    lemma_hex_seq_value(version as nat);
    let s = hex_seq(version as nat);
    if s.len() < 4 {
        lemma_hex_zeros((4 - s.len()) as nat, s);
    }
}

/// A client that asks for the state or the serial without naming a device is told
/// those of the preferred one, or why there is none.
pub proof fn preferred_device_is_told(
    s: Seq<EntryView>,
    local: Option<BackendView>,
    version: u32,
    d: EntryView,
    a: ServeView,
)
    ensures
        ({
            let order = daemon_order(s, local is Some);
            let text = |t: Seq<char>| ServeView::Reply(okay_payload_bytes(encode_utf8(t)));
            &&& no_preference(s, order) matches Some(why) ==> {
                &&& serve_answer("host:get-state"@, s, local, version, a) <==> a
                    == ServeView::Reply(fail_bytes(why))
                &&& serve_answer("host:get-serialno"@, s, local, version, a) <==> a
                    == ServeView::Reply(fail_bytes(why))
                &&& serve_answer("host:get-connection-state"@, s, local, version, a) <==> a
                    == ServeView::Reply(fail_bytes(why))
            }
            &&& preferred(s, order, d) ==> {
                &&& serve_answer("host:get-state"@, s, local, version, a) <==> a == text(d.state)
                &&& serve_answer("host:get-serialno"@, s, local, version, a) <==> a == text(
                    d.public_serial,
                )
                &&& serve_answer("host:get-connection-state"@, s, local, version, a) <==> a
                    == text(d.state)
            }
        }),
{
    lemma_answered_apart();
    let order = daemon_order(s, local is Some);
    if preferred(s, order, d) {
        preferred_device_is_unique(s, order, d, d);
        assert forall|e: EntryView| #[trigger] preferred(s, order, e) implies e == d by {
            preferred_device_is_unique(s, order, d, e);
        }
    }
}

/// The daemon prefers the shared backend, if it has one, and then the others as they
/// are first seen; it refuses for want of a device only if none can be used.
pub proof fn daemon_prefers_the_shared_backend(s: Seq<EntryView>, local: bool)
    ensures
        local ==> daemon_order(s, local).len() > 0 && daemon_order(s, local)[0] == "local"@,
        daemon_order(s, local) == seen_order(
            if local {
                seq!["local"@]
            } else {
                Seq::empty()
            },
            s,
        ),
        no_preference(s, daemon_order(s, local)) == Some("no devices/emulators found"@)
            <==> forall|i: int| 0 <= i < s.len() ==> (#[trigger] s[i]).state != "device"@,
{
    let start = if local {
        seq![LOCAL_BACKEND@]
    } else {
        Seq::empty()
    };
    every_backend_has_a_place(start, s);
    no_device_is_refused_for_none(s, daemon_order(s, local));
    if local {
        lemma_order_keeps_start(start, s);
        assert(seen_order(start, s)[0] == start[0]);
    }
}

/// A client that names a device by the serial it is shown under is handed on to that
/// device: a shared one at its server's address, a private one along the route that
/// the agent published, always under the serial that the device's backend knows. A
/// device that cannot be used or is not there is refused.
pub proof fn named_devices_are_routed(
    s: Seq<EntryView>,
    local: Option<BackendView>,
    version: u32,
    serial: Seq<char>,
    i: int,
    a: ServeView,
)
    requires
        0 <= i <= s.len(),
        forall|j: int| 0 <= j < i ==> (#[trigger] s[j]).public_serial != serial,
        i < s.len() ==> s[i].public_serial == serial,
    ensures
        ({
            let to = |p: Seq<char>|
                match s[i].route_id {
                    Some(route_id) => RouteTo::Private {
                        route_id,
                        upstream: p + s[i].upstream_serial,
                    },
                    None => RouteTo::Shared {
                        addr: s[i].backend_addr,
                        upstream: p + s[i].upstream_serial,
                    },
                };
            let answer = |p: Seq<char>|
                if i == s.len() {
                    ServeView::Reply(fail_bytes("device '"@ + serial + "' not found"@))
                } else if s[i].state == "device"@ {
                    ServeView::Forward(to(p))
                } else {
                    ServeView::Reply(
                        fail_bytes(
                            "device '"@ + serial + "' is not online ("@ + s[i].state + ")"@,
                        ),
                    )
                };
            &&& serve_answer("host:transport:"@ + serial, s, local, version, a) <==> a == answer(
                "host:transport:"@,
            )
            &&& serve_answer("host:tport:serial:"@ + serial, s, local, version, a) <==> a
                == answer("host:tport:serial:"@)
        }),
{
    let order = daemon_order(s, local is Some);
    let x = "host:transport:"@ + serial;
    let y = "host:tport:serial:"@ + serial;
    lemma_prefixed("host:transport:"@, serial);
    lemma_prefixed("host:tport:serial:"@, serial);
    lemma_tport(serial);
    lemma_opaque(x, s);
    lemma_opaque(y, s);
    lemma_named_is_routed(x, s);
    lemma_named_is_routed(y, s);
    let d = if i < s.len() {
        s[i]
    } else {
        s[0]
    };
    transports_open_the_named_device(s, order, serial, i, d);
    assert forall|e: EntryView| #[trigger] concerns(x, s, order, e) implies e == d by {
        transports_open_the_named_device(s, order, serial, i, e);
    }
    assert forall|e: EntryView| #[trigger] concerns(y, s, order, e) implies e == d by {
        transports_open_the_named_device(s, order, serial, i, e);
    }
}

/// A client that asks for any device is handed on to the preferred one, or told why
/// there is none.
pub proof fn any_device_is_routed(
    s: Seq<EntryView>,
    local: Option<BackendView>,
    version: u32,
    d: EntryView,
    a: ServeView,
)
    requires
        no_preference(s, daemon_order(s, local is Some)) is None ==> preferred(
            s,
            daemon_order(s, local is Some),
            d,
        ),
    ensures
        ({
            let to = |p: Seq<char>|
                match d.route_id {
                    Some(route_id) => RouteTo::Private { route_id, upstream: p + d.upstream_serial },
                    None => RouteTo::Shared {
                        addr: d.backend_addr,
                        upstream: p + d.upstream_serial,
                    },
                };
            let answer = |p: Seq<char>|
                match no_preference(s, daemon_order(s, local is Some)) {
                    Some(why) => ServeView::Reply(fail_bytes(why)),
                    None => ServeView::Forward(to(p)),
                };
            &&& serve_answer("host:tport:any"@, s, local, version, a) <==> a == answer(
                "host:tport:serial:"@,
            )
            &&& serve_answer("host:transport-any"@, s, local, version, a) <==> a == answer(
                "host:transport:"@,
            )
            &&& serve_answer("host:transport-usb"@, s, local, version, a) <==> a == answer(
                "host:transport:"@,
            )
            &&& serve_answer("host:transport-local"@, s, local, version, a) <==> a == answer(
                "host:transport:"@,
            )
        }),
{
    let order = daemon_order(s, local is Some);
    lemma_any_is_routed("host:tport:any"@, s, order);
    lemma_any_is_routed("host:transport-any"@, s, order);
    lemma_any_is_routed("host:transport-usb"@, s, order);
    lemma_any_is_routed("host:transport-local"@, s, order);
    any_device_is_the_preferred_one(s, order, d);
    if no_preference(s, order) is None {
        assert forall|e: EntryView| #[trigger] preferred(s, order, e) implies e == d by {
            preferred_device_is_unique(s, order, d, e);
        }
        assert forall|e: EntryView|
            #![trigger concerns("host:tport:any"@, s, order, e)]
            #![trigger concerns("host:transport-any"@, s, order, e)]
            #![trigger concerns("host:transport-usb"@, s, order, e)]
            #![trigger concerns("host:transport-local"@, s, order, e)]
            {
                &&& concerns("host:tport:any"@, s, order, e) ==> e == d
                &&& concerns("host:transport-any"@, s, order, e) ==> e == d
                &&& concerns("host:transport-usb"@, s, order, e) ==> e == d
                &&& concerns("host:transport-local"@, s, order, e) ==> e == d
            } by {
            any_device_is_the_preferred_one(s, order, e);
        }
    }
}

proof fn lemma_any_is_routed(service: Seq<char>, s: Seq<EntryView>, order: Seq<Seq<char>>)
    requires
        service == "host:tport:any"@ || service == "host:transport-any"@ || service
            == "host:transport-usb"@ || service == "host:transport-local"@,
    ensures
        service != "host:devices"@ && service != "host:devices-l"@,
        service != "host:track-devices"@ && service != "host:track-devices-l"@,
        service != "host:kill"@ && service != "host:version"@,
        !about_preferred(service),
        !unsafe_global(service),
        about_device(service),
        !(asked(service, s) is Opaque),
{
    lemma_answered_apart();
    reveal_strlit("host:tport:any");
    reveal_strlit("host:transport-any");
    reveal_strlit("host:transport-usb");
    reveal_strlit("host:transport-local");
    assert(service[5] == 't');
    assert(service[8] == 'r' || service[8] == 'n');
    lemma_opaque(service, s);
}

/// Of the requests to an adb server, the shared server is handed as they are only
/// those that are spelled out here; all others are answered by the daemon, routed to
/// a device that the user sees, or refused.
pub proof fn requests_that_are_handed_on(
    service: Seq<char>,
    s: Seq<EntryView>,
    local: Option<BackendView>,
    version: u32,
    a: ServeView,
)
    requires
        has_prefix(service, "host:"@) || has_prefix(service, "host-"@),
        !has_prefix(service, "host:transport:"@),
        !has_prefix(service, "host:tport:serial:"@),
        !has_prefix(service, "host-serial:"@),
        service != "host:tport:any"@,
        service != "host:transport-any"@,
        service != "host:transport-usb"@,
        service != "host:transport-local"@,
        service != "host:devices"@,
        service != "host:devices-l"@,
        service != "host:track-devices"@,
        service != "host:track-devices-l"@,
        service != "host:kill"@,
        service != "host:version"@,
        service != "host:get-state"@,
        service != "host:get-serialno"@,
        service != "host:get-connection-state"@,
        serve_answer(service, s, local, version, a),
    ensures
        ({
            let of_device = |r: Seq<char>|
                r == "features"@ || has_prefix(r, "get-"@) || has_prefix(r, "forward:"@)
                    || has_prefix(r, "killforward:"@);
            let handed = service == "host:features"@ || service == "host:host-features"@
                || has_prefix(service, "host:wait-for-"@) || service == "host:tport:usb"@ || service
                == "host:tport:local"@ || has_prefix(service, "host:transport-id:"@) || has_prefix(
                service,
                "host:get-"@,
            ) || (has_prefix(service, "host-usb:"@) && of_device(
                service.skip("host-usb:"@.len() as int),
            )) || (has_prefix(service, "host-local:"@) && of_device(
                service.skip("host-local:"@.len() as int),
            )) || (has_prefix(service, "host-transport-id:"@) && {
                let rest = service.skip("host-transport-id:"@.len() as int);
                let k = find_char(rest, ':');
                k < rest.len() && of_device(rest.skip(k + 1))
            });
            a == (if !handed {
                ServeView::Reply(fail_bytes("host command not permitted on multi-user daemon"@))
            } else if local is None {
                ServeView::Reply(fail_bytes("no shared local backend"@))
            } else {
                ServeView::Forward(RouteTo::Shared { addr: local->0.addr, upstream: service })
            })
        }),
{
    lemma_opaque(service, s);
}

/// A service that is no request to a server goes to the shared server as it is.
pub proof fn other_services_reach_the_shared_server(
    service: Seq<char>,
    s: Seq<EntryView>,
    local: Option<BackendView>,
    version: u32,
    a: ServeView,
)
    requires
        service.len() == 0 || service[0] != 'h',
        serve_answer(service, s, local, version, a),
    ensures
        a == (if local is None {
            ServeView::Reply(fail_bytes("no shared local backend"@))
        } else {
            ServeView::Forward(RouteTo::Shared { addr: local->0.addr, upstream: service })
        }),
{
    lemma_opaque(service, s);
    reveal_strlit("host:");
    reveal_strlit("host-");
    reveal_strlit("host:transport:");
    reveal_strlit("host:tport:serial:");
    reveal_strlit("host-serial:");
    reveal_strlit("host:tport:any");
    reveal_strlit("host:transport-any");
    reveal_strlit("host:transport-usb");
    reveal_strlit("host:transport-local");
    reveal_strlit("host:devices");
    reveal_strlit("host:devices-l");
    reveal_strlit("host:track-devices");
    reveal_strlit("host:track-devices-l");
    reveal_strlit("host:kill");
    reveal_strlit("host:version");
    reveal_strlit("host:get-state");
    reveal_strlit("host:get-serialno");
    reveal_strlit("host:get-connection-state");
    lemma_prefix_chars(service, "host:"@);
    lemma_prefix_chars(service, "host-"@);
    lemma_prefix_chars(service, "host:transport:"@);
    lemma_prefix_chars(service, "host:tport:serial:"@);
    lemma_prefix_chars(service, "host-serial:"@);
}

/// After a poll the shared devices are those on the lines of the list that the
/// shared server gave, and none where it could not be reached; nothing else changes.
pub proof fn polled_devices_are_shared(d: DaemonView, body: String, f: IoFault)
    ensures
        d.local matches Some(b) ==> d.polled(Ok(body)).tenants.shared == merged(
            line_reports(b, lines_seq(body@)),
        ),
        d.local is Some ==> d.polled(Err(f)).tenants.shared == Seq::<EntryView>::empty(),
        d.local is None ==> d.polled(Ok(body)) == d && d.polled(Err(f)) == d,
        d.polled(Ok(body)).tenants.private == d.tenants.private,
        d.polled(Ok(body)).agents == d.agents,
        d.polled(Err(f)).tenants.private == d.tenants.private,
        d.polled(Err(f)).agents == d.agents,
{
    if let Some(b) = d.local {
        let l = ListView { backend: b, body: body@ };
        let none = ListView { backend: b, body: Seq::empty() };
        every_backend_is_heard(Seq::empty(), Seq::empty(), l);
        every_backend_is_heard(Seq::empty(), Seq::empty(), none);
        unreachable_backends_have_no_devices(b);
        assert(merged(line_reports(b, lines_seq(Seq::empty()))) =~= Seq::<EntryView>::empty());
    }
}

/// An agent is registered by its first message, if that is a registration of the
/// version that the daemon speaks.
pub proof fn agents_register_first(
    version: u32,
    capabilities: Seq<Seq<char>>,
    instance_token: Seq<char>,
    msg: MessageView,
)
    ensures
        registration_refusal(
            MessageView::RegisterAgent { version, capabilities, instance_token },
        ) == (if version == 1 {
            None
        } else {
            Some(
                fault_view(
                    IoKind::InvalidData,
                    "unsupported agent protocol version "@ + dec_seq(version as nat) + " (want "@
                        + dec_seq(1) + ")"@,
                ),
            )
        }),
        !(msg is RegisterAgent) ==> registration_refusal(msg) == Some(
            fault_view(IoKind::InvalidData, "expected RegisterAgent"@),
        ),
{
}

/// A registered agent is the user's agent until it leaves or another one replaces
/// it. Registering changes nobody's devices; leaving removes the user's own, and
/// only theirs, and only if the agent was not replaced.
pub proof fn agents_come_and_go(d: DaemonView, uid: Uid, token: Seq<char>, other: Uid)
    ensures
        d.registered(uid, token).is_agent(uid, token),
        d.registered(uid, token).tenants == d.tenants,
        d.registered(uid, token).agents == d.agents.insert(uid, token),
        d.is_agent(uid, token) ==> {
            let after = d.departed(uid, token);
            &&& !after.agents.contains_key(uid)
            &&& !after.tenants.private.contains_key(uid)
            &&& after.tenants.shared == d.tenants.shared
            &&& other != uid ==> after.agents.contains_key(other) == d.agents.contains_key(other)
                && after.tenants.private.contains_key(other) == d.tenants.private.contains_key(
                other,
            ) && after.tenants.private[other] == d.tenants.private[other]
        },
        !d.is_agent(uid, token) ==> d.departed(uid, token) == d,
{
}

/// Streams that are open one after the other have different ids.
pub proof fn streams_have_their_own_ids(d: DaemonView)
    ensures
        d.asked().next_stream_id != d.next_stream_id,
        d.next_stream_id < u32::MAX ==> d.asked().next_stream_id == d.next_stream_id + 1,
        d.asked().tenants == d.tenants,
        d.asked().agents == d.agents,
{
}

/// A client that leaves without a request is let go, one whose connection fails is
/// a failure, and one that sends no text is told so.
pub proof fn clients_without_a_service_are_let_go(
    f: FaultView,
    p: Seq<u8>,
    s: Seq<EntryView>,
    local: Option<BackendView>,
    version: u32,
    a: ServeView,
)
    ensures
        client_serve(Err(f), s, local, version, a) <==> a == (if f.kind == IoKind::UnexpectedEof {
            ServeView::Close
        } else {
            ServeView::Fault(f)
        }),
        !valid_utf8(p) ==> (client_serve(Ok(p), s, local, version, a) <==> a == ServeView::Reply(
            fail_bytes("invalid utf8 service"@),
        )),
        valid_utf8(p) ==> (client_serve(Ok(p), s, local, version, a) <==> serve_answer(
            decode_utf8(p),
            s,
            local,
            version,
            a,
        )),
{
}

/// Only an agent's consent joins a client to a private stream; the client is told
/// why it was refused, and a missing answer is a failure.
pub proof fn private_streams_need_consent(wait: OpenWait, a: OpenedAction)
    requires
        call_ensures(private_opened, (wait,), a),
    ensures
        a is Bridge <==> (wait matches OpenWait::Answered(o) && o.ok),
        a is Refuse <==> (wait matches OpenWait::Answered(o) && !o.ok),
        a matches OpenedAction::Refuse(b) ==> b@ == fail_bytes(
            match wait->Answered_0.fail_reason {
                Some(why) => why@,
                None => "open failed"@,
            },
        ),
{
}

/// A daemon starts on Linux alone, and only where no other machine can reach it.
pub proof fn daemons_listen_on_loopback(
    platform: Platform,
    listen: &SocketAddr,
    r: Result<(), DaemonError>,
)
    requires
        call_ensures(check_start, (platform, listen), r),
    ensures
        r is Ok <==> platform == Platform::Linux && loopback_addr(listen@),
        platform != Platform::Linux ==> r == Err::<(), DaemonError>(
            DaemonError::UnsupportedPlatform(platform),
        ),
{
}

/// Only clients on this machine are served, and only those whose user is known for
/// certain.
pub proof fn clients_are_local_and_known(
    local: &Result<SocketAddr, IoFault>,
    peer: &SocketAddr,
    served: bool,
    uid: Result<Uid, IoFault>,
    r: Result<Uid, Vec<u8>>,
)
    requires
        call_ensures(admits, (local, peer), served),
        call_ensures(identify, (uid,), r),
    ensures
        served <==> local is Ok && loopback_addr(peer@),
        uid is Ok ==> r == Ok::<Uid, Vec<u8>>(uid->Ok_0),
        uid is Err ==> (r matches Err(b) && b@ == fail_bytes("unable to identify client user"@)),
{
}

/// The version that is reported is the local server's, where it could be asked.
pub proof fn local_version_is_reported(configured: u32, fetched: Result<u32, IoFault>, v: u32)
    requires
        call_ensures(synced_version, (configured, fetched), v),
    ensures
        fetched is Ok ==> v == fetched->Ok_0,
        fetched is Err ==> v == configured,
{
}

/// What a client sends is handed to the agent unchanged, for the client's stream; the
/// stream ends when the client does.
pub proof fn client_bytes_are_carried(
    stream_id: u32,
    read: Result<Vec<u8>, IoFault>,
    a: BridgeAction,
)
    requires
        call_ensures(bridge_client, (stream_id, read), a),
    ensures
        a matches BridgeAction::Send(m) ==> read is Ok && read->Ok_0@.len() > 0 && m@ == (
        MessageView::StreamData { stream_id, data: read->Ok_0@ }),
        read is Ok && read->Ok_0@.len() > 0 ==> a is Send,
        read is Ok && read->Ok_0@.len() == 0 ==> a is Stop,
        read is Err ==> (a is Stop <==> benign(read->Err_0.kind)),
{
}

/// A request by the serial that a device is shown under is handed on to that device,
/// in whatever state it is: a shared one at its server's address, a private one along
/// the route that the agent published, with the serial that the backend knows.
pub proof fn requests_by_serial_are_routed(
    s: Seq<EntryView>,
    local: Option<BackendView>,
    version: u32,
    i: int,
    request: Seq<char>,
    a: ServeView,
)
    requires
        0 <= i < s.len(),
        forall|j: int| 0 <= j < i ==> (#[trigger] s[j]).public_serial != s[i].public_serial,
        forall|j: int|
            0 <= j < s.len() && starts_with_serial(
                s[i].public_serial + ":"@ + request,
                (#[trigger] s[j]).public_serial,
            ) ==> s[j].public_serial.len() <= s[i].public_serial.len(),
    ensures
        ({
            let upstream = "host-serial:"@ + s[i].upstream_serial + ":"@ + request;
            serve_answer(
                "host-serial:"@ + s[i].public_serial + ":"@ + request,
                s,
                local,
                version,
                a,
            ) <==> a == ServeView::Forward(
                match s[i].route_id {
                    Some(route_id) => RouteTo::Private { route_id, upstream },
                    None => RouteTo::Shared { addr: s[i].backend_addr, upstream },
                },
            )
        }),
{
    let order = daemon_order(s, local is Some);
    let service = "host-serial:"@ + s[i].public_serial + ":"@ + request;
    requests_by_serial_are_about_the_device(s, order, i, request, s[i]);
    lemma_opaque(service, s);
    lemma_named_is_routed(service, s);
    assert forall|e: EntryView| #[trigger] concerns(service, s, order, e) implies e == s[i] by {
        requests_by_serial_are_about_the_device(s, order, i, request, e);
    }
    assert(concerns(service, s, order, s[i]));
}

/// A list that an agent sends, the first as well as any that follows, becomes what
/// its user has besides the shared devices; nothing changes for another user.
pub proof fn sent_reports_are_entered(
    d: &mut DaemonState,
    uid: Uid,
    msg: IpcMessage,
    e: AgentEvent,
    generation: u64,
    devices: Seq<SanitizedView>,
    i: int,
    other: Uid,
)
    requires
        call_ensures(DaemonState::agent_message, (d, uid, msg), e),
        msg@ == (MessageView::DeviceSnapshot { generation, devices }) || msg@ == (
        MessageView::DeviceSnapshotChanged { generation, devices }),
        0 <= i < devices.len(),
    ensures
        ({
            let has = final(d)@.tenants.devices_of(uid);
            let k = old(d)@.tenants.shared.len() + i;
            &&& has.len() == old(d)@.tenants.shared.len() + devices.len()
            &&& has[k].public_serial == devices[i].public_serial
            &&& has[k].upstream_serial == devices[i].upstream_serial
            &&& has[k].state == devices[i].state
            &&& has[k].extras == devices[i].extras
            &&& has[k].backend_name == devices[i].backend_name
            &&& has[k].route_id == Some(devices[i].route_id)
            &&& has[k].pair_code is None
        }),
        other != uid ==> final(d)@.tenants.visible(other) == old(d)@.tenants.visible(other),
        final(d)@.agents == old(d)@.agents,
{
    reports_replace_the_users_devices(old(d)@, uid, generation, devices, msg@);
}

/// An agent that introduces itself in the version that the daemon speaks is the
/// user's agent from then on, and the one before it is told; any other first message
/// changes nothing.
pub proof fn introduced_agents_are_registered(
    d: &mut DaemonState,
    uid: Uid,
    first: IpcMessage,
    r: Result<(String, Option<String>), IoFault>,
)
    requires
        call_ensures(DaemonState::register_agent, (d, uid, first), r),
    ensures
        r is Ok <==> (first@ matches MessageView::RegisterAgent { version, .. } && version == 1),
        r is Err ==> final(d)@ == old(d)@,
        r matches Ok(p) ==> {
            &&& p.0@ == first@->instance_token
            &&& final(d)@.agents == old(d)@.agents.insert(uid, p.0@)
            &&& final(d)@.tenants == old(d)@.tenants
            &&& p.1 is Some <==> old(d)@.agents.contains_key(uid)
            &&& p.1 matches Some(t) ==> t@ == old(d)@.agents[uid]
        },
{
}

/// When the user's present agent leaves, its devices go and the user has no agent;
/// one that was replaced takes nothing with it.
pub proof fn leaving_agents_take_their_devices(
    d: &mut DaemonState,
    uid: Uid,
    token: &str,
    removed: bool,
    other: Uid,
)
    requires
        call_ensures(DaemonState::agent_left, (d, uid, token), removed),
    ensures
        removed <==> old(d)@.agents.contains_key(uid) && old(d)@.agents[uid] == token@,
        !removed ==> final(d)@ == old(d)@,
        removed ==> final(d)@.agents == old(d)@.agents.remove(uid)
            && final(d)@.tenants.devices_of(uid) == old(d)@.tenants.shared,
        other != uid ==> final(d)@.tenants.visible(other) == old(d)@.tenants.visible(other),
{
}

/// After a poll the shared devices are those that the shared server lists, and none
/// if it could not be asked; no user's own devices change.
pub proof fn polls_are_entered(
    d: &mut DaemonState,
    fetched: Result<String, IoFault>,
    changed: bool,
)
    requires
        call_ensures(DaemonState::poll_shared_once, (d, fetched), changed),
    ensures
        old(d)@.local matches Some(b) ==> final(d)@.tenants.shared == (match fetched {
            Ok(body) => merged(line_reports(b, lines_seq(body@))),
            Err(_) => Seq::empty(),
        }),
        old(d)@.local is None ==> final(d)@ == old(d)@,
        final(d)@.tenants.private == old(d)@.tenants.private,
        final(d)@.agents == old(d)@.agents,
        changed <==> final(d)@.tenants.shared != old(d)@.tenants.shared,
{
    match fetched {
        Ok(body) => {
            polled_devices_are_shared(old(d)@, body, arbitrary());
        },
        Err(f) => {
            polled_devices_are_shared(old(d)@, arbitrary(), f);
        },
    }
}

/// A user's agent is asked to open the very route and service of the client, under
/// an id that the next stream does not get; a user without an agent is refused.
pub proof fn private_clients_reach_the_agent(
    d: &mut DaemonState,
    uid: Uid,
    route_id: String,
    service: String,
    r: Result<(u32, IpcMessage), Vec<u8>>,
)
    requires
        call_ensures(DaemonState::forward_private, (d, uid, route_id, service), r),
    ensures
        r is Ok <==> old(d)@.agents.contains_key(uid),
        r matches Ok(p) ==> {
            &&& p.1@ == (MessageView::OpenPrivateStream {
                stream_id: p.0,
                route_id: route_id@,
                service: service@,
            })
            &&& final(d)@.next_stream_id != p.0
            &&& p.0 < u32::MAX ==> final(d)@.next_stream_id == p.0 + 1
        },
        r matches Err(b) ==> b@ == fail_bytes("device not found"@) && final(d)@ == old(d)@,
        final(d)@.tenants == old(d)@.tenants,
        final(d)@.agents == old(d)@.agents,
{
}

/// A client of the daemon that asks for the devices is sent its own user's view.
pub proof fn daemon_clients_are_sent_their_view(
    d: DaemonState,
    uid: Uid,
    payload: Result<Vec<u8>, IoFault>,
    a: ServeAction,
    long: bool,
)
    requires
        call_ensures(DaemonState::handle_adb_client, (&d, uid, payload), a),
    ensures
        payload matches Ok(p) && p@ == encode_utf8(
            if long {
                "host:devices-l"@
            } else {
                "host:devices"@
            },
        ) ==> a@ == ServeView::Reply(
            okay_payload_bytes(encode_utf8(devices_body(d@.tenants.visible(uid), long))),
        ),
        payload matches Ok(p) && p@ == encode_utf8(
            if long {
                "host:track-devices-l"@
            } else {
                "host:track-devices"@
            },
        ) ==> a@ == (ServeView::Track { long }),
        payload matches Ok(p) && !valid_utf8(p@) ==> a@ == ServeView::Reply(
            fail_bytes("invalid utf8 service"@),
        ),
        payload matches Err(f) ==> a@ == (if f.kind == IoKind::UnexpectedEof {
            ServeView::Close
        } else {
            ServeView::Fault(f@)
        }),
{
    lemma_text_bytes("host:devices"@);
    lemma_text_bytes("host:devices-l"@);
    lemma_text_bytes("host:track-devices"@);
    lemma_text_bytes("host:track-devices-l"@);
    if payload is Ok && valid_utf8(payload->Ok_0@) {
        clients_are_answered_from_their_view(
            decode_utf8(payload->Ok_0@),
            d@.tenants.visible(uid),
            d@.local,
            d@.adb_version,
            a@,
        );
    }
}

} // verus!
