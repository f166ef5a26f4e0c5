//! Per-user agent: reads the caller's hub config, polls remote backends, and
//! proxies private streams for the daemon without ever sending pair codes.

use rand::Rng;
use vstd::prelude::*;
use vstd::string::*;

use crate::addr::{AddrView, SocketAddr};
use crate::auth::{auth_chars, write_auth};
use crate::backend::polled_body;
use crate::config::{
    backend_views, enabled_backends_are_kept, enabled_only, local_only_view, BackendConfig,
    BackendView, ConfigError, HubConfig, HubView,
};
use crate::digits::{digit_char, hex_padded, hex_seq, pad_left};
use crate::fault::{fault, fault_view, FaultView, IoFault, IoKind};
use crate::ipc::{
    sanitized_views, DeviceSnapshotMsg, IpcMessage, MessageView, OpenResult, RegisterAgent,
    SanitizedDevice, SanitizedView, StreamClose, DEFAULT_CONTROL_ABSTRACT, PROTOCOL_VERSION,
};
use crate::peercred::{
    multi_user_supported, multi_user_unsupported_reason, unsupported_chars, Platform,
};
use crate::policy::enabled_by;
use crate::protocol::{service_bytes, write_service};
use crate::registry::{
    all_reports, list_views, merge_device_lists, merged, merging_keeps_every_device,
    policy_hides_the_disabled, visible_only, DeviceSnapshot, EntryView, ListView, ReportView,
};
use crate::session::done_view;
use crate::text::{cat2, cat3, join_from, join_seq, opt_clone, opt_view, str_eq, views};

verus! {

/// Why the agent failed.
#[derive(Debug)]
pub enum AgentError {
    Io(IoFault),
    Config(String),
    UnsupportedPlatform(Platform),
}

impl AgentError {
    /// The message shown to the user.
    pub open spec fn chars(self) -> Seq<char> {
        match self {
            AgentError::Io(f) => "io error: "@ + f.message@,
            AgentError::Config(m) => "config error: "@ + m@,
            AgentError::UnsupportedPlatform(p) => unsupported_chars(p),
        }
    }

    /// The message shown to the user.
    pub fn to_string(&self) -> (s: String)
        ensures
            s@ == self.chars(),
    {
        match self {
            AgentError::Io(f) => cat2("io error: ", f.message.as_str()),
            AgentError::Config(m) => cat2("config error: ", m.as_str()),
            AgentError::UnsupportedPlatform(p) => multi_user_unsupported_reason(*p),
        }
    }
}

/// How an agent is to run.
#[derive(Clone, Debug)]
pub struct AgentConfig {
    pub config_path: String,
    /// Abstract socket name (without leading NUL).
    pub control_abstract: String,
    /// Optional filesystem socket.
    pub control_path: Option<String>,
    pub poll_interval_ms: u64,
    /// Backends to use instead of (or until) reloading from disk. Pair codes
    /// stay inside this process.
    pub inline_backends: Option<HubConfig>,
    /// How many times to retry the control socket while the daemon starts.
    pub connect_retries: u32,
    pub connect_retry_delay_ms: u64,
}

impl AgentConfig {
    /// The defaults for the configuration file at `config_path`.
    pub fn new(config_path: &str) -> (c: Self)
        ensures
            c.config_path@ == config_path@,
            c.control_abstract@ == DEFAULT_CONTROL_ABSTRACT@,
            c.control_path is None,
            c.poll_interval_ms == 1000,
            c.inline_backends is None,
            c.connect_retries == 50,
            c.connect_retry_delay_ms == 100,
    {
        AgentConfig {
            config_path: config_path.to_owned(),
            control_abstract: DEFAULT_CONTROL_ABSTRACT.to_owned(),
            control_path: None,
            poll_interval_ms: 1000,
            inline_backends: None,
            connect_retries: 50,
            connect_retry_delay_ms: 100,
        }
    }
}

/// Whether an agent can run on a platform.
pub fn check_platform(platform: Platform) -> (r: Result<(), AgentError>)
    ensures
        match r {
            Ok(_) => platform == Platform::Linux,
            Err(e) => platform != Platform::Linux && e == AgentError::UnsupportedPlatform(
                platform,
            ),
        },
{
    if multi_user_supported(platform) {
        Ok(())
    } else {
        Err(AgentError::UnsupportedPlatform(platform))
    }
}

/// What identifies a backend and its pair code.
pub open spec fn backend_print(b: BackendView) -> Seq<char> {
    b.name + "@"@ + b.addr.chars() + "#"@ + b.pair_code.unwrap_or(Seq::empty())
}

/// What identifies a list of backends.
pub open spec fn fingerprint(s: Seq<BackendView>) -> Seq<char> {
    join_seq(Seq::new(s.len(), |i: int| backend_print(s[i])), "|"@)
}

/// What identifies a list of backends, so that their versions are asked again
/// only when the list changes.
pub fn backends_fingerprint(backends: &Vec<BackendConfig>) -> (r: String)
    ensures
        r@ == fingerprint(backend_views(backends@)),
{
    let ghost all = backend_views(backends@);
    let mut parts: Vec<String> = Vec::new();
    let mut i: usize = 0;
    while i < backends.len()
        invariant
            i <= backends@.len(),
            all == backend_views(backends@),
            parts@.len() == i,
            forall|j: int| 0 <= j < i ==> (#[trigger] parts@[j])@ == backend_print(all[j]),
        decreases backends@.len() - i,
    {
        let b = &backends[i];
        let addr = b.addr.to_string();
        let mut p = cat3(b.name.as_str(), "@", addr.as_str());
        p.append("#");
        if let Some(code) = &b.pair_code {
            p.append(code.as_str());
        }
        assert(p@ =~= backend_print(all[i as int]));
        parts.push(p);
        i += 1;
    }
    assert(views(parts@).skip(0) =~= Seq::new(all.len(), |i: int| backend_print(all[i])));
    join_from(&parts, 0, "|")
}

/// Which backends were new enough when they were last asked.
#[derive(Debug)]
pub struct CompatCache {
    pub fingerprint: String,
    pub names: Vec<String>,
}

impl CompatCache {
    /// A cache before any backend was asked.
    pub fn new() -> (c: Self)
        ensures
            c.fingerprint@.len() == 0,
            c.names@.len() == 0,
    {
        CompatCache { fingerprint: String::new(), names: Vec::new() }
    }

    /// Whether the backends must be asked again.
    pub fn is_stale(&self, backends: &Vec<BackendConfig>) -> (r: bool)
        ensures
            r == (self.fingerprint@ != fingerprint(backend_views(backends@))),
    {
        let fp = backends_fingerprint(backends);
        !str_eq(self.fingerprint.as_str(), fp.as_str())
    }

    /// Remember the backends that are new enough.
    pub fn store(&mut self, backends: &Vec<BackendConfig>, compatible: &Vec<BackendConfig>)
        ensures
            final(self).fingerprint@ == fingerprint(backend_views(backends@)),
            views(final(self).names@) == Seq::new(
                compatible@.len(),
                |i: int| compatible@[i].name@,
            ),
    {
        self.fingerprint = backends_fingerprint(backends);
        let mut names: Vec<String> = Vec::new();
        let mut i: usize = 0;
        while i < compatible.len()
            invariant
                i <= compatible@.len(),
                names@.len() == i,
                forall|j: int| 0 <= j < i ==> (#[trigger] names@[j])@ == compatible@[j].name@,
            decreases compatible@.len() - i,
        {
            names.push(compatible[i].name.clone());
            i += 1;
        }
        assert(views(names@) =~= Seq::new(compatible@.len(), |i: int| compatible@[i].name@));
        self.names = names;
    }

    /// Whether a backend of this name is new enough.
    pub fn allows(&self, name: &str) -> (r: bool)
        ensures
            r == views(self.names@).contains(name@),
    {
        let mut i: usize = 0;
        while i < self.names.len()
            invariant
                i <= self.names@.len(),
                forall|j: int| 0 <= j < i ==> (#[trigger] views(self.names@)[j]) != name@,
            decreases self.names@.len() - i,
        {
            if str_eq(self.names[i].as_str(), name) {
                assert(views(self.names@)[i as int] == name@);
                return true;
            }
            i += 1;
        }
        false
    }
}

/// The configuration that an agent goes by: the file where it can be used, else
/// the one it was started with, else no backends.
pub open spec fn source_view(
    inline: Option<HubView>,
    loaded: Option<Result<HubConfig, ConfigError>>,
) -> Result<HubView, FaultView> {
    match (inline, loaded) {
        (_, Some(Ok(c))) => Ok(c@),
        (Some(i), _) => Ok(i),
        (None, Some(Err(e))) => Err(fault_view(IoKind::InvalidData, e.chars())),
        (None, None) => Ok(local_only_view()),
    }
}

/// An agent's configuration: it never owns the local adb server, and disabled
/// backends do not exist for it.
pub open spec fn agent_view(c: HubView) -> HubView {
    HubView { include_local: false, backends: enabled_only(c.backends), ..c }
}

/// The model of the configuration that an agent was started with.
pub open spec fn inline_view(inline: Option<HubConfig>) -> Option<HubView> {
    match inline {
        Some(c) => Some(c@),
        None => None,
    }
}

/// Choose the configuration that an agent goes by. `loaded` is what the file
/// holds, if there is one.
pub fn agent_hub_config(
    inline: &Option<HubConfig>,
    loaded: Option<Result<HubConfig, ConfigError>>,
) -> (r: Result<HubConfig, IoFault>)
    ensures
        match source_view(inline_view(*inline), loaded) {
            Ok(c) => r matches Ok(h) && h@ == agent_view(c),
            Err(e) => r matches Err(f) && f@ == e,
        },
{
    let mut c = match loaded {
        Some(Ok(c)) => c,
        Some(Err(e)) => match inline {
            Some(i) => i.clone(),
            None => {
                let m = e.to_string();
                return Err(fault(IoKind::InvalidData, m.as_str()));
            },
        },
        None => match inline {
            Some(i) => i.clone(),
            None => HubConfig::local_only(),
        },
    };
    let enabled = c.enabled_backends();
    c.include_local = false;
    c.backends = enabled;
    Ok(c)
}

/// The device list of backend `i`: what it answered, if it is new enough.
pub open spec fn agent_list(b: BackendView, names: Seq<Seq<char>>, body: Seq<char>) -> ListView {
    ListView {
        backend: b,
        body: if names.contains(b.name) {
            body
        } else {
            Seq::empty()
        },
    }
}

/// The lists of all backends after polling those that are new enough. The
/// others have an empty list.
pub fn agent_lists(
    backends: &Vec<BackendConfig>,
    cache: &CompatCache,
    fetched: &Vec<Result<String, IoFault>>,
) -> (r: Vec<(BackendConfig, String)>)
    requires
        fetched@.len() == backends@.len(),
    ensures
        list_views(r@) == Seq::new(
            backends@.len(),
            |i: int|
                agent_list(backends@[i]@, views(cache.names@), polled_body(fetched@[i])),
        ),
{
    let mut r: Vec<(BackendConfig, String)> = Vec::new();
    let mut i: usize = 0;
    while i < backends.len()
        invariant
            i <= backends@.len(),
            fetched@.len() == backends@.len(),
            r@.len() == i,
            forall|j: int|
                0 <= j < i ==> (ListView {
                    backend: (#[trigger] r@[j]).0@,
                    body: r@[j].1@,
                }) == agent_list(
                    backends@[j]@,
                    views(cache.names@),
                    polled_body(fetched@[j]),
                ),
        decreases backends@.len() - i,
    {
        let allowed = cache.allows(backends[i].name.as_str());
        let body = match &fetched[i] {
            Ok(b) if allowed => b.clone(),
            _ => {
                let none = String::new();
                assert(none@ =~= Seq::<char>::empty());
                none
            },
        };
        r.push((backends[i].clone(), body));
        i += 1;
    }
    assert(list_views(r@) =~= Seq::new(
        backends@.len(),
        |i: int| agent_list(backends@[i]@, views(cache.names@), polled_body(fetched@[i])),
    ));
    r
}

/// The way to a private device, which stays inside the agent.
#[derive(Clone, Debug)]
pub struct RouteEntry {
    pub addr: SocketAddr,
    pub pair_code: Option<String>,
    pub upstream_serial: String,
}

/// Model of [`RouteEntry`].
pub struct RouteView {
    pub addr: AddrView,
    pub pair_code: Option<Seq<char>>,
    pub upstream_serial: Seq<char>,
}

impl View for RouteEntry {
    type V = RouteView;

    open spec fn view(&self) -> RouteView {
        RouteView {
            addr: self.addr@,
            pair_code: opt_view(self.pair_code),
            upstream_serial: self.upstream_serial@,
        }
    }
}

/// The routes of an agent by their ids.
#[derive(Debug)]
pub struct RouteTable {
    pub entries: Vec<(String, RouteEntry)>,
}

/// The routes that a list of entries holds: the last of an id counts.
pub open spec fn route_map(entries: Seq<(String, RouteEntry)>) -> Map<Seq<char>, RouteView>
    decreases entries.len(),
{
    if entries.len() == 0 {
        Map::empty()
    } else {
        route_map(entries.drop_last()).insert(entries.last().0@, entries.last().1@)
    }
}

impl View for RouteTable {
    type V = Map<Seq<char>, RouteView>;

    open spec fn view(&self) -> Map<Seq<char>, RouteView> {
        route_map(self.entries@)
    }
}

impl RouteTable {
    /// A table without routes.
    pub fn new() -> (t: Self)
        ensures
            t@ == Map::<Seq<char>, RouteView>::empty(),
    {
        RouteTable { entries: Vec::new() }
    }

    /// The route with an id.
    pub fn get(&self, route_id: &str) -> (r: Option<&RouteEntry>)
        ensures
            match r {
                Some(e) => self@.contains_key(route_id@) && e@ == self@[route_id@],
                None => !self@.contains_key(route_id@),
            },
    {
        let mut i: usize = self.entries.len();
        assert(self.entries@.take(i as int) =~= self.entries@);
        while i > 0
            invariant
                i <= self.entries@.len(),
                self@.contains_key(route_id@) == route_map(
                    self.entries@.take(i as int),
                ).contains_key(route_id@),
                self@.contains_key(route_id@) ==> self@[route_id@] == route_map(
                    self.entries@.take(i as int),
                )[route_id@],
            decreases i,
        {
            let ghost upto = self.entries@.take(i as int);
            i -= 1;
            assert(upto.drop_last() =~= self.entries@.take(i as int));
            assert(upto.last() == self.entries@[i as int]);
            if str_eq(self.entries[i].0.as_str(), route_id) {
                return Some(&self.entries[i].1);
            }
        }
        None
    }
}

/// The id under which the daemon asks for a device: it holds no pair code.
pub open spec fn route_id_of(d: EntryView) -> Seq<char> {
    d.backend_name + ":"@ + d.upstream_serial
}

/// The way to a device.
pub open spec fn route_of(d: EntryView) -> RouteView {
    RouteView {
        addr: d.backend_addr,
        pair_code: d.pair_code,
        upstream_serial: d.upstream_serial,
    }
}

/// What the daemon is told of a device.
pub open spec fn sanitized(d: EntryView) -> SanitizedView {
    SanitizedView {
        public_serial: d.public_serial,
        upstream_serial: d.upstream_serial,
        state: d.state,
        extras: d.extras,
        backend_name: d.backend_name,
        route_id: route_id_of(d),
    }
}

/// What the daemon is told of a device list.
pub open spec fn sanitized_all(s: Seq<EntryView>) -> Seq<SanitizedView> {
    Seq::new(s.len(), |i: int| sanitized(s[i]))
}

/// The routes to the devices of a list.
pub open spec fn routes_of(s: Seq<EntryView>) -> Map<Seq<char>, RouteView>
    decreases s.len(),
{
    if s.len() == 0 {
        Map::empty()
    } else {
        routes_of(s.drop_last()).insert(route_id_of(s.last()), route_of(s.last()))
    }
}

/// The message that publishes a device list.
pub open spec fn snapshot_message(
    s: Seq<EntryView>,
    generation: u64,
    changed: bool,
) -> MessageView {
    if changed {
        MessageView::DeviceSnapshotChanged { generation, devices: sanitized_all(s) }
    } else {
        MessageView::DeviceSnapshot { generation, devices: sanitized_all(s) }
    }
}

/// Publish a device list: the message for the daemon and the routes to keep.
/// `generation` counts the messages.
pub fn publish(snap: &DeviceSnapshot, generation: &mut u64, changed: bool) -> (r: (
    IpcMessage,
    RouteTable,
))
    requires
        *old(generation) < u64::MAX,
    ensures
        *final(generation) == *old(generation) + 1,
        r.0@ == snapshot_message(snap@, *final(generation), changed),
        r.1@ == routes_of(snap@),
{
    let mut devices: Vec<SanitizedDevice> = Vec::new();
    let mut routes = RouteTable::new();
    let mut i: usize = 0;
    assert(snap@.take(0) =~= Seq::<EntryView>::empty());
    while i < snap.devices.len()
        invariant
            i <= snap.devices@.len(),
            devices@.len() == i,
            forall|j: int| 0 <= j < i ==> (#[trigger] devices@[j])@ == sanitized(snap@[j]),
            routes@ == routes_of(snap@.take(i as int)),
        decreases snap.devices@.len() - i,
    {
        let d = &snap.devices[i];
        assert(snap@[i as int] == d@);
        let route_id = cat3(d.backend_name.as_str(), ":", d.upstream_serial.as_str());
        let ghost before = routes.entries@;
        routes.entries.push(
            (
                route_id.clone(),
                RouteEntry {
                    addr: d.backend_addr.clone(),
                    pair_code: opt_clone(&d.pair_code),
                    upstream_serial: d.upstream_serial.clone(),
                },
            ),
        );
        assert(routes.entries@.drop_last() =~= before);
        assert(snap@.take(i + 1).drop_last() =~= snap@.take(i as int));
        assert(snap@.take(i + 1).last() == d@);
        devices.push(
            SanitizedDevice {
                public_serial: d.public_serial.clone(),
                upstream_serial: d.upstream_serial.clone(),
                state: d.state.clone(),
                extras: d.extras.clone(),
                backend_name: d.backend_name.clone(),
                route_id,
            },
        );
        i += 1;
    }
    assert(snap@.take(i as int) =~= snap@);
    assert(sanitized_views(devices@) =~= sanitized_all(snap@));
    *generation = *generation + 1;
    let msg = DeviceSnapshotMsg { generation: *generation, devices };
    let msg = if changed {
        IpcMessage::DeviceSnapshotChanged(msg)
    } else {
        IpcMessage::DeviceSnapshot(msg)
    };
    (msg, routes)
}

/// The devices that an agent publishes: what its backends list, as far as they
/// are new enough, merged, without those that the user has disabled.
pub open spec fn published(
    config: HubView,
    names: Seq<Seq<char>>,
    bodies: Seq<Seq<char>>,
) -> Seq<EntryView> {
    visible_only(
        merged(
            all_reports(
                Seq::new(
                    config.backends.len(),
                    |i: int| agent_list(config.backends[i], names, bodies[i]),
                ),
            ),
        ),
        config.devices,
    )
}

/// What the backends answered.
pub open spec fn polled_bodies(fetched: Seq<Result<String, IoFault>>) -> Seq<Seq<char>> {
    Seq::new(fetched.len(), |i: int| polled_body(fetched[i]))
}

/// Publish what the backends of a configuration answered when they were polled:
/// the message for the daemon and the routes to keep.
pub fn refresh_and_publish(
    config: &HubConfig,
    cache: &CompatCache,
    fetched: &Vec<Result<String, IoFault>>,
    generation: &mut u64,
    changed: bool,
) -> (r: (IpcMessage, RouteTable))
    requires
        fetched@.len() == config.backends@.len(),
        *old(generation) < u64::MAX,
    ensures
        *final(generation) == *old(generation) + 1,
        ({
            let s = published(config@, views(cache.names@), polled_bodies(fetched@));
            &&& r.0@ == snapshot_message(s, *final(generation), changed)
            &&& r.1@ == routes_of(s)
        }),
{
    let lists = agent_lists(&config.backends, cache, fetched);
    assert(list_views(lists@) =~= Seq::new(
        config@.backends.len(),
        |i: int|
            agent_list(config@.backends[i], views(cache.names@), polled_bodies(fetched@)[i]),
    ));
    let snap = merge_device_lists(lists.as_slice()).filtered(&config.devices);
    publish(&snap, generation, changed)
}

/// How an agent ends when it cannot read from the daemon any more: a daemon
/// that closed the connection is no failure.
pub fn control_lost(f: IoFault) -> (r: Result<(), AgentError>)
    ensures
        if f.kind == IoKind::UnexpectedEof {
            r is Ok
        } else {
            r == Err::<(), AgentError>(AgentError::Io(f))
        },
{
    if f.kind == IoKind::UnexpectedEof {
        Ok(())
    } else {
        Err(AgentError::Io(f))
    }
}

/// What an agent does for a message of the daemon.
#[derive(Debug)]
pub enum AgentAction {
    /// Send this message.
    Send(IpcMessage),
    /// Open a stream along this route.
    Open { stream_id: u32, route: RouteEntry, service: String },
    /// Hand the bytes to the stream, if it is open.
    Deliver { stream_id: u32, data: Vec<u8> },
    /// Forget the stream.
    Close { stream_id: u32 },
    /// Nothing.
    Ignore,
}

/// Model of [`AgentAction`].
pub enum AgentActionView {
    Send(MessageView),
    Open { stream_id: u32, route: RouteView, service: Seq<char> },
    Deliver { stream_id: u32, data: Seq<u8> },
    Close { stream_id: u32 },
    Ignore,
}

impl View for AgentAction {
    type V = AgentActionView;

    open spec fn view(&self) -> AgentActionView {
        match self {
            AgentAction::Send(m) => AgentActionView::Send(m@),
            AgentAction::Open { stream_id, route, service } => AgentActionView::Open {
                stream_id: *stream_id,
                route: route@,
                service: service@,
            },
            AgentAction::Deliver { stream_id, data } => AgentActionView::Deliver {
                stream_id: *stream_id,
                data: data@,
            },
            AgentAction::Close { stream_id } => AgentActionView::Close { stream_id: *stream_id },
            AgentAction::Ignore => AgentActionView::Ignore,
        }
    }
}

/// The message that a stream was not opened.
pub open spec fn open_failed(stream_id: u32, why: Seq<char>) -> MessageView {
    MessageView::OpenResult { stream_id, ok: false, fail_reason: Some(why) }
}

/// The message that a stream was opened.
pub open spec fn open_succeeded(stream_id: u32) -> MessageView {
    MessageView::OpenResult { stream_id, ok: true, fail_reason: None }
}

/// What an agent does for a message of the daemon.
pub open spec fn agent_reaction(
    msg: MessageView,
    routes: Map<Seq<char>, RouteView>,
) -> AgentActionView {
    match msg {
        MessageView::Ping => AgentActionView::Send(MessageView::Pong),
        MessageView::OpenPrivateStream { stream_id, route_id, service } => if routes.contains_key(
            route_id,
        ) {
            AgentActionView::Open { stream_id, route: routes[route_id], service }
        } else {
            AgentActionView::Send(open_failed(stream_id, "unknown route_id"@))
        },
        MessageView::StreamData { stream_id, data } => AgentActionView::Deliver {
            stream_id,
            data,
        },
        MessageView::StreamClose { stream_id, .. } => AgentActionView::Close { stream_id },
        _ => AgentActionView::Ignore,
    }
}

/// Refuse to open a stream.
fn refuse_open(stream_id: u32, why: &str) -> (m: IpcMessage)
    ensures
        m@ == open_failed(stream_id, why@),
{
    IpcMessage::OpenResult(
        OpenResult { stream_id, ok: false, fail_reason: Some(why.to_owned()) },
    )
}

/// Decide what to do for a message of the daemon. Messages that only an agent
/// may send are ignored.
pub fn handle_daemon_message(msg: IpcMessage, routes: &RouteTable) -> (a: AgentAction)
    ensures
        a@ == agent_reaction(msg@, routes@),
{
    match msg {
        IpcMessage::Ping => AgentAction::Send(IpcMessage::Pong),
        IpcMessage::OpenPrivateStream(req) => match routes.get(req.route_id.as_str()) {
            Some(r) => AgentAction::Open {
                stream_id: req.stream_id,
                route: RouteEntry {
                    addr: r.addr.clone(),
                    pair_code: opt_clone(&r.pair_code),
                    upstream_serial: r.upstream_serial.clone(),
                },
                service: req.service,
            },
            None => AgentAction::Send(refuse_open(req.stream_id, "unknown route_id")),
        },
        IpcMessage::StreamData { stream_id, data } => AgentAction::Deliver { stream_id, data },
        IpcMessage::StreamClose(c) => AgentAction::Close { stream_id: c.stream_id },
        _ => AgentAction::Ignore,
    }
}

/// What to do next while a stream is opened.
#[derive(Debug)]
pub enum OpenAction {
    /// The stream cannot be opened: tell the daemon.
    Refuse(IpcMessage),
    /// Send the pair code packet to the backend and wait for the verdict.
    Authenticate(Vec<u8>),
    /// Send the service packet to the backend, then tell the daemon that the
    /// stream is open.
    Serve { to_upstream: Vec<u8>, answer: IpcMessage },
}

/// Model of [`OpenAction`].
pub enum OpenView {
    Refuse(MessageView),
    Authenticate(Seq<u8>),
    Serve { to_upstream: Seq<u8>, answer: MessageView },
}

impl View for OpenAction {
    type V = OpenView;

    open spec fn view(&self) -> OpenView {
        match self {
            OpenAction::Refuse(m) => OpenView::Refuse(m@),
            OpenAction::Authenticate(b) => OpenView::Authenticate(b@),
            OpenAction::Serve { to_upstream, answer } => OpenView::Serve {
                to_upstream: to_upstream@,
                answer: answer@,
            },
        }
    }
}

/// The step that serves a stream.
pub open spec fn serve_stream(stream_id: u32, service: Seq<char>) -> OpenView {
    OpenView::Serve { to_upstream: service_bytes(service), answer: open_succeeded(stream_id) }
}

/// The first step of opening a stream.
pub open spec fn open_first(
    stream_id: u32,
    pair_code: Option<Seq<char>>,
    service: Seq<char>,
    connected: Result<(), FaultView>,
) -> OpenView {
    match connected {
        Err(f) => OpenView::Refuse(open_failed(stream_id, "connect: "@ + f.message)),
        Ok(_) => match pair_code {
            Some(code) => OpenView::Authenticate(service_bytes(auth_chars(code))),
            None => serve_stream(stream_id, service),
        },
    }
}

/// The step of opening a stream after the verdict on the pair code. The reason
/// for a refusal is the backend's; the pair code is not echoed.
pub open spec fn open_second(
    stream_id: u32,
    service: Seq<char>,
    verdict: Result<(), FaultView>,
) -> OpenView {
    match verdict {
        Err(f) => OpenView::Refuse(open_failed(stream_id, "auth failed: "@ + f.message)),
        Ok(_) => serve_stream(stream_id, service),
    }
}

/// Serve a stream.
fn serve(stream_id: u32, service: &str) -> (a: OpenAction)
    ensures
        a@ == serve_stream(stream_id, service@),
{
    let mut to_upstream: Vec<u8> = Vec::new();
    write_service(&mut to_upstream, service);
    assert(to_upstream@ =~= service_bytes(service@));
    OpenAction::Serve {
        to_upstream,
        answer: IpcMessage::OpenResult(OpenResult { stream_id, ok: true, fail_reason: None }),
    }
}

/// The first step of opening a stream, once the backend is connected or not.
pub fn open_private_stream(
    stream_id: u32,
    route: &RouteEntry,
    service: &str,
    connected: Result<(), IoFault>,
) -> (a: OpenAction)
    ensures
        a@ == open_first(stream_id, route@.pair_code, service@, done_view(connected)),
{
    match connected {
        Err(f) => {
            let why = cat2("connect: ", f.message.as_str());
            OpenAction::Refuse(refuse_open(stream_id, why.as_str()))
        },
        Ok(_) => match &route.pair_code {
            Some(code) => {
                let mut b: Vec<u8> = Vec::new();
                write_auth(&mut b, code.as_str());
                assert(b@ =~= service_bytes(auth_chars(code@)));
                OpenAction::Authenticate(b)
            },
            None => serve(stream_id, service),
        },
    }
}

/// The step of opening a stream after the verdict on the pair code.
pub fn stream_authenticated(stream_id: u32, service: &str, verdict: Result<(), IoFault>) -> (a:
    OpenAction)
    ensures
        a@ == open_second(stream_id, service@, done_view(verdict)),
{
    match verdict {
        Err(f) => {
            let why = cat2("auth failed: ", f.message.as_str());
            OpenAction::Refuse(refuse_open(stream_id, why.as_str()))
        },
        Ok(_) => serve(stream_id, service),
    }
}

/// The message for a stream that ended.
pub fn stream_closed(stream_id: u32, reason: &str) -> (m: IpcMessage)
    ensures
        m@ == (MessageView::StreamClose { stream_id, reason: reason@ }),
{
    IpcMessage::StreamClose(StreamClose { stream_id, reason: reason.to_owned() })
}

/// The message that registers an agent.
pub fn registration(instance_token: String) -> (m: IpcMessage)
    ensures
        m@ == (MessageView::RegisterAgent {
            version: PROTOCOL_VERSION,
            capabilities: seq!["devices"@, "streams"@],
            instance_token: instance_token@,
        }),
{
    let mut capabilities: Vec<String> = Vec::new();
    capabilities.push("devices".to_owned());
    capabilities.push("streams".to_owned());
    assert(views(capabilities@) =~= seq!["devices"@, "streams"@]);
    IpcMessage::RegisterAgent(
        RegisterAgent { version: PROTOCOL_VERSION, capabilities, instance_token },
    )
}

/// What to do after an attempt to reach the control socket.
#[derive(Debug)]
pub enum RetryAction {
    /// The socket is connected.
    Go,
    /// Pause and try again.
    Pause,
    /// Give up.
    GiveUp(IoFault),
}

/// Decide what to do after attempt number `attempt`, counted from zero.
pub fn connect_control_with_retry(attempt: u32, retries: u32, outcome: Result<(), IoFault>) -> (a:
    RetryAction)
    ensures
        match outcome {
            Ok(_) => a is Go,
            Err(f) => if attempt < retries {
                a is Pause
            } else {
                a == RetryAction::GiveUp(f)
            },
        },
{
    match outcome {
        Ok(_) => RetryAction::Go,
        Err(f) => if attempt < retries {
            RetryAction::Pause
        } else {
            RetryAction::GiveUp(f)
        },
    }
}

/// The permissions that a configuration file with pair codes must be given:
/// none where only its owner has any.
pub fn ensure_owner_only_config(mode: u32) -> (r: Option<u32>)
    ensures
        r == (if (mode & 0o777) & 0o077 != 0 {
            Some(0o600u32)
        } else {
            None
        }),
{
    if (mode & 0o777) & 0o077 != 0 {
        Some(0o600)
    } else {
        None
    }
}

/// Two hexadecimal digits.
pub open spec fn hex2(b: u8) -> Seq<char> {
    pad_left(hex_seq(b as nat), '0', 2)
}

/// The bytes in hexadecimal.
pub open spec fn hex_bytes(bytes: Seq<u8>) -> Seq<char>
    decreases bytes.len(),
{
    if bytes.len() == 0 {
        Seq::empty()
    } else {
        hex_bytes(bytes.drop_last()) + hex2(bytes.last())
    }
}

/// The bytes in hexadecimal.
pub fn token_of(bytes: &Vec<u8>) -> (s: String)
    ensures
        s@ == hex_bytes(bytes@),
{
    let mut s = String::new();
    let mut i: usize = 0;
    assert(bytes@.take(0) =~= Seq::<u8>::empty());
    while i < bytes.len()
        invariant
            i <= bytes@.len(),
            s@ == hex_bytes(bytes@.take(i as int)),
        decreases bytes@.len() - i,
    {
        assert(bytes@.take(i + 1).drop_last() =~= bytes@.take(i as int));
        let two = hex_padded(bytes[i] as u64, 2);
        s.append(two.as_str());
        i += 1;
    }
    assert(bytes@.take(i as int) =~= bytes@);
    s
}

/// Number of random bytes in an instance token.
pub const TOKEN_BYTES: usize = 16;

/// `rand::Rng::gen` on the thread's generator gives some byte.
#[verifier::external_body]
fn random_byte() -> (b: u8) {
    rand::thread_rng().gen::<u8>()
}

/// A token that tells this agent from every other.
pub fn random_token() -> (s: String)
    ensures
        exists|bytes: Seq<u8>| bytes.len() == TOKEN_BYTES && s@ == #[trigger] hex_bytes(bytes),
{
    let mut bytes: Vec<u8> = Vec::new();
    while bytes.len() < TOKEN_BYTES
        invariant
            bytes@.len() <= TOKEN_BYTES,
        decreases TOKEN_BYTES - bytes@.len(),
    {
        bytes.push(random_byte());
    }
    token_of(&bytes)
}

/// A device as it would be without its pair code.
pub open spec fn without_code(d: EntryView) -> EntryView {
    EntryView { pair_code: None, ..d }
}

/// What an agent publishes does not depend on any pair code: two device lists
/// that differ in pair codes alone are published alike.
pub proof fn pair_codes_are_not_published(
    s: Seq<EntryView>,
    t: Seq<EntryView>,
    generation: u64,
    changed: bool,
)
    requires
        s.len() == t.len(),
        forall|i: int| 0 <= i < s.len() ==> without_code(#[trigger] s[i]) == without_code(t[i]),
    ensures
        snapshot_message(s, generation, changed) == snapshot_message(t, generation, changed),
{
    assert forall|i: int| 0 <= i < s.len() implies #[trigger] sanitized_all(s)[i]
        == sanitized_all(t)[i] by {
        assert(without_code(s[i]) == without_code(t[i]));
    }
    assert(sanitized_all(s) =~= sanitized_all(t));
}

/// Nor does any message that answers an attempt to open a stream: whatever the
/// pair code, the daemon is told the same.
pub proof fn pair_codes_are_not_answered(
    stream_id: u32,
    code: Option<Seq<char>>,
    other: Option<Seq<char>>,
    service: Seq<char>,
    connected: Result<(), FaultView>,
)
    ensures
        open_first(stream_id, code, service, connected) matches OpenView::Refuse(m) ==> open_first(
            stream_id,
            other,
            service,
            connected,
        ) == OpenView::Refuse(m),
        open_first(stream_id, code, service, connected) is Serve ==> code is None,
{
}

/// A device that the user has disabled is not published: the daemon is told of
/// enabled ones alone.
pub proof fn disabled_devices_are_not_published(
    config: HubView,
    names: Seq<Seq<char>>,
    bodies: Seq<Seq<char>>,
    i: int,
)
    requires
        0 <= i < published(config, names, bodies).len(),
    ensures
        enabled_by(
            config.devices,
            sanitized_all(published(config, names, bodies))[i].public_serial,
        ),
{
    let all = merged(
        all_reports(
            Seq::new(
                config.backends.len(),
                |i: int| agent_list(config.backends[i], names, bodies[i]),
            ),
        ),
    );
    let s = published(config, names, bodies);
    policy_hides_the_disabled(all, config.devices, s[i]);
    assert(s.contains(s[i]));
}

/// Every published device can be opened by the id that was published for it:
/// the route leads to a device of that backend and serial.
pub proof fn published_routes_are_known(s: Seq<EntryView>, i: int)
    requires
        0 <= i < s.len(),
    ensures
        sanitized_all(s)[i].route_id == route_id_of(s[i]),
        routes_of(s).contains_key(route_id_of(s[i])),
        exists|j: int|
            0 <= j < s.len() && route_id_of(#[trigger] s[j]) == route_id_of(s[i]) && routes_of(
                s,
            )[route_id_of(s[i])] == route_of(s[j]),
    decreases s.len(),
{
    let t = s.drop_last();
    let n = s.len() - 1;
    let id = route_id_of(s[i]);
    if route_id_of(s.last()) == id {
        assert(route_id_of(s[n]) == id && routes_of(s)[id] == route_of(s[n]));
    } else {
        assert(i < n);
        published_routes_are_known(t, i);
        assert(t[i] == s[i]);
        let j = choose|j: int|
            0 <= j < t.len() && route_id_of(#[trigger] t[j]) == route_id_of(t[i]) && routes_of(
                t,
            )[route_id_of(t[i])] == route_of(t[j]);
        assert(t[j] == s[j]);
        assert(route_id_of(s[j]) == id && routes_of(s)[id] == route_of(s[j]));
    }
}

/// A paired route is authenticated to before the service is sent.
pub proof fn private_streams_are_authenticated(
    stream_id: u32,
    code: Seq<char>,
    service: Seq<char>,
    verdict: Result<(), FaultView>,
)
    ensures
        open_first(stream_id, Some(code), service, Ok(())) == OpenView::Authenticate(
            service_bytes(auth_chars(code)),
        ),
        open_second(stream_id, service, verdict) is Serve <==> verdict is Ok,
{
}

/// A token has two hexadecimal digits for every byte that it is made from.
pub proof fn tokens_have_two_digits_per_byte(bytes: Seq<u8>)
    ensures
        hex_bytes(bytes).len() == 2 * bytes.len(),
    decreases bytes.len(),
{
    if bytes.len() > 0 {
        tokens_have_two_digits_per_byte(bytes.drop_last());
        lemma_hex2(bytes.last());
    }
}

proof fn lemma_hex2(b: u8)
    ensures
        hex2(b).len() == 2,
{
    let n = b as nat;
    if n >= 16 {
        assert(hex_seq(n) == hex_seq(n / 16).push(digit_char((n % 16) as int)));
        assert(hex_seq(n / 16) =~= seq![digit_char((n / 16) as int)]);
    } else {
        assert(hex_seq(n) =~= seq![digit_char(n as int)]);
    }
}

/// What the daemon is told of a device is what the agent has of it: the serial that
/// the device's own backend knows, the one that it is shown under, its state, its
/// extra columns and its backend's name. Nothing is left out and nothing added.
pub proof fn devices_are_published_as_they_are(
    s: Seq<EntryView>,
    generation: u64,
    changed: bool,
    i: int,
)
    requires
        0 <= i < s.len(),
    ensures
        ({
            let told = match snapshot_message(s, generation, changed) {
                MessageView::DeviceSnapshot { devices, .. } => devices,
                MessageView::DeviceSnapshotChanged { devices, .. } => devices,
                _ => Seq::empty(),
            };
            &&& snapshot_message(s, generation, changed) is DeviceSnapshotChanged <==> changed
            &&& snapshot_message(s, generation, changed) is DeviceSnapshot <==> !changed
            &&& told.len() == s.len()
            &&& told[i].public_serial == s[i].public_serial
            &&& told[i].upstream_serial == s[i].upstream_serial
            &&& told[i].state == s[i].state
            &&& told[i].extras == s[i].extras
            &&& told[i].backend_name == s[i].backend_name
            &&& told[i].route_id == s[i].backend_name + ":"@ + s[i].upstream_serial
        }),
{
}

/// Messages that publish devices carry the generation that they were made with.
pub proof fn messages_carry_their_generation(s: Seq<EntryView>, generation: u64, changed: bool)
    ensures
        match snapshot_message(s, generation, changed) {
            MessageView::DeviceSnapshot { generation: g, .. } => g == generation,
            MessageView::DeviceSnapshotChanged { generation: g, .. } => g == generation,
            _ => false,
        },
{
}

/// A device that a backend reports is published with the serial that the backend
/// reported, also where it is shown under another one.
pub proof fn published_serials_are_the_backends(reports: Seq<ReportView>, i: int)
    requires
        0 <= i < reports.len(),
    ensures
        sanitized_all(merged(reports)).len() == reports.len(),
        sanitized_all(merged(reports))[i].upstream_serial == reports[i].serial,
        sanitized_all(merged(reports))[i].state == reports[i].state,
        sanitized_all(merged(reports))[i].backend_name == reports[i].backend.name,
        sanitized_all(merged(reports))[i].route_id == reports[i].backend.name + ":"@
            + reports[i].serial,
{
    merging_keeps_every_device(reports, i);
}

/// An agent publishes every device that its new enough backends list and the user
/// has not disabled, and what is published is listed by such a backend.
pub proof fn enabled_devices_are_published(
    config: HubView,
    names: Seq<Seq<char>>,
    bodies: Seq<Seq<char>>,
    d: EntryView,
)
    ensures
        ({
            let lists = Seq::new(
                config.backends.len(),
                |i: int|
                    ListView {
                        backend: config.backends[i],
                        body: if names.contains(config.backends[i].name) {
                            bodies[i]
                        } else {
                            Seq::empty()
                        },
                    },
            );
            published(config, names, bodies).contains(d) <==> merged(all_reports(lists)).contains(d)
                && !(config.devices.contains_key(d.public_serial)
                && !config.devices[d.public_serial])
        }),
{
    let lists = Seq::new(
        config.backends.len(),
        |i: int|
            ListView {
                backend: config.backends[i],
                body: if names.contains(config.backends[i].name) {
                    bodies[i]
                } else {
                    Seq::empty()
                },
            },
    );
    assert(lists =~= Seq::new(
        config.backends.len(),
        |i: int| agent_list(config.backends[i], names, bodies[i]),
    ));
    policy_hides_the_disabled(merged(all_reports(lists)), config.devices, d);
}

/// The route of a published device leads to its backend's address, with that
/// backend's pair code and the serial that the backend knows.
pub proof fn routes_lead_to_the_devices_backend(s: Seq<EntryView>, i: int)
    requires
        0 <= i < s.len(),
        forall|j: int|
            i < j < s.len() ==> (#[trigger] s[j]).backend_name + ":"@ + s[j].upstream_serial
                != s[i].backend_name + ":"@ + s[i].upstream_serial,
    ensures
        ({
            let id = s[i].backend_name + ":"@ + s[i].upstream_serial;
            &&& routes_of(s).contains_key(id)
            &&& routes_of(s)[id].addr == s[i].backend_addr
            &&& routes_of(s)[id].pair_code == s[i].pair_code
            &&& routes_of(s)[id].upstream_serial == s[i].upstream_serial
        }),
    decreases s.len(),
{
    let n = s.len() - 1;
    if i < n {
        let t = s.drop_last();
        assert(s[n].backend_name + ":"@ + s[n].upstream_serial != s[i].backend_name + ":"@
            + s[i].upstream_serial);
        assert forall|j: int| i < j < t.len() implies (#[trigger] t[j]).backend_name + ":"@
            + t[j].upstream_serial != t[i].backend_name + ":"@ + t[i].upstream_serial by {
            assert(t[j] == s[j] && t[i] == s[i]);
        }
        routes_lead_to_the_devices_backend(t, i);
    }
}

/// No route leads anywhere but to a device of the list.
pub proof fn routes_are_for_listed_devices(s: Seq<EntryView>, id: Seq<char>)
    requires
        routes_of(s).contains_key(id),
    ensures
        exists|i: int|
            0 <= i < s.len() && (#[trigger] s[i]).backend_name + ":"@ + s[i].upstream_serial == id,
    decreases s.len(),
{
    let n = s.len() - 1;
    if route_id_of(s.last()) == id {
        assert(s[n].backend_name + ":"@ + s[n].upstream_serial == id);
    } else {
        let t = s.drop_last();
        routes_are_for_listed_devices(t, id);
        let i = choose|i: int|
            0 <= i < t.len() && (#[trigger] t[i]).backend_name + ":"@ + t[i].upstream_serial == id;
        assert(s[i].backend_name + ":"@ + s[i].upstream_serial == id);
    }
}

/// An agent answers pings, opens streams along routes that it knows and refuses
/// others, hands on the bytes of a stream, and ends streams; all else is ignored.
pub proof fn agent_serves_the_daemon(
    routes: Map<Seq<char>, RouteView>,
    stream_id: u32,
    route_id: Seq<char>,
    service: Seq<char>,
    data: Seq<u8>,
    reason: Seq<char>,
    msg: MessageView,
)
    ensures
        agent_reaction(MessageView::Ping, routes) == AgentActionView::Send(MessageView::Pong),
        routes.contains_key(route_id) ==> agent_reaction(
            MessageView::OpenPrivateStream { stream_id, route_id, service },
            routes,
        ) == (AgentActionView::Open { stream_id, route: routes[route_id], service }),
        !routes.contains_key(route_id) ==> agent_reaction(
            MessageView::OpenPrivateStream { stream_id, route_id, service },
            routes,
        ) == AgentActionView::Send(
            MessageView::OpenResult {
                stream_id,
                ok: false,
                fail_reason: Some("unknown route_id"@),
            },
        ),
        agent_reaction(MessageView::StreamData { stream_id, data }, routes) == (
        AgentActionView::Deliver { stream_id, data }),
        agent_reaction(MessageView::StreamClose { stream_id, reason }, routes) == (
        AgentActionView::Close { stream_id }),
        agent_reaction(msg, routes) is Ignore <==> msg is RegisterAgent || msg is DeviceSnapshot
            || msg is DeviceSnapshotChanged || msg is OpenResult || msg is Pong,
{
}

/// A private stream is opened in steps: connect, authenticate where the backend has
/// a pair code, send the service, and tell the daemon. What fails is told to the
/// daemon for that very stream.
pub proof fn private_streams_are_opened_or_refused(
    stream_id: u32,
    code: Option<Seq<char>>,
    service: Seq<char>,
    why: FaultView,
)
    ensures
        ({
            let serving = OpenView::Serve {
                to_upstream: service_bytes(service),
                answer: MessageView::OpenResult { stream_id, ok: true, fail_reason: None },
            };
            &&& open_second(stream_id, service, Ok(())) == serving
            &&& open_first(stream_id, None, service, Ok(())) == serving
            &&& code is Some ==> open_first(stream_id, code, service, Ok(()))
                == OpenView::Authenticate(service_bytes("auth:"@ + code->0))
            &&& open_first(stream_id, code, service, Err(why)) == OpenView::Refuse(
                MessageView::OpenResult {
                    stream_id,
                    ok: false,
                    fail_reason: Some("connect: "@ + why.message),
                },
            )
            &&& open_second(stream_id, service, Err(why)) == OpenView::Refuse(
                MessageView::OpenResult {
                    stream_id,
                    ok: false,
                    fail_reason: Some("auth failed: "@ + why.message),
                },
            )
        }),
{
}

/// The configuration file is what an agent goes by; where it cannot be used, what
/// the agent was started with; where there is neither, no backends, and a broken
/// file alone is an error.
pub proof fn the_file_comes_first(
    inline: Option<HubView>,
    file: HubConfig,
    e: ConfigError,
)
    ensures
        source_view(inline, Some(Ok(file))) == Ok::<HubView, FaultView>(file@),
        inline is Some ==> source_view(inline, Some(Err(e))) == Ok::<HubView, FaultView>(
            inline->0,
        ),
        inline is Some ==> source_view(inline, None) == Ok::<HubView, FaultView>(inline->0),
        source_view(None, Some(Err(e))) == Err::<HubView, FaultView>(
            fault_view(IoKind::InvalidData, e.chars()),
        ),
        source_view(None, None) == Ok::<HubView, FaultView>(local_only_view()),
{
}

/// An agent never takes the local adb server, and polls the backends that are
/// switched on, in order; nothing else of the configuration changes.
pub proof fn agents_poll_enabled_remotes(c: HubView, b: BackendView)
    ensures
        !agent_view(c).include_local,
        agent_view(c).backends.contains(b) <==> c.backends.contains(b) && b.enabled,
        agent_view(c).devices == c.devices,
        agent_view(c).poll_interval_ms == c.poll_interval_ms,
        agent_view(c).listen == c.listen,
{
    enabled_backends_are_kept(c.backends, Seq::empty(), b);
}

/// A list of backends of which one has another print than before is told from what
/// it was.
pub proof fn changed_backends_are_noticed(s: Seq<BackendView>, i: int, c: BackendView)
    requires
        0 <= i < s.len(),
        backend_print(s[i]) != backend_print(c),
    ensures
        fingerprint(s.update(i, c)) != fingerprint(s),
{
    let t = s.update(i, c);
    let ps = Seq::new(s.len(), |k: int| backend_print(s[k]));
    let pt = Seq::new(t.len(), |k: int| backend_print(t[k]));
    assert(pt =~= ps.update(i, backend_print(c)));
    lemma_join_changed(ps, i, backend_print(c), "|"@);
}

proof fn lemma_join_changed(ps: Seq<Seq<char>>, i: int, x: Seq<char>, sep: Seq<char>)
    requires
        0 <= i < ps.len(),
        ps[i] != x,
    ensures
        join_seq(ps.update(i, x), sep) != join_seq(ps, sep),
    decreases ps.len(),
{
    let qs = ps.update(i, x);
    let n = ps.len() - 1;
    if n > 0 {
        let u = join_seq(ps.drop_last(), sep);
        let v = join_seq(qs.drop_last(), sep);
        assert(join_seq(ps, sep) == u + sep + ps[n]);
        assert(join_seq(qs, sep) == v + sep + qs[n]);
        if i == n {
            assert(qs.drop_last() =~= ps.drop_last());
            lemma_other_end(u + sep, ps[n], x);
        } else {
            assert(qs.drop_last() =~= ps.drop_last().update(i, x));
            lemma_join_changed(ps.drop_last(), i, x, sep);
            lemma_other_start(u, v, sep, ps[n]);
        }
    }
}

proof fn lemma_other_end(head: Seq<char>, x: Seq<char>, y: Seq<char>)
    requires
        x != y,
    ensures
        head + x != head + y,
{
    assert((head + x).skip(head.len() as int) =~= x);
    assert((head + y).skip(head.len() as int) =~= y);
}

proof fn lemma_other_start(u: Seq<char>, v: Seq<char>, sep: Seq<char>, last: Seq<char>)
    requires
        u != v,
    ensures
        u + sep + last != v + sep + last,
{
    let a = u + sep + last;
    let b = v + sep + last;
    let n = sep.len() + last.len();
    assert(a.take(a.len() - n) =~= u);
    assert(b.take(b.len() - n) =~= v);
}

/// The prints of two backends that differ in their pair codes alone are different.
pub proof fn pair_codes_are_part_of_the_print(b: BackendView, code: Seq<char>, other: Seq<char>)
    requires
        code != other,
    ensures
        backend_print(BackendView { pair_code: Some(code), ..b }) != backend_print(
            BackendView { pair_code: Some(other), ..b },
        ),
{
    let p = b.name + "@"@ + b.addr.chars() + "#"@;
    assert(backend_print(BackendView { pair_code: Some(code), ..b }).skip(p.len() as int) =~= code);
    assert(backend_print(BackendView { pair_code: Some(other), ..b }).skip(p.len() as int)
        =~= other);
}

/// Different random bytes make different tokens.
pub proof fn tokens_tell_agents_apart(a: Seq<u8>, b: Seq<u8>)
    requires
        a.len() == b.len(),
        hex_bytes(a) == hex_bytes(b),
    ensures
        a == b,
    decreases a.len(),
{
    if a.len() > 0 {
        let x = a.drop_last();
        let y = b.drop_last();
        tokens_have_two_digits_per_byte(x);
        tokens_have_two_digits_per_byte(y);
        lemma_hex2(a.last());
        lemma_hex2(b.last());
        let n = 2 * x.len() as int;
        assert(hex_bytes(a).take(n) =~= hex_bytes(x));
        assert(hex_bytes(b).take(n) =~= hex_bytes(y));
        assert(hex_bytes(a).skip(n) =~= hex2(a.last()));
        assert(hex_bytes(b).skip(n) =~= hex2(b.last()));
        tokens_tell_agents_apart(x, y);
        lemma_hex2_value(a.last());
        lemma_hex2_value(b.last());
        assert(a =~= x.push(a.last()));
        assert(b =~= y.push(b.last()));
    } else {
        assert(a =~= b);
    }
}

proof fn lemma_hex2_value(b: u8)
    ensures
        crate::digits::hex_value(hex2(b)) == b,
{
    let n = b as nat;
    crate::digits::lemma_hex_seq_value(n);
    if hex_seq(n).len() < 2 {
        crate::digits::lemma_hex_zeros((2 - hex_seq(n).len()) as nat, hex_seq(n));
    }
}

/// An agent runs on Linux alone.
pub proof fn agents_run_on_linux(platform: Platform, r: Result<(), AgentError>)
    requires
        call_ensures(check_platform, (platform,), r),
    ensures
        r is Ok <==> platform == Platform::Linux,
{
}

/// The control socket is tried again until it is connected or the retries are used
/// up; then the last failure is reported.
pub proof fn control_socket_is_retried(
    attempt: u32,
    retries: u32,
    outcome: Result<(), IoFault>,
    a: RetryAction,
)
    requires
        call_ensures(connect_control_with_retry, (attempt, retries, outcome), a),
    ensures
        a is Go <==> outcome is Ok,
        a is Pause <==> outcome is Err && attempt < retries,
        a matches RetryAction::GiveUp(f) ==> outcome is Err && f == outcome->Err_0,
{
}

/// A daemon that closes the connection ends the agent without a failure.
pub proof fn closed_daemons_end_agents(f: IoFault, r: Result<(), AgentError>)
    requires
        call_ensures(control_lost, (f,), r),
    ensures
        r is Ok <==> f.kind == IoKind::UnexpectedEof,
        r is Err ==> r == Err::<(), AgentError>(AgentError::Io(f)),
{
}

/// A file with pair codes that anybody but its owner may use is made the owner's
/// alone; one that is the owner's alone already is left as it is.
pub proof fn pair_codes_are_the_owners_alone(mode: u32, r: Option<u32>)
    requires
        call_ensures(ensure_owner_only_config, (mode,), r),
    ensures
        r is None <==> mode & 0o077 == 0,
        r matches Some(m) ==> m == 0o600,
{
    assert((mode & 0o777) & 0o077 == mode & 0o077) by (bit_vector);
}

/// An agent registers with the protocol's version and its token, and a stream that
/// ended is reported under its id.
pub proof fn agents_introduce_themselves(
    token: String,
    m: IpcMessage,
    stream_id: u32,
    reason: &str,
    c: IpcMessage,
)
    requires
        call_ensures(registration, (token,), m),
        call_ensures(stream_closed, (stream_id, reason), c),
    ensures
        m@ matches MessageView::RegisterAgent { version, instance_token, .. } && version == 1
            && instance_token == token@,
        c@ == (MessageView::StreamClose { stream_id, reason: reason@ }),
{
}

/// A backend that is new enough is heard as it answers; any other contributes no
/// device.
pub proof fn old_backends_contribute_nothing(
    b: BackendView,
    names: Seq<Seq<char>>,
    body: Seq<char>,
)
    ensures
        agent_list(b, names, body).backend == b,
        names.contains(b.name) ==> agent_list(b, names, body).body == body,
        !names.contains(b.name) ==> agent_list(b, names, body).body.len() == 0,
{
}

/// What is published of a device list tells each device with the serial that its
/// backend knows, under the next number, and keeps a route to it.
pub proof fn published_lists_tell_every_device(
    snap: &DeviceSnapshot,
    generation: &mut u64,
    changed: bool,
    r: (IpcMessage, RouteTable),
    i: int,
)
    requires
        *old(generation) < u64::MAX,
        call_ensures(publish, (snap, generation, changed), r),
        0 <= i < snap@.len(),
    ensures
        ({
            let told = match r.0@ {
                MessageView::DeviceSnapshot { devices, .. } => devices,
                MessageView::DeviceSnapshotChanged { devices, .. } => devices,
                _ => Seq::empty(),
            };
            let number: u64 = match r.0@ {
                MessageView::DeviceSnapshot { generation, .. } => generation,
                MessageView::DeviceSnapshotChanged { generation, .. } => generation,
                _ => 0,
            };
            &&& number == *old(generation) + 1
            &&& *final(generation) == number
            &&& r.0@ is DeviceSnapshotChanged <==> changed
            &&& told.len() == snap@.len()
            &&& told[i].public_serial == snap@[i].public_serial
            &&& told[i].upstream_serial == snap@[i].upstream_serial
            &&& told[i].state == snap@[i].state
            &&& told[i].extras == snap@[i].extras
            &&& told[i].backend_name == snap@[i].backend_name
            &&& told[i].route_id == snap@[i].backend_name + ":"@ + snap@[i].upstream_serial
            &&& r.1@.contains_key(told[i].route_id)
        }),
{
    devices_are_published_as_they_are(snap@, *final(generation), changed, i);
    published_routes_are_known(snap@, i);
}

/// Backends that were found new enough stay so until the configured ones change.
pub proof fn answers_are_remembered(
    c: &mut CompatCache,
    backends: &Vec<BackendConfig>,
    compatible: &Vec<BackendConfig>,
    name: &str,
    allowed: bool,
    stale: bool,
    later: CompatCache,
)
    requires
        call_ensures(CompatCache::store, (c, backends, compatible), ()),
        later == *final(c),
        call_ensures(CompatCache::allows, (&later, name), allowed),
        call_ensures(CompatCache::is_stale, (&later, backends), stale),
    ensures
        !stale,
        allowed <==> exists|i: int|
            0 <= i < compatible@.len() && (#[trigger] compatible@[i]).name@ == name@,
{
    let names = views(later.names@);
    if allowed {
        let i = choose|i: int| 0 <= i < names.len() && names[i] == name@;
        assert(compatible@[i].name@ == name@);
    }
    if exists|i: int| 0 <= i < compatible@.len() && (#[trigger] compatible@[i]).name@ == name@ {
        let i = choose|i: int|
            0 <= i < compatible@.len() && (#[trigger] compatible@[i]).name@ == name@;
        assert(names[i] == name@);
    }
}

} // verus!
