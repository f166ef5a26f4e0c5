use adb_proxy::addr::SocketAddr;
use adb_proxy::agent::{
    agent_hub_config, agent_lists, backends_fingerprint, check_platform, connect_control_with_retry,
    control_lost, ensure_owner_only_config, handle_daemon_message, open_private_stream, publish,
    random_token, refresh_and_publish, registration, stream_authenticated, stream_closed, token_of,
    AgentAction, AgentConfig, AgentError, CompatCache, OpenAction, RetryAction, RouteTable,
};
use adb_proxy::config::{BackendConfig, ConfigError, HubConfig};
use adb_proxy::daemon::{
    admits, bridge_client, check_start, identify, is_unsafe_global_host, private_opened,
    synced_version, AgentEvent, BridgeAction, DaemonConfig, DaemonError, DaemonState, OpenOutcome,
    OpenWait, OpenedAction, Route, ServeAction,
};
use adb_proxy::fault::{fault, IoFault, IoKind};
use adb_proxy::hub::HubError;
use adb_proxy::ipc::{
    DeviceSnapshotMsg, IpcMessage, OpenPrivateStream, OpenResult, RegisterAgent, StreamClose,
};
use adb_proxy::peercred::Platform;
use adb_proxy::registry::merge_device_lists;
use adb_proxy::service::{
    run_agent_only, run_shared_service, starts_daemon, ServiceAction, ServiceConfig, ServiceError,
    ServiceEvent, TaskEnd,
};
use adb_proxy::session::{track_own_view, TrackEvent, TrackStep};

fn addr(port: u16) -> SocketAddr {
    SocketAddr::V4 {
        ip: [127, 0, 0, 1],
        port,
    }
}

fn backend(name: &str, port: u16, code: Option<&str>) -> BackendConfig {
    BackendConfig {
        name: name.into(),
        addr: addr(port),
        pair_code: code.map(str::to_string),
        enabled: true,
    }
}

fn office() -> Vec<BackendConfig> {
    vec![backend("office", 40000, Some("ABCD1234"))]
}

fn published(body: &str) -> (IpcMessage, RouteTable) {
    let mut generation = 0;
    let list = (office().remove(0), body.to_string());
    publish(&merge_device_lists(&[list]), &mut generation, false)
}

fn daemon() -> DaemonState {
    let mut local = backend("local", 5039, None);
    local.enabled = true;
    let mut d = DaemonState::new(Some(local), 41);
    assert!(d.poll_shared_once(Ok("USB1\tdevice\n".into())));
    d
}

fn register(d: &mut DaemonState, uid: u32, token: &str) -> (String, Option<String>) {
    d.register_agent(uid, registration(token.to_string())).unwrap()
}

fn ask(d: &DaemonState, uid: u32, service: &str) -> ServeAction {
    d.handle_adb_client(uid, Ok(service.as_bytes().to_vec()))
}

fn reply(a: ServeAction) -> String {
    match a {
        ServeAction::Reply(b) => String::from_utf8(b).unwrap(),
        other => panic!("unexpected {other:?}"),
    }
}

#[test]
fn agent_publishes_private_devices_to_daemon() {
    let mut d = DaemonState::new(None, 41);
    register(&mut d, 1000, "t");
    let (msg, _) = published("PRIV1\tdevice\n");
    assert!(matches!(
        d.agent_message(1000, msg),
        AgentEvent::Devices { changed: true }
    ));
    let text = reply(ask(&d, 1000, "host:devices"));
    assert!(
        text.contains("PRIV1\tdevice"),
        "expected private device in list, got: {text}"
    );
    assert!(!reply(ask(&d, 1001, "host:devices")).contains("PRIV1"));
}

#[test]
fn pair_codes_stay_with_the_agent() {
    let (msg, routes) = published("PRIV1\tdevice\n");
    assert!(!format!("{msg:?}").contains("ABCD1234"));
    let route = routes.get("office:PRIV1").unwrap();
    assert_eq!(route.pair_code.as_deref(), Some("ABCD1234"));
    assert_eq!(route.addr, addr(40000));
    assert_eq!(route.upstream_serial, "PRIV1");
    assert!(routes.get("office:OTHER").is_none());
    let mut d = daemon();
    register(&mut d, 1000, "t");
    d.agent_message(1000, msg);
    assert!(d.snapshot_for(1000).devices.iter().all(|e| e.pair_code.is_none()));
}

#[test]
fn enabled_devices_of_new_enough_backends_are_published() {
    let mut config = HubConfig::local_only();
    config.backends = vec![
        backend("office", 1, Some("ABCD1234")),
        backend("lab", 2, Some("EFGH5678")),
        backend("gone", 3, None),
    ];
    config.set_device_enabled("HIDDEN", false);
    let mut cache = CompatCache::new();
    let compatible = vec![config.backends[0].clone(), config.backends[2].clone()];
    cache.store(&config.backends, &compatible);
    let fetched = vec![
        Ok("SHOWN\tdevice\nHIDDEN\tdevice\n".to_string()),
        Ok("OLD\tdevice\n".to_string()),
        Err(fault(IoKind::TimedOut, "late")),
    ];
    let mut generation = 3;
    let (msg, routes) = refresh_and_publish(&config, &cache, &fetched, &mut generation, true);
    assert_eq!(generation, 4);
    assert!(routes.get("office:SHOWN").is_some());
    assert!(routes.get("office:HIDDEN").is_none());
    assert!(routes.get("lab:OLD").is_none());
    match msg {
        IpcMessage::DeviceSnapshotChanged(m) => {
            assert_eq!(m.generation, 4);
            assert_eq!(m.devices.len(), 1);
            assert_eq!(m.devices[0].public_serial, "SHOWN");
        }
        other => panic!("unexpected {other:?}"),
    }
}

#[test]
fn a_closed_control_connection_is_no_failure() {
    assert!(control_lost(fault(IoKind::UnexpectedEof, "eof")).is_ok());
    assert!(matches!(
        control_lost(fault(IoKind::ConnectionReset, "reset")),
        Err(AgentError::Io(f)) if f.kind == IoKind::ConnectionReset
    ));
}

#[test]
fn only_local_clients_are_admitted() {
    let here = Ok(addr(5037));
    let lan = SocketAddr::V4 {
        ip: [192, 168, 1, 2],
        port: 50000,
    };
    assert!(admits(&here, &addr(50000)));
    assert!(!admits(&here, &lan));
    assert!(!admits(&Err(fault(IoKind::Other, "gone")), &addr(50000)));
}

#[test]
fn foreign_serials_are_refused_by_name() {
    let mut d = daemon();
    register(&mut d, 1000, "t");
    let (msg, _) = published("PRIV1\tdevice\n");
    d.agent_message(1000, msg);
    for service in ["host:transport:PRIV1", "host:tport:serial:PRIV1", "host-serial:PRIV1:features"] {
        assert!(matches!(
            ask(&d, 1000, service),
            ServeAction::Forward(Route::Private { .. })
        ));
        assert!(reply(ask(&d, 1001, service)).ends_with("device 'PRIV1' not found"));
    }
}

#[test]
fn device_scoped_services_reach_the_shared_server() {
    let d = daemon();
    for service in [
        "host:tport:usb",
        "host:tport:local",
        "host:transport-id:3",
        "host-usb:get-state",
        "host-local:features",
        "host-transport-id:3:forward:tcp:1;tcp:2",
        "host:get-devpath",
        "host:features",
        "shell:ls",
    ] {
        assert!(!is_unsafe_global_host(service), "{service}");
        match ask(&d, 1, service) {
            ServeAction::Forward(Route::Shared { upstream, .. }) => assert_eq!(upstream, service),
            other => panic!("unexpected {other:?}"),
        }
    }
}

#[test]
fn other_users_are_not_heard_of_by_trackers() {
    let mut d = daemon();
    let sent = d.snapshot_for(1001).format_devices(false);
    let quiet = |d: &DaemonState, uid: u32| {
        matches!(
            track_own_view(TrackEvent::Changed, &sent, &d.snapshot_for(uid), false),
            TrackStep::Quiet
        )
    };
    let (token, _) = register(&mut d, 1000, "t");
    assert!(quiet(&d, 1001));
    let (msg, _) = published("USB1\tdevice\n");
    d.agent_message(1000, msg);
    assert!(quiet(&d, 1001));
    assert!(!quiet(&d, 1000));
    assert!(d.agent_left(1000, &token));
    assert!(quiet(&d, 1001));
}

#[test]
fn conflicting_devices_are_reached_by_their_backends() {
    let mut d = daemon();
    register(&mut d, 1000, "t");
    let (msg, _) = published("USB1\tdevice\n");
    d.agent_message(1000, msg);
    let list = reply(ask(&d, 1000, "host:devices"));
    assert!(list.ends_with("local:USB1\tdevice\noffice:USB1\tdevice\n"), "{list}");
    assert!(reply(ask(&d, 1001, "host:devices")).ends_with("000cUSB1\tdevice\n"));
    match ask(&d, 1000, "host-serial:office:USB1:features") {
        ServeAction::Forward(Route::Private { route_id, upstream }) => {
            assert_eq!(route_id, "office:USB1");
            assert_eq!(upstream, "host-serial:USB1:features");
        }
        other => panic!("unexpected {other:?}"),
    }
    match ask(&d, 1000, "host:transport:local:USB1") {
        ServeAction::Forward(Route::Shared { upstream, .. }) => {
            assert_eq!(upstream, "host:transport:USB1");
        }
        other => panic!("unexpected {other:?}"),
    }
}

#[test]
fn later_routes_of_an_id_count() {
    let lists = [
        (backend("a", 1, None), "b:S\tdevice\n".to_string()),
        (backend("a:b", 2, None), "S\tdevice\n".to_string()),
    ];
    let mut generation = 7;
    let (msg, routes) = publish(&merge_device_lists(&lists), &mut generation, true);
    assert_eq!(generation, 8);
    assert_eq!(routes.get("a:b:S").unwrap().addr, addr(2));
    match msg {
        IpcMessage::DeviceSnapshotChanged(m) => {
            assert_eq!(m.generation, 8);
            assert_eq!(m.devices.len(), 2);
            assert_eq!(m.devices[0].route_id, "a:b:S");
        }
        other => panic!("unexpected {other:?}"),
    }
}

#[test]
fn fingerprints_tell_backends_apart() {
    let two = vec![backend("a", 1, None), backend("b", 2, Some("ABCD1234"))];
    assert_eq!(
        backends_fingerprint(&two),
        "a@127.0.0.1:1#|b@127.0.0.1:2#ABCD1234"
    );
    assert_eq!(backends_fingerprint(&Vec::new()), "");
    let mut cache = CompatCache::new();
    assert!(cache.is_stale(&two));
    cache.store(&two, &vec![backend("b", 2, None)]);
    assert!(!cache.is_stale(&two));
    assert!(cache.allows("b") && !cache.allows("a"));
    let lists = agent_lists(
        &two,
        &cache,
        &vec![Ok("X\tdevice\n".into()), Ok("Y\tdevice\n".into())],
    );
    assert_eq!(lists[0].1, "");
    assert_eq!(lists[1].1, "Y\tdevice\n");
    let lists = agent_lists(
        &two,
        &cache,
        &vec![Ok("X\tdevice\n".into()), Err(fault(IoKind::Other, "x"))],
    );
    assert_eq!(lists[1].1, "");
}

#[test]
fn agents_prefer_the_file() {
    let mut inline = HubConfig::local_only();
    inline.upsert_backend(backend("inline", 1, None));
    let mut file = HubConfig::local_only();
    file.upsert_backend(backend("file", 2, None));
    file.upsert_backend(backend("off", 3, None));
    file.set_backend_enabled("off", false).unwrap();
    let inline = Some(inline);
    let name = |c: HubConfig| c.backends[0].name.clone();

    let c = agent_hub_config(&inline, Some(Ok(file.clone()))).unwrap();
    assert!(!c.include_local);
    assert_eq!(c.backends.len(), 1);
    assert_eq!(name(c), "file");
    let bad = || Some(Err(ConfigError::Invalid("bad".into())));
    assert_eq!(name(agent_hub_config(&inline, bad()).unwrap()), "inline");
    assert_eq!(name(agent_hub_config(&inline, None).unwrap()), "inline");
    let err = agent_hub_config(&None, bad()).unwrap_err();
    assert_eq!(err.kind, IoKind::InvalidData);
    assert_eq!(err.message, "invalid config: bad");
    assert!(agent_hub_config(&None, None).unwrap().backends.is_empty());
    assert_eq!(name(agent_hub_config(&None, Some(Ok(file))).unwrap()), "file");
}

fn open_request(route_id: &str) -> IpcMessage {
    IpcMessage::OpenPrivateStream(OpenPrivateStream {
        stream_id: 5,
        route_id: route_id.into(),
        service: "host:transport:PRIV1".into(),
    })
}

#[test]
fn agents_open_known_routes() {
    let (_, routes) = published("PRIV1\tdevice\n");
    let AgentAction::Open {
        stream_id,
        route,
        service,
    } = handle_daemon_message(open_request("office:PRIV1"), &routes)
    else {
        panic!("the route is known");
    };
    assert_eq!(stream_id, 5);
    match open_private_stream(5, &route, &service, Ok(())) {
        OpenAction::Authenticate(b) => assert_eq!(b, b"000dauth:ABCD1234"),
        other => panic!("unexpected {other:?}"),
    }
    match stream_authenticated(5, &service, Ok(())) {
        OpenAction::Serve {
            to_upstream,
            answer: IpcMessage::OpenResult(r),
        } => {
            assert_eq!(to_upstream, b"0014host:transport:PRIV1");
            assert!(r.ok && r.stream_id == 5 && r.fail_reason.is_none());
        }
        other => panic!("unexpected {other:?}"),
    }
    let reason = |a: OpenAction| match a {
        OpenAction::Refuse(IpcMessage::OpenResult(r)) => r.fail_reason.unwrap(),
        other => panic!("unexpected {other:?}"),
    };
    let denied = Err(fault(IoKind::PermissionDenied, "unauthorized"));
    assert_eq!(
        reason(stream_authenticated(5, &service, denied)),
        "auth failed: unauthorized"
    );
    let refused = Err(fault(IoKind::ConnectionRefused, "refused"));
    assert_eq!(
        reason(open_private_stream(5, &route, &service, refused)),
        "connect: refused"
    );
}

#[test]
fn agents_react_to_every_message() {
    let routes = RouteTable::new();
    match handle_daemon_message(open_request("x"), &routes) {
        AgentAction::Send(IpcMessage::OpenResult(r)) => {
            assert!(!r.ok);
            assert_eq!(r.fail_reason.as_deref(), Some("unknown route_id"));
        }
        other => panic!("unexpected {other:?}"),
    }
    assert!(matches!(
        handle_daemon_message(IpcMessage::Ping, &routes),
        AgentAction::Send(IpcMessage::Pong)
    ));
    assert!(matches!(
        handle_daemon_message(IpcMessage::Pong, &routes),
        AgentAction::Ignore
    ));
    let data = IpcMessage::StreamData {
        stream_id: 2,
        data: vec![1],
    };
    assert!(matches!(
        handle_daemon_message(data, &routes),
        AgentAction::Deliver { stream_id: 2, .. }
    ));
    assert!(matches!(
        handle_daemon_message(stream_closed(2, "closed"), &routes),
        AgentAction::Close { stream_id: 2 }
    ));
}

#[test]
fn tokens_are_random_hexadecimal() {
    assert_eq!(token_of(&vec![0, 10, 255]), "000aff");
    let a = random_token();
    let b = random_token();
    assert_eq!(a.len(), 32);
    assert!(a.chars().all(|c| c.is_ascii_hexdigit() && !c.is_uppercase()));
    assert_ne!(a, b);
    match registration(a.clone()) {
        IpcMessage::RegisterAgent(r) => {
            assert_eq!(r.version, 1);
            assert_eq!(r.capabilities, ["devices", "streams"]);
            assert_eq!(r.instance_token, a);
        }
        other => panic!("unexpected {other:?}"),
    }
}

#[test]
fn control_sockets_are_retried() {
    let refused = || Err(fault(IoKind::ConnectionRefused, "refused"));
    assert!(matches!(
        connect_control_with_retry(0, 50, Ok(())),
        RetryAction::Go
    ));
    assert!(matches!(
        connect_control_with_retry(49, 50, refused()),
        RetryAction::Pause
    ));
    assert!(matches!(
        connect_control_with_retry(50, 50, refused()),
        RetryAction::GiveUp(_)
    ));
}

#[test]
fn config_files_become_owner_only() {
    assert_eq!(ensure_owner_only_config(0o100644), Some(0o600));
    assert_eq!(ensure_owner_only_config(0o100600), None);
    assert_eq!(ensure_owner_only_config(0o100400), None);
    assert_eq!(ensure_owner_only_config(0o100601), Some(0o600));
}

#[test]
fn agents_run_on_linux() {
    assert!(check_platform(Platform::Linux).is_ok());
    let err = check_platform(Platform::Windows).unwrap_err();
    assert!(err.to_string().starts_with("Windows does not support"));
    assert_eq!(
        AgentError::Config("bad".into()).to_string(),
        "config error: bad"
    );
    assert_eq!(
        AgentError::Io(fault(IoKind::Other, "x")).to_string(),
        "io error: x"
    );
    let c = AgentConfig::new("/c.toml");
    assert_eq!(c.config_path, "/c.toml");
    assert_eq!(c.control_abstract, "adb-hubd");
    assert_eq!((c.connect_retries, c.connect_retry_delay_ms), (50, 100));
}

#[test]
fn daemons_listen_on_loopback() {
    assert!(check_start(Platform::Linux, &addr(5037)).is_ok());
    let out = SocketAddr::V4 {
        ip: [0, 0, 0, 0],
        port: 5037,
    };
    assert_eq!(
        check_start(Platform::Linux, &out).unwrap_err().to_string(),
        "io error: multi-user daemon must listen on loopback only"
    );
    assert!(matches!(
        check_start(Platform::MacOs, &out).unwrap_err(),
        DaemonError::UnsupportedPlatform(Platform::MacOs)
    ));
    assert_eq!(
        DaemonError::LocalAdb(fault(IoKind::Other, "x")).to_string(),
        "local adb server error: x"
    );
    let bind = DaemonError::Bind {
        addr: addr(5037),
        source: fault(IoKind::AddrInUse, "in use"),
    };
    assert!(bind.to_string().starts_with("failed to bind 127.0.0.1:5037: in use. "));
    let c = DaemonConfig::default();
    assert_eq!(c.listen.to_string(), "127.0.0.1:5037");
    assert_eq!(c.adb_version, 41);
    assert_eq!(synced_version(41, Ok(40)), 40);
    assert_eq!(synced_version(41, Err(fault(IoKind::Other, "x"))), 41);
}

#[test]
fn unknown_users_are_refused() {
    assert_eq!(identify(Ok(7)).unwrap(), 7);
    let refused = identify(Err(fault(IoKind::NotFound, "none"))).unwrap_err();
    assert_eq!(refused, b"FAIL001eunable to identify client user");
}

#[test]
fn kill_does_not_stop_the_daemon() {
    let d = daemon();
    assert_eq!(reply(ask(&d, 1, "host:kill")), "OKAY");
    assert_eq!(reply(ask(&d, 1, "host:devices")), "OKAY000cUSB1\tdevice\n");
}

#[test]
fn daemons_answer_host_services() {
    let d = daemon();
    assert_eq!(reply(ask(&d, 1, "host:version")), "OKAY00040029");
    assert_eq!(reply(ask(&d, 1, "host:get-state")), "OKAY0006device");
    assert_eq!(reply(ask(&d, 1, "host:get-connection-state")), "OKAY0006device");
    assert_eq!(reply(ask(&d, 1, "host:get-serialno")), "OKAY0004USB1");
    assert_eq!(
        reply(ask(&d, 1, "host:reconnect-offline")),
        "FAIL002fhost command not permitted on multi-user daemon"
    );
    assert!(is_unsafe_global_host("host:kill:now"));
    assert!(is_unsafe_global_host("host:resetowninghost"));
    assert!(!is_unsafe_global_host("host:kill"));
    assert!(is_unsafe_global_host("host:disconnect:10.0.0.9:5555"));
    assert!(is_unsafe_global_host("host-usb:kill"));
    assert!(!is_unsafe_global_host("host:features"));
    assert!(!is_unsafe_global_host("host:wait-for-any-device"));
    assert!(!is_unsafe_global_host("host:transport:X"));
    assert!(!is_unsafe_global_host("host-serial:X:forward:tcp:1;tcp:2"));
    for service in [
        "host:disconnect:10.0.0.9:5555",
        "host:connect:x:1",
        "host:forward:a;b",
        "host-usb:kill",
        "host-transport-id:3:kill",
        "host-transport-id:3",
        "host-local:killforward-all",
    ] {
        assert_eq!(
            reply(ask(&d, 1, service)),
            "FAIL002fhost command not permitted on multi-user daemon"
        );
    }
    assert!(matches!(
        ask(&d, 1, "host:track-devices-l"),
        ServeAction::Track { long: true }
    ));
    assert_eq!(
        reply(ask(&d, 1, "host:transport:NONE")),
        "FAIL0017device 'NONE' not found"
    );
    assert_eq!(
        reply(d.handle_adb_client(1, Ok(vec![0xff]))),
        "FAIL0014invalid utf8 service"
    );
    assert!(matches!(
        d.handle_adb_client(1, Err(fault(IoKind::UnexpectedEof, "x"))),
        ServeAction::Close
    ));
    assert!(matches!(
        d.handle_adb_client(1, Err(fault(IoKind::Other, "x"))),
        ServeAction::Fault(_)
    ));
    let none = DaemonState::new(None, 41);
    assert_eq!(
        reply(ask(&none, 1, "host:get-state")),
        "FAIL001ano devices/emulators found"
    );
    assert_eq!(
        reply(ask(&none, 1, "host:features")),
        "FAIL0017no shared local backend"
    );
}

#[test]
fn daemons_route_shared_and_private_devices() {
    let mut d = daemon();
    register(&mut d, 1000, "t");
    let (msg, _) = published("PRIV1\tdevice\n");
    d.agent_message(1000, msg);
    match ask(&d, 1000, "host:transport:USB1") {
        ServeAction::Forward(Route::Shared { addr: at, upstream }) => {
            assert_eq!(at, addr(5039));
            assert_eq!(upstream, "host:transport:USB1");
        }
        other => panic!("unexpected {other:?}"),
    }
    match ask(&d, 1000, "host:transport:PRIV1") {
        ServeAction::Forward(Route::Private { route_id, upstream }) => {
            assert_eq!(route_id, "office:PRIV1");
            assert_eq!(upstream, "host:transport:PRIV1");
        }
        other => panic!("unexpected {other:?}"),
    }
    assert_eq!(
        reply(ask(&d, 1001, "host:transport:PRIV1")),
        "FAIL0018device 'PRIV1' not found"
    );
    match ask(&d, 1001, "host:features") {
        ServeAction::Forward(Route::Shared { addr: at, upstream }) => {
            assert_eq!(at, addr(5039));
            assert_eq!(upstream, "host:features");
        }
        other => panic!("unexpected {other:?}"),
    }
    match ask(&d, 1000, "host:tport:any") {
        ServeAction::Forward(Route::Shared { upstream, .. }) => {
            assert_eq!(upstream, "host:tport:serial:USB1");
        }
        other => panic!("unexpected {other:?}"),
    }
}

#[test]
fn private_streams_need_an_agent() {
    let mut d = daemon();
    let refused = d
        .forward_private(1000, "r".into(), "s".into())
        .unwrap_err();
    assert_eq!(refused, b"FAIL0010device not found");
    register(&mut d, 1000, "t");
    for expected in 1..3u32 {
        let (id, msg) = d.forward_private(1000, "r".into(), "s".into()).unwrap();
        assert_eq!(id, expected);
        match msg {
            IpcMessage::OpenPrivateStream(o) => {
                assert_eq!(o.stream_id, id);
                assert_eq!((o.route_id.as_str(), o.service.as_str()), ("r", "s"));
            }
            other => panic!("unexpected {other:?}"),
        }
    }
}

#[test]
fn agents_are_replaced_by_their_successors() {
    let mut d = daemon();
    assert_eq!(register(&mut d, 1000, "one"), ("one".into(), None));
    assert_eq!(
        register(&mut d, 1000, "two"),
        ("two".into(), Some("one".into()))
    );
    let (msg, _) = published("PRIV1\tdevice\n");
    d.agent_message(1000, msg);
    assert!(!d.agent_left(1000, "one"));
    assert_eq!(d.snapshot_for(1000).devices.len(), 2);
    assert!(d.agent_left(1000, "two"));
    assert_eq!(d.snapshot_for(1000).devices.len(), 1);
    assert!(!d.agent_left(1000, "two"));
}

#[test]
fn registrations_are_checked() {
    let mut d = daemon();
    let err = d.register_agent(1, IpcMessage::Ping).unwrap_err();
    assert_eq!(err.message, "expected RegisterAgent");
    let old = IpcMessage::RegisterAgent(RegisterAgent {
        version: 2,
        capabilities: Vec::new(),
        instance_token: "t".into(),
    });
    let err = d.register_agent(1, old).unwrap_err();
    assert_eq!(
        err.message,
        "unsupported agent protocol version 2 (want 1)"
    );
}

#[test]
fn daemons_react_to_every_message() {
    let mut d = daemon();
    let opened = IpcMessage::OpenResult(OpenResult {
        stream_id: 3,
        ok: true,
        fail_reason: None,
    });
    assert!(matches!(
        d.agent_message(1, opened),
        AgentEvent::Opened {
            stream_id: 3,
            outcome: OpenOutcome { ok: true, .. }
        }
    ));
    let closed = IpcMessage::StreamClose(StreamClose {
        stream_id: 3,
        reason: "gone".into(),
    });
    match d.agent_message(1, closed) {
        AgentEvent::Closed { stream_id, outcome } => {
            assert_eq!(stream_id, 3);
            assert!(!outcome.ok);
            assert_eq!(outcome.fail_reason.as_deref(), Some("gone"));
        }
        other => panic!("unexpected {other:?}"),
    }
    let data = IpcMessage::StreamData {
        stream_id: 3,
        data: vec![1, 2],
    };
    assert!(matches!(
        d.agent_message(1, data),
        AgentEvent::Deliver { stream_id: 3, .. }
    ));
    assert!(matches!(
        d.agent_message(1, IpcMessage::Ping),
        AgentEvent::Send(IpcMessage::Pong)
    ));
    assert!(matches!(
        d.agent_message(1, IpcMessage::Pong),
        AgentEvent::Ignore
    ));
    let empty = || {
        IpcMessage::DeviceSnapshot(DeviceSnapshotMsg {
            generation: 1,
            devices: Vec::new(),
        })
    };
    assert!(matches!(
        d.agent_message(1, empty()),
        AgentEvent::Devices { changed: true }
    ));
    assert!(matches!(
        d.agent_message(1, empty()),
        AgentEvent::Devices { changed: false }
    ));
}

#[test]
fn lost_shared_servers_have_no_devices() {
    let mut d = daemon();
    assert!(!d.poll_shared_once(Ok("USB1\tdevice\n".into())));
    assert!(d.poll_shared_once(Err(fault(IoKind::TimedOut, "x"))));
    assert!(d.snapshot_for(1).devices.is_empty());
    let mut none = DaemonState::new(None, 41);
    assert!(!none.poll_shared_once(Ok("USB1\tdevice\n".into())));
}

#[test]
fn private_streams_are_bridged_once_open() {
    let answered = |ok: bool, why: Option<&str>| {
        private_opened(OpenWait::Answered(OpenOutcome {
            ok,
            fail_reason: why.map(str::to_string),
        }))
    };
    assert!(matches!(answered(true, None), OpenedAction::Bridge));
    match answered(false, Some("connect: refused")) {
        OpenedAction::Refuse(b) => assert_eq!(b, b"FAIL0010connect: refused"),
        other => panic!("unexpected {other:?}"),
    }
    match answered(false, None) {
        OpenedAction::Refuse(b) => assert_eq!(b, b"FAIL000bopen failed"),
        other => panic!("unexpected {other:?}"),
    }
    match private_opened(OpenWait::Late) {
        OpenedAction::Fail(f) => assert_eq!(f.kind, IoKind::TimedOut),
        other => panic!("unexpected {other:?}"),
    }
    match private_opened(OpenWait::Dropped) {
        OpenedAction::Fail(f) => assert_eq!(f.message, "open waiter dropped"),
        other => panic!("unexpected {other:?}"),
    }
    assert!(matches!(bridge_client(1, Ok(Vec::new())), BridgeAction::Stop));
    assert!(matches!(
        bridge_client(1, Ok(vec![9])),
        BridgeAction::Send(IpcMessage::StreamData { stream_id: 1, .. })
    ));
    assert!(matches!(
        bridge_client(1, Err(fault(IoKind::BrokenPipe, "x"))),
        BridgeAction::Stop
    ));
    assert!(matches!(
        bridge_client(1, Err(fault(IoKind::Other, "x"))),
        BridgeAction::Fail(_)
    ));
}

#[test]
fn services_follow_the_hub_configuration() {
    let mut hub = HubConfig::local_only();
    hub.upsert_backend(backend("office", 1, None));
    let mut c = ServiceConfig::from_hub(hub, true);
    assert_eq!(c.control_abstract, "adb-hubd");
    assert_eq!(c.listen.to_string(), "127.0.0.1:5037");
    c.listen = addr(6037);
    c.adb_version = 99;
    let classic = c.classic_hub();
    assert_eq!(classic.listen, addr(6037));
    assert_eq!(classic.adb_version, 99);
    assert_eq!(classic.backends.len(), 1);
    let a = c.agent_config("/default.toml");
    assert_eq!(a.config_path, "/default.toml");
    assert_eq!(a.inline_backends.unwrap().backends.len(), 1);
    let d = c.daemon_config();
    assert_eq!(d.listen, addr(6037));
    assert_eq!(d.adb_version, 99);
    let other = ServiceConfig::from_hub(HubConfig::local_only(), false);
    assert_eq!(other.control_abstract, "");
}

fn outcome(a: ServiceAction) -> (bool, bool, Result<(), String>) {
    match a {
        ServiceAction::Finish {
            stop_agent,
            stop_daemon,
            outcome,
        } => (
            stop_agent,
            stop_daemon,
            outcome.map_err(|e| e.to_string()),
        ),
        other => panic!("unexpected {other:?}"),
    }
}

#[test]
fn services_end_with_their_tasks() {
    let io = |m: &str| -> IoFault { fault(IoKind::Other, m) };
    assert_eq!(
        outcome(run_shared_service(ServiceEvent::Shutdown)),
        (true, true, Ok(()))
    );
    assert_eq!(
        outcome(run_shared_service(ServiceEvent::AgentEnded(TaskEnd::Clean))),
        (false, true, Ok(()))
    );
    assert_eq!(
        outcome(run_shared_service(ServiceEvent::AgentEnded(TaskEnd::Error(
            AgentError::Io(io("x"))
        )))),
        (false, true, Err("io error: x".into()))
    );
    assert_eq!(
        outcome(run_shared_service(ServiceEvent::DaemonEnded(
            TaskEnd::Clean
        ))),
        (true, false, Ok(()))
    );
    assert_eq!(
        outcome(run_shared_service(ServiceEvent::DaemonEnded(
            TaskEnd::Crashed("panic".into())
        ))),
        (true, false, Err("io error: panic".into()))
    );
    let bind = |kind: IoKind| {
        ServiceEvent::DaemonEnded(TaskEnd::Error(DaemonError::Bind {
            addr: addr(5037),
            source: fault(kind, "bind"),
        }))
    };
    assert!(matches!(
        run_shared_service(bind(IoKind::AddrInUse)),
        ServiceAction::GoOnWithAgent
    ));
    let (agent, daemon, r) = outcome(run_shared_service(bind(IoKind::PermissionDenied)));
    assert!(agent && !daemon && r.is_err());
    assert!(run_agent_only(None).0);
    let (stop, r) = run_agent_only(Some(TaskEnd::Crashed("panic".into())));
    assert!(!stop && r.is_err());
}

#[test]
fn the_first_service_starts_the_daemon() {
    assert!(starts_daemon(Ok(())).unwrap());
    assert!(!starts_daemon(Err(fault(IoKind::AddrInUse, "x"))).unwrap());
    let err = starts_daemon(Err(fault(IoKind::PermissionDenied, "x"))).unwrap_err();
    assert_eq!(err.to_string(), "io error: x");
    let e = ServiceError::Hub(HubError::Io(fault(IoKind::Other, "y")));
    assert_eq!(e.to_string(), "io error: y");
}
