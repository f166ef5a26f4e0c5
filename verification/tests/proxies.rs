use adb_proxy::addr::SocketAddr;
use adb_proxy::auth::{auth_service, read_auth_reply};
use adb_proxy::backend::{
    continue_query, fetch_server_version, filter_compatible_backends, finish_query, judge_backend,
    open_transport, polled_lists, start_query, transport_service, QueryAction, Timed,
};
use adb_proxy::config::{BackendConfig, HubConfig};
use adb_proxy::fault::{fault, IoFault, IoKind};
use adb_proxy::hub::{default_backend, poll_backends, shared_backend, HubError};
use adb_proxy::local::{
    find_adb, start_args, which_candidates, LocalAdb, PrepareAction, ReadyAction,
};
use adb_proxy::policy::DevicePolicyTable;
use adb_proxy::protocol::{
    read_okay_payload, read_packet, read_status, write_okay_payload, write_packet, write_service,
    ByteReader,
};
use adb_proxy::proxy::{
    authenticate, choose_service, connection_stats, finish_pipe, is_expected_disconnect,
    open_upstream, relay_list, relay_next_list, relay_track_reason, relay_track_status, send_failed,
    Attempt, Awaiting, ProxyEnd, ProxyStep, WaitAction,
};
use adb_proxy::registry::DeviceRegistry;
use adb_proxy::session::{handle_client, ClientAction};
use adb_proxy::{wait_for_port, ProxyConfig, ProxyError, VERSION};

fn addr(ip: [u8; 4], port: u16) -> SocketAddr {
    SocketAddr::V4 { ip, port }
}

fn backend(name: &str, port: u16, code: Option<&str>) -> BackendConfig {
    BackendConfig {
        name: name.into(),
        addr: addr([127, 0, 0, 1], port),
        pair_code: code.map(str::to_string),
        enabled: true,
    }
}

fn packet(payload: &[u8]) -> Result<Vec<u8>, IoFault> {
    let mut b = Vec::new();
    write_packet(&mut b, payload);
    read_packet(&mut ByteReader::new(&b))
}

fn broken(kind: IoKind) -> IoFault {
    fault(kind, "broken")
}

/// Serves one client up to the answer to its service. `upstream` answers
/// device lists.
fn serve(
    first: &str,
    service: &str,
    table: &DevicePolicyTable,
    upstream: &[u8],
) -> (Vec<u8>, Awaiting) {
    let step = authenticate(packet(first.as_bytes()), "ABCD1234");
    let mut out = step.to_client;
    assert!(step.to_upstream.is_empty());
    if !matches!(step.then_await, Awaiting::Service) {
        return (out, step.then_await);
    }
    let step = choose_service(packet(service.as_bytes()), table, VERSION);
    out.extend(step.to_client);
    let Awaiting::Upstream { service } = step.then_await else {
        return (out, step.then_await);
    };
    let step = open_upstream(&service, Ok(()));
    let sent = read_packet(&mut ByteReader::new(&step.to_upstream)).unwrap();
    assert_eq!(sent, service.as_bytes());
    let Awaiting::List = step.then_await else {
        return (out, step.then_await);
    };
    let mut answer = Vec::new();
    write_okay_payload(&mut answer, upstream);
    let body = read_okay_payload(&mut ByteReader::new(&answer));
    let step = relay_list(body, table);
    out.extend(step.to_client);
    (out, step.then_await)
}

fn served(a: &Awaiting) -> bool {
    matches!(
        a,
        Awaiting::End(ProxyEnd::Served {
            client_to_server: 0,
            server_to_client: 0
        })
    )
}

#[test]
fn forwards_bytes_after_auth() {
    let table = DevicePolicyTable::default();
    let (out, end) = serve(
        &auth_service("ABCD1234"),
        "host:devices",
        &table,
        b"ABC\tdevice\n",
    );
    let mut r = ByteReader::new(&out);
    assert!(read_auth_reply(&mut r).is_ok());
    assert_eq!(read_okay_payload(&mut r).unwrap(), b"ABC\tdevice\n");
    assert!(served(&end));
}

#[test]
fn filters_disabled_device_from_list_and_transport() {
    let mut table = DevicePolicyTable::default();
    table.set_enabled("DROP", false);
    let auth = auth_service("ABCD1234");
    let (out, _) = serve(
        &auth,
        "host:devices",
        &table,
        b"KEEP\tdevice\nDROP\tdevice\n",
    );
    let mut r = ByteReader::new(&out);
    assert!(read_auth_reply(&mut r).is_ok());
    let body = read_okay_payload(&mut r).unwrap();
    let text = String::from_utf8_lossy(&body);
    assert!(text.contains("KEEP\tdevice"), "got: {text}");
    assert!(!text.contains("DROP"), "got: {text}");

    let (out, end) = serve(&auth, "host:transport:DROP", &table, b"should-not-reach");
    let mut r = ByteReader::new(&out);
    assert!(read_auth_reply(&mut r).is_ok());
    assert_eq!(&read_status(&mut r).unwrap(), b"FAIL");
    let reason = read_packet(&mut r).unwrap();
    assert!(String::from_utf8_lossy(&reason).contains("disabled"));
    assert!(served(&end));

    let (_, end) = serve(&auth, "host:transport:KEEP", &table, b"");
    assert!(matches!(end, Awaiting::Pipe));
}

#[test]
fn rejects_missing_auth() {
    let table = DevicePolicyTable::default();
    let (out, end) = serve("host:devices", "host:devices", &table, b"");
    let mut r = ByteReader::new(&out);
    assert_eq!(&read_status(&mut r).unwrap(), b"FAIL");
    let reason = read_packet(&mut r).unwrap();
    assert!(String::from_utf8_lossy(&reason).contains("auth"));
    assert!(matches!(end, Awaiting::End(ProxyEnd::Rejected)));
}

#[test]
fn rejects_wrong_pair_code() {
    let table = DevicePolicyTable::default();
    let (out, end) = serve(&auth_service("ZZZZ9999"), "host:devices", &table, b"");
    let mut r = ByteReader::new(&out);
    assert_eq!(&read_status(&mut r).unwrap(), b"FAIL");
    let reason = read_packet(&mut r).unwrap();
    assert_eq!(reason, b"unauthorized");
    assert!(matches!(end, Awaiting::End(ProxyEnd::Rejected)));
}

#[test]
fn proxy_config_accepts_socket_addresses() {
    let listen = addr([127, 0, 0, 1], 5038);
    let target = addr([127, 0, 0, 1], 5037);

    let config = ProxyConfig {
        listen: listen.clone(),
        target: target.clone(),
        pair_code: "ABCD1234".into(),
        policy_path: "/tmp/adb-proxy-test.toml".into(),
    };

    assert_eq!(config.listen, listen);
    assert_eq!(config.target, target);
    assert_eq!(config.pair_code, "ABCD1234");
}

#[test]
fn versions_are_answered_after_authentication() {
    let table = DevicePolicyTable::default();
    let (out, end) = serve(&auth_service("ABCD1234"), "proxy:version", &table, b"");
    let mut r = ByteReader::new(&out);
    assert!(read_auth_reply(&mut r).is_ok());
    assert_eq!(read_okay_payload(&mut r).unwrap(), VERSION.as_bytes());
    assert!(served(&end));
}

fn failed(step: &ProxyStep) -> bool {
    matches!(&step.then_await, Awaiting::End(ProxyEnd::Failed(_)))
}

#[test]
fn broken_clients_end_the_connection() {
    let step = authenticate(Err(broken(IoKind::UnexpectedEof)), "ABCD1234");
    assert_eq!(step.to_client, b"FAIL000cmissing auth");
    assert!(matches!(
        step.then_await,
        Awaiting::End(ProxyEnd::Rejected)
    ));
    assert!(failed(&authenticate(
        Err(broken(IoKind::ConnectionReset)),
        "ABCD1234"
    )));
    let table = DevicePolicyTable::default();
    let step = choose_service(Err(broken(IoKind::UnexpectedEof)), &table, VERSION);
    assert!(step.to_client.is_empty() && served(&step.then_await));
    assert!(failed(&choose_service(
        Err(broken(IoKind::InvalidData)),
        &table,
        VERSION
    )));
    assert!(failed(&open_upstream(
        "host:features",
        Err(broken(IoKind::ConnectionRefused))
    )));
    assert!(failed(&relay_list(Err(broken(IoKind::Other)), &table)));
}

#[test]
fn tracking_is_filtered_too() {
    let mut table = DevicePolicyTable::default();
    table.set_enabled("DROP", false);
    let step = open_upstream("host:track-devices-l", Ok(()));
    assert!(matches!(step.then_await, Awaiting::TrackStatus));

    let step = relay_track_status(Ok(*b"OKAY"));
    assert_eq!(step.to_client, b"OKAY");
    assert!(matches!(step.then_await, Awaiting::NextList { told: false }));
    assert!(matches!(
        send_failed(&step.then_await, broken(IoKind::BrokenPipe)),
        ProxyEnd::Failed(_)
    ));
    let step = relay_next_list(Ok(b"DROP\tdevice\nKEEP\tdevice\n".to_vec()), &table);
    assert_eq!(step.to_client, b"000cKEEP\tdevice\n");
    assert!(matches!(step.then_await, Awaiting::NextList { told: true }));
    assert!(matches!(
        send_failed(&step.then_await, broken(IoKind::BrokenPipe)),
        ProxyEnd::Served { .. }
    ));
    assert!(matches!(
        send_failed(&step.then_await, broken(IoKind::TimedOut)),
        ProxyEnd::Failed(_)
    ));
    let step = relay_next_list(Err(broken(IoKind::UnexpectedEof)), &table);
    assert!(served(&step.then_await));
    assert!(failed(&relay_next_list(
        Err(broken(IoKind::InvalidData)),
        &table
    )));

    let step = relay_track_status(Ok(*b"FAIL"));
    assert_eq!(step.to_client, b"FAIL");
    assert!(matches!(step.then_await, Awaiting::TrackReason));
    let step = relay_track_reason(Ok(b"no".to_vec()));
    assert_eq!(step.to_client, b"0002no");
    let step = relay_track_reason(Err(broken(IoKind::UnexpectedEof)));
    assert_eq!(step.to_client, b"0000");
    let step = relay_track_status(Ok(*b"WHAT"));
    assert_eq!(step.to_client, b"WHAT");
    assert!(served(&step.then_await));
    assert!(failed(&relay_track_status(Err(broken(IoKind::Other)))));
}

#[test]
fn finished_connections_are_counted() {
    let client = addr([10, 0, 0, 1], 40000);
    let target = addr([127, 0, 0, 1], 5037);
    let end = finish_pipe(Ok((3, 4)));
    let stats = connection_stats(end, &client, &target, 12).unwrap().unwrap();
    assert_eq!(stats.bytes_client_to_server, 3);
    assert_eq!(stats.bytes_server_to_client, 4);
    assert_eq!(stats.duration_ms, 12);
    assert_eq!(stats.client_addr, client);
    assert_eq!(stats.target_addr, target);
    assert!(connection_stats(ProxyEnd::Rejected, &client, &target, 0)
        .unwrap()
        .is_none());
    let end = finish_pipe(Err(broken(IoKind::ConnectionReset)));
    let err = connection_stats(end, &client, &target, 0).unwrap_err();
    assert!(is_expected_disconnect(&err));
    assert_eq!(err.to_string(), "io error: broken");
}

#[test]
fn ports_are_waited_for() {
    let at = addr([127, 0, 0, 1], 5038);
    assert!(matches!(
        wait_for_port(&at, Attempt::Connected, 9999, 10),
        WaitAction::Ready
    ));
    assert!(matches!(
        wait_for_port(&at, Attempt::Failed(broken(IoKind::Other)), 9, 10),
        WaitAction::Retry
    ));
    assert!(matches!(
        wait_for_port(&at, Attempt::TimedOut, 9, 10),
        WaitAction::Retry
    ));
    assert!(matches!(
        wait_for_port(&at, Attempt::Failed(broken(IoKind::Other)), 10, 10),
        WaitAction::GiveUp(ProxyError::Io(_))
    ));
    match wait_for_port(&at, Attempt::TimedOut, 2000, 2000) {
        WaitAction::GiveUp(e) => {
            assert_eq!(
                e.to_string(),
                "port 127.0.0.1:5038 did not become ready within 2s"
            );
            assert!(!is_expected_disconnect(&e));
        }
        other => panic!("unexpected {other:?}"),
    }
}

#[test]
fn queries_authenticate_first() {
    let code = Some("ABCD1234".to_string());
    match start_query(Timed::Ended(Ok(())), &code, "host:devices-l") {
        QueryAction::Authenticate(b) => assert_eq!(b, b"000dauth:ABCD1234"),
        other => panic!("unexpected {other:?}"),
    }
    match start_query(Timed::Ended(Ok(())), &None, "host:devices-l") {
        QueryAction::Ask(b) => assert_eq!(b, b"000ehost:devices-l"),
        other => panic!("unexpected {other:?}"),
    }
    match continue_query(Ok(()), "host:devices-l") {
        QueryAction::Ask(b) => assert_eq!(b, b"000ehost:devices-l"),
        other => panic!("unexpected {other:?}"),
    }
    let fails = |a: QueryAction| match a {
        QueryAction::Fail(f) => f.message,
        other => panic!("unexpected {other:?}"),
    };
    assert_eq!(fails(start_query(Timed::Late, &None, "x")), "connect timeout");
    assert_eq!(
        fails(start_query(Timed::Ended(Err(broken(IoKind::Other))), &None, "x")),
        "broken"
    );
    assert_eq!(fails(continue_query(Err(broken(IoKind::Other)), "x")), "broken");
    assert_eq!(
        finish_query(Timed::Ended(Ok(b"A\xff".to_vec()))).unwrap(),
        "A\u{fffd}"
    );
    assert_eq!(finish_query(Timed::Late).unwrap_err().message, "read timeout");
    assert!(finish_query(Timed::Ended(Err(broken(IoKind::Other)))).is_err());
}

#[test]
fn hub_auths_to_paired_backend() {
    let paired = backend("paired", 40000, Some("ABCD1234"));
    let QueryAction::Authenticate(sent) =
        start_query(Timed::Ended(Ok(())), &paired.pair_code, "host:devices-l")
    else {
        panic!("the pair code must be sent first");
    };
    let step = authenticate(read_packet(&mut ByteReader::new(&sent)), "ABCD1234");
    let verdict = read_auth_reply(&mut ByteReader::new(&step.to_client));
    let QueryAction::Ask(_) = continue_query(verdict, "host:devices-l") else {
        panic!("the code must be accepted");
    };
    let body = finish_query(Timed::Ended(Ok(b"PAIRED1\tdevice\n".to_vec())));
    let lists = polled_lists(&vec![paired.clone()], vec![body]);
    let mut reg = DeviceRegistry::new();
    reg.update_from_backend_lists(&lists);
    let a = handle_client(
        Ok(b"host:devices".to_vec()),
        &reg.snapshot(),
        &paired.addr,
        &paired.pair_code,
    );
    let ClientAction::Reply(b) = a else {
        panic!("devices are answered by the hub");
    };
    let text = String::from_utf8_lossy(&b);
    assert!(text.contains("PAIRED1\tdevice"), "got: {text}");
}

#[test]
fn unreachable_backends_lose_their_devices() {
    let two = vec![backend("a", 1, None), backend("b", 2, None)];
    let lists = polled_lists(
        &two,
        vec![
            Err(broken(IoKind::ConnectionRefused)),
            Ok("X\tdevice\n".into()),
        ],
    );
    assert_eq!(lists[0].1, "");
    assert_eq!(lists[1].1, "X\tdevice\n");
    assert_eq!(lists[1].0, two[1]);
}

#[test]
fn transports_are_opened_or_refused() {
    assert_eq!(transport_service("ABC"), "host:transport:ABC");
    assert!(open_transport(&mut ByteReader::new(b"OKAY")).is_ok());
    let err = open_transport(&mut ByteReader::new(b"FAIL0002no")).unwrap_err();
    assert_eq!((err.kind, err.message.as_str()), (IoKind::Other, "no"));
    let err = open_transport(&mut ByteReader::new(b"HUH?")).unwrap_err();
    assert_eq!(err.message, "unexpected transport status: \"HUH?\"");
    let err = open_transport(&mut ByteReader::new(b"OK")).unwrap_err();
    assert_eq!(err.kind, IoKind::UnexpectedEof);
}

#[test]
fn server_versions_are_hexadecimal() {
    assert_eq!(fetch_server_version("0029").unwrap(), 41);
    assert_eq!(fetch_server_version(" 28\n").unwrap(), 40);
    assert_eq!(
        fetch_server_version("zz").unwrap_err().message,
        "invalid server version: zz"
    );
    assert!(fetch_server_version("00029").is_err());
}

#[test]
fn old_backends_are_left_out() {
    let all = vec![
        backend("new", 1, None),
        backend("old", 2, None),
        backend("mute", 3, None),
    ];
    let verdicts = vec![
        judge_backend(Ok("0.5.0".into())),
        judge_backend(Ok("0.4.3".into())),
        judge_backend(Err(broken(IoKind::TimedOut))),
    ];
    assert!(verdicts[2]
        .user_message("mute", "127.0.0.1:3")
        .contains("did not report a version (broken)"));
    let kept = filter_compatible_backends(&all, &verdicts);
    assert_eq!(kept.len(), 1);
    assert_eq!(kept[0].name, "new");
}

#[test]
fn hubs_poll_the_local_server_first() {
    let mut cfg = HubConfig::local_only();
    cfg.upsert_backend(backend("office", 1, Some("ABCD1234")));
    cfg.upsert_backend(backend("off", 2, None));
    cfg.set_backend_enabled("off", false).unwrap();
    let local = LocalAdb {
        addr: addr([127, 0, 0, 1], 5039),
        adb_path: "/usr/bin/adb".into(),
        started_by_us: false,
    };
    let with = poll_backends(&cfg, Some(&local));
    assert_eq!(with.len(), 2);
    assert_eq!(with[0].name, "local");
    assert_eq!(with[0], shared_backend(&local));
    assert_eq!(with[1].name, "office");
    let (at, code) = default_backend(&with).unwrap();
    assert_eq!(at.to_string(), "127.0.0.1:5039");
    assert_eq!(code, None);
    let without = poll_backends(&cfg, None);
    let (at, code) = default_backend(&without).unwrap();
    assert_eq!(at.to_string(), "127.0.0.1:1");
    assert_eq!(code.as_deref(), Some("ABCD1234"));
    assert!(default_backend(&Vec::new()).is_none());
    let e = HubError::Bind {
        addr: addr([127, 0, 0, 1], 5037),
        source: fault(IoKind::AddrInUse, "in use"),
    };
    assert_eq!(
        e.to_string(),
        "failed to bind 127.0.0.1:5037: in use. If a local adb server is running, stop it first \
         with `adb kill-server`"
    );
    assert_eq!(
        HubError::Io(broken(IoKind::Other)).to_string(),
        "io error: broken"
    );
}

#[test]
fn local_servers_are_adopted_or_started() {
    assert_eq!(LocalAdb::backend_name(), "local");
    match LocalAdb::prepare(5039, "/adb", true) {
        PrepareAction::Adopt(l) => {
            assert_eq!(l.addr.to_string(), "127.0.0.1:5039");
            assert!(l.stop_args().is_none());
        }
        other => panic!("unexpected {other:?}"),
    }
    match LocalAdb::prepare(5039, "/adb", false) {
        PrepareAction::Start(args) => assert_eq!(args, ["-P", "5039", "start-server"]),
        other => panic!("unexpected {other:?}"),
    }
    assert_eq!(start_args(1), ["-P", "1", "start-server"]);
    assert!(LocalAdb::started(5039, Ok((true, "exit status: 0".into()))).is_ok());
    let err = LocalAdb::started(5039, Ok((false, "exit status: 1".into()))).unwrap_err();
    assert_eq!(
        err.message,
        "adb -P 5039 start-server failed with exit status: 1"
    );
    assert!(LocalAdb::started(5039, Err(broken(IoKind::NotFound))).is_err());
    match LocalAdb::wait_until_ready(5039, "/adb", true, 0, 5000) {
        ReadyAction::Use(l) => {
            assert_eq!(l.stop_args().unwrap(), ["-P", "5039", "kill-server"]);
            assert_eq!(l.adb_path, "/adb");
        }
        other => panic!("unexpected {other:?}"),
    }
    assert!(matches!(
        LocalAdb::wait_until_ready(5039, "/adb", false, 4999, 5000),
        ReadyAction::Retry
    ));
    match LocalAdb::wait_until_ready(5039, "/adb", false, 5000, 5000) {
        ReadyAction::GiveUp(f) => {
            assert_eq!(f.kind, IoKind::TimedOut);
            assert_eq!(
                f.message,
                "local adb server at 127.0.0.1:5039 did not become ready"
            );
        }
        other => panic!("unexpected {other:?}"),
    }
}

#[test]
fn adb_is_searched_for() {
    let dirs = vec!["/bin".to_string(), "/opt/".to_string()];
    assert_eq!(which_candidates(&dirs, "adb", false), ["/bin/adb", "/opt/adb"]);
    assert_eq!(
        which_candidates(&dirs, "adb", true),
        ["/bin/adb", "/bin/adb.exe", "/opt/adb", "/opt/adb.exe"]
    );
    let found = find_adb(None, &dirs, false, |p| p == "/opt/adb").unwrap();
    assert_eq!(found, "/opt/adb");
    let found = find_adb(Some("/my/adb"), &dirs, false, |_| true).unwrap();
    assert_eq!(found, "/my/adb");
    let found = find_adb(Some("/my/adb"), &dirs, false, |p| p == "/bin/adb").unwrap();
    assert_eq!(found, "/bin/adb");
    let err = find_adb(Some("/my/adb"), &dirs, true, |_| false).unwrap_err();
    assert_eq!(err.kind, IoKind::NotFound);
    assert_eq!(err.message, "adb not found in PATH (set ADB=/path/to/adb)");
}

#[test]
fn services_are_written_as_packets() {
    let mut b = Vec::new();
    write_service(&mut b, "host:devices");
    assert_eq!(b, b"000chost:devices");
}
