use adb_proxy::addr::SocketAddr;
use adb_proxy::config::BackendConfig;
use adb_proxy::fault::{fault, IoKind};
use adb_proxy::policy::DevicePolicyTable;
use adb_proxy::registry::{
    merge_device_lists, parse_device_line, DeviceEntry, DeviceRegistry, DeviceSnapshot,
};
use adb_proxy::session::{
    choose_target, continue_forward, finish_session, handle_client, lookup_device, lookup_online,
    pick_one_on_backend, pick_preferred, route_service, start_forward, track_failed, track_opening,
    track_own_view, track_update, ClientAction, ForwardAction, PickBackendErr, Target, TrackEvent,
    TrackStep,
};
use adb_proxy::tenant::TenantRegistry;

fn addr(s: &str) -> SocketAddr {
    let (ip, port) = s.split_once(':').unwrap();
    let mut octets = [0u8; 4];
    for (i, p) in ip.split('.').enumerate() {
        octets[i] = p.parse().unwrap();
    }
    SocketAddr::V4 {
        ip: octets,
        port: port.parse().unwrap(),
    }
}

fn backend(name: &str, at: &str) -> BackendConfig {
    BackendConfig {
        name: name.into(),
        addr: addr(at),
        pair_code: None,
        enabled: true,
    }
}

fn entry(public: &str, upstream: &str, state: &str, name: &str, at: &str) -> DeviceEntry {
    DeviceEntry {
        public_serial: public.into(),
        upstream_serial: upstream.into(),
        state: state.into(),
        extras: String::new(),
        backend_name: name.into(),
        backend_addr: addr(at),
        pair_code: None,
        route_id: None,
    }
}

#[test]
fn merge_unique_serials() {
    let lists = vec![
        (backend("a", "1.1.1.1:5038"), "ABC\tdevice\n".to_string()),
        (
            backend("b", "2.2.2.2:5038"),
            "DEF\tdevice usb:1\n".to_string(),
        ),
    ];
    let snap = merge_device_lists(&lists);
    assert_eq!(snap.devices.len(), 2);
    assert_eq!(snap.devices[0].public_serial, "ABC");
    assert_eq!(snap.devices[1].public_serial, "DEF");
    assert_eq!(snap.devices[1].extras, "usb:1");
}

#[test]
fn merge_rewrites_conflicts() {
    let lists = vec![
        (
            backend("office", "1.1.1.1:5038"),
            "SAME\tdevice\n".to_string(),
        ),
        (
            backend("lab", "2.2.2.2:5038"),
            "SAME\toffline\n".to_string(),
        ),
    ];
    let snap = merge_device_lists(&lists);
    assert_eq!(snap.devices[0].public_serial, "office:SAME");
    assert_eq!(snap.devices[1].public_serial, "lab:SAME");
    assert_eq!(snap.devices[0].upstream_serial, "SAME");
}

#[test]
fn format_short_and_long() {
    let snap = DeviceSnapshot {
        devices: vec![DeviceEntry {
            public_serial: "X".into(),
            upstream_serial: "X".into(),
            state: "device".into(),
            extras: "product:foo".into(),
            backend_name: "a".into(),
            backend_addr: addr("1.1.1.1:1"),
            pair_code: None,
            route_id: None,
        }],
    };
    assert_eq!(snap.format_devices(false), "X\tdevice\n");
    assert_eq!(snap.format_devices(true), "X\tdevice product:foo\n");
}

#[test]
fn repeated_conflicts_are_numbered() {
    let lists = vec![(
        backend("office", "1.1.1.1:5038"),
        "SAME\tdevice\nSAME\toffline\n".to_string(),
    )];
    let snap = merge_device_lists(&lists);
    assert_eq!(snap.devices[0].public_serial, "office:SAME");
    assert_eq!(snap.devices[1].public_serial, "office:SAME:1");
    assert_eq!(snap.online_count(), 1);
    assert_eq!(snap.find("office:SAME:1").unwrap().state, "offline");
    assert!(snap.find("SAME").is_none());
}

#[test]
fn numbered_serials_stay_unique() {
    let lists = vec![(
        backend("n", "1.1.1.1:1"),
        "n:S:2\tdevice\nS\tdevice\nS\tdevice\n".to_string(),
    )];
    let snap = merge_device_lists(&lists);
    assert_eq!(snap.devices[0].public_serial, "n:S:2");
    assert_eq!(snap.devices[1].public_serial, "n:S");
    assert_eq!(snap.devices[2].public_serial, "n:S:3");
    assert_eq!(snap.devices[2].upstream_serial, "S");
}

#[test]
fn serials_in_use_are_not_given_again() {
    let lists = vec![
        (backend("a", "1.1.1.1:1"), "S\tdevice\n".to_string()),
        (backend("b", "2.2.2.2:2"), "S\tdevice\na:S\tdevice\n".to_string()),
        (backend("a:b", "3.3.3.3:3"), "T\tdevice\n".to_string()),
        (backend("a", "1.1.1.1:1"), "b:T\tdevice\nb:T\tdevice\nT\tdevice\n".to_string()),
    ];
    let snap = merge_device_lists(&lists);
    let shown: Vec<&str> = snap.devices.iter().map(|d| d.public_serial.as_str()).collect();
    assert_eq!(
        shown,
        ["a:S", "b:S", "b:a:S:2", "a:b:T", "a:b:T:4", "a:b:T:5", "a:T"]
    );
    assert!(snap.told_apart().same(&snap));
}

#[test]
fn device_lines_are_parsed() {
    let of = |line: &str| parse_device_line(line);
    assert_eq!(
        of("  ABC \t device  product:x   model:y \r"),
        Some(("ABC".into(), "device".into(), "product:x model:y".into()))
    );
    assert_eq!(of("ABC\tdevice"), Some(("ABC".into(), "device".into(), "".into())));
    assert_eq!(of("* daemon started successfully"), None);
    assert_eq!(of("List of devices attached"), None);
    assert_eq!(of("ABC"), None);
    assert_eq!(of(" \t "), None);
}

#[test]
fn listed_devices_are_parsed_back() {
    let mut d = entry("office:ABC", "ABC", "device", "office", "1.1.1.1:1");
    d.extras = "product:x model:y".into();
    let snap = DeviceSnapshot { devices: vec![d] };
    let text = snap.format_devices(true);
    assert_eq!(
        parse_device_line(text.trim_end_matches('\n')),
        Some((
            "office:ABC".into(),
            "device".into(),
            "product:x model:y".into()
        ))
    );
}

#[test]
fn white_space_is_what_std_says() {
    for c in '\0'..=char::MAX {
        assert_eq!(adb_proxy::text::white_space(c), c.is_whitespace());
    }
}

#[test]
fn texts_are_cut_like_std_cuts_them() {
    for s in [
        "",
        "a",
        "\n",
        "a\n",
        "a\r\nb\r\r\nc\r",
        " a  b\t\u{3000}c \n d",
        "x=y=z",
        "..a.",
        "\r\n\r\n",
        "é = ü ",
    ] {
        let lines: Vec<&str> = s.lines().collect();
        assert_eq!(adb_proxy::text::lines(s), lines);
        let words: Vec<&str> = s.split_whitespace().collect();
        assert_eq!(adb_proxy::text::split_whitespace(s), words);
        let parts: Vec<&str> = s.split('.').collect();
        assert_eq!(adb_proxy::text::split(s, '.'), parts);
        assert_eq!(adb_proxy::text::trim(s), s.trim());
        assert_eq!(adb_proxy::text::split_once(s, '='), s.split_once('='));
        assert_eq!(adb_proxy::text::strip_prefix(s, "a"), s.strip_prefix("a"));
    }
}

#[test]
fn registry_tells_of_changes() {
    let mut reg = DeviceRegistry::new();
    let lists = vec![(backend("a", "1.1.1.1:1"), "X\tdevice\n".to_string())];
    assert!(reg.update_from_backend_lists(&lists));
    assert!(!reg.update_from_backend_lists(&lists));
    assert_eq!(reg.snapshot().devices[0].public_serial, "X");
    let gone = vec![(backend("a", "1.1.1.1:1"), String::new())];
    assert!(reg.update_from_backend_lists(&gone));
    assert!(reg.snapshot().devices.is_empty());
}

#[test]
fn policy_hides_devices_by_public_serial() {
    let snap = DeviceSnapshot {
        devices: vec![
            entry("A", "A", "device", "a", "1.1.1.1:1"),
            entry("B", "B", "device", "a", "1.1.1.1:1"),
        ],
    };
    let mut table = DevicePolicyTable::default();
    table.set_enabled("A", false);
    let seen = snap.filtered(&table);
    assert_eq!(seen.devices.len(), 1);
    assert_eq!(seen.devices[0].public_serial, "B");
}

fn snap_one() -> DeviceSnapshot {
    DeviceSnapshot {
        devices: vec![entry(
            "office:ABC",
            "ABC",
            "device",
            "office",
            "10.0.0.1:5038",
        )],
    }
}

#[test]
fn rewrites_transport_serial() {
    let default = addr("127.0.0.1:5039");
    let (addr, svc) = route_service("host:transport:office:ABC", &snap_one(), &default).unwrap();
    assert_eq!(addr.to_string(), "10.0.0.1:5038");
    assert_eq!(svc, "host:transport:ABC");
}

#[test]
fn rewrites_tport_serial() {
    let default = addr("127.0.0.1:5039");
    let (addr, svc) = route_service("host:tport:serial:office:ABC", &snap_one(), &default).unwrap();
    assert_eq!(addr.to_string(), "10.0.0.1:5038");
    assert_eq!(svc, "host:tport:serial:ABC");
}

#[test]
fn tport_any_becomes_serial() {
    let default = addr("127.0.0.1:5039");
    let (addr, svc) = route_service("host:tport:any", &snap_one(), &default).unwrap();
    assert_eq!(addr.to_string(), "10.0.0.1:5038");
    assert_eq!(svc, "host:tport:serial:ABC");
}

#[test]
fn tport_any_prefers_local_even_if_remotes_exist() {
    let snap = DeviceSnapshot {
        devices: vec![
            entry("LOCAL1", "LOCAL1", "device", "local", "127.0.0.1:5039"),
            entry("REMOTE1", "REMOTE1", "device", "office", "10.0.0.1:5038"),
        ],
    };
    let default = addr("127.0.0.1:5039");
    let (addr, svc) = route_service("host:tport:any", &snap, &default).unwrap();
    assert_eq!(addr.to_string(), "127.0.0.1:5039");
    assert_eq!(svc, "host:tport:serial:LOCAL1");
}

#[test]
fn tport_any_falls_back_to_first_remote_with_device() {
    let snap = DeviceSnapshot {
        devices: vec![
            entry("REMOTE1", "REMOTE1", "device", "office", "10.0.0.1:5038"),
            entry("REMOTE2", "REMOTE2", "device", "lab", "10.0.0.2:5038"),
        ],
    };
    let default = addr("127.0.0.1:5039");
    let (addr, svc) = route_service("host:transport-any", &snap, &default).unwrap();
    assert_eq!(addr.to_string(), "10.0.0.1:5038");
    assert_eq!(svc, "host:transport:REMOTE1");
}

#[test]
fn tport_any_errors_when_local_has_many() {
    let snap = DeviceSnapshot {
        devices: vec![
            entry("L1", "L1", "device", "local", "127.0.0.1:5039"),
            entry("L2", "L2", "device", "local", "127.0.0.1:5039"),
        ],
    };
    let default = addr("127.0.0.1:5039");
    let err = route_service("host:tport:any", &snap, &default).unwrap_err();
    assert!(err.contains("more than one"));
}

#[test]
fn features_goes_to_default() {
    let default = addr("127.0.0.1:5039");
    let (addr, svc) = route_service("host:features", &snap_one(), &default).unwrap();
    assert_eq!(addr, default);
    assert_eq!(svc, "host:features");
}

#[test]
fn refusals_name_the_device() {
    let default = addr("127.0.0.1:5039");
    let snap = DeviceSnapshot {
        devices: vec![entry("OFF", "OFF", "offline", "a", "1.1.1.1:1")],
    };
    let of = |service: &str| route_service(service, &snap, &default).unwrap_err();
    assert_eq!(of("host:transport:NONE"), "device 'NONE' not found");
    assert_eq!(
        of("host:tport:serial:OFF"),
        "device 'OFF' is not online (offline)"
    );
    assert_eq!(of("host:transport-usb"), "no devices/emulators found");
    assert_eq!(of("host-serial:OFF"), "invalid host-serial service");
    assert_eq!(of("host-serial:NONE:features"), "device 'NONE' not found");
    let (at, svc) = route_service("host-serial:OFF:get-state", &snap, &default).unwrap();
    assert_eq!(at.to_string(), "1.1.1.1:1");
    assert_eq!(svc, "host-serial:OFF:get-state");
    assert_eq!(lookup_device(&snap, "OFF").unwrap().state, "offline");
    assert!(lookup_online(&snap, "OFF").is_err());
}

#[test]
fn one_device_per_backend_is_picked() {
    let snap = DeviceSnapshot {
        devices: vec![
            entry("A", "A", "offline", "office", "10.0.0.1:1"),
            entry("B", "B", "device", "lab", "10.0.0.2:1"),
            entry("C", "C", "device", "office", "10.0.0.1:1"),
        ],
    };
    assert_eq!(
        pick_one_on_backend(&snap, "office").unwrap().public_serial,
        "C"
    );
    assert_eq!(
        pick_one_on_backend(&snap, "none").unwrap_err(),
        PickBackendErr::Nothing
    );
    assert_eq!(pick_preferred(&snap).unwrap().public_serial, "C");
}

fn reply(a: ClientAction) -> Vec<u8> {
    match a {
        ClientAction::Reply(b) => b,
        other => panic!("unexpected {other:?}"),
    }
}

#[test]
fn clients_are_answered_or_forwarded() {
    let default = addr("127.0.0.1:5039");
    let snap = snap_one();
    let ask = |service: &[u8]| handle_client(Ok(service.to_vec()), &snap, &default, &None);
    assert_eq!(reply(ask(b"host:devices")), b"OKAY0012office:ABC\tdevice\n");
    assert_eq!(
        reply(ask(b"host:devices-l")),
        b"OKAY0012office:ABC\tdevice\n"
    );
    assert_eq!(reply(ask(b"\xff")), b"FAIL0014invalid utf8 service");
    assert_eq!(
        reply(ask(b"host:transport:X")),
        b"FAIL0014device 'X' not found"
    );
    assert!(matches!(
        ask(b"host:track-devices"),
        ClientAction::Track { long: false }
    ));
    assert!(matches!(
        ask(b"host:track-devices-l"),
        ClientAction::Track { long: true }
    ));
    match ask(b"host:kill") {
        ClientAction::Stop(b) => assert_eq!(b, b"OKAY"),
        other => panic!("unexpected {other:?}"),
    }
    match ask(b"host:version") {
        ClientAction::Forward(t) => {
            assert_eq!(t.addr, default);
            assert_eq!(t.service, "host:version");
        }
        other => panic!("unexpected {other:?}"),
    }
    let eof = Err(fault(IoKind::UnexpectedEof, "early eof"));
    assert!(matches!(
        handle_client(eof, &snap, &default, &None),
        ClientAction::Close
    ));
    let lost = Err(fault(IoKind::ConnectionReset, "reset"));
    assert!(matches!(
        handle_client(lost, &snap, &default, &None),
        ClientAction::Fault(_)
    ));
}

#[test]
fn paired_backends_are_authenticated_before_the_service() {
    let mut snap = snap_one();
    snap.devices[0].pair_code = Some("ABCD1234".into());
    let default = addr("127.0.0.1:5039");
    let t = choose_target("host:transport:office:ABC", &snap, &default, &None).unwrap();
    assert_eq!(t.pair_code.as_deref(), Some("ABCD1234"));
    match start_forward(&t, Ok(())) {
        ForwardAction::Authenticate(b) => assert_eq!(b, b"000dauth:ABCD1234"),
        other => panic!("unexpected {other:?}"),
    }
    match continue_forward(&t, Ok(())) {
        ForwardAction::Join(b) => assert_eq!(b, b"0012host:transport:ABC"),
        other => panic!("unexpected {other:?}"),
    }
    let denied = Err(fault(IoKind::PermissionDenied, "unauthorized"));
    match continue_forward(&t, denied) {
        ForwardAction::Refuse(b) => assert_eq!(b, b"FAIL0023backend 10.0.0.1:5038: unauthorized"),
        other => panic!("unexpected {other:?}"),
    }
}

#[test]
fn unreachable_backends_are_reported() {
    let t = Target {
        addr: addr("10.0.0.1:5038"),
        pair_code: None,
        service: "host:features".into(),
    };
    let refused = Err(fault(IoKind::ConnectionRefused, "refused"));
    match start_forward(&t, refused) {
        ForwardAction::Refuse(b) => assert_eq!(b, b"FAIL001ebackend 10.0.0.1:5038: refused"),
        other => panic!("unexpected {other:?}"),
    }
    match start_forward(&t, Ok(())) {
        ForwardAction::Join(b) => assert_eq!(b, b"000dhost:features"),
        other => panic!("unexpected {other:?}"),
    }
    assert!(finish_session(Ok(())).is_ok());
    assert!(finish_session(Err(fault(IoKind::BrokenPipe, "x"))).is_ok());
    assert!(finish_session(Err(fault(IoKind::TimedOut, "x"))).is_err());
}

#[test]
fn tracking_sends_every_change() {
    let snap = snap_one();
    assert_eq!(
        track_opening(&snap, false),
        b"OKAY0012office:ABC\tdevice\n"
    );
    assert_eq!(
        track_update(TrackEvent::Changed, &snap, false).unwrap(),
        b"0012office:ABC\tdevice\n"
    );
    assert!(track_update(TrackEvent::Lagged, &snap, true).is_some());
    assert!(track_update(TrackEvent::Closed, &snap, true).is_none());
    let gone = || fault(IoKind::BrokenPipe, "gone");
    assert!(track_failed(TrackEvent::Changed, gone()).is_ok());
    assert!(track_failed(TrackEvent::Lagged, gone()).is_err());
}

#[test]
fn hub_lists_forwards_and_transports() {
    let mock = backend("mock", "127.0.0.1:40000");
    let mut reg = DeviceRegistry::new();
    reg.update_from_backend_lists(&[(mock.clone(), "SERIAL1\tdevice product:test\n".to_string())]);
    let snap = reg.snapshot();
    let ask = |s: &str| handle_client(Ok(s.as_bytes().to_vec()), &snap, &mock.addr, &None);
    for (service, upstream) in [
        ("host:version", "host:version"),
        ("host:features", "host:features"),
        ("host:transport:SERIAL1", "host:transport:SERIAL1"),
        ("host:tport:any", "host:tport:serial:SERIAL1"),
    ] {
        match ask(service) {
            ClientAction::Forward(t) => {
                assert_eq!(t.addr, mock.addr);
                assert_eq!(t.service, upstream);
                assert_eq!(t.pair_code, None);
            }
            other => panic!("unexpected {other:?}"),
        }
    }
    let text = String::from_utf8(reply(ask("host:devices"))).unwrap();
    assert!(text.contains("SERIAL1\tdevice"), "got: {text}");
}

#[test]
fn hub_rewrites_conflicting_serials() {
    let mut reg = DeviceRegistry::new();
    reg.update_from_backend_lists(&[
        (
            backend("office", "127.0.0.1:40001"),
            "SAME\tdevice\n".to_string(),
        ),
        (
            backend("lab", "127.0.0.1:40002"),
            "SAME\tdevice\n".to_string(),
        ),
    ]);
    let snap = reg.snapshot();
    let default = addr("127.0.0.1:40001");
    let a = handle_client(Ok(b"host:devices".to_vec()), &snap, &default, &None);
    let text = String::from_utf8(reply(a)).unwrap();
    assert!(text.contains("office:SAME\tdevice"), "got: {text}");
    assert!(text.contains("lab:SAME\tdevice"), "got: {text}");
    let (at, svc) = route_service("host:transport:lab:SAME", &snap, &default).unwrap();
    assert_eq!(at.to_string(), "127.0.0.1:40002");
    assert_eq!(svc, "host:transport:SAME");
}

fn shared_device(serial: &str) -> DeviceEntry {
    entry(serial, serial, "device", "local", "127.0.0.1:5039")
}

fn private_device(serial: &str, name: &str) -> DeviceEntry {
    DeviceEntry {
        route_id: Some(format!("route-{serial}")),
        ..entry(serial, serial, "device", name, "127.0.0.1:0")
    }
}

#[test]
fn shared_visible_to_all() {
    let mut reg = TenantRegistry::new();
    reg.update_shared(DeviceSnapshot {
        devices: vec![shared_device("USB1")],
    });

    let alice = reg.snapshot_for(1000);
    let bob = reg.snapshot_for(1001);
    assert_eq!(alice.devices.len(), 1);
    assert_eq!(bob.devices.len(), 1);
    assert_eq!(alice.devices[0].public_serial, "USB1");
}

#[test]
fn private_only_visible_to_owner() {
    let mut reg = TenantRegistry::new();
    reg.update_shared(DeviceSnapshot {
        devices: vec![shared_device("USB1")],
    });
    reg.update_agent_devices(
        1000,
        DeviceSnapshot {
            devices: vec![private_device("ALICE_DEV", "office")],
        },
    );

    let alice = reg.snapshot_for(1000);
    let bob = reg.snapshot_for(1001);

    assert_eq!(alice.devices.len(), 2);
    assert!(alice.find("ALICE_DEV").is_some());
    assert_eq!(bob.devices.len(), 1);
    assert!(bob.find("ALICE_DEV").is_none());
}

#[test]
fn agent_disconnect_removes_private() {
    let mut reg = TenantRegistry::new();
    reg.update_agent_devices(
        1000,
        DeviceSnapshot {
            devices: vec![private_device("PRIV1", "office")],
        },
    );
    assert_eq!(reg.snapshot_for(1000).devices.len(), 1);

    reg.remove_agent(1000);
    assert_eq!(reg.snapshot_for(1000).devices.len(), 0);
}

#[test]
fn users_isolated() {
    let mut reg = TenantRegistry::new();
    reg.update_agent_devices(
        1000,
        DeviceSnapshot {
            devices: vec![private_device("A1", "alice-office")],
        },
    );
    reg.update_agent_devices(
        1001,
        DeviceSnapshot {
            devices: vec![private_device("B1", "bob-lab")],
        },
    );

    let alice = reg.snapshot_for(1000);
    let bob = reg.snapshot_for(1001);

    assert!(alice.find("A1").is_some());
    assert!(alice.find("B1").is_none());
    assert!(bob.find("B1").is_some());
    assert!(bob.find("A1").is_none());
}

fn shown(reg: &TenantRegistry, uid: u32) -> Vec<String> {
    let snap = reg.snapshot_for(uid);
    snap.devices.into_iter().map(|d| d.public_serial).collect()
}

#[test]
fn conflicts_are_told_apart_in_each_view() {
    let mut reg = TenantRegistry::new();
    reg.update_shared(DeviceSnapshot {
        devices: vec![shared_device("SAME")],
    });
    reg.update_agent_devices(
        1000,
        DeviceSnapshot {
            devices: vec![private_device("SAME", "office")],
        },
    );
    assert_eq!(shown(&reg, 1000), ["local:SAME", "office:SAME"]);
    assert_eq!(shown(&reg, 1001), ["SAME"]);
    let alice = reg.snapshot_for(1000);
    let own = alice.find("office:SAME").unwrap();
    assert_eq!(own.upstream_serial, "SAME");
    assert_eq!(own.route_id.as_deref(), Some("route-SAME"));
    assert!(alice.find("SAME").is_none());
    reg.remove_agent(1000);
    assert_eq!(shown(&reg, 1000), ["SAME"]);
}

#[test]
fn repeated_devices_of_a_view_are_numbered() {
    let mut reg = TenantRegistry::new();
    reg.update_shared(DeviceSnapshot {
        devices: vec![shared_device("SAME"), shared_device("USB")],
    });
    reg.update_agent_devices(
        7,
        DeviceSnapshot {
            devices: vec![
                private_device("SAME", "local"),
                private_device("SAME", "lab"),
                private_device("office:X", "office"),
            ],
        },
    );
    assert_eq!(
        shown(&reg, 7),
        ["local:SAME", "USB", "local:SAME:2", "lab:SAME", "office:X"]
    );
}

#[test]
fn views_never_show_a_serial_twice() {
    let mut reg = TenantRegistry::new();
    reg.update_shared(DeviceSnapshot {
        devices: vec![shared_device("SAME"), shared_device("office:SAME")],
    });
    reg.update_agent_devices(
        1000,
        DeviceSnapshot {
            devices: vec![
                private_device("SAME", "office"),
                private_device("local:SAME", "office"),
                private_device("office:SAME:2", "lab"),
            ],
        },
    );
    assert_eq!(
        shown(&reg, 1000),
        ["local:SAME", "office:SAME", "office:SAME:2", "office:local:SAME:3", "lab:office:SAME:2:4"]
    );
    assert_eq!(shown(&reg, 1001), ["SAME", "office:SAME"]);
}

#[test]
fn trackers_are_told_only_of_other_lists() {
    let snap = snap_one();
    let sent = snap.format_devices(false);
    assert!(matches!(
        track_own_view(TrackEvent::Changed, &sent, &snap, false),
        TrackStep::Quiet
    ));
    assert!(matches!(
        track_own_view(TrackEvent::Lagged, &sent, &snap, false),
        TrackStep::Quiet
    ));
    assert!(matches!(
        track_own_view(TrackEvent::Closed, &sent, &snap, false),
        TrackStep::Over
    ));
    match track_own_view(TrackEvent::Changed, "", &snap, false) {
        TrackStep::Send { bytes, body } => {
            assert_eq!(bytes, b"0012office:ABC\tdevice\n");
            assert_eq!(body, sent);
        }
        other => panic!("unexpected {other:?}"),
    }
}

#[test]
fn host_serial_takes_the_longest_listed_serial() {
    let default = addr("127.0.0.1:5039");
    let of = |snap: &DeviceSnapshot, service: &str| {
        route_service(service, snap, &default).map(|(at, svc)| (at.to_string(), svc))
    };
    assert_eq!(
        of(&snap_one(), "host-serial:office:ABC:get-state"),
        Ok(("10.0.0.1:5038".into(), "host-serial:ABC:get-state".into()))
    );
    let snap = DeviceSnapshot {
        devices: vec![
            entry("10.0.0.9", "A", "device", "a", "1.1.1.1:1"),
            entry("10.0.0.9:5555", "B", "device", "b", "2.2.2.2:2"),
        ],
    };
    assert_eq!(
        of(&snap, "host-serial:10.0.0.9:5555:forward:tcp:1;tcp:2"),
        Ok(("2.2.2.2:2".into(), "host-serial:B:forward:tcp:1;tcp:2".into()))
    );
    assert_eq!(
        of(&snap, "host-serial:10.0.0.9:features"),
        Ok(("1.1.1.1:1".into(), "host-serial:A:features".into()))
    );
    assert_eq!(
        of(&snap, "host-serial:10.0.0.9:5555"),
        Ok(("1.1.1.1:1".into(), "host-serial:A:5555".into()))
    );
    assert_eq!(
        of(&snap, "host-serial:10.0.0.8:5555:features").unwrap_err(),
        "device '10.0.0.8' not found"
    );
}

#[test]
fn tenants_tell_of_changes() {
    let mut reg = TenantRegistry::default();
    let lists = [(backend("local", "127.0.0.1:5039"), "USB1\tdevice\n".to_string())];
    assert!(reg.update_shared_from_lists(&lists));
    assert!(!reg.update_shared_from_lists(&lists));
    assert_eq!(reg.snapshot_shared().devices.len(), 1);
    let own = || DeviceSnapshot {
        devices: vec![private_device("P", "office")],
    };
    assert!(!reg.has_agent(7));
    assert!(reg.update_agent_devices(7, own()));
    assert!(!reg.update_agent_devices(7, own()));
    assert!(reg.has_agent(7));
    assert!(reg.remove_agent(7));
    assert!(!reg.remove_agent(7));
    let first = DeviceSnapshot::default();
    assert!(reg.update_agent_devices(8, first));
}
