use adb_proxy::addr::{replace, SocketAddr};
use adb_proxy::cli::{
    build_config, choose_pair_code, hub_device_table, hubd_config, load_default_config,
    missing_config_message, node_table, pair_backend, proxy_device_table, ConfigSource, DefaultFile,
    Overrides,
};
use adb_proxy::config::{
    backend_from_arg, clamp_poll, default_backend_name, default_config_path, home_dir, join_path,
    legacy_config_path, old_config_path, parse_backend_arg, BackendConfig, ConfigError, HubConfig,
    TomlBackend, TomlFile,
};
use adb_proxy::fault::{fault, IoKind};
use adb_proxy::policy::{default_true, DevicePolicyEntry, DevicePolicyTable};
use adb_proxy::registry::merge_device_lists;

/// Reads `a.b.c.d:port`.
fn parse_addr(s: &str) -> Result<SocketAddr, String> {
    let bad = || "invalid socket address syntax".to_string();
    let (ip, port) = s.rsplit_once(':').ok_or_else(bad)?;
    let mut octets = [0u8; 4];
    let parts: Vec<&str> = ip.split('.').collect();
    if parts.len() != 4 {
        return Err(bad());
    }
    for (i, p) in parts.iter().enumerate() {
        octets[i] = p.parse().map_err(|_| bad())?;
    }
    Ok(SocketAddr::V4 {
        ip: octets,
        port: port.parse().map_err(|_| bad())?,
    })
}

fn addr(s: &str) -> SocketAddr {
    parse_addr(s).unwrap()
}

fn v6(text: &str, octets: [u8; 16], port: u16, scope_id: u32) -> SocketAddr {
    SocketAddr::V6 {
        octets,
        ip_text: text.to_string(),
        port,
        flowinfo: 0,
        scope_id,
    }
}

fn backend(name: &str, at: &str) -> BackendConfig {
    BackendConfig {
        name: name.into(),
        addr: addr(at),
        pair_code: None,
        enabled: true,
    }
}

fn text_of(t: &toml::Table, key: &str) -> Option<String> {
    t.get(key).and_then(|v| v.as_str()).map(str::to_string)
}

fn tables<'a>(t: &'a toml::Table, key: &str) -> Vec<&'a toml::Table> {
    match t.get(key).and_then(|v| v.as_array()) {
        Some(a) => a.iter().map(|v| v.as_table().unwrap()).collect(),
        None => Vec::new(),
    }
}

fn toml_file(text: &str) -> Result<TomlFile, String> {
    let t: toml::Table = text.parse().map_err(|e: toml::de::Error| e.to_string())?;
    let int = |key: &str| t.get(key).and_then(|v| v.as_integer());
    let flag = |t: &toml::Table, key: &str, d: bool| {
        t.get(key).and_then(|v| v.as_bool()).unwrap_or(d)
    };
    Ok(TomlFile {
        listen: text_of(&t, "listen").unwrap_or_else(adb_proxy::config::default_listen),
        poll_interval_ms: int("poll_interval_ms")
            .map(|v| v as u64)
            .unwrap_or_else(adb_proxy::config::default_poll_ms),
        adb_version: int("adb_version")
            .map(|v| v as u32)
            .unwrap_or_else(adb_proxy::config::default_adb_version),
        include_local: flag(
            &t,
            "include_local",
            adb_proxy::config::default_include_local(),
        ),
        local_adb_port: int("local_adb_port")
            .map(|v| v as u16)
            .unwrap_or_else(adb_proxy::config::default_local_adb_port),
        backend: tables(&t, "backend")
            .into_iter()
            .map(|b| TomlBackend {
                name: text_of(b, "name"),
                addr: text_of(b, "addr").unwrap(),
                pair_code: text_of(b, "pair_code"),
                enabled: flag(b, "enabled", default_true()),
            })
            .collect(),
        device: tables(&t, "device")
            .into_iter()
            .map(|d| DevicePolicyEntry {
                serial: text_of(d, "serial").unwrap(),
                enabled: flag(d, "enabled", default_true()),
            })
            .collect(),
    })
}

fn from_toml_str(text: &str) -> Result<HubConfig, ConfigError> {
    HubConfig::from_toml_str(text, toml_file, parse_addr)
}

#[test]
fn parse_toml_backends() {
    let cfg = from_toml_str(
        r#"
listen = "127.0.0.1:5037"
[[backend]]
name = "office"
addr = "192.168.1.10:5038"
[[backend]]
addr = "10.0.0.2:5038"
"#,
    )
    .unwrap();
    assert_eq!(cfg.backends.len(), 2);
    assert_eq!(cfg.backends[0].name, "office");
    assert_eq!(cfg.backends[1].name, "10.0.0.2_5038");
    assert!(cfg.include_local);
    assert_eq!(cfg.local_adb_port, 5039);
}

#[test]
fn unreadable_files_are_reported() {
    let err = from_toml_str("listen = [").unwrap_err();
    assert!(matches!(err, ConfigError::Toml(_)));
    assert!(err.to_string().starts_with("toml parse error: "));
}

#[test]
fn parse_toml_local_only() {
    let cfg = from_toml_str(
        r#"
include_local = true
local_adb_port = 5040
"#,
    )
    .unwrap();
    assert!(cfg.backends.is_empty());
    assert_eq!(cfg.local_adb_port, 5040);
}

#[test]
fn reject_empty_without_local() {
    let err = from_toml_str("include_local = false\n").unwrap_err();
    assert!(err.to_string().contains("at least one"));
}

#[test]
fn parse_legacy() {
    let cfg =
        HubConfig::from_legacy_adbproxy("host=192.168.1.5\nport=5038\n", parse_addr).unwrap();
    assert_eq!(cfg.backends.len(), 1);
    assert_eq!(cfg.backends[0].addr.to_string(), "192.168.1.5:5038");
    assert!(cfg.include_local);
}

#[test]
fn parse_backend_cli() {
    let b = parse_backend_arg("lab=1.2.3.4:5038", parse_addr).unwrap();
    assert_eq!(b.name, "lab");
    assert_eq!(b.addr.to_string(), "1.2.3.4:5038");
}

#[test]
fn pair_codes_come_from_the_file() {
    let cfg = from_toml_str(
        r#"
listen = "127.0.0.1:5037"
poll_interval_ms = 1000
include_local = true
local_adb_port = 5039

[[backend]]
name = "office"
addr = "192.168.1.10:5038"
pair_code = "ABCD1234"

[[backend]]
name = "lab"
addr = "192.168.1.11:5038"
pair_code = "EFGH5678"
enabled = false

[[device]]
serial = "X1"
enabled = false
"#,
    )
    .unwrap();
    assert_eq!(cfg.backends[0].pair_code.as_deref(), Some("ABCD1234"));
    assert_eq!(cfg.backends[1].pair_code.as_deref(), Some("EFGH5678"));
    assert!(!cfg.backends[1].enabled);
    assert_eq!(cfg.poll_interval_ms, 1000);
    assert_eq!(cfg.adb_version, 40);
    assert!(!cfg.devices.is_enabled("X1"));
    assert!(cfg.devices.is_enabled("X2"));
    let enabled = cfg.enabled_backends();
    assert_eq!(enabled.len(), 1);
    assert_eq!(enabled[0].name, "office");
}

#[test]
fn file_errors_come_in_order() {
    let of = |text: &str| from_toml_str(text).unwrap_err().to_string();
    assert_eq!(
        of("listen = \"nonsense\"\nlocal_adb_port = 0\n"),
        "invalid config: listen: invalid socket address syntax"
    );
    assert_eq!(
        of("local_adb_port = 0\n"),
        "invalid config: local_adb_port must be non-zero"
    );
    assert_eq!(
        of("local_adb_port = 5037\n"),
        "invalid config: local_adb_port must differ from listen port"
    );
    assert_eq!(
        of("include_local = false\n[[backend]]\naddr = \"1.2.3.4:1\"\n[[backend]]\naddr = \"x\"\n"),
        "invalid config: backend[1].addr: invalid socket address syntax"
    );
    assert_eq!(
        of("include_local = false\n"),
        "invalid config: at least one [[backend]] is required when include_local = false"
    );
}

#[test]
fn poll_interval_has_a_floor() {
    assert_eq!(clamp_poll(5), 100);
    assert_eq!(clamp_poll(100), 100);
    assert_eq!(clamp_poll(2500), 2500);
    let cfg = from_toml_str("poll_interval_ms = 5\n").unwrap();
    assert_eq!(cfg.poll_interval_ms, 100);
}

#[test]
fn legacy_files_are_read_line_by_line() {
    let of = |text: &str| HubConfig::from_legacy_adbproxy(text, parse_addr);
    let cfg = of("# comment\n\n host = 10.0.0.9 \r\nother\nport=1\n port =5038\n").unwrap();
    assert_eq!(cfg.backends[0].addr.to_string(), "10.0.0.9:5038");
    assert_eq!(cfg.backends[0].name, "10.0.0.9_5038");
    assert_eq!(cfg.backends[0].pair_code, None);
    assert_eq!(cfg.listen.to_string(), "127.0.0.1:5037");
    assert_eq!(cfg.adb_version, 40);
    assert_eq!(
        of("port=1\n").unwrap_err().to_string(),
        "invalid config: legacy config missing host"
    );
    assert_eq!(
        of("host=1.2.3.4\n#port=1\n").unwrap_err().to_string(),
        "invalid config: legacy config missing port"
    );
    assert_eq!(
        of("host=h\nport=1\n").unwrap_err().to_string(),
        "invalid config: legacy host:port: invalid socket address syntax"
    );
}

#[test]
fn backend_arguments_are_checked() {
    let b = parse_backend_arg("10.0.0.2:5038", parse_addr).unwrap();
    assert_eq!(b.name, "10.0.0.2_5038");
    assert!(b.enabled);
    assert_eq!(
        parse_backend_arg("=1.2.3.4:1", parse_addr).unwrap_err().to_string(),
        "invalid config: backend name must not be empty"
    );
    assert_eq!(
        parse_backend_arg("=bad", parse_addr).unwrap_err().to_string(),
        "invalid config: backend addr: invalid socket address syntax"
    );
    let b = backend_from_arg("a=b=1.2.3.4:1", Ok(addr("1.2.3.4:1"))).unwrap();
    assert_eq!(b.name, "a");
}

#[test]
fn other_config_errors_are_shown() {
    assert_eq!(
        ConfigError::Io(fault(IoKind::NotFound, "no file")).to_string(),
        "io error: no file"
    );
    assert_eq!(
        ConfigError::Toml("line 1".into()).to_string(),
        "toml parse error: line 1"
    );
}

#[test]
fn addresses_are_shown_like_the_network_stack_shows_them() {
    assert_eq!(addr("192.168.1.10:5038").to_string(), "192.168.1.10:5038");
    let mut one = [0u8; 16];
    one[15] = 1;
    let a = v6("::1", one, 5037, 0);
    assert_eq!(a.to_string(), "[::1]:5037");
    assert_eq!(a.port(), 5037);
    let z = v6("fe80::1", one, 80, 3);
    assert_eq!(z.to_string(), "[fe80::1%3]:80");
    assert_eq!(default_backend_name(&z), "fe80__1_80");
    assert_eq!(default_backend_name(&addr("1.2.3.4:5")), "1.2.3.4_5");
    assert!(!default_backend_name(&z).contains(':'));
    assert!(a.same(&a.clone()));
    assert!(!a.same(&z));
    assert_eq!(replace("a:b:c", ':', '_'), "a_b_c");
}

#[test]
fn saved_configurations_are_loaded_back() {
    let mut cfg = HubConfig::local_only();
    cfg.upsert_backend(BackendConfig {
        name: "office".into(),
        addr: addr("192.168.1.10:5038"),
        pair_code: Some("ABCD1234".into()),
        enabled: true,
    });
    cfg.upsert_backend(backend("lab", "192.168.1.11:5038"));
    cfg.set_backend_enabled("lab", false).unwrap();
    cfg.set_device_enabled("B", false);
    cfg.set_device_enabled("A", false);
    cfg.set_device_enabled("C", false);
    cfg.set_device_enabled("C", true);
    let file = cfg.to_toml_file();
    assert_eq!(file.listen, "127.0.0.1:5037");
    assert_eq!(file.device.len(), 2);
    assert_eq!(file.device[0].serial, "A");
    let again = HubConfig::from_toml_file(file, parse_addr).unwrap();
    assert_eq!(again.backends, cfg.backends);
    assert_eq!(again.listen, cfg.listen);
    assert!(!again.devices.is_enabled("A"));
    assert!(!again.devices.is_enabled("B"));
    assert!(again.devices.is_enabled("C"));
}

#[test]
fn backends_are_replaced_by_name() {
    let mut cfg = HubConfig::local_only();
    cfg.upsert_backend(backend("a", "1.1.1.1:1"));
    cfg.upsert_backend(backend("b", "2.2.2.2:2"));
    cfg.upsert_backend(backend("a", "3.3.3.3:3"));
    assert_eq!(cfg.backends.len(), 2);
    assert_eq!(cfg.backends[0].addr.to_string(), "3.3.3.3:3");
    assert_eq!(cfg.backends[1].name, "b");
    assert_eq!(
        cfg.set_backend_enabled("zzz", true).unwrap_err().to_string(),
        "invalid config: unknown backend 'zzz'"
    );
}

#[test]
fn files_are_looked_for_under_the_home() {
    assert_eq!(join_path("/home/u", "x"), "/home/u/x");
    assert_eq!(join_path("/home/u/", "x"), "/home/u/x");
    assert_eq!(join_path("", "x"), "x");
    assert_eq!(
        default_config_path(None, Some("/home/u")),
        "/home/u/.config/adb-hub/config.toml"
    );
    assert_eq!(default_config_path(None, None), "config.toml");
    assert_eq!(
        default_config_path(Some("C:/Users/u/AppData"), Some("/home/u")),
        "C:/Users/u/AppData/adb-hub/config.toml"
    );
    assert_eq!(
        old_config_path(Some("/home/u")),
        "/home/u/.config/adb-hub/config.toml"
    );
    assert_eq!(legacy_config_path(Some("/home/u")), "/home/u/.adbproxy");
    assert_eq!(legacy_config_path(None), ".adbproxy");
    assert_eq!(home_dir(Some("/h"), Some("/p")), Some("/h"));
    assert_eq!(home_dir(None, Some("/p")), Some("/p"));
    assert_eq!(home_dir(None, None), None);
}

fn overrides() -> Overrides {
    Overrides {
        listen: None,
        poll_interval_ms: None,
        no_local: false,
        local_port: None,
    }
}

#[test]
fn command_line_backends_replace_the_file() {
    let cfg = build_config(
        ConfigSource::Backends(vec![
            backend("a", "1.1.1.1:1"),
            backend("b", "2.2.2.2:2"),
            backend("a", "3.3.3.3:3"),
        ]),
        Overrides {
            listen: Some(addr("127.0.0.1:15037")),
            poll_interval_ms: Some(1),
            no_local: true,
            local_port: None,
        },
    )
    .unwrap();
    let names: Vec<&str> = cfg.backends.iter().map(|b| b.name.as_str()).collect();
    assert_eq!(names, ["b", "a"]);
    assert_eq!(cfg.backends[1].addr.to_string(), "3.3.3.3:3");
    assert_eq!(cfg.adb_version, 41);
    assert_eq!(cfg.local_adb_port, 5039);
    assert_eq!(cfg.poll_interval_ms, 100);
    assert_eq!(cfg.listen.to_string(), "127.0.0.1:15037");
    assert!(!cfg.include_local);
}

#[test]
fn files_are_overridden_by_the_command_line() {
    let mut file = HubConfig::local_only();
    file.poll_interval_ms = 700;
    let o = Overrides {
        local_port: Some(6000),
        ..overrides()
    };
    let cfg = build_config(ConfigSource::File(file), o).unwrap();
    assert_eq!(cfg.local_adb_port, 6000);
    assert_eq!(cfg.poll_interval_ms, 700);
    assert!(cfg.include_local);

    let cfg = build_config(ConfigSource::Found(Err("none".into())), overrides()).unwrap();
    assert!(cfg.include_local);
    assert_eq!(cfg.adb_version, 40);

    let o = Overrides {
        no_local: true,
        ..overrides()
    };
    let err = build_config(ConfigSource::Found(Err("none".into())), o).unwrap_err();
    assert_eq!(err, "none");

    let o = Overrides {
        no_local: true,
        ..overrides()
    };
    let mut off = backend("a", "1.1.1.1:1");
    off.enabled = false;
    let err = build_config(ConfigSource::Backends(vec![off]), o).unwrap_err();
    assert_eq!(
        err,
        "no enabled backends configured; enable a node or use --local"
    );
}

#[test]
fn default_files_are_tried_in_order() {
    let of = |path: bool, old: bool, legacy: bool| {
        load_default_config("/new", path, "/old", old, legacy)
    };
    assert_eq!(of(true, true, true), DefaultFile::Current);
    assert_eq!(of(false, true, true), DefaultFile::Old);
    assert_eq!(of(false, false, true), DefaultFile::Legacy);
    assert_eq!(of(false, false, false), DefaultFile::Missing);
    assert_eq!(
        load_default_config("/same", false, "/same", true, false),
        DefaultFile::Missing
    );
    assert_eq!(
        missing_config_message("/a", "/b", "/c"),
        "no config found at /a, /b, or /c; pass --backend name=host:port or rely on --local"
    );
}

#[test]
fn compatibility_daemon_goes_by_its_command_line() {
    let cfg = hubd_config(None, &addr("127.0.0.1:6037"), 6039, true, 5);
    assert_eq!(cfg.listen.to_string(), "127.0.0.1:6037");
    assert_eq!(cfg.local_adb_port, 6039);
    assert!(!cfg.include_local);
    assert_eq!(cfg.poll_interval_ms, 100);
    let mut loaded = HubConfig::local_only();
    loaded.upsert_backend(backend("a", "1.1.1.1:1"));
    let cfg = hubd_config(Some(Ok(loaded)), &addr("127.0.0.1:6037"), 6039, false, 500);
    assert_eq!(cfg.backends.len(), 1);
    let broken = Some(Err(ConfigError::Invalid("x".into())));
    let cfg = hubd_config(broken, &addr("127.0.0.1:6037"), 6039, false, 500);
    assert!(cfg.backends.is_empty());
}

#[test]
fn pairing_enters_the_backend() {
    let mut cfg = HubConfig::local_only();
    let name = pair_backend(&mut cfg, &addr("192.168.1.10:5038"), "ABCD1234", Some("office"));
    assert_eq!(name, "office");
    let name = pair_backend(&mut cfg, &addr("192.168.1.11:5038"), "EFGH5678", None);
    assert_eq!(name, "192.168.1.11_5038");
    let name = pair_backend(&mut cfg, &addr("192.168.1.12:5038"), "ZZZZ9999", Some("office"));
    assert_eq!(name, "office");
    assert_eq!(cfg.backends.len(), 2);
    assert_eq!(cfg.backends[0].addr.to_string(), "192.168.1.12:5038");
    assert_eq!(cfg.backends[0].pair_code.as_deref(), Some("ZZZZ9999"));
}

#[test]
fn pair_codes_are_chosen_or_checked() {
    assert_eq!(choose_pair_code(Some("ABCD1234".into())).unwrap(), "ABCD1234");
    assert_eq!(
        choose_pair_code(Some("SHORT".into())).unwrap_err(),
        "invalid --pair-code: pair code must be 8 characters, got 5"
    );
    assert_eq!(choose_pair_code(None).unwrap().len(), 8);
}

#[test]
fn device_tables_are_padded() {
    let snap = merge_device_lists(&[(backend("office", "1.1.1.1:1"), "ABC\tdevice\n".to_string())]);
    let mut table = DevicePolicyTable::default();
    table.set_enabled("GONE", false);
    let explicit = table.explicit_serials();
    let text = hub_device_table(&snap, &table, &explicit);
    let expected = format!(
        "{:<28} {:<12} {:<10} NODE\n{:<28} {:<12} {:<10} office\n{:<28} {:<12} {:<10} -\n",
        "SERIAL", "STATE", "ENABLED", "ABC", "device", "yes", "GONE", "-", "no"
    );
    assert_eq!(text, expected);

    let text = proxy_device_table("List of devices attached\nABC\tdevice\n", &table, &explicit);
    let expected = format!(
        "{:<24} {:<12} ENABLED\n{:<24} {:<12} yes\n{:<24} {:<12} no\n",
        "SERIAL", "STATE", "ABC", "device", "GONE", "-"
    );
    assert_eq!(text, expected);

    table.set_enabled("ABC", false);
    let text = proxy_device_table("ABC\tdevice\n", &table, &vec![("ABC".to_string(), false)]);
    let expected = format!(
        "{:<24} {:<12} ENABLED\n{:<24} {:<12} no\n",
        "SERIAL", "STATE", "ABC", "device"
    );
    assert_eq!(text, expected);
}

#[test]
fn node_tables_are_padded() {
    let mut cfg = HubConfig::local_only();
    assert_eq!(
        node_table(&cfg),
        format!("{:<20} {:<24} ENABLED\n(no paired nodes)\n", "NAME", "ADDR")
    );
    cfg.upsert_backend(backend("office", "1.1.1.1:1"));
    cfg.set_backend_enabled("office", false).unwrap();
    assert_eq!(
        node_table(&cfg),
        format!(
            "{:<20} {:<24} ENABLED\n{:<20} {:<24} no\n",
            "NAME", "ADDR", "office", "1.1.1.1:1"
        )
    );
}
