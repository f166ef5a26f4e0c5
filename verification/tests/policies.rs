use adb_proxy::compat::{evaluate_proxy_version, ProxyCompat, SemVer};
use adb_proxy::fault::{fault, IoKind};
use adb_proxy::policy::{
    filter_devices_body, filter_devices_by, transport_serial, DevicePolicyEntry, DevicePolicyTable,
};
use adb_proxy::proxy_config::{
    default_proxy_config_path, proxy_config_dir, ProxyConfigError, ProxyFileConfig,
    ReloadableProxyPolicy,
};

#[test]
fn parse_semver() {
    assert_eq!(
        SemVer::parse("0.4.4").unwrap(),
        SemVer {
            major: 0,
            minor: 4,
            patch: 4
        }
    );
    assert_eq!(SemVer::parse("v1.2").unwrap().patch, 0);
    assert!(SemVer::parse("0.4.3-beta").unwrap() < SemVer::parse("0.4.4").unwrap());
}

#[test]
fn evaluate_ok_and_too_old() {
    assert!(evaluate_proxy_version("0.4.4").is_ok());
    assert!(evaluate_proxy_version("1.0.0").is_ok());
    assert!(matches!(
        evaluate_proxy_version("0.4.3"),
        ProxyCompat::TooOld { .. }
    ));
    assert!(matches!(
        evaluate_proxy_version("nope"),
        ProxyCompat::Unknown { .. }
    ));
}

#[test]
fn default_enabled() {
    let t = DevicePolicyTable::default();
    assert!(t.is_enabled("ANY"));
}

#[test]
fn disable_and_enable() {
    let mut t = DevicePolicyTable::default();
    t.set_enabled("A1", false);
    assert!(!t.is_enabled("A1"));
    t.set_enabled("A1", true);
    assert!(t.is_enabled("A1"));
    assert!(t.to_disabled_entries().is_empty());
}

#[test]
fn filter_body_drops_disabled() {
    let body = "A1\tdevice\nA2\toffline\nA3\tdevice usb:1\n";
    let filtered = filter_devices_body(body, |s| s != "A2");
    assert_eq!(filtered, "A1\tdevice\nA3\tdevice usb:1\n");
}

#[test]
fn only_devices_are_asked_about() {
    let body = "List of devices attached\n* daemon started\n\n  \n A1 device\nA2\toffline\r\n";
    let filtered = filter_devices_body(body, |s| match s {
        "A1" => true,
        "A2" => false,
        other => panic!("asked about {other}"),
    });
    assert_eq!(filtered, "List of devices attached\n* daemon started\n A1 device\n");
}

#[test]
fn transport_serial_parse() {
    assert_eq!(transport_serial("host:transport:ABC"), Some("ABC"));
    assert_eq!(transport_serial("host:tport:serial:X"), Some("X"));
    assert_eq!(transport_serial("host:transport-any"), None);
    assert_eq!(transport_serial("host:transport:any"), None);
}

fn entries_of(text: &str) -> Result<Vec<DevicePolicyEntry>, String> {
    let t: toml::Table = text.parse().map_err(|e: toml::de::Error| e.to_string())?;
    let list = t.get("device").and_then(|v| v.as_array());
    Ok(list
        .into_iter()
        .flatten()
        .map(|d| DevicePolicyEntry {
            serial: d["serial"].as_str().unwrap().to_string(),
            enabled: d
                .get("enabled")
                .and_then(|v| v.as_bool())
                .unwrap_or_else(adb_proxy::policy::default_true),
        })
        .collect())
}

fn text_of(entries: &Vec<DevicePolicyEntry>) -> Result<String, String> {
    let list: Vec<toml::Value> = entries
        .iter()
        .map(|e| {
            let mut t = toml::Table::new();
            t.insert("serial".into(), toml::Value::String(e.serial.clone()));
            t.insert("enabled".into(), toml::Value::Boolean(e.enabled));
            toml::Value::Table(t)
        })
        .collect();
    let mut file = toml::Table::new();
    file.insert("device".into(), toml::Value::Array(list));
    toml::to_string_pretty(&file).map_err(|e| e.to_string())
}

#[test]
fn roundtrip_disabled_only() {
    let mut cfg = ProxyFileConfig::default();
    cfg.set_device_enabled("A1", false);
    cfg.set_device_enabled("A2", true); // not persisted
    let text = cfg.to_toml_string(text_of).unwrap();
    assert!(text.contains("A1"));
    assert!(!text.contains("A2"));
    let loaded = ProxyFileConfig::from_toml_str(&text, entries_of).unwrap();
    assert!(!loaded.devices.is_enabled("A1"));
    assert!(loaded.devices.is_enabled("A2"));
}

#[test]
fn missing_enabled_field_means_true() {
    let cfg = ProxyFileConfig::from_toml_str(
        r#"
[[device]]
serial = "X"
"#,
        entries_of,
    )
    .unwrap();
    assert!(cfg.devices.is_enabled("X"));
}

#[test]
fn policy_texts_that_fail_are_reported() {
    let cfg = ProxyFileConfig::default();
    let refuse = |_: &Vec<DevicePolicyEntry>| Err("no".to_string());
    assert_eq!(cfg.to_toml_string(refuse).unwrap(), "");
    let mut cfg = cfg;
    cfg.set_device_enabled("A1", false);
    let err = cfg.to_toml_string(refuse).unwrap_err();
    assert_eq!(err.to_string(), "toml serialize error: no");
    let err = ProxyFileConfig::from_toml_str("device = [", entries_of).unwrap_err();
    assert!(err.to_string().starts_with("toml parse error: "));
}

fn disabled(serial: &str) -> DevicePolicyEntry {
    DevicePolicyEntry {
        serial: serial.into(),
        enabled: false,
    }
}

#[test]
fn empty_policies_write_nothing() {
    let mut cfg = ProxyFileConfig::default();
    assert!(cfg.to_entries().is_none());
    cfg.set_device_enabled("A", false);
    cfg.set_device_enabled("A", true);
    assert!(cfg.to_entries().is_none());
    assert!(ProxyFileConfig::from_loaded(None).devices.is_enabled("A"));
    assert!(!ProxyFileConfig::from_loaded(Some(vec![disabled("A")]))
        .devices
        .is_enabled("A"));
}

#[test]
fn disabled_entries_are_ordered() {
    let mut t = DevicePolicyTable::from_entries(vec![
        disabled("b"),
        disabled("a"),
        DevicePolicyEntry {
            serial: "c".into(),
            enabled: true,
        },
    ]);
    t.set_enabled("B", false);
    let serials: Vec<String> = t
        .to_disabled_entries()
        .into_iter()
        .map(|e| e.serial)
        .collect();
    assert_eq!(serials, ["B", "a", "b"]);
    assert_eq!(t.explicit_serials().len(), 4);
    let copy = t.clone();
    t.set_enabled("a", true);
    assert!(!copy.is_enabled("a"));
    assert!(t.is_enabled("a"));
}

#[test]
fn filtering_keeps_banners_and_drops_blank_lines() {
    let mut table = DevicePolicyTable::default();
    table.set_enabled("DROP", false);
    let body = "List of devices attached\n* daemon started\n\nKEEP\tdevice\r\nDROP\tdevice\n";
    let out = filter_devices_by(body, &table);
    assert_eq!(
        out,
        "List of devices attached\n* daemon started\nKEEP\tdevice\n"
    );
    assert_eq!(filter_devices_by(&out, &table), out);
}

#[test]
fn policies_are_read_again_when_the_file_changes() {
    let mut p = ReloadableProxyPolicy::new("/p.toml", None, None);
    assert_eq!(p.path(), "/p.toml");
    let load = |path: &str| {
        assert_eq!(path, "/p.toml");
        Some(vec![disabled("X")])
    };
    assert!(p.is_enabled("X", None, load));
    assert!(!p.is_enabled("X", Some(5), load));
    let fail = |_: &str| -> Option<Vec<DevicePolicyEntry>> { panic!("must not be read") };
    assert!(!p.refresh(Some(5), fail).is_enabled("X"));
    let none = |_: &str| -> Option<Vec<DevicePolicyEntry>> { None };
    assert!(p.refresh(Some(6), none).is_enabled("X"));
    p.replace(Some(vec![disabled("Y")]), Some(7));
    assert!(!p.refresh(Some(7), fail).is_enabled("Y"));
}

#[test]
fn policy_files_are_under_the_home() {
    assert_eq!(
        default_proxy_config_path(None, Some("/home/u")),
        "/home/u/.config/adb-proxy/config.toml"
    );
    assert_eq!(default_proxy_config_path(None, None), "./config.toml");
    assert_eq!(
        proxy_config_dir(Some("C:/AppData"), Some("/home/u")),
        "C:/AppData/adb-proxy"
    );
}

#[test]
fn policy_errors_are_shown() {
    assert_eq!(
        ProxyConfigError::Io(fault(IoKind::NotFound, "gone")).to_string(),
        "io error: gone"
    );
    assert_eq!(
        ProxyConfigError::Toml("x".into()).to_string(),
        "toml parse error: x"
    );
    assert_eq!(
        ProxyConfigError::TomlSer("x".into()).to_string(),
        "toml serialize error: x"
    );
}

#[test]
fn versions_are_read_loosely() {
    assert_eq!(SemVer::parse(" v1.2.3+build "), SemVer::parse("1.2.3"));
    assert_eq!(SemVer::parse("1"), None);
    assert_eq!(SemVer::parse("1.2.3.4"), None);
    assert_eq!(SemVer::parse("1.x"), None);
    assert_eq!(SemVer::parse("1.4294967296"), None);
    assert_eq!(SemVer::parse("v1.2").unwrap().to_string(), "1.2.0");
    let a = SemVer::parse("1.2.3").unwrap();
    let b = SemVer::parse("1.3.0").unwrap();
    assert!(b.at_least(&a) && !a.at_least(&b) && a.at_least(&a));
}

#[test]
fn verdicts_are_explained() {
    assert_eq!(
        evaluate_proxy_version(" 0.4.4 ").user_message("office", "1.2.3.4:5038"),
        "backend 'office' (1.2.3.4:5038) adb-proxy 0.4.4 OK"
    );
    let old = evaluate_proxy_version("0.4.3").user_message("office", "1.2.3.4:5038");
    assert!(old.contains("runs adb-proxy 0.4.3, but this hub requires adb-proxy >= 0.4.4"));
    let unknown = evaluate_proxy_version("nope").user_message("office", "1.2.3.4:5038");
    assert!(unknown.contains("did not report a version (invalid version string 'nope')"));
}
