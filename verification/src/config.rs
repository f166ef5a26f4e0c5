//! Hub configuration: backends, file contents and defaults.

use vstd::prelude::*;
use vstd::string::*;

use crate::addr::{replace, replace_char, AddrView, SocketAddr};
use crate::digits::{dec_seq, push_dec};
use crate::fault::IoFault;
use crate::policy::{
    all_disabled, by_serial, disabled_entries_round_trip, disabled_set, enabled_by, named,
    policy_map, DevicePolicyEntry, DevicePolicyTable,
};
use crate::text::{
    cat2, cat3, find_char, first_is, is_empty, is_white_space, is_word, lemma_trimmed, lines,
    lines_seq, opt_clone, opt_view, parts_end_at_separators, split_once, str_eq, trim, trim_seq,
    views,
};

verus! {

/// One remote `adb-proxy`, or the local adb server.
#[derive(Debug, PartialEq, Eq)]
pub struct BackendConfig {
    pub name: String,
    pub addr: SocketAddr,
    pub pair_code: Option<String>,
    pub enabled: bool,
}

/// Model of [`BackendConfig`].
pub struct BackendView {
    pub name: Seq<char>,
    pub addr: AddrView,
    pub pair_code: Option<Seq<char>>,
    pub enabled: bool,
}

impl View for BackendConfig {
    type V = BackendView;

    open spec fn view(&self) -> BackendView {
        BackendView {
            name: self.name@,
            addr: self.addr@,
            pair_code: opt_view(self.pair_code),
            enabled: self.enabled,
        }
    }
}

impl Clone for BackendConfig {
    fn clone(&self) -> (r: Self)
        ensures
            r@ == self@,
    {
        BackendConfig {
            name: self.name.clone(),
            addr: self.addr.clone(),
            pair_code: opt_clone(&self.pair_code),
            enabled: self.enabled,
        }
    }
}

/// The models of a list of backends.
pub open spec fn backend_views(s: Seq<BackendConfig>) -> Seq<BackendView> {
    Seq::new(s.len(), |i: int| s[i]@)
}

/// A copy of a list of backends.
pub fn clone_backends(s: &Vec<BackendConfig>) -> (r: Vec<BackendConfig>)
    ensures
        backend_views(r@) == backend_views(s@),
{
    let mut r: Vec<BackendConfig> = Vec::new();
    let mut i: usize = 0;
    while i < s.len()
        invariant
            i <= s@.len(),
            r@.len() == i,
            forall|j: int| 0 <= j < i ==> (#[trigger] r@[j])@ == s@[j]@,
        decreases s@.len() - i,
    {
        r.push(s[i].clone());
        i += 1;
    }
    assert(backend_views(r@) =~= backend_views(s@));
    r
}

/// Why a configuration could not be used.
#[derive(Debug)]
pub enum ConfigError {
    Io(IoFault),
    Invalid(String),
    Toml(String),
}

impl ConfigError {
    /// The message shown to the user.
    pub open spec fn chars(self) -> Seq<char> {
        match self {
            ConfigError::Io(f) => "io error: "@ + f.message@,
            ConfigError::Invalid(m) => "invalid config: "@ + m@,
            ConfigError::Toml(m) => "toml parse error: "@ + m@,
        }
    }

    /// The message shown to the user.
    pub fn to_string(&self) -> (s: String)
        ensures
            s@ == self.chars(),
    {
        match self {
            ConfigError::Io(f) => cat2("io error: ", f.message.as_str()),
            ConfigError::Invalid(m) => cat2("invalid config: ", m.as_str()),
            ConfigError::Toml(m) => cat2("toml parse error: ", m.as_str()),
        }
    }
}

/// Whether `e` rejects the configuration for the reason `why`.
pub open spec fn invalid(e: ConfigError, why: Seq<char>) -> bool {
    e matches ConfigError::Invalid(m) && m@ == why
}

/// A `[[backend]]` table of the configuration file.
#[derive(Debug)]
pub struct TomlBackend {
    pub name: Option<String>,
    pub addr: String,
    pub pair_code: Option<String>,
    pub enabled: bool,
}

/// The configuration file with its defaults filled in.
#[derive(Debug)]
pub struct TomlFile {
    pub listen: String,
    pub poll_interval_ms: u64,
    pub adb_version: u32,
    pub include_local: bool,
    pub local_adb_port: u16,
    pub backend: Vec<TomlBackend>,
    pub device: Vec<DevicePolicyEntry>,
}

/// The listen address of a file that names none.
pub fn default_listen() -> (s: String)
    ensures
        s@ == "127.0.0.1:5037"@,
{
    "127.0.0.1:5037".to_owned()
}

/// The poll interval of a file that names none.
pub fn default_poll_ms() -> (r: u64)
    ensures
        r == 1000,
{
    1000
}

/// The server version of a file that names none.
pub fn default_adb_version() -> (r: u32)
    ensures
        r == 40,
{
    40
}

/// Local devices are aggregated unless the file says otherwise.
pub fn default_include_local() -> (r: bool)
    ensures
        r,
{
    true
}

/// The side port of a file that names none.
pub fn default_local_adb_port() -> (r: u16)
    ensures
        r == 5039,
{
    5039
}

/// The shortest poll interval in milliseconds.
pub const MIN_POLL_MS: u64 = 100;

/// A poll interval no shorter than the minimum.
pub open spec fn poll_floor(ms: u64) -> u64 {
    if ms < MIN_POLL_MS {
        MIN_POLL_MS
    } else {
        ms
    }
}

/// A poll interval no shorter than the minimum.
pub fn clamp_poll(ms: u64) -> (r: u64)
    ensures
        r == poll_floor(ms),
{
    if ms < MIN_POLL_MS {
        MIN_POLL_MS
    } else {
        ms
    }
}

/// Everything the hub needs to know to run.
#[derive(Debug)]
pub struct HubConfig {
    pub listen: SocketAddr,
    pub poll_interval_ms: u64,
    pub backends: Vec<BackendConfig>,
    /// ADB server version reported by `host:version`.
    pub adb_version: u32,
    /// Start or reuse a real local adb server and aggregate it as `local`.
    pub include_local: bool,
    /// Side port for the real local adb server (the hub keeps :5037).
    pub local_adb_port: u16,
    /// Devices that the user has switched off.
    pub devices: DevicePolicyTable,
    /// The file that the configuration came from.
    pub config_path: Option<String>,
}

/// Model of [`HubConfig`].
pub struct HubView {
    pub listen: AddrView,
    pub poll_interval_ms: u64,
    pub backends: Seq<BackendView>,
    pub adb_version: u32,
    pub include_local: bool,
    pub local_adb_port: u16,
    pub devices: Map<Seq<char>, bool>,
    pub config_path: Option<Seq<char>>,
}

impl View for HubConfig {
    type V = HubView;

    open spec fn view(&self) -> HubView {
        HubView {
            listen: self.listen@,
            poll_interval_ms: self.poll_interval_ms,
            backends: backend_views(self.backends@),
            adb_version: self.adb_version,
            include_local: self.include_local,
            local_adb_port: self.local_adb_port,
            devices: self.devices@,
            config_path: opt_view(self.config_path),
        }
    }
}

impl Clone for HubConfig {
    fn clone(&self) -> (r: Self)
        ensures
            r@ == self@,
    {
        HubConfig {
            listen: self.listen.clone(),
            poll_interval_ms: self.poll_interval_ms,
            backends: clone_backends(&self.backends),
            adb_version: self.adb_version,
            include_local: self.include_local,
            local_adb_port: self.local_adb_port,
            devices: self.devices.clone(),
            config_path: opt_clone(&self.config_path),
        }
    }
}

/// `127.0.0.1:port`.
pub open spec fn loopback_view(port: u16) -> AddrView {
    AddrView::V4 { ip: seq![127u8, 0u8, 0u8, 1u8], port }
}

/// `127.0.0.1:port`.
pub fn loopback(port: u16) -> (a: SocketAddr)
    ensures
        a@ == loopback_view(port),
{
    let a = SocketAddr::V4 { ip: [127, 0, 0, 1], port };
    assert(a@->ip =~= seq![127u8, 0u8, 0u8, 1u8]);
    a
}

/// The backend name that stands for an address: `ip_port`, with `_` for each
/// `:` of an IPv6 address.
pub open spec fn backend_name_of(addr: AddrView) -> Seq<char> {
    let plain = addr.ip_chars().push('_') + dec_seq(addr.port() as nat);
    match addr {
        AddrView::V4 { .. } => plain,
        AddrView::V6 { .. } => replace_char(plain, ':', '_'),
    }
}

/// The backend name that stands for an address.
pub fn default_backend_name(addr: &SocketAddr) -> (name: String)
    ensures
        name@ == backend_name_of(addr@),
{
    let mut plain = addr.ip_string();
    plain.push('_');
    push_dec(&mut plain, addr.port() as u128);
    match addr {
        SocketAddr::V4 { .. } => plain,
        SocketAddr::V6 { .. } => replace(plain.as_str(), ':', '_'),
    }
}

/// The configuration without remote backends.
pub open spec fn local_only_view() -> HubView {
    HubView {
        listen: loopback_view(5037),
        poll_interval_ms: 1000,
        backends: Seq::empty(),
        adb_version: 40,
        include_local: true,
        local_adb_port: 5039,
        devices: Map::empty(),
        config_path: None,
    }
}

/// Why a file is rejected before its backends are looked at.
pub open spec fn file_refusal(file: TomlFile, listen: Result<SocketAddr, String>) -> Option<
    Seq<char>,
> {
    match listen {
        Err(e) => Some("listen: "@ + e@),
        Ok(a) => if file.local_adb_port == 0 {
            Some("local_adb_port must be non-zero"@)
        } else if a@.port() == file.local_adb_port {
            Some("local_adb_port must differ from listen port"@)
        } else {
            None
        },
    }
}

/// The first backend whose address could not be read, if any.
pub open spec fn first_bad(addrs: Seq<Result<SocketAddr, String>>) -> Option<int>
    decreases addrs.len(),
{
    if addrs.len() == 0 {
        None
    } else {
        match first_bad(addrs.drop_last()) {
            Some(i) => Some(i),
            None => if addrs.last() is Err {
                Some(addrs.len() - 1)
            } else {
                None
            },
        }
    }
}

/// Reason given for the address of backend `i`.
pub open spec fn bad_addr(i: int, e: Seq<char>) -> Seq<char> {
    "backend["@ + dec_seq(i as nat) + "].addr: "@ + e
}

/// The backend that a table describes at the address `addr`.
pub open spec fn table_backend(table: TomlBackend, addr: AddrView) -> BackendView {
    BackendView {
        name: match table.name {
            Some(n) => n@,
            None => backend_name_of(addr),
        },
        addr,
        pair_code: opt_view(table.pair_code),
        enabled: table.enabled,
    }
}

/// Why a file is rejected, if it is.
pub open spec fn toml_refusal(
    file: TomlFile,
    listen: Result<SocketAddr, String>,
    addrs: Seq<Result<SocketAddr, String>>,
) -> Option<Seq<char>> {
    match file_refusal(file, listen) {
        Some(why) => Some(why),
        None => match first_bad(addrs) {
            Some(i) => Some(bad_addr(i, addrs[i]->Err_0@)),
            None => if addrs.len() == 0 && !file.include_local {
                Some("at least one [[backend]] is required when include_local = false"@)
            } else {
                None
            },
        },
    }
}

/// The configuration that an accepted file describes.
pub open spec fn toml_view(
    file: TomlFile,
    listen: SocketAddr,
    addrs: Seq<Result<SocketAddr, String>>,
) -> HubView {
    HubView {
        listen: listen@,
        poll_interval_ms: poll_floor(file.poll_interval_ms),
        backends: Seq::new(
            addrs.len(),
            |i: int| table_backend(file.backend@[i], addrs[i]->Ok_0@),
        ),
        adb_version: file.adb_version,
        include_local: file.include_local,
        local_adb_port: file.local_adb_port,
        devices: policy_map(file.device@),
        config_path: None,
    }
}

/// What a file gives, once its addresses have been read.
pub open spec fn toml_outcome(
    file: TomlFile,
    listen: Result<SocketAddr, String>,
    addrs: Seq<Result<SocketAddr, String>>,
    r: Result<HubConfig, ConfigError>,
) -> bool {
    match toml_refusal(file, listen, addrs) {
        Some(why) => r matches Err(e) && invalid(e, why),
        None => r matches Ok(c) && c@ == toml_view(file, listen->Ok_0, addrs),
    }
}

/// Whether `addrs` is what reading each backend's address gives.
pub open spec fn addrs_read<P: Fn(&str) -> Result<SocketAddr, String>>(
    parse: P,
    tables: Seq<TomlBackend>,
    addrs: Seq<Result<SocketAddr, String>>,
) -> bool {
    addrs.len() == tables.len() && forall|i: int|
        0 <= i < addrs.len() ==> reads(parse, tables[i].addr@, #[trigger] addrs[i])
}

/// Whether `r` is what reading the address `text` gives.
pub open spec fn reads<P: Fn(&str) -> Result<SocketAddr, String>>(
    parse: P,
    text: Seq<char>,
    r: Result<SocketAddr, String>,
) -> bool {
    exists|s: &str| s@ == text && #[trigger] call_ensures(parse, (s,), r)
}

/// What a parsed file gives when `parse` reads its addresses.
pub open spec fn file_outcome<P: Fn(&str) -> Result<SocketAddr, String>>(
    parse: P,
    file: TomlFile,
    r: Result<HubConfig, ConfigError>,
) -> bool {
    exists|listen: Result<SocketAddr, String>, addrs: Seq<Result<SocketAddr, String>>|
        reads(parse, file.listen@, listen) && addrs_read(parse, file.backend@, addrs)
            && #[trigger] toml_outcome(file, listen, addrs, r)
}

/// What the text of a file gives, once it has been parsed or not.
pub open spec fn text_outcome<P: Fn(&str) -> Result<SocketAddr, String>>(
    parse: P,
    parsed: Result<TomlFile, String>,
    r: Result<HubConfig, ConfigError>,
) -> bool {
    match parsed {
        Err(why) => r matches Err(ConfigError::Toml(m)) && m@ == why@,
        Ok(file) => file_outcome(parse, file, r),
    }
}

/// Whether addresses can be read from any text.
pub open spec fn reads_all<P: Fn(&str) -> Result<SocketAddr, String>>(parse: P) -> bool {
    forall|s: &str| call_requires(parse, (s,))
}

proof fn lemma_first_bad(addrs: Seq<Result<SocketAddr, String>>, i: int)
    requires
        0 <= i < addrs.len(),
        addrs[i] is Err,
        forall|j: int| 0 <= j < i ==> (#[trigger] addrs[j]) is Ok,
    ensures
        first_bad(addrs) == Some(i),
    decreases addrs.len(),
{
    if i == addrs.len() - 1 {
        lemma_no_bad(addrs.drop_last());
    } else {
        lemma_first_bad(addrs.drop_last(), i);
    }
}

proof fn lemma_no_bad(addrs: Seq<Result<SocketAddr, String>>)
    requires
        forall|j: int| 0 <= j < addrs.len() ==> (#[trigger] addrs[j]) is Ok,
    ensures
        first_bad(addrs) is None,
    decreases addrs.len(),
{
    if addrs.len() > 0 {
        lemma_no_bad(addrs.drop_last());
    }
}

impl HubConfig {
    /// The well-known address of an adb server.
    pub fn default_listen() -> (a: SocketAddr)
        ensures
            a@ == loopback_view(5037),
    {
        loopback(5037)
    }

    /// Defaults when there is neither a file nor a backend.
    pub fn local_only() -> (c: Self)
        ensures
            c@ == local_only_view(),
    {
        let c = HubConfig {
            listen: HubConfig::default_listen(),
            poll_interval_ms: default_poll_ms(),
            backends: Vec::new(),
            adb_version: default_adb_version(),
            include_local: true,
            local_adb_port: default_local_adb_port(),
            devices: DevicePolicyTable::default(),
            config_path: None,
        };
        assert(c@.backends =~= Seq::<BackendView>::empty());
        c
    }

    /// The configuration of a file whose addresses have been read: `listen` is
    /// the listen address, `addrs` those of the backends in order.
    pub fn from_toml_parts(
        file: TomlFile,
        listen: Result<SocketAddr, String>,
        addrs: Vec<Result<SocketAddr, String>>,
    ) -> (r: Result<Self, ConfigError>)
        requires
            addrs@.len() == file.backend@.len(),
        ensures
            toml_outcome(file, listen, addrs@, r),
    {
        let here = match listen {
            Err(e) => {
                return Err(ConfigError::Invalid(cat2("listen: ", e.as_str())));
            },
            Ok(a) => a,
        };
        if file.local_adb_port == 0 {
            return Err(ConfigError::Invalid("local_adb_port must be non-zero".to_owned()));
        }
        if here.port() == file.local_adb_port {
            return Err(
                ConfigError::Invalid("local_adb_port must differ from listen port".to_owned()),
            );
        }
        let mut backends: Vec<BackendConfig> = Vec::new();
        let mut idx: usize = 0;
        while idx < addrs.len()
            invariant
                idx <= addrs@.len(),
                addrs@.len() == file.backend@.len(),
                listen == Ok::<SocketAddr, String>(here),
                file_refusal(file, listen) is None,
                forall|j: int| 0 <= j < idx ==> (#[trigger] addrs@[j]) is Ok,
                backends@.len() == idx,
                forall|j: int|
                    0 <= j < idx ==> (#[trigger] backends@[j])@ == table_backend(
                        file.backend@[j],
                        addrs@[j]->Ok_0@,
                    ),
            decreases addrs@.len() - idx,
        {
            match &addrs[idx] {
                Err(e) => {
                    let mut why = "backend[".to_owned();
                    push_dec(&mut why, idx as u128);
                    why.append("].addr: ");
                    why.append(e.as_str());
                    proof {
                        lemma_first_bad(addrs@, idx as int);
                    }
                    return Err(ConfigError::Invalid(why));
                },
                Ok(addr) => {
                    let table = &file.backend[idx];
                    let name = match &table.name {
                        Some(n) => n.clone(),
                        None => default_backend_name(addr),
                    };
                    backends.push(
                        BackendConfig {
                            name,
                            addr: addr.clone(),
                            pair_code: opt_clone(&table.pair_code),
                            enabled: table.enabled,
                        },
                    );
                },
            }
            idx += 1;
        }
        proof {
            lemma_no_bad(addrs@);
        }
        if backends.len() == 0 && !file.include_local {
            return Err(
                ConfigError::Invalid(
                    "at least one [[backend]] is required when include_local = false".to_owned(),
                ),
            );
        }
        let c = HubConfig {
            listen: here,
            poll_interval_ms: clamp_poll(file.poll_interval_ms),
            backends,
            adb_version: file.adb_version,
            include_local: file.include_local,
            local_adb_port: file.local_adb_port,
            devices: DevicePolicyTable::from_entries(file.device),
            config_path: None,
        };
        assert(c@.backends =~= toml_view(file, here, addrs@).backends);
        Ok(c)
    }

    /// The configuration that a parsed file describes. `parse` reads an address.
    pub fn from_toml_file<P: Fn(&str) -> Result<SocketAddr, String>>(file: TomlFile, parse: P) -> (r:
        Result<Self, ConfigError>)
        requires
            reads_all(parse),
        ensures
            file_outcome(parse, file, r),
    {
        let listen = parse(file.listen.as_str());
        assert(reads(parse, file.listen@, listen));
        let mut addrs: Vec<Result<SocketAddr, String>> = Vec::new();
        let mut i: usize = 0;
        while i < file.backend.len()
            invariant
                i <= file.backend@.len(),
                reads_all(parse),
                addrs@.len() == i,
                forall|j: int|
                    0 <= j < i ==> reads(parse, file.backend@[j].addr@, #[trigger] addrs@[j]),
            decreases file.backend@.len() - i,
        {
            let a = parse(file.backend[i].addr.as_str());
            assert(reads(parse, file.backend@[i as int].addr@, a));
            addrs.push(a);
            i += 1;
        }
        assert(addrs_read(parse, file.backend@, addrs@));
        let r = HubConfig::from_toml_parts(file, listen, addrs);
        assert(toml_outcome(file, listen, addrs@, r));
        r
    }

    /// The configuration in the text of a file. `read` parses the TOML tables,
    /// `parse` reads an address.
    pub fn from_toml_str<
        R: Fn(&str) -> Result<TomlFile, String>,
        P: Fn(&str) -> Result<SocketAddr, String>,
    >(text: &str, read: R, parse: P) -> (r: Result<Self, ConfigError>)
        requires
            call_requires(read, (text,)),
            reads_all(parse),
        ensures
            exists|parsed: Result<TomlFile, String>| #[trigger]
                call_ensures(read, (text,), parsed) && text_outcome(parse, parsed, r),
    {
        let parsed = read(text);
        assert(call_ensures(read, (text,), parsed));
        match parsed {
            Ok(file) => HubConfig::from_toml_file(file, parse),
            Err(why) => Err(ConfigError::Toml(why)),
        }
    }
}

/// The key and the value of a `key=value` line; blank lines and `#` comments
/// hold none.
pub open spec fn legacy_pair(line: Seq<char>) -> Option<(Seq<char>, Seq<char>)> {
    let t = trim_seq(line);
    let k = find_char(t, '=');
    if t.len() == 0 || t[0] == '#' || k == t.len() {
        None
    } else {
        Some((trim_seq(t.take(k)), trim_seq(t.skip(k + 1))))
    }
}

/// The value of `key`: that of the last line that sets it.
pub open spec fn legacy_value(all: Seq<Seq<char>>, key: Seq<char>) -> Option<Seq<char>>
    decreases all.len(),
{
    if all.len() == 0 {
        None
    } else {
        match legacy_pair(all.last()) {
            Some((k, v)) => if k == key {
                Some(v)
            } else {
                legacy_value(all.drop_last(), key)
            },
            None => legacy_value(all.drop_last(), key),
        }
    }
}

/// The `host:port` text of a legacy file, or what is missing.
pub open spec fn legacy_target(text: Seq<char>) -> Result<Seq<char>, Seq<char>> {
    match legacy_value(lines_seq(text), "host"@) {
        None => Err("legacy config missing host"@),
        Some(host) => match legacy_value(lines_seq(text), "port"@) {
            None => Err("legacy config missing port"@),
            Some(port) => Ok(host + ":"@ + port),
        },
    }
}

/// The configuration with the one backend of a legacy file.
pub open spec fn legacy_view(addr: AddrView) -> HubView {
    HubView {
        backends: seq![
            BackendView { name: backend_name_of(addr), addr, pair_code: None, enabled: true },
        ],
        ..local_only_view()
    }
}

/// What a legacy file with an address gives, once the address has been read.
pub open spec fn legacy_outcome(
    addr: Result<SocketAddr, String>,
    r: Result<HubConfig, ConfigError>,
) -> bool {
    match addr {
        Err(e) => r matches Err(c) && invalid(c, "legacy host:port: "@ + e@),
        Ok(a) => r matches Ok(c) && c@ == legacy_view(a@),
    }
}

/// The `host:port` text of a legacy `~/.adbproxy` file.
pub fn legacy_address(text: &str) -> (r: Result<String, ConfigError>)
    ensures
        match legacy_target(text@) {
            Ok(t) => r matches Ok(s) && s@ == t,
            Err(why) => r matches Err(e) && invalid(e, why),
        },
{
    let all = lines(text);
    let ghost seen = lines_seq(text@);
    let mut host: Option<String> = None;
    let mut port: Option<String> = None;
    let mut i: usize = 0;
    while i < all.len()
        invariant
            i <= all@.len(),
            views(all@) == seen,
            opt_view(host) == legacy_value(seen.take(i as int), "host"@),
            opt_view(port) == legacy_value(seen.take(i as int), "port"@),
        decreases all@.len() - i,
    {
        let line = trim(all[i].as_str());
        proof {
            assert(seen[i as int] == all@[i as int]@);
            assert(seen.take(i + 1).drop_last() =~= seen.take(i as int));
            assert(seen.take(i + 1).last() == seen[i as int]);
            reveal_strlit("host");
            reveal_strlit("port");
            assert("host"@[0] != "port"@[0]);
        }
        if !is_empty(line) && !first_is(line, '#') {
            if let Some((key, value)) = split_once(line, '=') {
                let key = trim(key);
                if str_eq(key, "host") {
                    host = Some(trim(value).to_owned());
                } else if str_eq(key, "port") {
                    port = Some(trim(value).to_owned());
                }
            }
        }
        i += 1;
    }
    assert(seen.take(i as int) =~= seen);
    match host {
        None => Err(ConfigError::Invalid("legacy config missing host".to_owned())),
        Some(host) => match port {
            None => Err(ConfigError::Invalid("legacy config missing port".to_owned())),
            Some(port) => Ok(cat3(host.as_str(), ":", port.as_str())),
        },
    }
}

impl HubConfig {
    /// The configuration of a legacy file whose address has been read.
    pub fn from_legacy_addr(addr: Result<SocketAddr, String>) -> (r: Result<Self, ConfigError>)
        ensures
            legacy_outcome(addr, r),
    {
        match addr {
            Err(e) => Err(ConfigError::Invalid(cat2("legacy host:port: ", e.as_str()))),
            Ok(addr) => {
                let mut c = HubConfig::local_only();
                c.backends.push(
                    BackendConfig {
                        name: default_backend_name(&addr),
                        addr,
                        pair_code: None,
                        enabled: true,
                    },
                );
                assert(c@.backends =~= legacy_view(addr@).backends);
                Ok(c)
            },
        }
    }

    /// Load legacy `~/.adbproxy` text (`host=` / `port=`). `parse` reads an
    /// address.
    pub fn from_legacy_adbproxy<P: Fn(&str) -> Result<SocketAddr, String>>(
        text: &str,
        parse: P,
    ) -> (r: Result<Self, ConfigError>)
        requires
            reads_all(parse),
        ensures
            match legacy_target(text@) {
                Err(why) => r matches Err(e) && invalid(e, why),
                Ok(t) => exists|addr: Result<SocketAddr, String>|
                    reads(parse, t, addr) && #[trigger] legacy_outcome(addr, r),
            },
    {
        match legacy_address(text) {
            Err(e) => Err(e),
            Ok(t) => {
                let addr = parse(t.as_str());
                assert(reads(parse, t@, addr));
                HubConfig::from_legacy_addr(addr)
            },
        }
    }
}

/// The address part of `name=host:port` or `host:port`.
pub open spec fn arg_addr(s: Seq<char>) -> Seq<char> {
    let k = find_char(s, '=');
    if k < s.len() {
        s.skip(k + 1)
    } else {
        s
    }
}

/// What a `--backend` argument gives, once its address has been read.
pub open spec fn arg_outcome(
    s: Seq<char>,
    addr: Result<SocketAddr, String>,
    r: Result<BackendConfig, ConfigError>,
) -> bool {
    let k = find_char(s, '=');
    match addr {
        Err(e) => r matches Err(c) && invalid(c, "backend addr: "@ + e@),
        Ok(a) => if k == 0 && s.len() > 0 {
            r matches Err(c) && invalid(c, "backend name must not be empty"@)
        } else {
            r matches Ok(b) && b@ == (BackendView {
                name: if k < s.len() {
                    s.take(k)
                } else {
                    backend_name_of(a@)
                },
                addr: a@,
                pair_code: None,
                enabled: true,
            })
        },
    }
}

/// The backend of a `--backend` argument whose address has been read.
pub fn backend_from_arg(s: &str, addr: Result<SocketAddr, String>) -> (r: Result<
    BackendConfig,
    ConfigError,
>)
    ensures
        arg_outcome(s@, addr, r),
{
    proof {
        crate::text::lemma_find_char(s@, '=');
    }
    let addr = match addr {
        Err(e) => {
            return Err(ConfigError::Invalid(cat2("backend addr: ", e.as_str())));
        },
        Ok(a) => a,
    };
    match split_once(s, '=') {
        Some((name, _)) => {
            if is_empty(name) {
                return Err(
                    ConfigError::Invalid("backend name must not be empty".to_owned()),
                );
            }
            Ok(BackendConfig { name: name.to_owned(), addr, pair_code: None, enabled: true })
        },
        None => Ok(
            BackendConfig {
                name: default_backend_name(&addr),
                addr,
                pair_code: None,
                enabled: true,
            },
        ),
    }
}

/// Parse CLI `--backend name=host:port` or `host:port`. `parse` reads an
/// address.
pub fn parse_backend_arg<P: Fn(&str) -> Result<SocketAddr, String>>(s: &str, parse: P) -> (r:
    Result<BackendConfig, ConfigError>)
    requires
        reads_all(parse),
    ensures
        exists|addr: Result<SocketAddr, String>|
            reads(parse, arg_addr(s@), addr) && #[trigger] arg_outcome(s@, addr, r),
{
    proof {
        crate::text::lemma_find_char(s@, '=');
    }
    let addr = match split_once(s, '=') {
        Some((_, a)) => {
            let addr = parse(a);
            assert(a@ == arg_addr(s@));
            addr
        },
        None => parse(s),
    };
    assert(reads(parse, arg_addr(s@), addr));
    backend_from_arg(s, addr)
}

/// `base/rel`, without a second separator.
pub open spec fn path_chars(base: Seq<char>, rel: Seq<char>) -> Seq<char> {
    if base.len() == 0 || base.last() == '/' {
        base + rel
    } else {
        base + "/"@ + rel
    }
}

/// `base/rel`, without a second separator.
pub fn join_path(base: &str, rel: &str) -> (r: String)
    ensures
        r@ == path_chars(base@, rel@),
{
    let n = base.unicode_len();
    if n == 0 || base.get_char(n - 1) == '/' {
        cat2(base, rel)
    } else {
        cat3(base, "/", rel)
    }
}

/// The user's home: `HOME`, else `USERPROFILE`.
pub open spec fn home_of(home: Option<&str>, profile: Option<&str>) -> Option<Seq<char>> {
    match home {
        Some(h) => Some(h@),
        None => match profile {
            Some(p) => Some(p@),
            None => None,
        },
    }
}

/// The user's home: `HOME`, else `USERPROFILE`.
pub fn home_dir<'a>(home: Option<&'a str>, profile: Option<&'a str>) -> (r: Option<&'a str>)
    ensures
        match home_of(home, profile) {
            Some(h) => r matches Some(s) && s@ == h,
            None => r is None,
        },
{
    match home {
        Some(h) => Some(h),
        None => profile,
    }
}

/// `rel` under the user's home, or `fallback` for a user without one.
pub open spec fn under_home(home: Option<&str>, rel: Seq<char>, fallback: Seq<char>) -> Seq<char> {
    match home {
        Some(h) => path_chars(h@, rel),
        None => fallback,
    }
}

/// The hub's configuration file under the user's home.
pub fn old_config_path(home: Option<&str>) -> (r: String)
    ensures
        r@ == under_home(home, ".config/adb-hub/config.toml"@, "config.toml"@),
{
    match home {
        Some(h) => join_path(h, ".config/adb-hub/config.toml"),
        None => "config.toml".to_owned(),
    }
}

/// The hub's configuration file: under `APPDATA` where that is given (on
/// Windows), else under the user's home.
pub fn default_config_path(appdata: Option<&str>, home: Option<&str>) -> (r: String)
    ensures
        r@ == match appdata {
            Some(a) => path_chars(a@, "adb-hub/config.toml"@),
            None => under_home(home, ".config/adb-hub/config.toml"@, "config.toml"@),
        },
{
    match appdata {
        Some(a) => join_path(a, "adb-hub/config.toml"),
        None => old_config_path(home),
    }
}

/// The `host=` / `port=` file of earlier releases.
pub fn legacy_config_path(home: Option<&str>) -> (r: String)
    ensures
        r@ == under_home(home, ".adbproxy"@, ".adbproxy"@),
{
    match home {
        Some(h) => join_path(h, ".adbproxy"),
        None => ".adbproxy".to_owned(),
    }
}

/// The backends that are switched on, in order.
pub open spec fn enabled_only(s: Seq<BackendView>) -> Seq<BackendView>
    decreases s.len(),
{
    if s.len() == 0 {
        Seq::empty()
    } else if s.last().enabled {
        enabled_only(s.drop_last()).push(s.last())
    } else {
        enabled_only(s.drop_last())
    }
}

/// The position of the first backend named `name`, or the length.
pub open spec fn backend_index(s: Seq<BackendView>, name: Seq<char>) -> int
    decreases s.len(),
{
    if s.len() == 0 || s[0].name == name {
        0
    } else {
        1 + backend_index(s.drop_first(), name)
    }
}

proof fn lemma_backend_index(s: Seq<BackendView>, name: Seq<char>, i: int)
    requires
        0 <= i <= s.len(),
        forall|j: int| 0 <= j < i ==> (#[trigger] s[j]).name != name,
        i < s.len() ==> s[i].name == name,
    ensures
        backend_index(s, name) == i,
    decreases s.len(),
{
    if i > 0 {
        assert(s[0].name != name);
        assert forall|j: int| 0 <= j < i - 1 implies (#[trigger] s.drop_first()[j]).name
            != name by {
            assert(s.drop_first()[j] == s[j + 1]);
        }
        lemma_backend_index(s.drop_first(), name, i - 1);
    }
}

/// The backends after `b` has taken the place of the one of its name, or has
/// been added at the end.
pub open spec fn upserted(s: Seq<BackendView>, b: BackendView) -> Seq<BackendView> {
    let i = backend_index(s, b.name);
    if i < s.len() {
        s.update(i, b)
    } else {
        s.push(b)
    }
}

/// What is written for the configuration `c`.
pub open spec fn saved_as(c: HubView, file: TomlFile) -> bool {
    &&& file.listen@ == c.listen.chars()
    &&& file.poll_interval_ms == c.poll_interval_ms
    &&& file.adb_version == c.adb_version
    &&& file.include_local == c.include_local
    &&& file.local_adb_port == c.local_adb_port
    &&& file.backend@.len() == c.backends.len()
    &&& forall|i: int|
        0 <= i < c.backends.len() ==> saved_backend(c.backends[i], #[trigger] file.backend@[i])
    &&& all_disabled(file.device@)
    &&& by_serial(file.device@)
    &&& named(file.device@) == disabled_set(c.devices)
}

/// What is written for one backend.
pub open spec fn saved_backend(b: BackendView, table: TomlBackend) -> bool {
    &&& opt_view(table.name) == Some(b.name)
    &&& table.addr@ == b.addr.chars()
    &&& opt_view(table.pair_code) == b.pair_code
    &&& table.enabled == b.enabled
}

impl HubConfig {
    /// Position of the first backend named `name`, or the number of backends.
    fn backend_position(&self, name: &str) -> (i: usize)
        ensures
            i == backend_index(self@.backends, name@),
            i <= self.backends@.len(),
    {
        let mut i: usize = 0;
        while i < self.backends.len()
            invariant
                i <= self.backends@.len(),
                forall|j: int| 0 <= j < i ==> (#[trigger] self@.backends[j]).name != name@,
            decreases self.backends@.len() - i,
        {
            if str_eq(self.backends[i].name.as_str(), name) {
                proof {
                    lemma_backend_index(self@.backends, name@, i as int);
                }
                return i;
            }
            i += 1;
        }
        proof {
            lemma_backend_index(self@.backends, name@, i as int);
        }
        i
    }

    /// The backends that are switched on.
    pub fn enabled_backends(&self) -> (r: Vec<BackendConfig>)
        ensures
            backend_views(r@) == enabled_only(self@.backends),
    {
        let mut r: Vec<BackendConfig> = Vec::new();
        let mut i: usize = 0;
        assert(backend_views(r@) =~= enabled_only(self@.backends.take(0)));
        while i < self.backends.len()
            invariant
                i <= self.backends@.len(),
                backend_views(r@) == enabled_only(self@.backends.take(i as int)),
            decreases self.backends@.len() - i,
        {
            let ghost before = r@;
            let ghost upto = self@.backends.take(i + 1);
            assert(upto.drop_last() =~= self@.backends.take(i as int));
            assert(upto.last() == self.backends@[i as int]@);
            if self.backends[i].enabled {
                r.push(self.backends[i].clone());
                assert(backend_views(r@) =~= backend_views(before).push(r@.last()@));
            }
            i += 1;
        }
        assert(self@.backends.take(i as int) =~= self@.backends);
        r
    }

    /// Add a backend, or replace the one of the same name.
    pub fn upsert_backend(&mut self, backend: BackendConfig)
        ensures
            final(self)@ == (HubView {
                backends: upserted(old(self)@.backends, backend@),
                ..old(self)@
            }),
    {
        let i = self.backend_position(backend.name.as_str());
        let ghost b = backend@;
        if i < self.backends.len() {
            self.backends.set(i, backend);
        } else {
            self.backends.push(backend);
        }
        assert(self@.backends =~= upserted(old(self)@.backends, b));
    }

    /// Switch a backend on or off.
    pub fn set_backend_enabled(&mut self, name: &str, enabled: bool) -> (r: Result<(), ConfigError>)
        ensures
            ({
                let i = backend_index(old(self)@.backends, name@);
                if i < old(self)@.backends.len() {
                    r is Ok && final(self)@ == (HubView {
                        backends: old(self)@.backends.update(
                            i,
                            BackendView { enabled, ..old(self)@.backends[i] },
                        ),
                        ..old(self)@
                    })
                } else {
                    (r matches Err(e) && invalid(e, "unknown backend '"@ + name@ + "'"@))
                        && final(self)@ == old(self)@
                }
            }),
    {
        let i = self.backend_position(name);
        if i < self.backends.len() {
            let mut b = self.backends[i].clone();
            b.enabled = enabled;
            self.backends.set(i, b);
            assert(self@.backends =~= old(self)@.backends.update(
                i as int,
                BackendView { enabled, ..old(self)@.backends[i as int] },
            ));
            Ok(())
        } else {
            Err(ConfigError::Invalid(cat3("unknown backend '", name, "'")))
        }
    }

    /// Switch a device on or off by its public serial.
    pub fn set_device_enabled(&mut self, serial: &str, enabled: bool)
        ensures
            final(self)@ == (HubView {
                devices: if enabled {
                    old(self)@.devices.remove(serial@)
                } else {
                    old(self)@.devices.insert(serial@, false)
                },
                ..old(self)@
            }),
    {
        self.devices.set_enabled(serial, enabled);
    }

    /// The file that keeps this configuration.
    pub fn to_toml_file(&self) -> (file: TomlFile)
        ensures
            saved_as(self@, file),
    {
        let mut backend: Vec<TomlBackend> = Vec::new();
        let mut i: usize = 0;
        while i < self.backends.len()
            invariant
                i <= self.backends@.len(),
                backend@.len() == i,
                forall|j: int|
                    0 <= j < i ==> saved_backend(self@.backends[j], #[trigger] backend@[j]),
            decreases self.backends@.len() - i,
        {
            let b = &self.backends[i];
            backend.push(
                TomlBackend {
                    name: Some(b.name.clone()),
                    addr: b.addr.to_string(),
                    pair_code: opt_clone(&b.pair_code),
                    enabled: b.enabled,
                },
            );
            i += 1;
        }
        TomlFile {
            listen: self.listen.to_string(),
            poll_interval_ms: self.poll_interval_ms,
            adb_version: self.adb_version,
            include_local: self.include_local,
            local_adb_port: self.local_adb_port,
            backend,
            device: self.devices.to_disabled_entries(),
        }
    }
}

/// A saved configuration is read back as it was: every setting, every backend
/// with its pair code and whether it is enabled, and for every device whether
/// it is enabled. Where the addresses read back as themselves, nothing is lost.
pub proof fn saved_configuration_is_loaded_back(
    c: HubView,
    file: TomlFile,
    listen: SocketAddr,
    addrs: Seq<Result<SocketAddr, String>>,
    serial: Seq<char>,
)
    requires
        saved_as(c, file),
        c.poll_interval_ms >= MIN_POLL_MS,
        c.local_adb_port != 0,
        c.local_adb_port != c.listen.port(),
        c.backends.len() > 0 || c.include_local,
        listen@ == c.listen,
        addrs.len() == c.backends.len(),
        forall|i: int|
            0 <= i < addrs.len() ==> (#[trigger] addrs[i]) is Ok && addrs[i]->Ok_0@
                == c.backends[i].addr,
    ensures
        toml_refusal(file, Ok::<SocketAddr, String>(listen), addrs) is None,
        ({
            let d = toml_view(file, listen, addrs);
            &&& d == HubView { devices: d.devices, config_path: None, ..c }
            &&& enabled_by(d.devices, serial) == enabled_by(c.devices, serial)
        }),
{
    lemma_no_bad(addrs);
    let d = toml_view(file, listen, addrs);
    assert forall|i: int| 0 <= i < addrs.len() implies (#[trigger] d.backends[i])
        == c.backends[i] by {
        assert(saved_backend(c.backends[i], file.backend@[i]));
        assert(addrs[i] is Ok);
    }
    assert(d.backends =~= c.backends);
    disabled_entries_round_trip(c.devices, file.device@, serial);
}

/// A backend that has just been added is found under its name, and no other
/// backend changes.
pub proof fn upserted_backend_is_found(s: Seq<BackendView>, b: BackendView)
    ensures
        ({
            let t = upserted(s, b);
            let i = backend_index(t, b.name);
            &&& i < t.len()
            &&& t[i] == b
            &&& forall|j: int| 0 <= j < s.len() && j != i ==> #[trigger] t[j] == s[j]
        }),
{
    let i = backend_index(s, b.name);
    lemma_index_is_first(s, b.name);
    let t = upserted(s, b);
    assert forall|j: int| 0 <= j < i implies (#[trigger] t[j]).name != b.name by {
        assert(t[j] == s[j]);
    }
    lemma_backend_index(t, b.name, i);
}

/// `backend_index` is the first position of that name.
pub proof fn lemma_index_is_first(s: Seq<BackendView>, name: Seq<char>)
    ensures
        0 <= backend_index(s, name) <= s.len(),
        forall|j: int| 0 <= j < backend_index(s, name) ==> (#[trigger] s[j]).name != name,
        backend_index(s, name) < s.len() ==> s[backend_index(s, name)].name == name,
    decreases s.len(),
{
    if s.len() > 0 && s[0].name != name {
        let t = s.drop_first();
        lemma_index_is_first(t, name);
        assert forall|j: int| 0 <= j < backend_index(s, name) implies (#[trigger] s[j]).name
            != name by {
            if j > 0 {
                assert(t[j - 1] == s[j]);
            }
        }
    }
}

proof fn lemma_dec_holds_no_colon(n: nat, i: int)
    requires
        0 <= i < dec_seq(n).len(),
    ensures
        dec_seq(n)[i] != ':',
    decreases n,
{
    if n >= 10 {
        if i < dec_seq(n / 10).len() {
            lemma_dec_holds_no_colon(n / 10, i);
        }
    }
}

/// A backend that is named after its address has no `:` in its name, so that
/// `name:serial` can be told apart.
pub proof fn default_names_hold_no_colon(addr: AddrView)
    requires
        addr matches AddrView::V4 { ip, .. } ==> ip.len() == 4,
    ensures
        !backend_name_of(addr).contains(':'),
{
    let name = backend_name_of(addr);
    assert forall|i: int| 0 <= i < name.len() implies name[i] != ':' by {
        if let AddrView::V4 { ip, port } = addr {
            assert forall|k: int, j: int| 0 <= k < 4 && 0 <= j < dec_seq(ip[k] as nat).len() implies (
            #[trigger] dec_seq(ip[k] as nat)[j]) != ':' by {
                lemma_dec_holds_no_colon(ip[k] as nat, j);
            }
            assert forall|j: int| 0 <= j < dec_seq(port as nat).len() implies (#[trigger] dec_seq(
                port as nat,
            )[j]) != ':' by {
                lemma_dec_holds_no_colon(port as nat, j);
            }
            let a = dec_seq(ip[0] as nat).push('.');
            let b = dec_seq(ip[1] as nat).push('.');
            let c = dec_seq(ip[2] as nat).push('.');
            let d = dec_seq(ip[3] as nat);
            assert(name == (a + b + c + d).push('_') + dec_seq(port as nat));
        }
    }
}

/// The backends that are switched on are kept as they are and in order, and the
/// others are not.
pub proof fn enabled_backends_are_kept(s: Seq<BackendView>, t: Seq<BackendView>, b: BackendView)
    ensures
        enabled_only(Seq::empty()) == Seq::<BackendView>::empty(),
        enabled_only(s + t) == enabled_only(s) + enabled_only(t),
        enabled_only(seq![b]) == (if b.enabled {
            seq![b]
        } else {
            Seq::empty()
        }),
        enabled_only(s).contains(b) <==> s.contains(b) && b.enabled,
    decreases t.len(),
{
    assert(seq![b].drop_last() =~= Seq::<BackendView>::empty());
    assert(enabled_only(seq![b].drop_last()) =~= Seq::<BackendView>::empty());
    assert(Seq::<BackendView>::empty().push(b) =~= seq![b]);
    lemma_enabled_holds(s, b);
    if t.len() == 0 {
        assert(s + t =~= s);
        assert(enabled_only(s + t) =~= enabled_only(s) + enabled_only(t));
    } else {
        enabled_backends_are_kept(s, t.drop_last(), b);
        assert((s + t).drop_last() =~= s + t.drop_last());
        assert(enabled_only(s + t) =~= enabled_only(s) + enabled_only(t));
    }
}

proof fn lemma_enabled_holds(s: Seq<BackendView>, b: BackendView)
    ensures
        enabled_only(s).contains(b) <==> s.contains(b) && b.enabled,
    decreases s.len(),
{
    if s.len() > 0 {
        let t = s.drop_last();
        let n = s.len() - 1;
        lemma_enabled_holds(t, b);
        let v = enabled_only(s);
        let w = enabled_only(t);
        if w.contains(b) {
            let k = choose|k: int| 0 <= k < w.len() && w[k] == b;
            assert(v[k] == b);
        }
        if t.contains(b) {
            let k = choose|k: int| 0 <= k < t.len() && t[k] == b;
            assert(s[k] == b);
        }
        if s[n] == b && b.enabled {
            assert(v[v.len() - 1] == b);
        }
        if s.contains(b) {
            let k = choose|k: int| 0 <= k < s.len() && s[k] == b;
            if k < n {
                assert(t[k] == b);
            }
        }
        if v.contains(b) {
            let k = choose|k: int| 0 <= k < v.len() && v[k] == b;
            if k < w.len() {
                assert(w[k] == b);
            } else {
                assert(s[n] == b);
            }
        }
    }
}

/// A file is accepted exactly if its listen address and all backend addresses can be
/// read, its side port is not zero and not the listen port, and there is something
/// to aggregate.
pub proof fn usable_files_are_accepted(
    file: TomlFile,
    listen: Result<SocketAddr, String>,
    addrs: Seq<Result<SocketAddr, String>>,
)
    ensures
        toml_refusal(file, listen, addrs) is None <==> {
            &&& listen is Ok
            &&& file.local_adb_port != 0
            &&& file.local_adb_port != listen->Ok_0@.port()
            &&& forall|i: int| 0 <= i < addrs.len() ==> (#[trigger] addrs[i]) is Ok
            &&& addrs.len() > 0 || file.include_local
        },
{
    if forall|i: int| 0 <= i < addrs.len() ==> (#[trigger] addrs[i]) is Ok {
        lemma_no_bad(addrs);
    } else {
        let i = lemma_bad_found(addrs);
        lemma_first_bad(addrs, i);
    }
}

proof fn lemma_bad_found(addrs: Seq<Result<SocketAddr, String>>) -> (i: int)
    requires
        exists|i: int| 0 <= i < addrs.len() && (#[trigger] addrs[i]) is Err,
    ensures
        0 <= i < addrs.len(),
        addrs[i] is Err,
        forall|j: int| 0 <= j < i ==> (#[trigger] addrs[j]) is Ok,
    decreases addrs.len(),
{
    let n = addrs.len() - 1;
    let before = addrs.drop_last();
    if exists|i: int| 0 <= i < before.len() && (#[trigger] before[i]) is Err {
        let i = lemma_bad_found(before);
        assert forall|j: int| 0 <= j < i implies (#[trigger] addrs[j]) is Ok by {
            assert(before[j] is Ok);
        }
        i
    } else {
        let i = choose|i: int| 0 <= i < addrs.len() && (#[trigger] addrs[i]) is Err;
        if i < n {
            assert(before[i] is Err);
        }
        assert forall|j: int| 0 <= j < n implies (#[trigger] addrs[j]) is Ok by {
            assert(!(before[j] is Err));
        }
        n
    }
}

/// What the user is told of a file that is rejected: the listen address comes first,
/// then the side port, then the first backend address that cannot be read.
pub proof fn rejected_files_say_why(
    file: TomlFile,
    e: String,
    a: SocketAddr,
    addrs: Seq<Result<SocketAddr, String>>,
    i: int,
)
    ensures
        toml_refusal(file, Err(e), addrs) == Some("listen: "@ + e@),
        file.local_adb_port == 0 ==> toml_refusal(file, Ok::<SocketAddr, String>(a), addrs) == Some(
            "local_adb_port must be non-zero"@,
        ),
        file.local_adb_port != 0 && file.local_adb_port == a@.port() ==> toml_refusal(
            file,
            Ok::<SocketAddr, String>(a),
            addrs,
        ) == Some("local_adb_port must differ from listen port"@),
        file.local_adb_port != 0 && file.local_adb_port != a@.port() && 0 <= i < addrs.len()
            && addrs[i] is Err && (forall|j: int| 0 <= j < i ==> (#[trigger] addrs[j]) is Ok)
            ==> toml_refusal(file, Ok::<SocketAddr, String>(a), addrs) == Some(
            "backend["@ + dec_seq(i as nat) + "].addr: "@ + addrs[i]->Err_0@,
        ),
        file.local_adb_port != 0 && file.local_adb_port != a@.port() && addrs.len() == 0
            && !file.include_local ==> toml_refusal(file, Ok::<SocketAddr, String>(a), addrs)
            == Some("at least one [[backend]] is required when include_local = false"@),
{
    if 0 <= i < addrs.len() && addrs[i] is Err && (forall|j: int|
        0 <= j < i ==> (#[trigger] addrs[j]) is Ok) {
        lemma_first_bad(addrs, i);
    }
}

/// A configuration is what its file says: every backend in order, with its name or
/// the one that stands for its address, its pair code and whether it is switched on,
/// and every setting; only the poll interval is never shorter than the minimum.
pub proof fn files_mean_what_they_say(
    file: TomlFile,
    listen: SocketAddr,
    addrs: Seq<Result<SocketAddr, String>>,
    i: int,
)
    requires
        addrs.len() == file.backend@.len(),
        0 <= i < addrs.len(),
        addrs[i] is Ok,
    ensures
        ({
            let c = toml_view(file, listen, addrs);
            let t = file.backend@[i];
            &&& c.listen == listen@
            &&& c.adb_version == file.adb_version
            &&& c.include_local == file.include_local
            &&& c.local_adb_port == file.local_adb_port
            &&& c.poll_interval_ms >= 100
            &&& file.poll_interval_ms >= 100 ==> c.poll_interval_ms == file.poll_interval_ms
            &&& file.poll_interval_ms < 100 ==> c.poll_interval_ms == 100
            &&& c.devices == policy_map(file.device@)
            &&& c.config_path is None
            &&& c.backends.len() == addrs.len()
            &&& c.backends[i].addr == addrs[i]->Ok_0@
            &&& c.backends[i].pair_code == opt_view(t.pair_code)
            &&& c.backends[i].enabled == t.enabled
            &&& t.name matches Some(n) ==> c.backends[i].name == n@
            &&& t.name is None ==> c.backends[i].name == backend_name_of(addrs[i]->Ok_0@)
        }),
{
}

/// The name that stands for an address: the address and the port, with `_` between
/// them and for every `:`.
pub proof fn default_names_show_the_address(addr: AddrView)
    ensures
        addr is V4 ==> backend_name_of(addr) == addr.ip_chars() + seq!['_'] + dec_seq(
            addr.port() as nat,
        ),
        addr is V6 ==> backend_name_of(addr).len() == addr.ip_chars().len() + 1 + dec_seq(
            addr.port() as nat,
        ).len() && forall|i: int|
            0 <= i < backend_name_of(addr).len() ==> #[trigger] backend_name_of(addr)[i] == {
                let c = (addr.ip_chars() + seq!['_'] + dec_seq(addr.port() as nat))[i];
                if c == ':' {
                    '_'
                } else {
                    c
                }
            },
{
    let plain = addr.ip_chars() + seq!['_'] + dec_seq(addr.port() as nat);
    assert(addr.ip_chars().push('_') + dec_seq(addr.port() as nat) =~= plain);
}

/// The configuration without a file: the well-known address, the local server on its
/// side port, a poll every second and no backends.
pub proof fn defaults_need_no_file()
    ensures
        local_only_view().listen == (AddrView::V4 { ip: seq![127u8, 0u8, 0u8, 1u8], port: 5037 }),
        local_only_view().poll_interval_ms == 1000,
        local_only_view().backends.len() == 0,
        local_only_view().adb_version == 40,
        local_only_view().include_local,
        local_only_view().local_adb_port == 5039,
        local_only_view().devices == Map::<Seq<char>, bool>::empty(),
        local_only_view().config_path is None,
{
}

/// A line `key=value` of a legacy file sets the key; comments, blank lines and lines
/// without `=` set nothing.
pub proof fn legacy_lines_set_values(key: Seq<char>, value: Seq<char>, line: Seq<char>)
    requires
        is_word(key),
        key[0] != '#',
        !key.contains('='),
        is_word(value),
    ensures
        legacy_pair(key + seq!['='] + value) == Some((key, value)),
        trim_seq(line).len() == 0 || trim_seq(line)[0] == '#' || !trim_seq(line).contains('=')
            ==> legacy_pair(line) is None,
{
    let t = key + seq!['='] + value;
    let n = value.len() - 1;
    let m = key.len() - 1;
    assert(!is_white_space(key[0]) && !is_white_space(key[m]));
    assert(!is_white_space(value[0]) && !is_white_space(value[n]));
    assert(t[0] == key[0] && t.last() == value[n]);
    lemma_trimmed(t);
    lemma_trimmed(key);
    lemma_trimmed(value);
    parts_end_at_separators(key, '=', value);
    assert(t.take(key.len() as int) =~= key);
    assert(t.skip(key.len() as int + 1) =~= value);
    let u = trim_seq(line);
    if !u.contains('=') {
        parts_end_at_separators(u, '=', Seq::empty());
    }
}

/// Of the lines of a legacy file that set a key the last one counts.
pub proof fn last_legacy_line_counts(all: Seq<Seq<char>>, key: Seq<char>, value: Seq<char>, i: int)
    ensures
        0 <= i < all.len() && legacy_pair(all[i]) == Some((key, value)) && (forall|j: int|
            i < j < all.len() ==> !(legacy_pair(#[trigger] all[j]) matches Some(p) && p.0 == key))
            ==> legacy_value(all, key) == Some(value),
        (forall|j: int|
            0 <= j < all.len() ==> !(legacy_pair(#[trigger] all[j]) matches Some(p) && p.0 == key))
            ==> legacy_value(all, key) is None,
    decreases all.len(),
{
    if all.len() > 0 {
        let n = all.len() - 1;
        let rest = all.drop_last();
        last_legacy_line_counts(rest, key, value, i);
        if (forall|j: int|
            0 <= j < all.len() ==> !(legacy_pair(#[trigger] all[j]) matches Some(p) && p.0
                == key)) {
            assert(!(legacy_pair(all[n]) matches Some(p) && p.0 == key));
            assert forall|j: int| 0 <= j < rest.len() implies !(legacy_pair(
                #[trigger] rest[j],
            ) matches Some(p) && p.0 == key) by {
                assert(rest[j] == all[j]);
            }
        }
        if 0 <= i < n && legacy_pair(all[i]) == Some((key, value)) && (forall|j: int|
            i < j < all.len() ==> !(legacy_pair(#[trigger] all[j]) matches Some(p) && p.0
                == key)) {
            assert(!(legacy_pair(all[n]) matches Some(p) && p.0 == key));
            assert(rest[i] == all[i]);
            assert forall|j: int| i < j < rest.len() implies !(legacy_pair(
                #[trigger] rest[j],
            ) matches Some(p) && p.0 == key) by {
                assert(rest[j] == all[j]);
            }
        }
    }
}

/// A legacy file names a host and a port; the one that is missing is told, the host
/// first. Its backend is switched on, has no pair code, and is named after its
/// address; all else is as without a file.
pub proof fn legacy_files_name_one_backend(text: Seq<char>, addr: AddrView)
    ensures
        ({
            let host = legacy_value(lines_seq(text), "host"@);
            let port = legacy_value(lines_seq(text), "port"@);
            &&& host is None ==> legacy_target(text) == Err::<Seq<char>, Seq<char>>(
                "legacy config missing host"@,
            )
            &&& host is Some && port is None ==> legacy_target(text) == Err::<
                Seq<char>,
                Seq<char>,
            >("legacy config missing port"@)
            &&& host is Some && port is Some ==> legacy_target(text) == Ok::<
                Seq<char>,
                Seq<char>,
            >(host->0 + ":"@ + port->0)
        }),
        legacy_view(addr).backends == seq![
            BackendView { name: backend_name_of(addr), addr, pair_code: None, enabled: true },
        ],
        legacy_view(addr) == (HubView {
            backends: legacy_view(addr).backends,
            ..local_only_view()
        }),
{
}

/// A backend argument is an address, or a name, `=` and an address.
pub proof fn arguments_name_backends(
    name: Seq<char>,
    addr: Seq<char>,
    a: SocketAddr,
    e: String,
    r: Result<BackendConfig, ConfigError>,
)
    requires
        !name.contains('='),
    ensures
        arg_addr(name + seq!['='] + addr) == addr,
        !addr.contains('=') ==> arg_addr(addr) == addr,
        name.len() > 0 ==> (arg_outcome(
            name + seq!['='] + addr,
            Ok::<SocketAddr, String>(a),
            r,
        ) <==> (r matches Ok(b) && b@ == (BackendView {
            name,
            addr: a@,
            pair_code: None,
            enabled: true,
        }))),
        name.len() == 0 ==> (arg_outcome(
            name + seq!['='] + addr,
            Ok::<SocketAddr, String>(a),
            r,
        ) <==> (r matches Err(c) && invalid(c, "backend name must not be empty"@))),
        !addr.contains('=') ==> (arg_outcome(addr, Ok::<SocketAddr, String>(a), r) <==> (
        r matches Ok(b) && b@ == (BackendView {
            name: backend_name_of(a@),
            addr: a@,
            pair_code: None,
            enabled: true,
        }))),
        arg_outcome(addr, Err(e), r) <==> (r matches Err(c) && invalid(c, "backend addr: "@ + e@)),
{
    parts_end_at_separators(name, '=', addr);
    let s = name + seq!['='] + addr;
    assert(s.take(name.len() as int) =~= name);
    assert(s.skip(name.len() as int + 1) =~= addr);
    if !addr.contains('=') {
        parts_end_at_separators(addr, '=', Seq::empty());
    }
}

/// A path under a directory has one separator between the two.
pub proof fn paths_are_joined_once(base: Seq<char>, rel: Seq<char>)
    ensures
        base.len() > 0 && base.last() != '/' ==> path_chars(base, rel) == base + seq!['/'] + rel,
        base.len() > 0 && base.last() == '/' ==> path_chars(base, rel) == base + rel,
        path_chars(Seq::empty(), rel) == rel,
{
    reveal_strlit("/");
    assert("/"@ =~= seq!['/']);
    assert(Seq::<char>::empty() + rel =~= rel);
}

/// `HOME` is the user's home, and `USERPROFILE` where there is no `HOME`.
pub proof fn home_comes_before_profile(home: &str, profile: Option<&str>)
    ensures
        home_of(Some(home), profile) == Some(home@),
        profile is Some ==> home_of(None, profile) == Some(profile->0@),
        home_of(None, None) is None,
{
}

/// Configuration files have their usual places under the user's home, on Windows
/// under `APPDATA`.
pub proof fn files_have_their_places(
    appdata: Option<&str>,
    home: Option<&str>,
    current: String,
    old: String,
    legacy: String,
)
    requires
        call_ensures(default_config_path, (appdata, home), current),
        call_ensures(old_config_path, (home,), old),
        call_ensures(legacy_config_path, (home,), legacy),
    ensures
        appdata matches Some(a) ==> current@ == path_chars(a@, "adb-hub/config.toml"@),
        appdata is None ==> current@ == old@,
        home matches Some(h) ==> old@ == path_chars(h@, ".config/adb-hub/config.toml"@) && legacy@
            == path_chars(h@, ".adbproxy"@),
        home is None ==> old@ == "config.toml"@ && legacy@ == ".adbproxy"@,
{
}

/// What is kept of a configuration is all of it: the addresses as text, every
/// setting, each backend in order, and the devices that are switched off.
pub proof fn nothing_is_left_out_of_a_file(c: HubView, file: TomlFile, i: int)
    requires
        saved_as(c, file),
        0 <= i < c.backends.len(),
    ensures
        file.listen@ == c.listen.chars(),
        file.poll_interval_ms == c.poll_interval_ms,
        file.adb_version == c.adb_version,
        file.include_local == c.include_local,
        file.local_adb_port == c.local_adb_port,
        file.backend@.len() == c.backends.len(),
        opt_view(file.backend@[i].name) == Some(c.backends[i].name),
        file.backend@[i].addr@ == c.backends[i].addr.chars(),
        opt_view(file.backend@[i].pair_code) == c.backends[i].pair_code,
        file.backend@[i].enabled == c.backends[i].enabled,
{
    assert(saved_backend(c.backends[i], file.backend@[i]));
}

/// A backend that was entered is configured as given; those of other names stay as
/// they were, and nothing else of the configuration changes.
pub proof fn entered_backends_are_configured(
    c: &mut HubConfig,
    backend: BackendConfig,
    other: BackendView,
)
    requires
        call_ensures(HubConfig::upsert_backend, (c, backend), ()),
    ensures
        final(c)@.backends.contains(backend@),
        other.name != backend@.name ==> final(c)@.backends.contains(other) == old(
            c,
        )@.backends.contains(other),
        final(c)@ == (HubView { backends: final(c)@.backends, ..old(c)@ }),
{
    let s = old(c)@.backends;
    let t = final(c)@.backends;
    let b = backend@;
    lemma_index_is_first(s, b.name);
    let k = backend_index(s, b.name);
    assert(t[k] == b);
    assert(k < t.len());
    if other.name != b.name && s.contains(other) {
        let i = choose|i: int| 0 <= i < s.len() && s[i] == other;
        assert(i != k);
        assert(t[i] == other);
    }
    if other.name != b.name && t.contains(other) {
        let i = choose|i: int| 0 <= i < t.len() && t[i] == other;
        assert(i != k);
        assert(s[i] == other);
    }
}

/// Switching a backend changes nothing but whether the first one of that name is
/// enabled; a name that no backend has is an error, and changes nothing.
pub proof fn switched_backends_stay_so(
    c: &mut HubConfig,
    name: &str,
    enabled: bool,
    r: Result<(), ConfigError>,
    i: int,
)
    requires
        call_ensures(HubConfig::set_backend_enabled, (c, name, enabled), r),
        0 <= i < old(c)@.backends.len(),
    ensures
        old(c)@.backends[i].name == name@ ==> r is Ok,
        r is Err ==> final(c)@ == old(c)@,
        final(c)@.backends.len() == old(c)@.backends.len(),
        final(c)@.backends[i] == (BackendView {
            enabled: final(c)@.backends[i].enabled,
            ..old(c)@.backends[i]
        }),
        old(c)@.backends[i].name == name@ && (forall|j: int|
            0 <= j < i ==> (#[trigger] old(c)@.backends[j]).name != name@)
            ==> final(c)@.backends[i].enabled == enabled,
        old(c)@.backends[i].name != name@ ==> final(c)@.backends[i] == old(c)@.backends[i],
        final(c)@ == (HubView { backends: final(c)@.backends, ..old(c)@ }),
{
    let s = old(c)@.backends;
    lemma_index_is_first(s, name@);
    let k = backend_index(s, name@);
    assert(k < s.len() ==> s[k].name == name@);
}

/// A device that was switched on or off is so from then on; no other is switched,
/// and nothing else of the configuration changes.
pub proof fn switched_devices_are_configured(
    c: &mut HubConfig,
    serial: &str,
    enabled: bool,
    other: Seq<char>,
)
    requires
        call_ensures(HubConfig::set_device_enabled, (c, serial, enabled), ()),
    ensures
        enabled_by(final(c)@.devices, serial@) == enabled,
        other != serial@ ==> enabled_by(final(c)@.devices, other) == enabled_by(
            old(c)@.devices,
            other,
        ),
        final(c)@ == (HubView { devices: final(c)@.devices, ..old(c)@ }),
{
}

/// A file whose addresses can be read is accepted exactly if its ports differ and it
/// names something to poll; what it says is then what is configured. Any other is
/// refused as invalid.
pub proof fn files_are_taken_or_refused(
    file: TomlFile,
    listen: Result<SocketAddr, String>,
    addrs: Vec<Result<SocketAddr, String>>,
    r: Result<HubConfig, ConfigError>,
    i: int,
)
    requires
        addrs@.len() == file.backend@.len(),
        call_ensures(HubConfig::from_toml_parts, (file, listen, addrs), r),
    ensures
        r is Ok <==> {
            &&& listen is Ok
            &&& file.local_adb_port != 0
            &&& file.local_adb_port != listen->Ok_0@.port()
            &&& forall|j: int| 0 <= j < addrs@.len() ==> (#[trigger] addrs@[j]) is Ok
            &&& addrs@.len() > 0 || file.include_local
        },
        r matches Err(e) ==> e is Invalid,
        r matches Ok(c) ==> {
            &&& c@.listen == listen->Ok_0@
            &&& c@.adb_version == file.adb_version
            &&& c@.include_local == file.include_local
            &&& c@.local_adb_port == file.local_adb_port
            &&& c@.poll_interval_ms == (if file.poll_interval_ms < 100 {
                100
            } else {
                file.poll_interval_ms
            })
            &&& c@.devices == policy_map(file.device@)
            &&& c@.backends.len() == file.backend@.len()
            &&& 0 <= i < addrs@.len() ==> {
                &&& c@.backends[i].addr == addrs@[i]->Ok_0@
                &&& c@.backends[i].pair_code == opt_view(file.backend@[i].pair_code)
                &&& c@.backends[i].enabled == file.backend@[i].enabled
                &&& file.backend@[i].name matches Some(n) ==> c@.backends[i].name == n@
            }
        },
{
    usable_files_are_accepted(file, listen, addrs@);
    if r is Ok && 0 <= i < addrs@.len() {
        assert(addrs@[i] is Ok);
        files_mean_what_they_say(file, listen->Ok_0, addrs@, i);
    }
}

/// A legacy file whose address can be read gives one enabled backend at that address
/// besides the defaults; any other is refused as invalid.
pub proof fn legacy_addresses_are_used(
    addr: Result<SocketAddr, String>,
    r: Result<HubConfig, ConfigError>,
)
    requires
        call_ensures(HubConfig::from_legacy_addr, (addr,), r),
    ensures
        r is Ok <==> addr is Ok,
        r matches Err(e) ==> invalid(e, "legacy host:port: "@ + addr->Err_0@),
        r matches Ok(c) ==> {
            &&& c@.backends == seq![
                BackendView {
                    name: backend_name_of(addr->Ok_0@),
                    addr: addr->Ok_0@,
                    pair_code: None,
                    enabled: true,
                },
            ]
            &&& c@ == (HubView { backends: c@.backends, ..local_only_view() })
        },
{
    if addr is Ok {
        legacy_files_name_one_backend(Seq::empty(), addr->Ok_0@);
    }
}

} // verus!
