//! The proxy's device policy file.

use vstd::prelude::*;
use vstd::string::*;

use crate::config::{join_path, path_chars};
use crate::fault::IoFault;
use crate::policy::{
    all_disabled, by_serial, disabled_entries_round_trip, disabled_set, enabled_by,
    last_entry_counts, named, policy_map, DevicePolicyEntry, DevicePolicyTable,
};
use crate::text::cat2;

verus! {

/// Why the policy file could not be used.
#[derive(Debug)]
pub enum ProxyConfigError {
    Io(IoFault),
    Toml(String),
    TomlSer(String),
}

impl ProxyConfigError {
    /// The message shown to the user.
    pub open spec fn chars(self) -> Seq<char> {
        match self {
            ProxyConfigError::Io(f) => "io error: "@ + f.message@,
            ProxyConfigError::Toml(m) => "toml parse error: "@ + m@,
            ProxyConfigError::TomlSer(m) => "toml serialize error: "@ + m@,
        }
    }

    /// The message shown to the user.
    pub fn to_string(&self) -> (s: String)
        ensures
            s@ == self.chars(),
    {
        match self {
            ProxyConfigError::Io(f) => cat2("io error: ", f.message.as_str()),
            ProxyConfigError::Toml(m) => cat2("toml parse error: ", m.as_str()),
            ProxyConfigError::TomlSer(m) => cat2("toml serialize error: ", m.as_str()),
        }
    }
}

/// The policy file.
#[derive(Clone, Debug)]
pub struct ProxyFileConfig {
    pub devices: DevicePolicyTable,
}

impl Default for ProxyFileConfig {
    fn default() -> (r: Self)
        ensures
            r.devices@ == Map::<Seq<char>, bool>::empty(),
    {
        ProxyFileConfig { devices: DevicePolicyTable::default() }
    }
}

/// What the entries of a file say; a file that is not there says nothing.
pub open spec fn entries_map(entries: Option<Vec<DevicePolicyEntry>>) -> Map<Seq<char>, bool> {
    match entries {
        Some(e) => policy_map(e@),
        None => Map::empty(),
    }
}

/// Whether `e` are the entries to write for a policy: one for each disabled
/// device, ordered by serial.
pub open spec fn written_entries(policy: Map<Seq<char>, bool>, e: Seq<DevicePolicyEntry>) -> bool {
    all_disabled(e) && by_serial(e) && named(e) == disabled_set(policy)
}

impl ProxyFileConfig {
    /// The policy of a file with these `[[device]]` entries.
    pub fn from_entries(entries: Vec<DevicePolicyEntry>) -> (r: Self)
        ensures
            r.devices@ == policy_map(entries@),
    {
        ProxyFileConfig { devices: DevicePolicyTable::from_entries(entries) }
    }

    /// The policy of a file that was looked for: none where there is no file.
    pub fn from_loaded(entries: Option<Vec<DevicePolicyEntry>>) -> (r: Self)
        ensures
            r.devices@ == entries_map(entries),
    {
        match entries {
            Some(e) => ProxyFileConfig::from_entries(e),
            None => ProxyFileConfig::default(),
        }
    }

    /// The `[[device]]` entries to write, ordered by serial; none where the
    /// file is to be empty. Only disabled devices are written.
    pub fn to_entries(&self) -> (r: Option<Vec<DevicePolicyEntry>>)
        ensures
            match r {
                Some(e) => e@.len() > 0 && written_entries(self.devices@, e@),
                None => disabled_set(self.devices@) == Set::<Seq<char>>::empty(),
            },
    {
        let entries = self.devices.to_disabled_entries();
        if entries.len() == 0 {
            assert(named(entries@) =~= Set::<Seq<char>>::empty());
            None
        } else {
            Some(entries)
        }
    }

    /// The policy in the text of a file. `read` parses its `[[device]]` entries.
    pub fn from_toml_str<R: Fn(&str) -> Result<Vec<DevicePolicyEntry>, String>>(
        text: &str,
        read: R,
    ) -> (r: Result<Self, ProxyConfigError>)
        requires
            call_requires(read, (text,)),
        ensures
            exists|parsed: Result<Vec<DevicePolicyEntry>, String>| #[trigger]
                call_ensures(read, (text,), parsed) && match parsed {
                    Ok(entries) => r matches Ok(c) && c.devices@ == policy_map(entries@),
                    Err(why) => r matches Err(ProxyConfigError::Toml(m)) && m@ == why@,
                },
    {
        let parsed = read(text);
        assert(call_ensures(read, (text,), parsed));
        match parsed {
            Ok(entries) => Ok(ProxyFileConfig::from_entries(entries)),
            Err(why) => Err(ProxyConfigError::Toml(why)),
        }
    }

    /// The text of the file that keeps this policy: empty where no device is
    /// disabled, else what `write` makes of the entries.
    pub fn to_toml_string<W: Fn(&Vec<DevicePolicyEntry>) -> Result<String, String>>(
        &self,
        write: W,
    ) -> (r: Result<String, ProxyConfigError>)
        requires
            forall|e: &Vec<DevicePolicyEntry>| call_requires(write, (e,)),
        ensures
            if disabled_set(self.devices@) == Set::<Seq<char>>::empty() {
                r matches Ok(s) && s@.len() == 0
            } else {
                exists|e: &Vec<DevicePolicyEntry>, written: Result<String, String>| #[trigger]
                    call_ensures(write, (e,), written) && written_entries(self.devices@, e@)
                        && match written {
                        Ok(text) => r matches Ok(s) && s@ == text@,
                        Err(why) => r matches Err(ProxyConfigError::TomlSer(m)) && m@ == why@,
                    }
            },
    {
        match self.to_entries() {
            None => Ok(String::new()),
            Some(entries) => {
                assert(disabled_set(self.devices@).contains(entries@[0].serial@)) by {
                    assert(named(entries@).contains(entries@[0].serial@));
                }
                let written = write(&entries);
                assert(call_ensures(write, (&entries,), written));
                match written {
                    Ok(text) => Ok(text),
                    Err(why) => Err(ProxyConfigError::TomlSer(why)),
                }
            },
        }
    }

    /// Switch a device on or off.
    pub fn set_device_enabled(&mut self, serial: &str, enabled: bool)
        ensures
            final(self).devices@ == (if enabled {
                old(self).devices@.remove(serial@)
            } else {
                old(self).devices@.insert(serial@, false)
            }),
    {
        self.devices.set_enabled(serial, enabled);
    }
}

/// The directory of the policy file: `adb-proxy` under `APPDATA` where that is
/// given (on Windows), else under the user's home, else the current one.
pub open spec fn config_dir(appdata: Option<&str>, home: Option<&str>) -> Seq<char> {
    match appdata {
        Some(a) => path_chars(a@, "adb-proxy"@),
        None => match home {
            Some(h) => path_chars(h@, ".config/adb-proxy"@),
            None => "."@,
        },
    }
}

/// The directory of the policy file.
pub fn proxy_config_dir(appdata: Option<&str>, home: Option<&str>) -> (r: String)
    ensures
        r@ == config_dir(appdata, home),
{
    match appdata {
        Some(a) => join_path(a, "adb-proxy"),
        None => match home {
            Some(h) => join_path(h, ".config/adb-proxy"),
            None => ".".to_owned(),
        },
    }
}

/// The policy file that is used when none is named.
pub fn default_proxy_config_path(appdata: Option<&str>, home: Option<&str>) -> (r: String)
    ensures
        r@ == path_chars(config_dir(appdata, home), "config.toml"@),
{
    let dir = proxy_config_dir(appdata, home);
    join_path(dir.as_str(), "config.toml")
}

/// A device policy that is read again when its file's modification time
/// changes. Times are in nanoseconds; a file that is not there has none.
#[derive(Debug)]
pub struct ReloadableProxyPolicy {
    pub path: String,
    pub mtime: Option<i128>,
    pub table: DevicePolicyTable,
}

/// Whether `entries` is what reading the file gives.
pub open spec fn loads<L: Fn(&str) -> Option<Vec<DevicePolicyEntry>>>(
    load: L,
    path: Seq<char>,
    entries: Option<Vec<DevicePolicyEntry>>,
) -> bool {
    exists|p: &str| p@ == path && #[trigger] call_ensures(load, (p,), entries)
}

/// Whether any file can be read.
pub open spec fn loads_all<L: Fn(&str) -> Option<Vec<DevicePolicyEntry>>>(load: L) -> bool {
    forall|p: &str| call_requires(load, (p,))
}

impl ReloadableProxyPolicy {
    /// The policy of the file at `path`, as it was read at `mtime`. A file that
    /// could not be read holds no entries.
    pub fn new(path: &str, entries: Option<Vec<DevicePolicyEntry>>, mtime: Option<i128>) -> (r: Self)
        ensures
            r.path@ == path@,
            r.mtime == mtime,
            r.table@ == entries_map(entries),
    {
        ReloadableProxyPolicy {
            path: path.to_owned(),
            mtime,
            table: ProxyFileConfig::from_loaded(entries).devices,
        }
    }

    /// The file of the policy.
    pub fn path(&self) -> (r: &str)
        ensures
            r@ == self.path@,
    {
        self.path.as_str()
    }

    /// Take over what was read from the file at `mtime`.
    pub fn replace(&mut self, entries: Option<Vec<DevicePolicyEntry>>, mtime: Option<i128>)
        ensures
            final(self).path@ == old(self).path@,
            final(self).mtime == mtime,
            final(self).table@ == entries_map(entries),
    {
        self.mtime = mtime;
        self.table = ProxyFileConfig::from_loaded(entries).devices;
    }

    /// The policy as of now: read again with `load` if the file's time is no
    /// longer the one it was last read at, and only then.
    pub fn refresh<L: Fn(&str) -> Option<Vec<DevicePolicyEntry>>>(
        &mut self,
        mtime: Option<i128>,
        load: L,
    ) -> (table: DevicePolicyTable)
        requires
            loads_all(load),
        ensures
            table@ == final(self).table@,
            final(self).path@ == old(self).path@,
            final(self).mtime == mtime,
            if mtime == old(self).mtime {
                final(self).table@ == old(self).table@
            } else {
                exists|entries: Option<Vec<DevicePolicyEntry>>| #[trigger]
                    loads(load, old(self).path@, entries) && final(self).table@ == entries_map(
                        entries,
                    )
            },
    {
        let same = match (mtime, self.mtime) {
            (Some(a), Some(b)) => a == b,
            (None, None) => true,
            _ => false,
        };
        if !same {
            let entries = load(self.path.as_str());
            assert(loads(load, self.path@, entries));
            self.replace(entries, mtime);
        }
        self.table.clone()
    }

    /// Whether a device is enabled as of now.
    pub fn is_enabled<L: Fn(&str) -> Option<Vec<DevicePolicyEntry>>>(
        &mut self,
        serial: &str,
        mtime: Option<i128>,
        load: L,
    ) -> (r: bool)
        requires
            loads_all(load),
        ensures
            r == enabled_by(final(self).table@, serial@),
            final(self).path@ == old(self).path@,
            final(self).mtime == mtime,
            if mtime == old(self).mtime {
                final(self).table@ == old(self).table@
            } else {
                exists|entries: Option<Vec<DevicePolicyEntry>>| #[trigger]
                    loads(load, old(self).path@, entries) && final(self).table@ == entries_map(
                        entries,
                    )
            },
    {
        let table = self.refresh(mtime, load);
        table.is_enabled(serial)
    }
}

/// A policy that was written is read back: every device is enabled or disabled
/// as before.
pub proof fn written_policy_is_read_back(
    policy: Map<Seq<char>, bool>,
    entries: Option<Vec<DevicePolicyEntry>>,
    serial: Seq<char>,
)
    requires
        match entries {
            Some(e) => written_entries(policy, e@),
            None => disabled_set(policy) == Set::<Seq<char>>::empty(),
        },
    ensures
        enabled_by(entries_map(entries), serial) == enabled_by(policy, serial),
{
    match entries {
        Some(e) => {
            disabled_entries_round_trip(policy, e@, serial);
        },
        None => {
            if !enabled_by(policy, serial) {
                assert(disabled_set(policy).contains(serial));
            }
        },
    }
}

/// The policy file is under `APPDATA` on Windows, else under the user's home, else
/// in the current directory.
pub proof fn policy_file_has_its_place(a: &str, h: &str, home: Option<&str>)
    ensures
        config_dir(Some(a), home) == path_chars(a@, "adb-proxy"@),
        config_dir(None, Some(h)) == path_chars(h@, ".config/adb-proxy"@),
        config_dir(None, None) == "."@,
{
}

/// A policy is what the entries of its file say, the last one of a device counting; a
/// file that is not there disables nothing.
pub proof fn policies_are_what_files_say(entries: Vec<DevicePolicyEntry>, serial: Seq<char>, i: int)
    ensures
        enabled_by(entries_map(None), serial),
        0 <= i < entries@.len() && entries@[i].serial@ == serial && (forall|j: int|
            i < j < entries@.len() ==> (#[trigger] entries@[j]).serial@ != serial) ==> enabled_by(
            entries_map(Some(entries)),
            serial,
        ) == entries@[i].enabled,
        (forall|j: int| 0 <= j < entries@.len() ==> (#[trigger] entries@[j]).serial@ != serial)
            ==> enabled_by(entries_map(Some(entries)), serial),
{
    last_entry_counts(entries@, i, serial);
}

/// A device that was switched on or off is so from then on; no other is switched.
pub proof fn switched_devices_are_kept(
    c: &mut ProxyFileConfig,
    serial: &str,
    enabled: bool,
    other: Seq<char>,
)
    requires
        call_ensures(ProxyFileConfig::set_device_enabled, (c, serial, enabled), ()),
    ensures
        enabled_by(final(c).devices@, serial@) == enabled,
        other != serial@ ==> enabled_by(final(c).devices@, other) == enabled_by(
            old(c).devices@,
            other,
        ),
{
}

/// A policy that was read again is that of the last entry for each device, and of
/// nothing that was read before.
pub proof fn reread_policies_replace_the_old(
    p: &mut ReloadableProxyPolicy,
    entries: Vec<DevicePolicyEntry>,
    mtime: Option<i128>,
    i: int,
    serial: Seq<char>,
)
    requires
        call_ensures(ReloadableProxyPolicy::replace, (p, Some(entries), mtime), ()),
        0 <= i < entries@.len(),
        forall|j: int|
            i < j < entries@.len() ==> (#[trigger] entries@[j]).serial@ != entries@[i].serial@,
    ensures
        enabled_by(final(p).table@, entries@[i].serial@) == entries@[i].enabled,
        (forall|j: int| 0 <= j < entries@.len() ==> (#[trigger] entries@[j]).serial@ != serial)
            ==> enabled_by(final(p).table@, serial),
        final(p).path@ == old(p).path@,
        final(p).mtime == mtime,
{
    last_entry_counts(entries@, i, entries@[i].serial@);
    last_entry_counts(entries@, i, serial);
}

} // verus!
