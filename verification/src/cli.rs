//! What the command lines ask for, and what they print.

use vstd::prelude::*;
use vstd::string::*;

use crate::addr::{AddrView, SocketAddr};
use crate::auth::{generate_pair_code, pair_code_fault, valid_pair_code, validate_pair_code};
use crate::config::{
    backend_index, backend_name_of, backend_views, clamp_poll, default_backend_name,
    lemma_index_is_first, local_only_view, loopback_view, poll_floor, upserted,
    upserted_backend_is_found, BackendConfig, BackendView, ConfigError, HubConfig, HubView,
};
use crate::digits::{pad_right, push_padded, repeat_char};
use crate::policy::{enabled_by, DevicePolicyTable};
use crate::registry::{device_fields, parse_device_line, DeviceSnapshot, EntryView};
use crate::text::{
    cat2, cat3, is_white_space, is_word, lemma_word_alone, lemma_words_concat, lines, lines_seq,
    only_white_space_is_trimmed, str_eq, trim_start_seq, views, words_seq,
};

verus! {

/// The pair code of a proxy: the given one, if it is valid, else a new one.
pub fn choose_pair_code(given: Option<String>) -> (r: Result<String, String>)
    ensures
        match given {
            Some(code) => if valid_pair_code(code@) {
                r matches Ok(c) && c@ == code@
            } else {
                r matches Err(e) && e@ == "invalid --pair-code: "@ + pair_code_fault(code@)
            },
            None => r matches Ok(c) && valid_pair_code(c@),
        },
{
    match given {
        Some(code) => match validate_pair_code(code.as_str()) {
            Ok(_) => Ok(code),
            Err(e) => Err(cat2("invalid --pair-code: ", e.as_str())),
        },
        None => Ok(generate_pair_code()),
    }
}

/// The backend that pairing adds.
pub open spec fn paired_backend(
    addr: AddrView,
    code: Seq<char>,
    name: Option<Seq<char>>,
) -> BackendView {
    BackendView {
        name: match name {
            Some(n) => n,
            None => backend_name_of(addr),
        },
        addr,
        pair_code: Some(code),
        enabled: true,
    }
}

/// The model of an optional text.
pub open spec fn opt_chars(s: Option<&str>) -> Option<Seq<char>> {
    match s {
        Some(t) => Some(t@),
        None => None,
    }
}

/// Enter a proxy that accepted its pair code into the configuration, under
/// `name` or the name that stands for its address. Gives the name.
pub fn pair_backend(config: &mut HubConfig, addr: &SocketAddr, code: &str, name: Option<&str>) -> (r:
    String)
    ensures
        r@ == paired_backend(addr@, code@, opt_chars(name)).name,
        final(config)@ == (HubView {
            backends: upserted(
                old(config)@.backends,
                paired_backend(addr@, code@, opt_chars(name)),
            ),
            ..old(config)@
        }),
{
    let backend_name = match name {
        Some(n) => n.to_owned(),
        None => default_backend_name(addr),
    };
    let b = BackendConfig {
        name: backend_name.clone(),
        addr: addr.clone(),
        pair_code: Some(code.to_owned()),
        enabled: true,
    };
    config.upsert_backend(b);
    backend_name
}

/// `yes` or `no`.
pub open spec fn yes_no(b: bool) -> Seq<char> {
    if b {
        "yes"@
    } else {
        "no"@
    }
}

/// `yes` or `no`.
fn yes_or_no(b: bool) -> (s: &'static str)
    ensures
        s@ == yes_no(b),
{
    if b {
        "yes"
    } else {
        "no"
    }
}

/// A row of the hub's device table.
pub open spec fn hub_row(
    serial: Seq<char>,
    state: Seq<char>,
    enabled: Seq<char>,
    node: Seq<char>,
) -> Seq<char> {
    pad_right(serial, 28) + " "@ + pad_right(state, 12) + " "@ + pad_right(enabled, 10) + " "@ + node
        + "\n"@
}

/// The rows of the devices that the backends list.
pub open spec fn listed_rows(s: Seq<EntryView>, policy: Map<Seq<char>, bool>) -> Seq<char>
    decreases s.len(),
{
    if s.len() == 0 {
        Seq::empty()
    } else {
        let d = s.last();
        listed_rows(s.drop_last(), policy) + hub_row(
            d.public_serial,
            d.state,
            yes_no(enabled_by(policy, d.public_serial)),
            d.backend_name,
        )
    }
}

/// Whether a device with this public serial is listed.
pub open spec fn is_listed(s: Seq<EntryView>, serial: Seq<char>) -> bool {
    exists|i: int| 0 <= i < s.len() && (#[trigger] s[i]).public_serial == serial
}

/// The rows of the devices that are disabled and not listed.
pub open spec fn missing_rows(explicit: Seq<(String, bool)>, s: Seq<EntryView>) -> Seq<char>
    decreases explicit.len(),
{
    if explicit.len() == 0 {
        Seq::empty()
    } else {
        let (serial, enabled) = explicit.last();
        let before = missing_rows(explicit.drop_last(), s);
        if !enabled && !is_listed(s, serial@) {
            before + hub_row(serial@, "-"@, "no"@, "-"@)
        } else {
            before
        }
    }
}

/// Append a row of the hub's device table.
fn push_hub_row(out: &mut String, serial: &str, state: &str, enabled: &str, node: &str)
    ensures
        final(out)@ == old(out)@ + hub_row(serial@, state@, enabled@, node@),
{
    push_padded(out, serial, 28);
    out.append(" ");
    push_padded(out, state, 12);
    out.append(" ");
    push_padded(out, enabled, 10);
    out.append(" ");
    out.append(node);
    out.append("\n");
    assert(out@ =~= old(out)@ + hub_row(serial@, state@, enabled@, node@));
}

/// The hub's device table: what the backends list, then the disabled devices
/// that are not there. `explicit` is what the policy says by name.
pub fn hub_device_table(
    snap: &DeviceSnapshot,
    policy: &DevicePolicyTable,
    explicit: &Vec<(String, bool)>,
) -> (out: String)
    ensures
        out@ == hub_row("SERIAL"@, "STATE"@, "ENABLED"@, "NODE"@) + listed_rows(snap@, policy@)
            + missing_rows(explicit@, snap@),
{
    let mut out = String::new();
    push_hub_row(&mut out, "SERIAL", "STATE", "ENABLED", "NODE");
    let ghost head = out@;
    assert(head =~= hub_row("SERIAL"@, "STATE"@, "ENABLED"@, "NODE"@));
    let mut i: usize = 0;
    assert(snap@.take(0) =~= Seq::<EntryView>::empty());
    assert(head =~= head + listed_rows(snap@.take(0), policy@));
    while i < snap.devices.len()
        invariant
            i <= snap.devices@.len(),
            out@ == head + listed_rows(snap@.take(i as int), policy@),
        decreases snap.devices@.len() - i,
    {
        let d = &snap.devices[i];
        assert(snap@.take(i + 1).drop_last() =~= snap@.take(i as int));
        assert(snap@.take(i + 1).last() == d@);
        let enabled = yes_or_no(policy.is_enabled(d.public_serial.as_str()));
        push_hub_row(
            &mut out,
            d.public_serial.as_str(),
            d.state.as_str(),
            enabled,
            d.backend_name.as_str(),
        );
        assert(out@ =~= head + listed_rows(snap@.take(i + 1), policy@));
        i += 1;
    }
    assert(snap@.take(i as int) =~= snap@);
    let ghost upper = out@;
    let mut k: usize = 0;
    assert(explicit@.take(0) =~= Seq::<(String, bool)>::empty());
    assert(upper =~= upper + missing_rows(explicit@.take(0), snap@));
    while k < explicit.len()
        invariant
            k <= explicit@.len(),
            out@ == upper + missing_rows(explicit@.take(k as int), snap@),
        decreases explicit@.len() - k,
    {
        assert(explicit@.take(k + 1).drop_last() =~= explicit@.take(k as int));
        assert(explicit@.take(k + 1).last() == explicit@[k as int]);
        let serial = explicit[k].0.as_str();
        if !explicit[k].1 && !lists_serial(snap, serial) {
            push_hub_row(&mut out, serial, "-", "no", "-");
            assert(out@ =~= upper + missing_rows(explicit@.take(k + 1), snap@));
        }
        k += 1;
    }
    assert(explicit@.take(k as int) =~= explicit@);
    out
}

/// Whether a device with this public serial is listed.
fn lists_serial(snap: &DeviceSnapshot, serial: &str) -> (r: bool)
    ensures
        r == is_listed(snap@, serial@),
{
    let mut i: usize = 0;
    while i < snap.devices.len()
        invariant
            i <= snap.devices@.len(),
            forall|j: int| 0 <= j < i ==> (#[trigger] snap@[j]).public_serial != serial@,
        decreases snap.devices@.len() - i,
    {
        if str_eq(snap.devices[i].public_serial.as_str(), serial) {
            assert(snap@[i as int].public_serial == serial@);
            return true;
        }
        i += 1;
    }
    false
}

/// A row of the proxy's device table.
pub open spec fn proxy_row(serial: Seq<char>, state: Seq<char>, enabled: Seq<char>) -> Seq<char> {
    pad_right(serial, 24) + " "@ + pad_right(state, 12) + " "@ + enabled + "\n"@
}

/// The rows of the devices on the lines of a device list.
pub open spec fn live_rows(all: Seq<Seq<char>>, policy: Map<Seq<char>, bool>) -> Seq<char>
    decreases all.len(),
{
    if all.len() == 0 {
        Seq::empty()
    } else {
        let before = live_rows(all.drop_last(), policy);
        match device_fields(all.last()) {
            Some((serial, state, _)) => before + proxy_row(
                serial,
                state,
                yes_no(enabled_by(policy, serial)),
            ),
            None => before,
        }
    }
}

/// Whether a line of a device list names a device with this serial.
pub open spec fn is_live(all: Seq<Seq<char>>, serial: Seq<char>) -> bool {
    exists|i: int|
        0 <= i < all.len() && (device_fields(#[trigger] all[i]) matches Some((s, _, _)) && s
            == serial)
}

/// The rows of the devices that are disabled and on no line of a device list.
pub open spec fn absent_rows(explicit: Seq<(String, bool)>, all: Seq<Seq<char>>) -> Seq<char>
    decreases explicit.len(),
{
    if explicit.len() == 0 {
        Seq::empty()
    } else {
        let (serial, enabled) = explicit.last();
        let before = absent_rows(explicit.drop_last(), all);
        if !enabled && !is_live(all, serial@) {
            before + proxy_row(serial@, "-"@, "no"@)
        } else {
            before
        }
    }
}

/// Append a row of the proxy's device table.
fn push_proxy_row(out: &mut String, serial: &str, state: &str, enabled: &str)
    ensures
        final(out)@ == old(out)@ + proxy_row(serial@, state@, enabled@),
{
    push_padded(out, serial, 24);
    out.append(" ");
    push_padded(out, state, 12);
    out.append(" ");
    out.append(enabled);
    out.append("\n");
    assert(out@ =~= old(out)@ + proxy_row(serial@, state@, enabled@));
}

/// Whether a line of a device list names a device with this serial.
fn names_serial(all: &Vec<String>, serial: &str) -> (r: bool)
    ensures
        r == is_live(views(all@), serial@),
{
    let ghost texts = views(all@);
    let mut i: usize = 0;
    while i < all.len()
        invariant
            i <= all@.len(),
            texts == views(all@),
            forall|j: int|
                0 <= j < i ==> !(device_fields(#[trigger] texts[j]) matches Some((s, _, _)) && s
                    == serial@),
        decreases all@.len() - i,
    {
        assert(texts[i as int] == all@[i as int]@);
        if let Some((s, _, _)) = parse_device_line(all[i].as_str()) {
            if str_eq(s.as_str(), serial) {
                return true;
            }
        }
        i += 1;
    }
    false
}

/// The proxy's device table: what the local adb server lists, then the
/// disabled devices that are not there. `explicit` is what the policy says by
/// name.
pub fn proxy_device_table(live: &str, policy: &DevicePolicyTable, explicit: &Vec<(String, bool)>) -> (out:
    String)
    ensures
        out@ == proxy_row("SERIAL"@, "STATE"@, "ENABLED"@) + live_rows(lines_seq(live@), policy@)
            + absent_rows(explicit@, lines_seq(live@)),
{
    let all = lines(live);
    let ghost texts = views(all@);
    let mut out = String::new();
    push_proxy_row(&mut out, "SERIAL", "STATE", "ENABLED");
    let ghost head = out@;
    assert(head =~= proxy_row("SERIAL"@, "STATE"@, "ENABLED"@));
    let mut i: usize = 0;
    assert(texts.take(0) =~= Seq::<Seq<char>>::empty());
    assert(head =~= head + live_rows(texts.take(0), policy@));
    while i < all.len()
        invariant
            i <= all@.len(),
            texts == views(all@),
            out@ == head + live_rows(texts.take(i as int), policy@),
        decreases all@.len() - i,
    {
        assert(texts.take(i + 1).drop_last() =~= texts.take(i as int));
        assert(texts.take(i + 1).last() == all@[i as int]@);
        if let Some((serial, state, _)) = parse_device_line(all[i].as_str()) {
            let enabled = yes_or_no(policy.is_enabled(serial.as_str()));
            push_proxy_row(&mut out, serial.as_str(), state.as_str(), enabled);
            assert(out@ =~= head + live_rows(texts.take(i + 1), policy@));
        }
        i += 1;
    }
    assert(texts.take(i as int) =~= texts);
    let ghost upper = out@;
    let mut k: usize = 0;
    assert(explicit@.take(0) =~= Seq::<(String, bool)>::empty());
    assert(upper =~= upper + absent_rows(explicit@.take(0), texts));
    while k < explicit.len()
        invariant
            k <= explicit@.len(),
            texts == views(all@),
            out@ == upper + absent_rows(explicit@.take(k as int), texts),
        decreases explicit@.len() - k,
    {
        assert(explicit@.take(k + 1).drop_last() =~= explicit@.take(k as int));
        assert(explicit@.take(k + 1).last() == explicit@[k as int]);
        let serial = explicit[k].0.as_str();
        if !explicit[k].1 && !names_serial(&all, serial) {
            push_proxy_row(&mut out, serial, "-", "no");
            assert(out@ =~= upper + absent_rows(explicit@.take(k + 1), texts));
        }
        k += 1;
    }
    assert(explicit@.take(k as int) =~= explicit@);
    out
}

/// A row of the node table.
pub open spec fn node_row(name: Seq<char>, addr: Seq<char>, enabled: Seq<char>) -> Seq<char> {
    pad_right(name, 20) + " "@ + pad_right(addr, 24) + " "@ + enabled + "\n"@
}

/// The rows of the node table.
pub open spec fn node_rows(s: Seq<BackendView>) -> Seq<char>
    decreases s.len(),
{
    if s.len() == 0 {
        Seq::empty()
    } else {
        node_rows(s.drop_last()) + node_row(
            s.last().name,
            s.last().addr.chars(),
            yes_no(s.last().enabled),
        )
    }
}

/// Append a row of the node table.
fn push_node_row(out: &mut String, name: &str, addr: &str, enabled: &str)
    ensures
        final(out)@ == old(out)@ + node_row(name@, addr@, enabled@),
{
    push_padded(out, name, 20);
    out.append(" ");
    push_padded(out, addr, 24);
    out.append(" ");
    out.append(enabled);
    out.append("\n");
    assert(out@ =~= old(out)@ + node_row(name@, addr@, enabled@));
}

/// The table of paired nodes.
pub fn node_table(config: &HubConfig) -> (out: String)
    ensures
        out@ == node_row("NAME"@, "ADDR"@, "ENABLED"@) + (if config@.backends.len() == 0 {
            "(no paired nodes)\n"@
        } else {
            node_rows(config@.backends)
        }),
{
    let ghost all = config@.backends;
    let mut out = String::new();
    push_node_row(&mut out, "NAME", "ADDR", "ENABLED");
    let ghost head = out@;
    assert(head =~= node_row("NAME"@, "ADDR"@, "ENABLED"@));
    if config.backends.len() == 0 {
        out.append("(no paired nodes)\n");
        return out;
    }
    let mut i: usize = 0;
    assert(all.take(0) =~= Seq::<BackendView>::empty());
    assert(head =~= head + node_rows(all.take(0)));
    while i < config.backends.len()
        invariant
            i <= config.backends@.len(),
            all == config@.backends,
            out@ == head + node_rows(all.take(i as int)),
        decreases config.backends@.len() - i,
    {
        let b = &config.backends[i];
        assert(all.take(i + 1).drop_last() =~= all.take(i as int));
        assert(all.take(i + 1).last() == b@);
        let addr = b.addr.to_string();
        push_node_row(&mut out, b.name.as_str(), addr.as_str(), yes_or_no(b.enabled));
        assert(out@ =~= head + node_rows(all.take(i + 1)));
        i += 1;
    }
    assert(all.take(i as int) =~= all);
    out
}

/// Whether a backend named `name` is in the list.
pub open spec fn names_backend(s: Seq<BackendView>, name: Seq<char>) -> bool {
    exists|i: int| 0 <= i < s.len() && (#[trigger] s[i]).name == name
}

/// The backends whose name is not defined again later, in order.
pub open spec fn keep_last(s: Seq<BackendView>) -> Seq<BackendView>
    decreases s.len(),
{
    if s.len() == 0 {
        Seq::empty()
    } else {
        let rest = keep_last(s.drop_first());
        if names_backend(s.drop_first(), s[0].name) {
            rest
        } else {
            seq![s[0]] + rest
        }
    }
}

/// Where the hub's configuration comes from.
#[derive(Debug)]
pub enum ConfigSource {
    /// Backends that were given on the command line.
    Backends(Vec<BackendConfig>),
    /// A file that was named.
    File(HubConfig),
    /// What was found in the usual places, or why nothing was.
    Found(Result<HubConfig, String>),
}

/// Settings of the command line that override the configuration.
#[derive(Debug)]
pub struct Overrides {
    pub listen: Option<SocketAddr>,
    pub poll_interval_ms: Option<u64>,
    pub no_local: bool,
    pub local_port: Option<u16>,
}

/// The configuration before the listen address and the poll interval are
/// overridden.
pub open spec fn base_view(source: ConfigSource, o: Overrides) -> Result<HubView, Seq<char>> {
    let adjusted = |c: HubView|
        HubView {
            include_local: c.include_local && !o.no_local,
            local_adb_port: o.local_port.unwrap_or(c.local_adb_port),
            ..c
        };
    match source {
        ConfigSource::Backends(b) => Ok(
            HubView {
                listen: loopback_view(5037),
                poll_interval_ms: 1000,
                backends: backend_views(b@),
                adb_version: 41,
                include_local: !o.no_local,
                local_adb_port: o.local_port.unwrap_or(5039),
                devices: Map::empty(),
                config_path: None,
            },
        ),
        ConfigSource::File(c) => Ok(adjusted(c@)),
        ConfigSource::Found(Ok(c)) => Ok(adjusted(c@)),
        ConfigSource::Found(Err(e)) => if o.no_local {
            Err(e@)
        } else {
            Ok(adjusted(local_only_view()))
        },
    }
}

/// The configuration with all overrides, and each backend name defined once.
pub open spec fn overridden(c: HubView, o: Overrides) -> HubView {
    HubView {
        listen: match o.listen {
            Some(a) => a@,
            None => c.listen,
        },
        poll_interval_ms: match o.poll_interval_ms {
            Some(ms) => poll_floor(ms),
            None => c.poll_interval_ms,
        },
        backends: keep_last(c.backends),
        ..c
    }
}

/// Whether a configuration has nothing to aggregate.
pub open spec fn nothing_enabled(c: HubView) -> bool {
    !c.include_local && forall|i: int|
        0 <= i < c.backends.len() ==> !(#[trigger] c.backends[i]).enabled
}

/// The hub's configuration, or why there is none.
pub open spec fn built(source: ConfigSource, o: Overrides) -> Result<HubView, Seq<char>> {
    match base_view(source, o) {
        Err(e) => Err(e),
        Ok(c) => if nothing_enabled(overridden(c, o)) {
            Err("no enabled backends configured; enable a node or use --local"@)
        } else {
            Ok(overridden(c, o))
        },
    }
}

proof fn lemma_keep_last_push(s: Seq<BackendView>, i: int)
    requires
        0 <= i < s.len(),
    ensures
        keep_last(s.skip(i)) == (if names_backend(s.skip(i + 1), s[i].name) {
            keep_last(s.skip(i + 1))
        } else {
            seq![s[i]] + keep_last(s.skip(i + 1))
        }),
{
    assert(s.skip(i).drop_first() =~= s.skip(i + 1));
    assert(s.skip(i)[0] == s[i]);
}

/// The backends whose name is not defined again later.
fn dedupe_backends(s: &Vec<BackendConfig>) -> (r: Vec<BackendConfig>)
    ensures
        backend_views(r@) == keep_last(backend_views(s@)),
{
    let ghost all = backend_views(s@);
    let mut r: Vec<BackendConfig> = Vec::new();
    let mut i: usize = 0;
    assert(all.skip(0) =~= all);
    assert(backend_views(r@) + keep_last(all) =~= keep_last(all));
    while i < s.len()
        invariant
            i <= s@.len(),
            all == backend_views(s@),
            backend_views(r@) + keep_last(all.skip(i as int)) == keep_last(all),
        decreases s@.len() - i,
    {
        proof {
            lemma_keep_last_push(all, i as int);
        }
        let mut again = false;
        let mut k: usize = i + 1;
        while k < s.len()
            invariant
                i < s@.len(),
                i + 1 <= k <= s@.len(),
                all == backend_views(s@),
                again == (exists|j: int|
                    i < j < k && (#[trigger] s@[j]).name@ == s@[i as int].name@),
            decreases s@.len() - k,
        {
            if str_eq(s[k].name.as_str(), s[i].name.as_str()) {
                again = true;
            }
            k += 1;
        }
        assert(again == names_backend(all.skip(i + 1), all[i as int].name)) by {
            let rest = all.skip(i + 1);
            if again {
                let j = choose|j: int|
                    i < j < s@.len() && (#[trigger] s@[j]).name@ == s@[i as int].name@;
                assert(rest[j - i - 1].name == s@[j].name@);
            }
            if names_backend(rest, all[i as int].name) {
                let j = choose|j: int|
                    0 <= j < rest.len() && (#[trigger] rest[j]).name == all[i as int].name;
                assert(s@[j + i + 1].name@ == s@[i as int].name@);
            }
        }
        let ghost before = r@;
        if !again {
            r.push(s[i].clone());
            assert(backend_views(r@) =~= backend_views(before).push(all[i as int]));
        }
        assert(backend_views(r@) + keep_last(all.skip(i + 1)) =~= backend_views(before)
            + keep_last(all.skip(i as int)));
        i += 1;
    }
    assert(keep_last(all.skip(i as int)) =~= Seq::<BackendView>::empty());
    assert(backend_views(r@) =~= backend_views(r@) + keep_last(all.skip(i as int)));
    r
}

/// The configuration before the listen address and the poll interval are
/// overridden.
fn base_config(source: ConfigSource, o: &Overrides) -> (r: Result<HubConfig, String>)
    ensures
        match base_view(source, *o) {
            Ok(v) => r matches Ok(c) && c@ == v,
            Err(w) => r matches Err(e) && e@ == w,
        },
{
    let mut c = match source {
        ConfigSource::Backends(backends) => {
            let mut c = HubConfig::local_only();
            c.backends = backends;
            c.adb_version = 41;
            c
        },
        ConfigSource::File(c) => c,
        ConfigSource::Found(Ok(c)) => c,
        ConfigSource::Found(Err(e)) => {
            if o.no_local {
                return Err(e);
            }
            HubConfig::local_only()
        },
    };
    if o.no_local {
        c.include_local = false;
    }
    if let Some(p) = o.local_port {
        c.local_adb_port = p;
    }
    Ok(c)
}

/// Build the hub's configuration. A backend name that is defined more than
/// once means its last definition.
pub fn build_config(source: ConfigSource, o: Overrides) -> (r: Result<HubConfig, String>)
    ensures
        match built(source, o) {
            Ok(v) => r matches Ok(c) && c@ == v,
            Err(w) => r matches Err(e) && e@ == w,
        },
{
    let mut c = match base_config(source, &o) {
        Ok(c) => c,
        Err(e) => {
            return Err(e);
        },
    };
    let ghost base = c@;
    let unique = dedupe_backends(&c.backends);
    c.backends = unique;
    match o.listen {
        Some(a) => {
            c.listen = a;
        },
        None => {},
    }
    if let Some(ms) = o.poll_interval_ms {
        c.poll_interval_ms = clamp_poll(ms);
    }
    assert(c@ == overridden(base, o));
    let mut any = c.include_local;
    let mut i: usize = 0;
    while i < c.backends.len()
        invariant
            i <= c.backends@.len(),
            any == (c.include_local || exists|j: int|
                0 <= j < i && (#[trigger] c@.backends[j]).enabled),
        decreases c.backends@.len() - i,
    {
        if c.backends[i].enabled {
            assert(c@.backends[i as int].enabled);
            any = true;
        }
        i += 1;
    }
    if !any {
        return Err("no enabled backends configured; enable a node or use --local".to_owned());
    }
    Ok(c)
}

/// Which configuration is loaded when none is named.
#[derive(Clone, Copy, Debug, PartialEq, Eq, Structural)]
pub enum DefaultFile {
    /// The usual file.
    Current,
    /// The file of earlier releases for Windows.
    Old,
    /// The `host=` / `port=` file.
    Legacy,
    /// There is none.
    Missing,
}

/// Which configuration is loaded when none is named: the usual file, else the
/// old place if it is another one, else the legacy file.
pub open spec fn default_file(path: bool, old: bool, same_place: bool, legacy: bool) -> DefaultFile {
    if path {
        DefaultFile::Current
    } else if old && !same_place {
        DefaultFile::Old
    } else if legacy {
        DefaultFile::Legacy
    } else {
        DefaultFile::Missing
    }
}

/// Which configuration is loaded when none is named. The flags tell which of
/// the three places hold a file.
pub fn load_default_config(path: &str, is_file: bool, old: &str, old_is_file: bool, legacy_is_file: bool) -> (r:
    DefaultFile)
    ensures
        r == default_file(is_file, old_is_file, old@ == path@, legacy_is_file),
{
    if is_file {
        DefaultFile::Current
    } else if old_is_file && !str_eq(old, path) {
        DefaultFile::Old
    } else if legacy_is_file {
        DefaultFile::Legacy
    } else {
        DefaultFile::Missing
    }
}

/// What is said when there is no configuration.
pub fn missing_config_message(path: &str, old: &str, legacy: &str) -> (s: String)
    ensures
        s@ == "no config found at "@ + path@ + ", "@ + old@ + ", or "@ + legacy@
            + "; pass --backend name=host:port or rely on --local"@,
{
    let mut s = cat3("no config found at ", path, ", ");
    s.append(old);
    s.append(", or ");
    s.append(legacy);
    s.append("; pass --backend name=host:port or rely on --local");
    s
}

/// The configuration of the compatibility daemon: what was loaded, or none,
/// with the settings of its command line.
pub fn hubd_config(
    loaded: Option<Result<HubConfig, ConfigError>>,
    listen: &SocketAddr,
    local_port: u16,
    no_local: bool,
    poll_interval_ms: u64,
) -> (c: HubConfig)
    ensures
        ({
            let base = match loaded {
                Some(Ok(h)) => h@,
                _ => local_only_view(),
            };
            c@ == (HubView {
                listen: listen@,
                local_adb_port: local_port,
                include_local: !no_local,
                poll_interval_ms: poll_floor(poll_interval_ms),
                ..base
            })
        }),
{
    let mut c = match loaded {
        Some(Ok(h)) => h,
        _ => HubConfig::local_only(),
    };
    c.listen = listen.clone();
    c.local_adb_port = local_port;
    c.include_local = !no_local;
    c.poll_interval_ms = clamp_poll(poll_interval_ms);
    c
}

/// Of the definitions of a backend name the last one counts, and no name is
/// left defined twice.
pub proof fn last_definition_counts(s: Seq<BackendView>, i: int)
    requires
        0 <= i < s.len(),
    ensures
        names_backend(keep_last(s), s[i].name),
        forall|j: int, k: int|
            0 <= j < k < keep_last(s).len() ==> (#[trigger] keep_last(s)[j]).name != (
            #[trigger] keep_last(s)[k]).name,
        !names_backend(s.skip(i + 1), s[i].name) ==> keep_last(s).contains(s[i]),
    decreases s.len(),
{
    let t = s.drop_first();
    let kept = keep_last(s);
    let rest = keep_last(t);
    lemma_keep_last_names(t);
    lemma_keep_last_names(s);
    assert(names_backend(s, s[i].name)) by {
        assert(s[i].name == s[i].name);
    }
    if t.len() > 0 {
        last_definition_counts(t, 0);
    }
    if i > 0 {
        last_definition_counts(t, i - 1);
        assert(t[i - 1] == s[i]);
        assert(t.skip(i - 1 + 1) =~= s.skip(i + 1));
        if rest.contains(s[i]) {
            let k = choose|k: int| 0 <= k < rest.len() && rest[k] == s[i];
            if names_backend(t, s[0].name) {
                assert(kept[k] == s[i]);
            } else {
                assert(kept[k + 1] == s[i]);
            }
        }
    } else {
        assert(s.skip(1) =~= t);
        if !names_backend(t, s[0].name) {
            assert(kept[0] == s[0]);
        }
    }
    assert forall|j: int, k: int| 0 <= j < k < kept.len() implies (#[trigger] kept[j]).name != (
    #[trigger] kept[k]).name by {
        if names_backend(t, s[0].name) {
            assert(kept[j] == rest[j] && kept[k] == rest[k]);
        } else {
            assert(kept[k] == rest[k - 1]);
            if j > 0 {
                assert(kept[j] == rest[j - 1]);
            } else {
                assert(names_backend(rest, rest[k - 1].name));
                assert(names_backend(t, rest[k - 1].name));
            }
        }
    }
}

proof fn lemma_keep_last_names(s: Seq<BackendView>)
    ensures
        forall|name: Seq<char>| #[trigger]
            names_backend(keep_last(s), name) == names_backend(s, name),
    decreases s.len(),
{
    if s.len() > 0 {
        let t = s.drop_first();
        let kept = keep_last(s);
        let rest = keep_last(t);
        lemma_keep_last_names(t);
        assert forall|name: Seq<char>| #[trigger] names_backend(kept, name) == names_backend(
            s,
            name,
        ) by {
            assert(names_backend(rest, name) == names_backend(t, name));
            if names_backend(kept, name) {
                let k = choose|k: int| 0 <= k < kept.len() && (#[trigger] kept[k]).name == name;
                if names_backend(t, s[0].name) {
                    assert(rest[k].name == name);
                } else if k > 0 {
                    assert(rest[k - 1].name == name);
                } else {
                    assert(s[0].name == name);
                }
                if names_backend(rest, name) {
                    let m = choose|m: int| 0 <= m < t.len() && (#[trigger] t[m]).name == name;
                    assert(s[m + 1].name == name);
                }
            }
            if names_backend(s, name) {
                let m = choose|m: int| 0 <= m < s.len() && (#[trigger] s[m]).name == name;
                if m > 0 {
                    assert(t[m - 1].name == name);
                }
                if names_backend(t, name) {
                    let k = choose|k: int| 0 <= k < rest.len() && (#[trigger] rest[k]).name == name;
                    if names_backend(t, s[0].name) {
                        assert(kept[k].name == name);
                    } else {
                        assert(kept[k + 1].name == name);
                    }
                } else {
                    assert(kept[0].name == name);
                }
            }
        }
    } else {
        assert(keep_last(s) =~= s);
    }
}

/// A proxy that is paired is switched on and keeps its pair code, under the name
/// that was given or the one that stands for its address.
pub proof fn paired_proxies_are_entered(
    addr: AddrView,
    code: Seq<char>,
    name: Seq<char>,
    s: Seq<BackendView>,
)
    ensures
        paired_backend(addr, code, Some(name)) == (BackendView {
            name,
            addr,
            pair_code: Some(code),
            enabled: true,
        }),
        paired_backend(addr, code, None) == (BackendView {
            name: backend_name_of(addr),
            addr,
            pair_code: Some(code),
            enabled: true,
        }),
        upserted(s, paired_backend(addr, code, Some(name))).contains(
            paired_backend(addr, code, Some(name)),
        ),
{
    let b = paired_backend(addr, code, Some(name));
    upserted_backend_is_found(s, b);
    let t = upserted(s, b);
    lemma_index_is_first(t, b.name);
    let i = backend_index(t, b.name);
    assert(t[i] == b);
}

proof fn lemma_blanks(k: nat)
    ensures
        words_seq(repeat_char(' ', k)) == Seq::<Seq<char>>::empty(),
{
    let s = repeat_char(' ', k);
    assert forall|i: int| 0 <= i < s.len() implies is_white_space(#[trigger] s[i]) by {}
    only_white_space_is_trimmed(s, Seq::empty(), Seq::empty());
    assert(s + Seq::<char>::empty() + Seq::<char>::empty() =~= s);
    lemma_blank_start(s);
    assert(words_seq(s) =~= Seq::<Seq<char>>::empty());
}

proof fn lemma_blank_start(s: Seq<char>)
    requires
        forall|i: int| 0 <= i < s.len() ==> is_white_space(#[trigger] s[i]),
    ensures
        trim_start_seq(s).len() == 0,
    decreases s.len(),
{
    if s.len() > 0 {
        assert(is_white_space(s[0]));
        let t = s.drop_first();
        assert forall|i: int| 0 <= i < t.len() implies is_white_space(#[trigger] t[i]) by {
            assert(t[i] == s[i + 1]);
        }
        lemma_blank_start(t);
    }
}

proof fn lemma_padded_word(w: Seq<char>, width: nat)
    requires
        is_word(w),
    ensures
        words_seq(pad_right(w, width)) == seq![w],
{
    lemma_word_alone(w);
    if w.len() < width {
        let k = (width - w.len()) as nat;
        let rest = repeat_char(' ', (k - 1) as nat);
        assert(pad_right(w, width) =~= w + seq![' '] + rest);
        lemma_words_concat(w, ' ', rest);
        lemma_blanks((k - 1) as nat);
        assert(seq![w] + Seq::<Seq<char>>::empty() =~= seq![w]);
    }
}

/// The columns of a row are read back from it, in order: serial, state, whether the
/// device is switched on and the node that has it.
pub proof fn rows_show_their_columns(
    serial: Seq<char>,
    state: Seq<char>,
    enabled: Seq<char>,
    node: Seq<char>,
)
    requires
        is_word(serial),
        is_word(state),
        is_word(enabled),
        is_word(node),
    ensures
        words_seq(hub_row(serial, state, enabled, node)) == seq![serial, state, enabled, node],
        words_seq(proxy_row(serial, state, enabled)) == seq![serial, state, enabled],
        words_seq(node_row(serial, state, enabled)) == seq![serial, state, enabled],
        hub_row(serial, state, enabled, node).last() == '\n',
        proxy_row(serial, state, enabled).last() == '\n',
        node_row(serial, state, enabled).last() == '\n',
{
    reveal_strlit(" ");
    reveal_strlit("\n");
    assert(" "@ =~= seq![' ']);
    assert("\n"@ =~= seq!['\n']);
    lemma_row_words(
        pad_right(serial, 28),
        pad_right(state, 12),
        pad_right(enabled, 10),
        node,
        serial,
        state,
        enabled,
    );
    lemma_row_end(pad_right(serial, 24), pad_right(state, 12), enabled, serial, state);
    lemma_row_end(pad_right(serial, 20), pad_right(state, 24), enabled, serial, state);
}

proof fn lemma_row_words(
    a: Seq<char>,
    b: Seq<char>,
    c: Seq<char>,
    d: Seq<char>,
    x: Seq<char>,
    y: Seq<char>,
    z: Seq<char>,
)
    requires
        is_word(x),
        is_word(y),
        is_word(z),
        is_word(d),
        a == pad_right(x, 28),
        b == pad_right(y, 12),
        c == pad_right(z, 10),
    ensures
        words_seq(a + seq![' '] + b + seq![' '] + c + seq![' '] + d + seq!['\n']) == seq![x, y, z, d],
{
    lemma_padded_word(x, 28);
    lemma_padded_word(y, 12);
    lemma_padded_word(z, 10);
    lemma_word_alone(d);
    lemma_words_concat(a, ' ', b);
    let ab = a + seq![' '] + b;
    lemma_words_concat(ab, ' ', c);
    let abc = ab + seq![' '] + c;
    lemma_words_concat(abc, ' ', d);
    let abcd = abc + seq![' '] + d;
    lemma_words_concat(abcd, '\n', Seq::empty());
    assert(abcd + seq!['\n'] + Seq::<char>::empty() =~= abcd + seq!['\n']);
    assert(words_seq(Seq::<char>::empty()) =~= Seq::<Seq<char>>::empty());
    assert(words_seq(abcd + seq!['\n']) =~= seq![x, y, z, d]);
}

proof fn lemma_row_end(a: Seq<char>, b: Seq<char>, c: Seq<char>, x: Seq<char>, y: Seq<char>)
    requires
        is_word(x),
        is_word(y),
        is_word(c),
        a == pad_right(x, 24) || a == pad_right(x, 20),
        b == pad_right(y, 12) || b == pad_right(y, 24),
    ensures
        words_seq(a + seq![' '] + b + seq![' '] + c + seq!['\n']) == seq![x, y, c],
{
    lemma_padded_word(x, 24);
    lemma_padded_word(x, 20);
    lemma_padded_word(y, 12);
    lemma_padded_word(y, 24);
    lemma_word_alone(c);
    lemma_words_concat(a, ' ', b);
    let ab = a + seq![' '] + b;
    lemma_words_concat(ab, ' ', c);
    let abc = ab + seq![' '] + c;
    lemma_words_concat(abc, '\n', Seq::empty());
    assert(abc + seq!['\n'] + Seq::<char>::empty() =~= abc + seq!['\n']);
    assert(words_seq(Seq::<char>::empty()) =~= Seq::<Seq<char>>::empty());
    assert(words_seq(abc + seq!['\n']) =~= seq![x, y, c]);
}

/// Every listed device has its row, in order, which shows its serial, its state,
/// whether the policy enables it, and its node.
pub proof fn listed_devices_have_rows(
    s: Seq<EntryView>,
    t: Seq<EntryView>,
    d: EntryView,
    policy: Map<Seq<char>, bool>,
)
    ensures
        listed_rows(s + t, policy) == listed_rows(s, policy) + listed_rows(t, policy),
        listed_rows(seq![d], policy) == hub_row(
            d.public_serial,
            d.state,
            if policy.contains_key(d.public_serial) && !policy[d.public_serial] {
                "no"@
            } else {
                "yes"@
            },
            d.backend_name,
        ),
    decreases t.len(),
{
    assert(seq![d].drop_last() =~= Seq::<EntryView>::empty());
    assert(listed_rows(seq![d].drop_last(), policy) =~= Seq::<char>::empty());
    assert(listed_rows(seq![d], policy) =~= hub_row(
        d.public_serial,
        d.state,
        yes_no(enabled_by(policy, d.public_serial)),
        d.backend_name,
    ));
    if t.len() == 0 {
        assert(s + t =~= s);
        assert(listed_rows(s + t, policy) =~= listed_rows(s, policy) + listed_rows(t, policy));
    } else {
        listed_devices_have_rows(s, t.drop_last(), d, policy);
        assert((s + t).drop_last() =~= s + t.drop_last());
        assert(listed_rows(s + t, policy) =~= listed_rows(s, policy) + listed_rows(t, policy));
    }
}

/// Every device on a line of a device list has its row, in order.
pub proof fn live_devices_have_rows(
    s: Seq<Seq<char>>,
    t: Seq<Seq<char>>,
    line: Seq<char>,
    policy: Map<Seq<char>, bool>,
)
    ensures
        live_rows(s + t, policy) == live_rows(s, policy) + live_rows(t, policy),
        live_rows(seq![line], policy) == (match device_fields(line) {
            Some(f) => proxy_row(
                f.0,
                f.1,
                if policy.contains_key(f.0) && !policy[f.0] {
                    "no"@
                } else {
                    "yes"@
                },
            ),
            None => Seq::empty(),
        }),
    decreases t.len(),
{
    assert(seq![line].drop_last() =~= Seq::<Seq<char>>::empty());
    assert(live_rows(seq![line].drop_last(), policy) =~= Seq::<char>::empty());
    if let Some(f) = device_fields(line) {
        assert(live_rows(seq![line], policy) =~= proxy_row(
            f.0,
            f.1,
            yes_no(enabled_by(policy, f.0)),
        ));
    }
    if t.len() == 0 {
        assert(s + t =~= s);
        assert(live_rows(s + t, policy) =~= live_rows(s, policy) + live_rows(t, policy));
    } else {
        live_devices_have_rows(s, t.drop_last(), line, policy);
        assert((s + t).drop_last() =~= s + t.drop_last());
        assert(live_rows(s + t, policy) =~= live_rows(s, policy) + live_rows(t, policy));
    }
}

/// A device that is switched off has a row of its own exactly if it is not listed.
pub proof fn missing_devices_have_rows(
    a: Seq<(String, bool)>,
    b: Seq<(String, bool)>,
    e: (String, bool),
    s: Seq<EntryView>,
    all: Seq<Seq<char>>,
)
    ensures
        missing_rows(a + b, s) == missing_rows(a, s) + missing_rows(b, s),
        missing_rows(seq![e], s) == (if !e.1 && (forall|i: int|
            0 <= i < s.len() ==> (#[trigger] s[i]).public_serial != e.0@) {
            hub_row(e.0@, "-"@, "no"@, "-"@)
        } else {
            Seq::empty()
        }),
        absent_rows(a + b, all) == absent_rows(a, all) + absent_rows(b, all),
        absent_rows(seq![e], all) == (if !e.1 && (forall|i: int|
            0 <= i < all.len() ==> !(device_fields(#[trigger] all[i]) matches Some(f) && f.0
                == e.0@)) {
            proxy_row(e.0@, "-"@, "no"@)
        } else {
            Seq::empty()
        }),
    decreases b.len(),
{
    assert(seq![e].drop_last() =~= Seq::<(String, bool)>::empty());
    assert(missing_rows(seq![e].drop_last(), s) =~= Seq::<char>::empty());
    assert(absent_rows(seq![e].drop_last(), all) =~= Seq::<char>::empty());
    assert(Seq::<char>::empty() + hub_row(e.0@, "-"@, "no"@, "-"@) =~= hub_row(
        e.0@,
        "-"@,
        "no"@,
        "-"@,
    ));
    assert(Seq::<char>::empty() + proxy_row(e.0@, "-"@, "no"@) =~= proxy_row(e.0@, "-"@, "no"@));
    if b.len() == 0 {
        assert(a + b =~= a);
        assert(missing_rows(a + b, s) =~= missing_rows(a, s) + missing_rows(b, s));
        assert(absent_rows(a + b, all) =~= absent_rows(a, all) + absent_rows(b, all));
    } else {
        missing_devices_have_rows(a, b.drop_last(), e, s, all);
        assert((a + b).drop_last() =~= a + b.drop_last());
        assert(missing_rows(a + b, s) =~= missing_rows(a, s) + missing_rows(b, s));
        assert(absent_rows(a + b, all) =~= absent_rows(a, all) + absent_rows(b, all));
    }
}

/// Every node has its row, in order, which shows its name, its address and whether
/// it is switched on.
pub proof fn nodes_have_rows(s: Seq<BackendView>, t: Seq<BackendView>, b: BackendView)
    ensures
        node_rows(s + t) == node_rows(s) + node_rows(t),
        node_rows(seq![b]) == node_row(
            b.name,
            b.addr.chars(),
            if b.enabled {
                "yes"@
            } else {
                "no"@
            },
        ),
    decreases t.len(),
{
    assert(seq![b].drop_last() =~= Seq::<BackendView>::empty());
    assert(node_rows(seq![b].drop_last()) =~= Seq::<char>::empty());
    assert(node_rows(seq![b]) =~= node_row(b.name, b.addr.chars(), yes_no(b.enabled)));
    if t.len() == 0 {
        assert(s + t =~= s);
        assert(node_rows(s + t) =~= node_rows(s) + node_rows(t));
    } else {
        nodes_have_rows(s, t.drop_last(), b);
        assert((s + t).drop_last() =~= s + t.drop_last());
        assert(node_rows(s + t) =~= node_rows(s) + node_rows(t));
    }
}

/// Settings of the command line override those of the configuration, and what is not
/// given there stays as it is. Local devices can only be switched off there.
pub proof fn command_line_overrides(file: HubConfig, o: Overrides)
    requires
        base_view(ConfigSource::File(file), o) is Ok,
    ensures
        ({
            let c = overridden(base_view(ConfigSource::File(file), o)->Ok_0, o);
            &&& c.listen == (match o.listen {
                Some(a) => a@,
                None => file@.listen,
            })
            &&& c.poll_interval_ms == (match o.poll_interval_ms {
                Some(ms) => if ms < 100 {
                    100u64
                } else {
                    ms
                },
                None => file@.poll_interval_ms,
            })
            &&& c.include_local == (file@.include_local && !o.no_local)
            &&& c.local_adb_port == (match o.local_port {
                Some(p) => p,
                None => file@.local_adb_port,
            })
            &&& c.adb_version == file@.adb_version
            &&& c.devices == file@.devices
            &&& c.config_path == file@.config_path
            &&& c.backends == keep_last(file@.backends)
        }),
{
}

/// Where the configuration comes from: backends of the command line stand alone, a
/// file is taken as it is, and without any configuration the hub serves local
/// devices, unless these are switched off.
pub proof fn configurations_have_a_source(
    b: Vec<BackendConfig>,
    c: HubConfig,
    e: String,
    o: Overrides,
)
    ensures
        base_view(ConfigSource::Found(Ok(c)), o) == base_view(ConfigSource::File(c), o),
        base_view(ConfigSource::Backends(b), o) == Ok::<HubView, Seq<char>>(
            HubView {
                backends: backend_views(b@),
                adb_version: 41,
                include_local: !o.no_local,
                local_adb_port: match o.local_port {
                    Some(p) => p,
                    None => 5039,
                },
                ..local_only_view()
            },
        ),
        o.no_local ==> base_view(ConfigSource::Found(Err(e)), o) == Err::<HubView, Seq<char>>(e@),
        !o.no_local ==> base_view(ConfigSource::Found(Err(e)), o) == Ok::<HubView, Seq<char>>(
            HubView {
                local_adb_port: match o.local_port {
                    Some(p) => p,
                    None => 5039,
                },
                ..local_only_view()
            },
        ),
{
    assert(local_only_view().listen == loopback_view(5037));
}

/// A configuration is refused exactly if it has nothing to aggregate: no local
/// devices and no backend that is switched on.
pub proof fn something_must_be_enabled(source: ConfigSource, o: Overrides)
    requires
        base_view(source, o) is Ok,
    ensures
        ({
            let c = overridden(base_view(source, o)->Ok_0, o);
            built(source, o) == (if c.include_local || exists|i: int|
                0 <= i < c.backends.len() && (#[trigger] c.backends[i]).enabled {
                Ok::<HubView, Seq<char>>(c)
            } else {
                Err("no enabled backends configured; enable a node or use --local"@)
            })
        }),
{
}

/// Which file is loaded when none is named: the usual one, else the one in the old
/// place, else the legacy one.
pub proof fn usual_file_comes_first(
    path: &str,
    old: &str,
    is_file: bool,
    old_is_file: bool,
    legacy_is_file: bool,
    r: DefaultFile,
)
    requires
        call_ensures(load_default_config, (path, is_file, old, old_is_file, legacy_is_file), r),
    ensures
        r == DefaultFile::Current <==> is_file,
        r == DefaultFile::Old <==> !is_file && old_is_file && old@ != path@,
        r == DefaultFile::Legacy <==> !is_file && !(old_is_file && old@ != path@) && legacy_is_file,
{
}

/// A pair code that is given is used if it is valid, and refused if it is not; a new
/// one is always valid.
pub proof fn given_pair_codes_are_used(given: Option<String>, r: Result<String, String>)
    requires
        call_ensures(choose_pair_code, (given,), r),
    ensures
        given is Some && valid_pair_code(given->0@) ==> (r matches Ok(c) && c@ == given->0@),
        given is Some && !valid_pair_code(given->0@) ==> r is Err,
        r matches Ok(c) ==> valid_pair_code(c@),
{
}

/// The compatibility daemon goes by its command line, and by the file for the rest.
pub proof fn compatibility_daemon_goes_by_its_arguments(
    loaded: Option<Result<HubConfig, ConfigError>>,
    listen: &SocketAddr,
    local_port: u16,
    no_local: bool,
    poll_interval_ms: u64,
    c: HubConfig,
)
    requires
        call_ensures(hubd_config, (loaded, listen, local_port, no_local, poll_interval_ms), c),
    ensures
        c@.listen == listen@,
        c@.local_adb_port == local_port,
        c@.include_local == !no_local,
        c@.poll_interval_ms >= 100,
        poll_interval_ms >= 100 ==> c@.poll_interval_ms == poll_interval_ms,
        loaded matches Some(Ok(h)) ==> c@.backends == h@.backends && c@.devices == h@.devices
            && c@.adb_version == h@.adb_version,
        !(loaded matches Some(Ok(_))) ==> c@.backends.len() == 0,
{
}

/// A backend stays in its place unless its name is defined again later; nothing else
/// is dropped, added or moved.
pub proof fn definitions_keep_their_place(b: BackendView, s: Seq<BackendView>)
    ensures
        keep_last(Seq::empty()) == Seq::<BackendView>::empty(),
        keep_last(seq![b] + s) == (if exists|i: int|
            0 <= i < s.len() && (#[trigger] s[i]).name == b.name {
            keep_last(s)
        } else {
            seq![b] + keep_last(s)
        }),
{
    assert((seq![b] + s).drop_first() =~= s);
}

/// A proxy that was paired is configured with its address and pair code, enabled,
/// under the name that is given back: the given one, if there is one.
pub proof fn paired_proxies_are_configured(
    config: &mut HubConfig,
    addr: &SocketAddr,
    code: &str,
    name: Option<&str>,
    r: String,
)
    requires
        call_ensures(pair_backend, (config, addr, code, name), r),
    ensures
        final(config)@.backends.contains(
            (BackendView { name: r@, addr: addr@, pair_code: Some(code@), enabled: true }),
        ),
        name matches Some(n) ==> r@ == n@,
        name is None ==> r@ == backend_name_of(addr@),
        final(config)@ == (HubView { backends: final(config)@.backends, ..old(config)@ }),
{
    let b = paired_backend(addr@, code@, opt_chars(name));
    paired_proxies_are_entered(addr@, code@, r@, old(config)@.backends);
    upserted_backend_is_found(old(config)@.backends, b);
    let t = final(config)@.backends;
    lemma_index_is_first(t, b.name);
    assert(t[backend_index(t, b.name)] == b);
}

} // verus!
