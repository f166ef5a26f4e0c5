//! Routing of one adb client connection.

use vstd::prelude::*;
use vstd::string::*;
use vstd::utf8::*;

use crate::addr::{AddrView, SocketAddr};
use crate::auth::{auth_chars, write_auth};
use crate::fault::{benign, is_benign, FaultView, IoFault, IoKind};
use crate::octets::{lemma_text_bytes, utf8_text};
use crate::protocol::{
    fail_bytes, okay_payload_bytes, okay_status, packet_bytes, service_bytes, write_fail,
    write_okay, write_okay_payload, write_packet, write_service,
};
use crate::registry::{
    devices_body, find_index, lemma_find_index, DeviceEntry, DeviceSnapshot, EntryView,
};
use crate::text::{
    cat2, cat3, find_char, has_prefix, opt_clone, opt_view, split_once, starts_with, str_eq,
    strip_prefix, views,
};

verus! {

/// Name of the backend for devices that are attached to this machine.
pub const LOCAL_BACKEND: &'static str = "local";

/// Why no device of a backend can be picked.
#[derive(Clone, Copy, Debug, PartialEq, Eq, Structural)]
pub enum PickBackendErr {
    Nothing,
    Many,
}

/// The number of usable devices on a backend.
pub open spec fn online_on(s: Seq<EntryView>, name: Seq<char>) -> nat
    decreases s.len(),
{
    if s.len() == 0 {
        0
    } else {
        online_on(s.drop_last(), name) + if s.last().backend_name == name && s.last().online() {
            1nat
        } else {
            0nat
        }
    }
}

/// Whether device `i` is the only usable one on a backend.
pub open spec fn only_online(s: Seq<EntryView>, name: Seq<char>, i: int) -> bool {
    &&& 0 <= i < s.len()
    &&& s[i].backend_name == name
    &&& s[i].online()
    &&& online_on(s, name) == 1
}

proof fn lemma_online_on(s: Seq<EntryView>, name: Seq<char>, i: int)
    requires
        0 <= i < s.len(),
        s[i].backend_name == name,
        s[i].online(),
    ensures
        online_on(s, name) >= 1,
        forall|j: int|
            0 <= j < s.len() && j != i && (#[trigger] s[j]).backend_name == name && s[j].online()
                ==> online_on(s, name) >= 2,
    decreases s.len(),
{
    if i < s.len() - 1 {
        lemma_online_on(s.drop_last(), name, i);
        assert forall|j: int|
            0 <= j < s.len() && j != i && (#[trigger] s[j]).backend_name == name
                && s[j].online() implies online_on(s, name) >= 2 by {
            if j < s.len() - 1 {
                assert(s.drop_last()[j] == s[j]);
            }
        }
    } else {
        assert forall|j: int|
            0 <= j < s.len() && j != i && (#[trigger] s[j]).backend_name == name
                && s[j].online() implies online_on(s, name) >= 2 by {
            assert(s.drop_last()[j] == s[j]);
            lemma_online_on(s.drop_last(), name, j);
        }
    }
}

/// Pick the one usable device of a backend.
pub fn pick_one_on_backend<'a>(snap: &'a DeviceSnapshot, backend_name: &str) -> (r: Result<
    &'a DeviceEntry,
    PickBackendErr,
>)
    ensures
        match r {
            Ok(d) => exists|i: int|
                #[trigger] only_online(snap@, backend_name@, i) && d@ == snap@[i],
            Err(PickBackendErr::Nothing) => online_on(snap@, backend_name@) == 0,
            Err(PickBackendErr::Many) => online_on(snap@, backend_name@) > 1,
        },
{
    let mut n: usize = 0;
    let mut at: usize = 0;
    let mut i: usize = 0;
    assert(snap@.take(0) =~= Seq::<EntryView>::empty());
    while i < snap.devices.len()
        invariant
            i <= snap.devices@.len(),
            n <= i,
            n == online_on(snap@.take(i as int), backend_name@),
            n > 0 ==> at < i && snap@[at as int].backend_name == backend_name@
                && snap@[at as int].online(),
        decreases snap.devices@.len() - i,
    {
        assert(snap@.take(i + 1).drop_last() =~= snap@.take(i as int));
        assert(snap@.take(i + 1).last() == snap.devices@[i as int]@);
        let d = &snap.devices[i];
        if str_eq(d.backend_name.as_str(), backend_name) && d.is_online() {
            if n == 0 {
                at = i;
            }
            n += 1;
        }
        i += 1;
    }
    assert(snap@.take(i as int) =~= snap@);
    if n == 0 {
        Err(PickBackendErr::Nothing)
    } else if n == 1 {
        assert(only_online(snap@, backend_name@, at as int));
        Ok(&snap.devices[at])
    } else {
        Err(PickBackendErr::Many)
    }
}

/// The backend that decides which device is meant, when the client names none:
/// the first in `order` that has a usable device.
pub open spec fn deciding(s: Seq<EntryView>, order: Seq<Seq<char>>) -> Option<Seq<char>>
    decreases order.len(),
{
    if order.len() == 0 {
        None
    } else if online_on(s, order[0]) > 0 {
        Some(order[0])
    } else {
        deciding(s, order.drop_first())
    }
}

/// Reason given when no device can be used.
pub open spec fn no_device() -> Seq<char> {
    "no devices/emulators found"@
}

/// Reason given when the client should have named a device.
pub open spec fn many_devices() -> Seq<char> {
    "more than one device/emulator"@
}

/// Whether `d` is the device that is meant when the client names none.
pub open spec fn preferred(s: Seq<EntryView>, order: Seq<Seq<char>>, d: EntryView) -> bool {
    deciding(s, order) matches Some(name) && exists|i: int|
        #[trigger] only_online(s, name, i) && d == s[i]
}

/// Why there is no device to prefer, if there is none.
pub open spec fn no_preference(s: Seq<EntryView>, order: Seq<Seq<char>>) -> Option<Seq<char>> {
    match deciding(s, order) {
        None => Some(no_device()),
        Some(name) => if online_on(s, name) > 1 {
            Some(many_devices())
        } else {
            None
        },
    }
}

/// Pick a device when the client did not pass `-s`: the first backend in
/// `order` with a usable device is chosen, and must have exactly one.
pub fn pick_preferred_device<'a>(snap: &'a DeviceSnapshot, order: &Vec<String>) -> (r: Result<
    &'a DeviceEntry,
    String,
>)
    ensures
        match r {
            Ok(d) => preferred(snap@, views(order@), d@) && no_preference(snap@, views(order@))
                is None,
            Err(e) => no_preference(snap@, views(order@)) == Some(e@),
        },
{
    let ghost names = views(order@);
    let mut i: usize = 0;
    assert(names.skip(0) =~= names);
    while i < order.len()
        invariant
            i <= order@.len(),
            names == views(order@),
            deciding(snap@, names.skip(i as int)) == deciding(snap@, names),
        decreases order@.len() - i,
    {
        assert(names.skip(i as int)[0] == order@[i as int]@);
        assert(names.skip(i as int).drop_first() =~= names.skip(i + 1));
        match pick_one_on_backend(snap, order[i].as_str()) {
            Ok(d) => {
                return Ok(d);
            },
            Err(PickBackendErr::Many) => {
                return Err("more than one device/emulator".to_owned());
            },
            Err(PickBackendErr::Nothing) => {},
        }
        i += 1;
    }
    Err("no devices/emulators found".to_owned())
}

/// `order`, followed by the backends of the devices that it does not hold yet,
/// in the order in which they are first seen.
pub open spec fn seen_order(order: Seq<Seq<char>>, s: Seq<EntryView>) -> Seq<Seq<char>>
    decreases s.len(),
{
    if s.len() == 0 {
        order
    } else {
        let before = seen_order(order, s.drop_last());
        if before.contains(s.last().backend_name) {
            before
        } else {
            before.push(s.last().backend_name)
        }
    }
}

/// Whether `names` holds `name`.
fn holds(names: &Vec<String>, name: &str) -> (r: bool)
    ensures
        r == views(names@).contains(name@),
{
    let mut i: usize = 0;
    while i < names.len()
        invariant
            i <= names@.len(),
            forall|j: int| 0 <= j < i ==> (#[trigger] views(names@)[j]) != name@,
        decreases names@.len() - i,
    {
        if str_eq(names[i].as_str(), name) {
            assert(views(names@)[i as int] == name@);
            return true;
        }
        i += 1;
    }
    false
}

/// `order`, followed by the other backends as they are first seen.
pub fn extend_order(order: Vec<String>, snap: &DeviceSnapshot) -> (r: Vec<String>)
    ensures
        views(r@) == seen_order(views(order@), snap@),
{
    let mut r = order;
    let mut i: usize = 0;
    assert(snap@.take(0) =~= Seq::<EntryView>::empty());
    while i < snap.devices.len()
        invariant
            i <= snap.devices@.len(),
            views(r@) == seen_order(views(order@), snap@.take(i as int)),
        decreases snap.devices@.len() - i,
    {
        assert(snap@.take(i + 1).drop_last() =~= snap@.take(i as int));
        assert(snap@.take(i + 1).last() == snap.devices@[i as int]@);
        let ghost before = r@;
        let name = snap.devices[i].backend_name.as_str();
        if !holds(&r, name) {
            r.push(name.to_owned());
            assert(views(r@) =~= views(before).push(name@));
        }
        i += 1;
    }
    assert(snap@.take(i as int) =~= snap@);
    r
}

/// The order in which a hub prefers backends: `local`, then as first seen.
pub open spec fn hub_order(s: Seq<EntryView>) -> Seq<Seq<char>> {
    seen_order(seq![LOCAL_BACKEND@], s)
}

/// The order in which a hub prefers backends: `local`, then as first seen.
pub fn preference_order(snap: &DeviceSnapshot) -> (r: Vec<String>)
    ensures
        views(r@) == hub_order(snap@),
{
    let mut order: Vec<String> = Vec::new();
    order.push(LOCAL_BACKEND.to_owned());
    assert(views(order@) =~= seq![LOCAL_BACKEND@]);
    extend_order(order, snap)
}

/// Pick a device when the client did not pass `-s`: the one on `local`, else
/// the one on the first other backend that has a usable device.
pub fn pick_preferred(snap: &DeviceSnapshot) -> (r: Result<&DeviceEntry, String>)
    ensures
        match r {
            Ok(d) => preferred(snap@, hub_order(snap@), d@) && no_preference(
                snap@,
                hub_order(snap@),
            ) is None,
            Err(e) => no_preference(snap@, hub_order(snap@)) == Some(e@),
        },
{
    let order = preference_order(snap);
    pick_preferred_device(snap, &order)
}

/// Why a device cannot be looked up, if it cannot.
pub open spec fn lookup_refusal(s: Seq<EntryView>, serial: Seq<char>) -> Option<Seq<char>> {
    if find_index(s, serial) < s.len() {
        None
    } else {
        Some("device '"@ + serial + "' not found"@)
    }
}

/// Why a device cannot be used, if it cannot.
pub open spec fn online_refusal(s: Seq<EntryView>, serial: Seq<char>) -> Option<Seq<char>> {
    match lookup_refusal(s, serial) {
        Some(why) => Some(why),
        None => {
            let d = s[find_index(s, serial)];
            if d.online() {
                None
            } else {
                Some("device '"@ + serial + "' is not online ("@ + d.state + ")"@)
            }
        },
    }
}

/// The device with a public serial.
pub fn lookup_device<'a>(snap: &'a DeviceSnapshot, public_serial: &str) -> (r: Result<
    &'a DeviceEntry,
    String,
>)
    ensures
        match r {
            Ok(d) => lookup_refusal(snap@, public_serial@) is None && d@ == snap@[find_index(
                snap@,
                public_serial@,
            )],
            Err(e) => lookup_refusal(snap@, public_serial@) == Some(e@),
        },
{
    match snap.find(public_serial) {
        Some(d) => Ok(d),
        None => Err(cat3("device '", public_serial, "' not found")),
    }
}

/// The device with a public serial, if it can be used.
pub fn lookup_online<'a>(snap: &'a DeviceSnapshot, public_serial: &str) -> (r: Result<
    &'a DeviceEntry,
    String,
>)
    ensures
        match r {
            Ok(d) => online_refusal(snap@, public_serial@) is None && d@ == snap@[find_index(
                snap@,
                public_serial@,
            )],
            Err(e) => online_refusal(snap@, public_serial@) == Some(e@),
        },
{
    let d = match lookup_device(snap, public_serial) {
        Ok(d) => d,
        Err(e) => {
            return Err(e);
        },
    };
    if !d.is_online() {
        let mut e = cat3("device '", public_serial, "' is not online (");
        e.append(d.state.as_str());
        e.append(")");
        return Err(e);
    }
    Ok(d)
}

/// What a service asks for.
pub enum Asked {
    /// The device with this serial, by `host:transport:` or `host:tport:serial:`.
    Transport { prefix: Seq<char>, serial: Seq<char> },
    /// Any device; the service that names it begins with `prefix`.
    AnyDevice { prefix: Seq<char> },
    /// A request about the device with this serial.
    HostSerial { serial: Seq<char>, request: Seq<char> },
    /// A `host-serial:` service without a request.
    Malformed,
    /// Nothing about a device.
    Opaque,
}

/// Whether `rest` begins with a serial and the `:` behind it.
pub open spec fn starts_with_serial(rest: Seq<char>, serial: Seq<char>) -> bool {
    has_prefix(rest, serial.push(':'))
}

/// The longest listed serial that `rest` begins with. Serials may hold `:`.
pub open spec fn listed_serial(rest: Seq<char>, s: Seq<EntryView>) -> Option<Seq<char>>
    decreases s.len(),
{
    if s.len() == 0 {
        None
    } else {
        let before = listed_serial(rest, s.drop_last());
        let serial = s.last().public_serial;
        if starts_with_serial(rest, serial) && (before matches Some(b) ==> b.len() < serial.len()) {
            Some(serial)
        } else {
            before
        }
    }
}

/// What a `host-serial:` service asks for: a request about the listed device
/// that it names; where it names none, its serial ends at the first `:`.
pub open spec fn asked_by_serial(rest: Seq<char>, s: Seq<EntryView>) -> Asked {
    match listed_serial(rest, s) {
        Some(serial) => Asked::HostSerial { serial, request: rest.skip(serial.len() as int + 1) },
        None => {
            let k = find_char(rest, ':');
            if k < rest.len() {
                Asked::HostSerial { serial: rest.take(k), request: rest.skip(k + 1) }
            } else {
                Asked::Malformed
            }
        },
    }
}

/// Whether a service is about a device.
pub open spec fn about_device(service: Seq<char>) -> bool {
    ||| has_prefix(service, "host:transport:"@)
    ||| has_prefix(service, "host:tport:serial:"@)
    ||| service == "host:tport:any"@
    ||| service == "host:transport-any"@
    ||| service == "host:transport-usb"@
    ||| service == "host:transport-local"@
    ||| has_prefix(service, "host-serial:"@)
}

/// Whether a service is about a device.
pub fn is_about_device(service: &str) -> (r: bool)
    ensures
        r == about_device(service@),
{
    starts_with(service, "host:transport:") || starts_with(service, "host:tport:serial:")
        || str_eq(service, "host:tport:any") || str_eq(service, "host:transport-any") || str_eq(
        service,
        "host:transport-usb",
    ) || str_eq(service, "host:transport-local") || starts_with(service, "host-serial:")
}

/// What a service asks for where the devices `s` are listed.
pub open spec fn asked(service: Seq<char>, s: Seq<EntryView>) -> Asked {
    if has_prefix(service, "host:transport:"@) {
        Asked::Transport {
            prefix: "host:transport:"@,
            serial: service.skip("host:transport:"@.len() as int),
        }
    } else if has_prefix(service, "host:tport:serial:"@) {
        Asked::Transport {
            prefix: "host:tport:serial:"@,
            serial: service.skip("host:tport:serial:"@.len() as int),
        }
    } else if service == "host:tport:any"@ {
        Asked::AnyDevice { prefix: "host:tport:serial:"@ }
    } else if service == "host:transport-any"@ || service == "host:transport-usb"@ || service
        == "host:transport-local"@ {
        Asked::AnyDevice { prefix: "host:transport:"@ }
    } else if has_prefix(service, "host-serial:"@) {
        asked_by_serial(service.skip("host-serial:"@.len() as int), s)
    } else {
        Asked::Opaque
    }
}

/// Why a service that concerns a device is refused, if it is.
pub open spec fn rewrite_refusal(
    service: Seq<char>,
    s: Seq<EntryView>,
    order: Seq<Seq<char>>,
) -> Option<Seq<char>> {
    match asked(service, s) {
        Asked::Transport { serial, .. } => online_refusal(s, serial),
        Asked::AnyDevice { .. } => no_preference(s, order),
        Asked::HostSerial { serial, .. } => lookup_refusal(s, serial),
        Asked::Malformed => Some("invalid host-serial service"@),
        Asked::Opaque => None,
    }
}

/// Whether `d` is the device that a service is about.
pub open spec fn concerns(
    service: Seq<char>,
    s: Seq<EntryView>,
    order: Seq<Seq<char>>,
    d: EntryView,
) -> bool {
    match asked(service, s) {
        Asked::Transport { serial, .. } => find_index(s, serial) < s.len() && d == s[find_index(
            s,
            serial,
        )],
        Asked::AnyDevice { .. } => preferred(s, order, d),
        Asked::HostSerial { serial, .. } => find_index(s, serial) < s.len() && d == s[find_index(
            s,
            serial,
        )],
        _ => false,
    }
}

/// The service as the upstream of device `d` knows it.
pub open spec fn upstream_service(
    service: Seq<char>,
    s: Seq<EntryView>,
    d: EntryView,
) -> Seq<char> {
    match asked(service, s) {
        Asked::Transport { prefix, .. } => prefix + d.upstream_serial,
        Asked::AnyDevice { prefix } => prefix + d.upstream_serial,
        Asked::HostSerial { request, .. } => "host-serial:"@ + d.upstream_serial + ":"@ + request,
        _ => service,
    }
}

/// What rewriting a service gives.
pub open spec fn rewrite_outcome(
    service: Seq<char>,
    s: Seq<EntryView>,
    order: Seq<Seq<char>>,
    r: Result<Option<(&DeviceEntry, String)>, String>,
) -> bool {
    match r {
        Err(e) => rewrite_refusal(service, s, order) == Some(e@),
        Ok(None) => asked(service, s) is Opaque,
        Ok(Some(p)) => {
            &&& rewrite_refusal(service, s, order) is None
            &&& concerns(service, s, order, p.0@)
            &&& p.1@ == upstream_service(service, s, p.0@)
        },
    }
}

/// Splits what follows `host-serial:` into the serial and the request.
fn split_serial<'a>(rest: &'a str, snap: &'a DeviceSnapshot) -> (r: Option<(&'a str, &'a str)>)
    ensures
        match r {
            Some((serial, request)) => asked_by_serial(rest@, snap@) == (Asked::HostSerial {
                serial: serial@,
                request: request@,
            }),
            None => asked_by_serial(rest@, snap@) is Malformed,
        },
{
    proof {
        crate::text::lemma_find_char(rest@, ':');
        reveal_strlit(":");
    }
    let mut best: Option<(&'a str, &'a str)> = None;
    let mut i: usize = 0;
    assert(snap@.take(0) =~= Seq::<EntryView>::empty());
    while i < snap.devices.len()
        invariant
            i <= snap.devices@.len(),
            ":"@ =~= seq![':'],
            match best {
                Some((serial, request)) => listed_serial(rest@, snap@.take(i as int)) == Some(
                    serial@,
                ) && request@ == rest@.skip(serial@.len() as int + 1),
                None => listed_serial(rest@, snap@.take(i as int)) is None,
            },
        decreases snap.devices@.len() - i,
    {
        assert(snap@.take(i + 1).drop_last() =~= snap@.take(i as int));
        assert(snap@.take(i + 1).last() == snap.devices@[i as int]@);
        let serial = snap.devices[i].public_serial.as_str();
        let named = cat2(serial, ":");
        assert(named@ =~= serial@.push(':'));
        if let Some(request) = strip_prefix(rest, named.as_str()) {
            let longer = match best {
                Some((b, _)) => b.unicode_len() < serial.unicode_len(),
                None => true,
            };
            if longer {
                best = Some((serial, request));
            }
        }
        i += 1;
    }
    assert(snap@.take(i as int) =~= snap@);
    if best.is_some() {
        return best;
    }
    split_once(rest, ':')
}

/// Find the device that a service is about and rewrite the serial to the one
/// that its upstream knows. A service about no device gives none.
pub fn rewrite_upstream_service<'a>(
    service: &str,
    snap: &'a DeviceSnapshot,
    order: &Vec<String>,
) -> (r: Result<Option<(&'a DeviceEntry, String)>, String>)
    ensures
        rewrite_outcome(service@, snap@, views(order@), r),
{
    if let Some(serial) = strip_prefix(service, "host:transport:") {
        return match lookup_online(snap, serial) {
            Ok(d) => Ok(Some((d, cat2("host:transport:", d.upstream_serial.as_str())))),
            Err(e) => Err(e),
        };
    }
    if let Some(serial) = strip_prefix(service, "host:tport:serial:") {
        return match lookup_online(snap, serial) {
            Ok(d) => Ok(Some((d, cat2("host:tport:serial:", d.upstream_serial.as_str())))),
            Err(e) => Err(e),
        };
    }
    if str_eq(service, "host:tport:any") {
        return match pick_preferred_device(snap, order) {
            Ok(d) => Ok(Some((d, cat2("host:tport:serial:", d.upstream_serial.as_str())))),
            Err(e) => Err(e),
        };
    }
    if str_eq(service, "host:transport-any") || str_eq(service, "host:transport-usb") || str_eq(
        service,
        "host:transport-local",
    ) {
        return match pick_preferred_device(snap, order) {
            Ok(d) => Ok(Some((d, cat2("host:transport:", d.upstream_serial.as_str())))),
            Err(e) => Err(e),
        };
    }
    if let Some(rest) = strip_prefix(service, "host-serial:") {
        return match split_serial(rest, snap) {
            None => Err("invalid host-serial service".to_owned()),
            Some((serial, request)) => match lookup_device(snap, serial) {
                Ok(d) => {
                    let mut up = cat3("host-serial:", d.upstream_serial.as_str(), ":");
                    up.append(request);
                    Ok(Some((d, up)))
                },
                Err(e) => Err(e),
            },
        };
    }
    Ok(None)
}

/// Where a service goes, and under which name.
#[derive(Debug)]
pub struct Target {
    pub addr: SocketAddr,
    pub pair_code: Option<String>,
    pub service: String,
}

/// Model of [`Target`].
pub struct TargetView {
    pub addr: AddrView,
    pub pair_code: Option<Seq<char>>,
    pub service: Seq<char>,
}

impl View for Target {
    type V = TargetView;

    open spec fn view(&self) -> TargetView {
        TargetView {
            addr: self.addr@,
            pair_code: opt_view(self.pair_code),
            service: self.service@,
        }
    }
}

/// The target of a service about device `d`.
pub open spec fn device_target(
    service: Seq<char>,
    s: Seq<EntryView>,
    d: EntryView,
) -> TargetView {
    TargetView {
        addr: d.backend_addr,
        pair_code: d.pair_code,
        service: upstream_service(service, s, d),
    }
}

/// Whether `t` is where a hub sends a service: to the backend of the device it
/// is about, with the serial that the backend knows; else to the default
/// backend as it is.
pub open spec fn hub_target(
    service: Seq<char>,
    s: Seq<EntryView>,
    default_backend: AddrView,
    default_code: Option<Seq<char>>,
    t: TargetView,
) -> bool {
    if asked(service, s) is Opaque {
        t == (TargetView { addr: default_backend, pair_code: default_code, service })
    } else {
        exists|d: EntryView|
            #[trigger] concerns(service, s, hub_order(s), d) && t == device_target(service, s, d)
    }
}

/// Decide which backend gets a service, what it is sent and with which pair
/// code it is opened.
pub fn choose_target(
    service: &str,
    snap: &DeviceSnapshot,
    default_backend: &SocketAddr,
    default_code: &Option<String>,
) -> (r: Result<Target, String>)
    ensures
        match r {
            Err(e) => rewrite_refusal(service@, snap@, hub_order(snap@)) == Some(e@),
            Ok(t) => rewrite_refusal(service@, snap@, hub_order(snap@)) is None && hub_target(
                service@,
                snap@,
                default_backend@,
                opt_view(*default_code),
                t@,
            ),
        },
{
    let order = preference_order(snap);
    match rewrite_upstream_service(service, snap, &order) {
        Err(e) => Err(e),
        Ok(Some((d, up))) => {
            assert(concerns(service@, snap@, hub_order(snap@), d@));
            Ok(
                Target {
                    addr: d.backend_addr.clone(),
                    pair_code: opt_clone(&d.pair_code),
                    service: up,
                },
            )
        },
        Ok(None) => Ok(
            Target {
                addr: default_backend.clone(),
                pair_code: opt_clone(default_code),
                service: service.to_owned(),
            },
        ),
    }
}

/// Whether a hub sends a service to `addr` as `up`.
pub open spec fn hub_route(
    service: Seq<char>,
    s: Seq<EntryView>,
    default_backend: AddrView,
    addr: AddrView,
    up: Seq<char>,
) -> bool {
    exists|code: Option<Seq<char>>|
        hub_target(
            service,
            s,
            default_backend,
            None,
            #[trigger] target_view(addr, code, up),
        )
}

/// The model of a target with these parts.
pub open spec fn target_view(
    addr: AddrView,
    pair_code: Option<Seq<char>>,
    service: Seq<char>,
) -> TargetView {
    TargetView { addr, pair_code, service }
}

/// Decide which backend gets a service and what it is sent.
pub fn route_service(service: &str, snap: &DeviceSnapshot, default_backend: &SocketAddr) -> (r:
    Result<(SocketAddr, String), String>)
    ensures
        match r {
            Err(e) => rewrite_refusal(service@, snap@, hub_order(snap@)) == Some(e@),
            Ok(p) => rewrite_refusal(service@, snap@, hub_order(snap@)) is None && hub_route(
                service@,
                snap@,
                default_backend@,
                p.0@,
                p.1@,
            ),
        },
{
    match choose_target(service, snap, default_backend, &None) {
        Ok(t) => {
            assert(t@ == target_view(t.addr@, opt_view(t.pair_code), t.service@));
            assert(hub_route(service@, snap@, default_backend@, t.addr@, t.service@));
            Ok((t.addr, t.service))
        },
        Err(e) => Err(e),
    }
}

/// What the hub does for a client.
#[derive(Debug)]
pub enum ClientAction {
    /// The client left without asking for anything.
    Close,
    /// The connection failed.
    Fault(IoFault),
    /// Answer with these bytes.
    Reply(Vec<u8>),
    /// Keep the client informed about the device list.
    Track { long: bool },
    /// Answer with these bytes and stop the hub.
    Stop(Vec<u8>),
    /// Hand the connection to a backend.
    Forward(Target),
}

/// Model of [`ClientAction`].
pub enum ActionView {
    Close,
    Fault(FaultView),
    Reply(Seq<u8>),
    Track { long: bool },
    Stop(Seq<u8>),
    Forward(TargetView),
}

impl View for ClientAction {
    type V = ActionView;

    open spec fn view(&self) -> ActionView {
        match self {
            ClientAction::Close => ActionView::Close,
            ClientAction::Fault(f) => ActionView::Fault(f@),
            ClientAction::Reply(b) => ActionView::Reply(b@),
            ClientAction::Track { long } => ActionView::Track { long: *long },
            ClientAction::Stop(b) => ActionView::Stop(b@),
            ClientAction::Forward(t) => ActionView::Forward(t@),
        }
    }
}

/// The model of what was read from a client.
pub open spec fn payload_view(payload: Result<Vec<u8>, IoFault>) -> Result<Seq<u8>, FaultView> {
    match payload {
        Ok(p) => Ok(p@),
        Err(f) => Err(f@),
    }
}

/// The answer to a device list request.
pub open spec fn devices_reply(s: Seq<EntryView>, long: bool) -> Seq<u8> {
    okay_payload_bytes(encode_utf8(devices_body(s, long)))
}

/// Whether `a` is how a hub answers a service.
pub open spec fn service_answer(
    service: Seq<char>,
    s: Seq<EntryView>,
    default_backend: AddrView,
    default_code: Option<Seq<char>>,
    a: ActionView,
) -> bool {
    if service == "host:devices"@ || service == "host:devices-l"@ {
        a == ActionView::Reply(devices_reply(s, service == "host:devices-l"@))
    } else if service == "host:track-devices"@ || service == "host:track-devices-l"@ {
        a == (ActionView::Track { long: service == "host:track-devices-l"@ })
    } else if service == "host:kill"@ {
        a == ActionView::Stop(okay_status())
    } else {
        match rewrite_refusal(service, s, hub_order(s)) {
            Some(why) => a == ActionView::Reply(fail_bytes(why)),
            None => a matches ActionView::Forward(t) && hub_target(
                service,
                s,
                default_backend,
                default_code,
                t,
            ),
        }
    }
}

/// Whether `a` is how a hub answers what it read from a client.
pub open spec fn client_answer(
    payload: Result<Seq<u8>, FaultView>,
    s: Seq<EntryView>,
    default_backend: AddrView,
    default_code: Option<Seq<char>>,
    a: ActionView,
) -> bool {
    match payload {
        Err(f) => if f.kind == IoKind::UnexpectedEof {
            a == ActionView::Close
        } else {
            a == ActionView::Fault(f)
        },
        Ok(p) => if valid_utf8(p) {
            service_answer(decode_utf8(p), s, default_backend, default_code, a)
        } else {
            a == ActionView::Reply(fail_bytes("invalid utf8 service"@))
        },
    }
}

/// The bytes that refuse a request.
pub fn fail_reply(reason: &str) -> (b: Vec<u8>)
    ensures
        b@ == fail_bytes(reason@),
{
    let mut b: Vec<u8> = Vec::new();
    write_fail(&mut b, reason);
    assert(b@ =~= fail_bytes(reason@));
    b
}

/// The bytes that answer a request with a text.
pub fn text_reply(text: &str) -> (b: Vec<u8>)
    ensures
        b@ == okay_payload_bytes(encode_utf8(text@)),
{
    let mut b: Vec<u8> = Vec::new();
    write_okay_payload(&mut b, text.as_bytes());
    assert(b@ =~= okay_payload_bytes(encode_utf8(text@)));
    b
}

/// The bytes that grant a request.
pub fn okay_reply() -> (b: Vec<u8>)
    ensures
        b@ == okay_status(),
{
    let mut b: Vec<u8> = Vec::new();
    write_okay(&mut b);
    assert(b@ =~= okay_status());
    b
}

/// Decide what to do for a client whose first packet is `payload`.
///
/// - `host:devices` / `track-devices` are answered from the device list
/// - `host:kill` stops the hub
/// - services that name a device, or any device, go to its backend
/// - everything else goes to the default backend
pub fn handle_client(
    payload: Result<Vec<u8>, IoFault>,
    snap: &DeviceSnapshot,
    default_backend: &SocketAddr,
    default_code: &Option<String>,
) -> (a: ClientAction)
    ensures
        client_answer(
            payload_view(payload),
            snap@,
            default_backend@,
            opt_view(*default_code),
            a@,
        ),
{
    let payload = match payload {
        Ok(p) => p,
        Err(f) => {
            return if f.kind == IoKind::UnexpectedEof {
                ClientAction::Close
            } else {
                ClientAction::Fault(f)
            };
        },
    };
    let service = match utf8_text(payload.as_slice()) {
        Some(s) => s,
        None => {
            return ClientAction::Reply(fail_reply("invalid utf8 service"));
        },
    };
    let service = service.as_str();
    proof {
        reveal_strlit("host:devices");
        reveal_strlit("host:devices-l");
        assert("host:devices"@.len() != "host:devices-l"@.len());
        reveal_strlit("host:track-devices");
        reveal_strlit("host:track-devices-l");
        assert("host:track-devices"@.len() != "host:track-devices-l"@.len());
    }
    if str_eq(service, "host:devices") || str_eq(service, "host:devices-l") {
        let long = str_eq(service, "host:devices-l");
        let body = snap.format_devices(long);
        return ClientAction::Reply(text_reply(body.as_str()));
    }
    if str_eq(service, "host:track-devices") || str_eq(service, "host:track-devices-l") {
        return ClientAction::Track { long: str_eq(service, "host:track-devices-l") };
    }
    if str_eq(service, "host:kill") {
        return ClientAction::Stop(okay_reply());
    }
    match choose_target(service, snap, default_backend, default_code) {
        Ok(t) => ClientAction::Forward(t),
        Err(reason) => ClientAction::Reply(fail_reply(reason.as_str())),
    }
}

/// What to do next while a connection is handed to a backend.
#[derive(Debug)]
pub enum ForwardAction {
    /// Tell the client why it failed and close.
    Refuse(Vec<u8>),
    /// Send this pair code packet to the backend and wait for its verdict.
    Authenticate(Vec<u8>),
    /// Send this service packet to the backend and join the two connections.
    Join(Vec<u8>),
}

/// Model of [`ForwardAction`].
pub enum ForwardView {
    Refuse(Seq<u8>),
    Authenticate(Seq<u8>),
    Join(Seq<u8>),
}

impl View for ForwardAction {
    type V = ForwardView;

    open spec fn view(&self) -> ForwardView {
        match self {
            ForwardAction::Refuse(b) => ForwardView::Refuse(b@),
            ForwardAction::Authenticate(b) => ForwardView::Authenticate(b@),
            ForwardAction::Join(b) => ForwardView::Join(b@),
        }
    }
}

/// The model of an outcome without a value.
pub open spec fn done_view(r: Result<(), IoFault>) -> Result<(), FaultView> {
    match r {
        Ok(_) => Ok(()),
        Err(f) => Err(f@),
    }
}

/// The refusal for a backend that cannot be used.
pub open spec fn backend_refusal(addr: AddrView, why: Seq<char>) -> ForwardView {
    ForwardView::Refuse(fail_bytes("backend "@ + addr.chars() + ": "@ + why))
}

/// The first step towards a backend, once it is connected or not.
pub open spec fn forward_first(t: TargetView, connected: Result<(), FaultView>) -> ForwardView {
    match connected {
        Err(f) => backend_refusal(t.addr, f.message),
        Ok(_) => match t.pair_code {
            Some(code) => ForwardView::Authenticate(service_bytes(auth_chars(code))),
            None => ForwardView::Join(service_bytes(t.service)),
        },
    }
}

/// The step after the backend's verdict on the pair code.
pub open spec fn forward_second(t: TargetView, verdict: Result<(), FaultView>) -> ForwardView {
    match verdict {
        Err(f) => backend_refusal(t.addr, f.message),
        Ok(_) => ForwardView::Join(service_bytes(t.service)),
    }
}

/// Refuse a client because of its backend.
fn refuse_backend(addr: &SocketAddr, why: &str) -> (a: ForwardAction)
    ensures
        a@ == backend_refusal(addr@, why@),
{
    let shown = addr.to_string();
    let mut reason = cat3("backend ", shown.as_str(), ": ");
    reason.append(why);
    ForwardAction::Refuse(fail_reply(reason.as_str()))
}

/// Join a client with its backend.
fn join_backend(service: &str) -> (a: ForwardAction)
    ensures
        a@ == ForwardView::Join(service_bytes(service@)),
{
    let mut b: Vec<u8> = Vec::new();
    write_service(&mut b, service);
    assert(b@ =~= service_bytes(service@));
    ForwardAction::Join(b)
}

/// The first step of handing a connection to a backend. A backend with a pair
/// code is authenticated to before anything else is sent.
pub fn start_forward(target: &Target, connected: Result<(), IoFault>) -> (a: ForwardAction)
    ensures
        a@ == forward_first(target@, done_view(connected)),
{
    match connected {
        Err(f) => refuse_backend(&target.addr, f.message.as_str()),
        Ok(_) => match &target.pair_code {
            Some(code) => {
                let mut b: Vec<u8> = Vec::new();
                write_auth(&mut b, code.as_str());
                assert(b@ =~= service_bytes(auth_chars(code@)));
                ForwardAction::Authenticate(b)
            },
            None => join_backend(target.service.as_str()),
        },
    }
}

/// The step after the backend's verdict on the pair code.
pub fn continue_forward(target: &Target, verdict: Result<(), IoFault>) -> (a: ForwardAction)
    ensures
        a@ == forward_second(target@, done_view(verdict)),
{
    match verdict {
        Err(f) => refuse_backend(&target.addr, f.message.as_str()),
        Ok(_) => join_backend(target.service.as_str()),
    }
}

/// How a session ends when its connection does: a peer that went away is no
/// failure.
pub fn finish_session(ended: Result<(), IoFault>) -> (r: Result<(), IoFault>)
    ensures
        match ended {
            Ok(_) => r is Ok,
            Err(f) => if benign(f.kind) {
                r is Ok
            } else {
                r == Err::<(), IoFault>(f)
            },
        },
{
    match ended {
        Ok(_) => Ok(()),
        Err(f) => if is_benign(f.kind) {
            Ok(())
        } else {
            Err(f)
        },
    }
}

/// What a client that tracks the device list waits for.
#[derive(Clone, Copy, Debug, PartialEq, Eq, Structural)]
pub enum TrackEvent {
    /// The list has changed.
    Changed,
    /// The list has changed more often than could be told.
    Lagged,
    /// There will be no more changes.
    Closed,
}

/// The first bytes for a client that tracks the device list.
pub fn track_opening(snap: &DeviceSnapshot, long: bool) -> (b: Vec<u8>)
    ensures
        b@ == okay_status() + packet_bytes(encode_utf8(devices_body(snap@, long))),
{
    let body = snap.format_devices(long);
    let mut b = okay_reply();
    write_packet(&mut b, body.as_str().as_bytes());
    b
}

/// The bytes that an event sends to a client that tracks the device list, or
/// none when tracking is over.
pub fn track_update(event: TrackEvent, snap: &DeviceSnapshot, long: bool) -> (r: Option<Vec<u8>>)
    ensures
        match r {
            Some(b) => event != TrackEvent::Closed && b@ == packet_bytes(
                encode_utf8(devices_body(snap@, long)),
            ),
            None => event == TrackEvent::Closed,
        },
{
    if event == TrackEvent::Closed {
        return None;
    }
    let body = snap.format_devices(long);
    let mut b: Vec<u8> = Vec::new();
    write_packet(&mut b, body.as_str().as_bytes());
    assert(b@ =~= packet_bytes(encode_utf8(devices_body(snap@, long))));
    Some(b)
}

/// What is done for a client that tracks its own view of the devices.
#[derive(Debug)]
pub enum TrackStep {
    /// Tracking is over.
    Over,
    /// The client has seen the list as it is: it is sent nothing.
    Quiet,
    /// Send the bytes; `body` is then the list that was last sent.
    Send { bytes: Vec<u8>, body: String },
}

/// Model of [`TrackStep`].
pub enum TrackView {
    Over,
    Quiet,
    Send { bytes: Seq<u8>, body: Seq<char> },
}

impl View for TrackStep {
    type V = TrackView;

    open spec fn view(&self) -> TrackView {
        match *self {
            TrackStep::Over => TrackView::Over,
            TrackStep::Quiet => TrackView::Quiet,
            TrackStep::Send { bytes, body } => TrackView::Send { bytes: bytes@, body: body@ },
        }
    }
}

/// What an event brings to a client that tracks its own view and was last sent
/// the list `sent`: the list as it is now, if it is another one.
pub open spec fn track_step(
    event: TrackEvent,
    sent: Seq<char>,
    s: Seq<EntryView>,
    long: bool,
) -> TrackView {
    let body = devices_body(s, long);
    if event == TrackEvent::Closed {
        TrackView::Over
    } else if body == sent {
        TrackView::Quiet
    } else {
        TrackView::Send { bytes: packet_bytes(encode_utf8(body)), body }
    }
}

/// The step of a client that tracks its own view of the devices: it is told only
/// of lists that differ from the one that it was last sent.
pub fn track_own_view(
    event: TrackEvent,
    sent: &str,
    snap: &DeviceSnapshot,
    long: bool,
) -> (r: TrackStep)
    ensures
        r@ == track_step(event, sent@, snap@, long),
{
    if event == TrackEvent::Closed {
        return TrackStep::Over;
    }
    let body = snap.format_devices(long);
    if str_eq(body.as_str(), sent) {
        return TrackStep::Quiet;
    }
    let mut bytes: Vec<u8> = Vec::new();
    write_packet(&mut bytes, body.as_str().as_bytes());
    assert(bytes@ =~= packet_bytes(encode_utf8(body@)));
    TrackStep::Send { bytes, body }
}

/// How tracking ends when the client could not be told of an event: a client
/// that went away is no failure on an ordinary change.
pub fn track_failed(event: TrackEvent, fault: IoFault) -> (r: Result<(), IoFault>)
    ensures
        if event == TrackEvent::Changed && benign(fault.kind) {
            r is Ok
        } else {
            r == Err::<(), IoFault>(fault)
        },
{
    if event == TrackEvent::Changed && is_benign(fault.kind) {
        Ok(())
    } else {
        Err(fault)
    }
}

/// At most one device is meant when the client names none.
pub proof fn preferred_device_is_unique(
    s: Seq<EntryView>,
    order: Seq<Seq<char>>,
    d: EntryView,
    e: EntryView,
)
    requires
        preferred(s, order, d),
        preferred(s, order, e),
    ensures
        d == e,
        no_preference(s, order) is None,
{
    let name = deciding(s, order)->0;
    let i = choose|i: int| #[trigger] only_online(s, name, i) && d == s[i];
    let j = choose|j: int| #[trigger] only_online(s, name, j) && e == s[j];
    lemma_online_on(s, name, i);
    if i != j {
        assert(s[j].backend_name == name && s[j].online());
    }
}

/// A usable device on `local` is preferred to every remote one.
pub proof fn local_device_is_preferred(s: Seq<EntryView>, i: int)
    requires
        only_online(s, LOCAL_BACKEND@, i),
    ensures
        preferred(s, hub_order(s), s[i]),
        deciding(s, hub_order(s)) == Some(LOCAL_BACKEND@),
{
    lemma_order_keeps_start(seq![LOCAL_BACKEND@], s);
    assert(hub_order(s)[0] == LOCAL_BACKEND@);
    assert(deciding(s, hub_order(s)) == Some(LOCAL_BACKEND@));
    assert(only_online(s, deciding(s, hub_order(s))->0, i));
}

/// The order of preference keeps what it starts with.
pub proof fn lemma_order_keeps_start(order: Seq<Seq<char>>, s: Seq<EntryView>)
    ensures
        order.len() <= seen_order(order, s).len(),
        forall|i: int| 0 <= i < order.len() ==> #[trigger] seen_order(order, s)[i] == order[i],
    decreases s.len(),
{
    if s.len() > 0 {
        lemma_order_keeps_start(order, s.drop_last());
    }
}

/// A device service goes to the backend of a listed device, under the serial
/// that the backend knows: no client reaches a device that it is not shown.
pub proof fn device_services_reach_listed_devices(
    service: Seq<char>,
    s: Seq<EntryView>,
    default_backend: AddrView,
    default_code: Option<Seq<char>>,
    t: TargetView,
)
    requires
        !(asked(service, s) is Opaque),
        hub_target(service, s, default_backend, default_code, t),
    ensures
        exists|i: int|
            0 <= i < s.len() && t == device_target(service, s, #[trigger] s[i]),
{
    let d = choose|d: EntryView|
        #[trigger] concerns(service, s, hub_order(s), d) && t == device_target(service, s, d);
    lemma_concerns_listed(service, s, hub_order(s), d);
    let i = choose|i: int| 0 <= i < s.len() && s[i] == d;
    assert(t == device_target(service, s, s[i]));
}

/// The device that a service is about is listed.
pub proof fn lemma_concerns_listed(
    service: Seq<char>,
    s: Seq<EntryView>,
    order: Seq<Seq<char>>,
    d: EntryView,
)
    requires
        concerns(service, s, order, d),
    ensures
        s.contains(d),
{
    match asked(service, s) {
        Asked::Transport { serial, .. } => {
            lemma_find_index(s, serial);
            assert(s[find_index(s, serial)] == d);
        },
        Asked::AnyDevice { .. } => {
            let name = deciding(s, order)->0;
            let i = choose|i: int| #[trigger] only_online(s, name, i) && d == s[i];
            assert(s[i] == d);
        },
        Asked::HostSerial { serial, .. } => {
            lemma_find_index(s, serial);
            assert(s[find_index(s, serial)] == d);
        },
        _ => {},
    }
}

/// Naming an online device by the serial it is shown under opens a transport
/// to that very device on its own backend.
pub proof fn named_device_is_reached(
    s: Seq<EntryView>,
    i: int,
    default_backend: AddrView,
    default_code: Option<Seq<char>>,
    t: TargetView,
)
    requires
        0 <= i < s.len(),
        s[i].online(),
        forall|j: int| 0 <= j < i ==> (#[trigger] s[j]).public_serial != s[i].public_serial,
    ensures
        rewrite_refusal("host:transport:"@ + s[i].public_serial, s, hub_order(s)) is None,
        hub_target(
            "host:transport:"@ + s[i].public_serial,
            s,
            default_backend,
            default_code,
            t,
        ) <==> t == (TargetView {
            addr: s[i].backend_addr,
            pair_code: s[i].pair_code,
            service: "host:transport:"@ + s[i].upstream_serial,
        }),
{
    let p = "host:transport:"@;
    let service = p + s[i].public_serial;
    assert(service.take(p.len() as int) =~= p);
    assert(service.skip(p.len() as int) =~= s[i].public_serial);
    lemma_find_index(s, s[i].public_serial);
    assert(find_index(s, s[i].public_serial) == i);
    assert(concerns(service, s, hub_order(s), s[i]));
}

/// Only a service about a device is sent anywhere but to the default backend.
pub proof fn lemma_opaque(service: Seq<char>, s: Seq<EntryView>)
    ensures
        asked(service, s) is Opaque <==> !about_device(service),
{
}

/// What follows `host-serial:` is about the longest listed serial that it begins
/// with: that serial is listed, and no listed one that it begins with is longer.
pub proof fn longest_listed_serial_is_meant(rest: Seq<char>, s: Seq<EntryView>, k: int)
    requires
        0 <= k < s.len(),
    ensures
        match listed_serial(rest, s) {
            Some(serial) => {
                &&& starts_with_serial(rest, serial)
                &&& find_index(s, serial) < s.len()
                &&& starts_with_serial(rest, s[k].public_serial) ==> s[k].public_serial.len()
                    <= serial.len()
            },
            None => !starts_with_serial(rest, s[k].public_serial),
        },
    decreases s.len(),
{
    let t = s.drop_last();
    let last = s.len() - 1;
    if k < last {
        longest_listed_serial_is_meant(rest, t, k);
        assert(t[k] == s[k]);
    } else if last > 0 {
        longest_listed_serial_is_meant(rest, t, 0);
    }
    if let Some(serial) = listed_serial(rest, s) {
        lemma_find_index(s, serial);
        if serial != s[last].public_serial {
            assert(last > 0);
            lemma_find_index(t, serial);
            let j = find_index(t, serial);
            assert(t[j] == s[j]);
        }
    }
}

/// A request about an online or offline device by the serial that it is shown
/// under goes to that very device, with the serial that its backend knows,
/// unless a longer serial that is also listed is named.
pub proof fn requests_by_shown_serial_are_forwarded(
    s: Seq<EntryView>,
    i: int,
    request: Seq<char>,
    default_backend: AddrView,
    default_code: Option<Seq<char>>,
    t: TargetView,
)
    requires
        0 <= i < s.len(),
        forall|j: int| 0 <= j < i ==> (#[trigger] s[j]).public_serial != s[i].public_serial,
        forall|j: int|
            0 <= j < s.len() && starts_with_serial(
                s[i].public_serial + ":"@ + request,
                (#[trigger] s[j]).public_serial,
            ) ==> s[j].public_serial.len() <= s[i].public_serial.len(),
    ensures
        ({
            let service = "host-serial:"@ + s[i].public_serial + ":"@ + request;
            &&& rewrite_refusal(service, s, hub_order(s)) is None
            &&& hub_target(service, s, default_backend, default_code, t) <==> t == (TargetView {
                addr: s[i].backend_addr,
                pair_code: s[i].pair_code,
                service: "host-serial:"@ + s[i].upstream_serial + ":"@ + request,
            })
        }),
{
    let p = "host-serial:"@;
    let serial = s[i].public_serial;
    let rest = serial + ":"@ + request;
    let service = p + serial + ":"@ + request;
    assert(service =~= p + rest);
    lemma_asked_by_serial(service, rest, s);
    reveal_strlit(":");
    assert(rest.take(serial.len() as int + 1) =~= serial.push(':'));
    longest_listed_serial_is_meant(rest, s, i);
    let found = listed_serial(rest, s)->0;
    let k = find_index(s, found);
    lemma_find_index(s, found);
    assert(s[k].public_serial == found);
    assert(found =~= serial) by {
        assert(found =~= rest.take(found.len() as int + 1).drop_last());
        assert(serial =~= rest.take(serial.len() as int + 1).drop_last());
    }
    assert(rest.skip(serial.len() as int + 1) =~= request);
    lemma_find_index(s, serial);
    assert(find_index(s, serial) == i);
    assert(concerns(service, s, hub_order(s), s[i]));
}

/// What a `host-serial:` service asks for is found behind the prefix.
proof fn lemma_asked_by_serial(service: Seq<char>, rest: Seq<char>, s: Seq<EntryView>)
    requires
        service == "host-serial:"@ + rest,
    ensures
        asked(service, s) == asked_by_serial(rest, s),
{
    reveal_strlit("host-serial:");
    reveal_strlit("host:transport:");
    reveal_strlit("host:tport:serial:");
    reveal_strlit("host:tport:any");
    reveal_strlit("host:transport-any");
    reveal_strlit("host:transport-usb");
    reveal_strlit("host:transport-local");
    let p = "host-serial:"@;
    assert(service.take(p.len() as int) =~= p);
    assert(service.skip(p.len() as int) =~= rest);
    assert(service[4] == '-');
    if has_prefix(service, "host:transport:"@) {
        assert(service.take("host:transport:"@.len() as int)[4] == service[4]);
    }
    if has_prefix(service, "host:tport:serial:"@) {
        assert(service.take("host:tport:serial:"@.len() as int)[4] == service[4]);
    }
}

/// A paired backend is sent its pair code and nothing else until it has
/// accepted the code.
pub proof fn paired_backends_are_authenticated(t: TargetView, verdict: Result<(), FaultView>)
    requires
        t.pair_code is Some,
    ensures
        forward_first(t, Ok(())) == ForwardView::Authenticate(
            service_bytes(auth_chars(t.pair_code->0)),
        ),
        forward_second(t, verdict) is Join <==> verdict is Ok,
{
}

proof fn lemma_online_found(s: Seq<EntryView>, name: Seq<char>) -> (i: int)
    requires
        online_on(s, name) > 0,
    ensures
        0 <= i < s.len(),
        s[i].backend_name == name,
        s[i].online(),
    decreases s.len(),
{
    let n = s.len() - 1;
    if s[n].backend_name == name && s[n].online() {
        n
    } else {
        lemma_online_found(s.drop_last(), name)
    }
}

proof fn lemma_online_other(s: Seq<EntryView>, name: Seq<char>, i: int) -> (j: int)
    requires
        0 <= i < s.len(),
        online_on(s, name) > 1,
    ensures
        0 <= j < s.len(),
        j != i,
        s[j].backend_name == name,
        s[j].online(),
    decreases s.len(),
{
    let n = s.len() - 1;
    if i == n {
        lemma_online_found(s.drop_last(), name)
    } else if s[n].backend_name == name && s[n].online() {
        n
    } else {
        lemma_online_other(s.drop_last(), name, i)
    }
}

proof fn lemma_deciding(s: Seq<EntryView>, order: Seq<Seq<char>>, k: int)
    requires
        0 <= k < order.len(),
        online_on(s, order[k]) > 0,
        forall|m: int| 0 <= m < k ==> online_on(s, #[trigger] order[m]) == 0,
    ensures
        deciding(s, order) == Some(order[k]),
    decreases order.len(),
{
    if k > 0 {
        assert(online_on(s, order[0]) == 0);
        let rest = order.drop_first();
        assert forall|m: int| 0 <= m < k - 1 implies online_on(s, #[trigger] rest[m]) == 0 by {
            assert(rest[m] == order[m + 1]);
        }
        lemma_deciding(s, rest, k - 1);
    }
}

proof fn lemma_undecided(s: Seq<EntryView>, order: Seq<Seq<char>>)
    requires
        forall|m: int| 0 <= m < order.len() ==> online_on(s, #[trigger] order[m]) == 0,
    ensures
        deciding(s, order) is None,
    decreases order.len(),
{
    if order.len() > 0 {
        let rest = order.drop_first();
        assert(online_on(s, order[0]) == 0);
        assert forall|m: int| 0 <= m < rest.len() implies online_on(s, #[trigger] rest[m])
            == 0 by {
            assert(rest[m] == order[m + 1]);
        }
        lemma_undecided(s, rest);
    }
}

/// When the client names no device, the first backend in the order that has a
/// usable one decides, however far down it stands. If it has just one, that device
/// is meant; if it has more, the client is told so.
pub proof fn first_usable_backend_decides(
    s: Seq<EntryView>,
    order: Seq<Seq<char>>,
    k: int,
    i: int,
)
    requires
        0 <= k < order.len(),
        0 <= i < s.len(),
        s[i].backend_name == order[k],
        s[i].state == "device"@,
        forall|m: int, j: int|
            0 <= m < k && 0 <= j < s.len() && (#[trigger] s[j]).backend_name == (
            #[trigger] order[m]) ==> s[j].state != "device"@,
    ensures
        deciding(s, order) == Some(order[k]),
        (forall|j: int|
            0 <= j < s.len() && j != i && (#[trigger] s[j]).backend_name == order[k] ==> s[j].state
                != "device"@) ==> no_preference(s, order) is None && forall|d: EntryView| #[trigger]
            preferred(s, order, d) <==> d == s[i],
        (exists|j: int|
            0 <= j < s.len() && j != i && (#[trigger] s[j]).backend_name == order[k] && s[j].state
                == "device"@) ==> no_preference(s, order) == Some("more than one device/emulator"@)
            && forall|d: EntryView| !#[trigger] preferred(s, order, d),
{
    let name = order[k];
    lemma_online_on(s, name, i);
    assert forall|m: int| 0 <= m < k implies online_on(s, #[trigger] order[m]) == 0 by {
        if online_on(s, order[m]) > 0 {
            let j = lemma_online_found(s, order[m]);
            assert(s[j].backend_name == order[m]);
        }
    }
    lemma_deciding(s, order, k);
    if online_on(s, name) > 1 {
        let j = lemma_online_other(s, name, i);
        assert(s[j].backend_name == order[k]);
    } else {
        assert(only_online(s, name, i));
        assert forall|d: EntryView| #[trigger] preferred(s, order, d) implies d == s[i] by {
            let j = choose|j: int| #[trigger] only_online(s, name, j) && d == s[j];
            if j != i {
                assert(s[j].backend_name == name && s[j].online());
            }
        }
    }
}

/// The client is told that there is no device only where none of the backends in
/// the order has a usable one.
pub proof fn no_device_is_refused_for_none(s: Seq<EntryView>, order: Seq<Seq<char>>)
    ensures
        no_preference(s, order) == Some("no devices/emulators found"@) <==> forall|i: int|
            0 <= i < s.len() && order.contains((#[trigger] s[i]).backend_name) ==> s[i].state
                != "device"@,
        no_preference(s, order) == Some("no devices/emulators found"@) ==> forall|d: EntryView|
            !#[trigger] preferred(s, order, d),
{
    reveal_strlit("no devices/emulators found");
    reveal_strlit("more than one device/emulator");
    assert(no_device()[0] != many_devices()[0]);
    if exists|i: int|
        0 <= i < s.len() && order.contains((#[trigger] s[i]).backend_name) && s[i].state
            == "device"@ {
        let i = choose|i: int|
            0 <= i < s.len() && order.contains((#[trigger] s[i]).backend_name) && s[i].state
                == "device"@;
        lemma_online_on(s, s[i].backend_name, i);
        lemma_decided(s, order, s[i].backend_name);
    } else {
        assert forall|m: int| 0 <= m < order.len() implies online_on(s, #[trigger] order[m])
            == 0 by {
            if online_on(s, order[m]) > 0 {
                let j = lemma_online_found(s, order[m]);
                assert(order.contains(s[j].backend_name));
            }
        }
        lemma_undecided(s, order);
    }
}

proof fn lemma_decided(s: Seq<EntryView>, order: Seq<Seq<char>>, name: Seq<char>)
    requires
        order.contains(name),
        online_on(s, name) > 0,
    ensures
        deciding(s, order) is Some,
    decreases order.len(),
{
    if online_on(s, order[0]) == 0 {
        let rest = order.drop_first();
        let m = choose|m: int| 0 <= m < order.len() && order[m] == name;
        assert(rest[m - 1] == name);
        lemma_decided(s, rest, name);
    }
}

/// The order of preference holds what it starts with, and then the backends of the
/// devices in the order in which they are first seen.
pub proof fn backends_are_ordered_as_first_seen(
    order: Seq<Seq<char>>,
    s: Seq<EntryView>,
    t: Seq<EntryView>,
    d: EntryView,
)
    ensures
        seen_order(order, Seq::empty()) == order,
        seen_order(order, s + t) == seen_order(seen_order(order, s), t),
        seen_order(order, seq![d]) == (if order.contains(d.backend_name) {
            order
        } else {
            order.push(d.backend_name)
        }),
    decreases t.len(),
{
    assert(seq![d].drop_last() =~= Seq::<EntryView>::empty());
    assert(seen_order(order, seq![d].drop_last()) == order);
    if t.len() == 0 {
        assert(s + t =~= s);
    } else {
        backends_are_ordered_as_first_seen(order, s, t.drop_last(), d);
        assert((s + t).drop_last() =~= s + t.drop_last());
    }
}

/// Every backend with a device has its place in the order, and none has two.
pub proof fn every_backend_has_a_place(order: Seq<Seq<char>>, s: Seq<EntryView>)
    requires
        order.no_duplicates(),
    ensures
        seen_order(order, s).no_duplicates(),
        forall|i: int| 0 <= i < order.len() ==> seen_order(order, s).contains(#[trigger] order[i]),
        forall|i: int|
            0 <= i < s.len() ==> seen_order(order, s).contains((#[trigger] s[i]).backend_name),
    decreases s.len(),
{
    if s.len() == 0 {
        assert forall|i: int| 0 <= i < order.len() implies seen_order(order, s).contains(
            #[trigger] order[i],
        ) by {}
    } else {
        let t = s.drop_last();
        every_backend_has_a_place(order, t);
        let before = seen_order(order, t);
        let after = seen_order(order, s);
        assert forall|name: Seq<char>| before.contains(name) implies after.contains(name) by {
            let k = choose|k: int| 0 <= k < before.len() && before[k] == name;
            assert(after[k] == name);
        }
        assert forall|i: int| 0 <= i < s.len() implies after.contains(
            (#[trigger] s[i]).backend_name,
        ) by {
            if i < t.len() {
                assert(t[i] == s[i]);
                assert(before.contains(t[i].backend_name));
            } else if !before.contains(s.last().backend_name) {
                assert(after[after.len() - 1] == s.last().backend_name);
            }
        }
        assert forall|i: int| 0 <= i < order.len() implies after.contains(#[trigger] order[i]) by {
            assert(before.contains(order[i]));
        }
    }
}

/// A hub prefers `local` to all others, and refuses for want of a device only if
/// no device that it lists can be used.
pub proof fn any_usable_device_is_found(s: Seq<EntryView>)
    ensures
        hub_order(s).len() > 0,
        hub_order(s)[0] == "local"@,
        hub_order(s).no_duplicates(),
        no_preference(s, hub_order(s)) == Some("no devices/emulators found"@) <==> forall|i: int|
            0 <= i < s.len() ==> (#[trigger] s[i]).state != "device"@,
{
    let start = seq![LOCAL_BACKEND@];
    lemma_order_keeps_start(start, s);
    assert(seen_order(start, s)[0] == start[0]);
    every_backend_has_a_place(start, s);
    no_device_is_refused_for_none(s, hub_order(s));
}

/// What follows a prefix is found behind it.
pub proof fn lemma_prefixed(p: Seq<char>, x: Seq<char>)
    ensures
        has_prefix(p + x, p),
        (p + x).skip(p.len() as int) == x,
{
    assert((p + x).take(p.len() as int) =~= p);
    assert((p + x).skip(p.len() as int) =~= x);
}

/// `host:tport:serial:` is not taken for `host:transport:`.
pub proof fn lemma_tport(serial: Seq<char>)
    ensures
        !has_prefix("host:tport:serial:"@ + serial, "host:transport:"@),
{
    reveal_strlit("host:transport:");
    reveal_strlit("host:tport:serial:");
    let p = "host:transport:"@;
    let q = "host:tport:serial:"@;
    if has_prefix(q + serial, p) {
        assert((q + serial).take(p.len() as int)[6] == q[6]);
    }
}

/// `host:transport:` and `host:tport:serial:` open the first device that is shown
/// under the serial, if it can be used, under the serial that its backend knows;
/// else they say why not. `i` is the position of that device, or the length.
pub proof fn transports_open_the_named_device(
    s: Seq<EntryView>,
    order: Seq<Seq<char>>,
    serial: Seq<char>,
    i: int,
    d: EntryView,
)
    requires
        0 <= i <= s.len(),
        forall|j: int| 0 <= j < i ==> (#[trigger] s[j]).public_serial != serial,
        i < s.len() ==> s[i].public_serial == serial,
    ensures
        ({
            let refusal = if i == s.len() {
                Some("device '"@ + serial + "' not found"@)
            } else if s[i].state == "device"@ {
                None
            } else {
                Some("device '"@ + serial + "' is not online ("@ + s[i].state + ")"@)
            };
            let a = "host:transport:"@ + serial;
            let b = "host:tport:serial:"@ + serial;
            &&& rewrite_refusal(a, s, order) == refusal
            &&& rewrite_refusal(b, s, order) == refusal
            &&& concerns(a, s, order, d) <==> i < s.len() && d == s[i]
            &&& concerns(b, s, order, d) <==> i < s.len() && d == s[i]
            &&& upstream_service(a, s, d) == "host:transport:"@ + d.upstream_serial
            &&& upstream_service(b, s, d) == "host:tport:serial:"@ + d.upstream_serial
        }),
{
    lemma_prefixed("host:transport:"@, serial);
    lemma_prefixed("host:tport:serial:"@, serial);
    lemma_tport(serial);
    lemma_find_index(s, serial);
    let f = find_index(s, serial);
    if f < i {
        assert(s[f].public_serial != serial);
    } else if i < f {
        assert(s[i].public_serial != serial);
    }
}

/// The services for any device open the one that is preferred, under the serial
/// that its backend knows, or are refused as there is none to prefer.
pub proof fn any_device_is_the_preferred_one(
    s: Seq<EntryView>,
    order: Seq<Seq<char>>,
    d: EntryView,
)
    ensures
        rewrite_refusal("host:tport:any"@, s, order) == no_preference(s, order),
        rewrite_refusal("host:transport-any"@, s, order) == no_preference(s, order),
        rewrite_refusal("host:transport-usb"@, s, order) == no_preference(s, order),
        rewrite_refusal("host:transport-local"@, s, order) == no_preference(s, order),
        concerns("host:tport:any"@, s, order, d) <==> preferred(s, order, d),
        concerns("host:transport-any"@, s, order, d) <==> preferred(s, order, d),
        concerns("host:transport-usb"@, s, order, d) <==> preferred(s, order, d),
        concerns("host:transport-local"@, s, order, d) <==> preferred(s, order, d),
        upstream_service("host:tport:any"@, s, d) == "host:tport:serial:"@ + d.upstream_serial,
        upstream_service("host:transport-any"@, s, d) == "host:transport:"@ + d.upstream_serial,
        upstream_service("host:transport-usb"@, s, d) == "host:transport:"@ + d.upstream_serial,
        upstream_service("host:transport-local"@, s, d) == "host:transport:"@ + d.upstream_serial,
{
    reveal_strlit("host:transport:");
    reveal_strlit("host:tport:serial:");
    reveal_strlit("host:tport:any");
    reveal_strlit("host:transport-any");
    reveal_strlit("host:transport-usb");
    reveal_strlit("host:transport-local");
    let p = "host:transport:"@;
    let q = "host:tport:serial:"@;
    let any = "host:tport:any"@;
    assert(any.len() == 14 && p.len() == 15 && q.len() == 18);
    let a = "host:transport-any"@;
    let b = "host:transport-usb"@;
    let c = "host:transport-local"@;
    assert(a[14] == '-' && b[14] == '-' && c[14] == '-' && p[14] == ':');
    assert(a[6] == 'r' && b[6] == 'r' && c[6] == 'r' && q[6] == 'p');
    if has_prefix(a, p) {
        assert(a.take(15)[14] == a[14]);
    }
    if has_prefix(b, p) {
        assert(b.take(15)[14] == b[14]);
    }
    if has_prefix(c, p) {
        assert(c.take(15)[14] == c[14]);
    }
    if has_prefix(a, q) {
        assert(a.take(18)[6] == a[6]);
    }
    if has_prefix(b, q) {
        assert(b.take(18)[6] == b[6]);
    }
    if has_prefix(c, q) {
        assert(c.take(18)[6] == c[6]);
    }
    assert(any.len() != a.len() && any.len() != b.len() && any.len() != c.len());
}

/// A `host-serial:` service that begins with no listed serial is about the one that
/// ends at its first `:`, which is not found; one without a `:` is malformed.
pub proof fn unlisted_serials_are_refused(
    s: Seq<EntryView>,
    order: Seq<Seq<char>>,
    serial: Seq<char>,
    request: Seq<char>,
)
    requires
        !serial.contains(':'),
        forall|i: int|
            0 <= i < s.len() ==> !starts_with_serial(
                serial + seq![':'] + request,
                (#[trigger] s[i]).public_serial,
            ),
    ensures
        rewrite_refusal("host-serial:"@ + (serial + seq![':'] + request), s, order) == Some(
            "device '"@ + serial + "' not found"@,
        ),
        rewrite_refusal("host-serial:"@ + serial, s, order) == Some(
            "invalid host-serial service"@,
        ),
{
    let rest = serial + seq![':'] + request;
    lemma_asked_by_serial("host-serial:"@ + rest, rest, s);
    lemma_asked_by_serial("host-serial:"@ + serial, serial, s);
    if s.len() > 0 {
        longest_listed_serial_is_meant(rest, s, 0);
    }
    lemma_unlisted(rest, s);
    crate::text::lemma_find_char(rest, ':');
    crate::text::lemma_find_char(serial, ':');
    let k = find_char(rest, ':');
    assert(rest[serial.len() as int] == ':');
    if k < serial.len() {
        assert(serial[k] == ':');
        assert(serial.contains(serial[k]));
    }
    assert(rest.take(k) =~= serial);
    lemma_find_index(s, serial);
    let f = find_index(s, serial);
    if f < s.len() {
        assert(rest.take(serial.len() as int + 1) =~= serial.push(':'));
        assert(starts_with_serial(rest, s[f].public_serial));
    }
    let m = find_char(serial, ':');
    if m < serial.len() {
        assert(serial.contains(serial[m]));
    }
    lemma_no_colon(serial, s);
}

proof fn lemma_unlisted(rest: Seq<char>, s: Seq<EntryView>)
    requires
        forall|i: int|
            0 <= i < s.len() ==> !starts_with_serial(rest, (#[trigger] s[i]).public_serial),
    ensures
        listed_serial(rest, s) is None,
    decreases s.len(),
{
    if s.len() > 0 {
        let t = s.drop_last();
        let n = s.len() - 1;
        assert(!starts_with_serial(rest, s[n].public_serial));
        assert forall|i: int| 0 <= i < t.len() implies !starts_with_serial(
            rest,
            (#[trigger] t[i]).public_serial,
        ) by {
            assert(t[i] == s[i]);
        }
        lemma_unlisted(rest, t);
    }
}

proof fn lemma_no_colon(rest: Seq<char>, s: Seq<EntryView>)
    requires
        !rest.contains(':'),
    ensures
        listed_serial(rest, s) is None,
{
    assert forall|i: int| 0 <= i < s.len() implies !starts_with_serial(
        rest,
        (#[trigger] s[i]).public_serial,
    ) by {
        let p = s[i].public_serial;
        if starts_with_serial(rest, p) {
            let n = p.len() as int;
            assert(rest.take(n + 1)[n] == p.push(':')[n]);
            assert(rest[n] == ':');
            assert(rest.contains(rest[n]));
        }
    }
    lemma_unlisted(rest, s);
}

/// All other services are about no device: they are never refused, and the default
/// backend is sent them as they are.
pub proof fn other_services_go_to_the_default_backend(
    service: Seq<char>,
    s: Seq<EntryView>,
    order: Seq<Seq<char>>,
    default_backend: AddrView,
    default_code: Option<Seq<char>>,
    t: TargetView,
)
    requires
        !has_prefix(service, "host:transport:"@),
        !has_prefix(service, "host:tport:serial:"@),
        !has_prefix(service, "host-serial:"@),
        service != "host:tport:any"@,
        service != "host:transport-any"@,
        service != "host:transport-usb"@,
        service != "host:transport-local"@,
    ensures
        !about_device(service),
        rewrite_refusal(service, s, order) is None,
        hub_target(service, s, default_backend, default_code, t) <==> t == (TargetView {
            addr: default_backend,
            pair_code: default_code,
            service,
        }),
{
}

/// What a service that is about device `s[i]` comes to: it goes to the backend that
/// has the device, with that backend's pair code.
pub proof fn device_services_go_to_the_devices_backend(
    service: Seq<char>,
    s: Seq<EntryView>,
    i: int,
    default_backend: AddrView,
    default_code: Option<Seq<char>>,
    t: TargetView,
)
    requires
        0 <= i < s.len(),
        forall|d: EntryView| #[trigger] concerns(service, s, hub_order(s), d) <==> d == s[i],
    ensures
        hub_target(service, s, default_backend, default_code, t) <==> t.addr == s[i].backend_addr
            && t.pair_code == s[i].pair_code && t.service == upstream_service(service, s, s[i]),
{
    assert(concerns(service, s, hub_order(s), s[i]));
}

/// A hub answers device list requests from its list, keeps trackers informed, stops
/// on `host:kill`, and hands everything else to a backend or says why not.
pub proof fn hub_answers_lists_and_hands_on_the_rest(
    service: Seq<char>,
    s: Seq<EntryView>,
    default_backend: AddrView,
    default_code: Option<Seq<char>>,
    a: ActionView,
)
    requires
        service_answer(service, s, default_backend, default_code, a),
    ensures
        service == "host:devices"@ ==> a == ActionView::Reply(
            okay_payload_bytes(encode_utf8(devices_body(s, false))),
        ),
        service == "host:devices-l"@ ==> a == ActionView::Reply(
            okay_payload_bytes(encode_utf8(devices_body(s, true))),
        ),
        service == "host:track-devices"@ ==> a == (ActionView::Track { long: false }),
        service == "host:track-devices-l"@ ==> a == (ActionView::Track { long: true }),
        service == "host:kill"@ ==> a == ActionView::Stop(okay_status()),
        !seq![
            "host:devices"@,
            "host:devices-l"@,
            "host:track-devices"@,
            "host:track-devices-l"@,
            "host:kill"@,
        ].contains(service) ==> match rewrite_refusal(service, s, hub_order(s)) {
            Some(why) => a == ActionView::Reply(fail_bytes(why)),
            None => a matches ActionView::Forward(t) && hub_target(
                service,
                s,
                default_backend,
                default_code,
                t,
            ),
        },
{
    reveal_strlit("host:devices");
    reveal_strlit("host:devices-l");
    reveal_strlit("host:track-devices");
    reveal_strlit("host:track-devices-l");
    reveal_strlit("host:kill");
    assert("host:devices"@.len() == 12 && "host:devices-l"@.len() == 14);
    assert("host:track-devices"@.len() == 18 && "host:track-devices-l"@.len() == 20);
    assert("host:kill"@.len() == 9);
    let own = seq![
        "host:devices"@,
        "host:devices-l"@,
        "host:track-devices"@,
        "host:track-devices-l"@,
        "host:kill"@,
    ];
    assert(own[0] == "host:devices"@ && own[1] == "host:devices-l"@);
    assert(own[2] == "host:track-devices"@ && own[3] == "host:track-devices-l"@);
    assert(own[4] == "host:kill"@);
}

/// A client that leaves without a request is let go, one whose connection fails is
/// a failure, and one that sends no text is told so.
pub proof fn clients_without_a_service(
    f: FaultView,
    p: Seq<u8>,
    s: Seq<EntryView>,
    default_backend: AddrView,
    default_code: Option<Seq<char>>,
    a: ActionView,
)
    ensures
        client_answer(Err(f), s, default_backend, default_code, a) <==> a == (if f.kind
            == IoKind::UnexpectedEof {
            ActionView::Close
        } else {
            ActionView::Fault(f)
        }),
        !valid_utf8(p) ==> (client_answer(Ok(p), s, default_backend, default_code, a) <==> a
            == ActionView::Reply(fail_bytes("invalid utf8 service"@))),
        valid_utf8(p) ==> (client_answer(Ok(p), s, default_backend, default_code, a)
            <==> service_answer(decode_utf8(p), s, default_backend, default_code, a)),
{
}

/// A connection is joined to its backend with the service that was chosen for it,
/// once the backend is connected and has accepted its pair code, if it has one;
/// where that fails, the client is told which backend failed and why.
pub proof fn connections_are_joined_or_refused(t: TargetView, why: FaultView)
    ensures
        forward_first(t, Ok(())) == (match t.pair_code {
            Some(code) => ForwardView::Authenticate(
                packet_bytes(encode_utf8("auth:"@ + code)),
            ),
            None => ForwardView::Join(packet_bytes(encode_utf8(t.service))),
        }),
        forward_second(t, Ok(())) == ForwardView::Join(packet_bytes(encode_utf8(t.service))),
        forward_first(t, Err(why)) == ForwardView::Refuse(
            fail_bytes("backend "@ + t.addr.chars() + ": "@ + why.message),
        ),
        forward_second(t, Err(why)) == ForwardView::Refuse(
            fail_bytes("backend "@ + t.addr.chars() + ": "@ + why.message),
        ),
{
}

/// A client that tracks its own view is sent the list as it is, exactly when it has
/// changed since it was last sent one.
pub proof fn trackers_are_sent_what_changed(
    event: TrackEvent,
    sent: Seq<char>,
    s: Seq<EntryView>,
    long: bool,
)
    ensures
        track_step(event, sent, s, long) == TrackView::Over <==> event == TrackEvent::Closed,
        track_step(event, sent, s, long) == TrackView::Quiet <==> event != TrackEvent::Closed
            && devices_body(s, long) == sent,
        track_step(event, sent, s, long) matches TrackView::Send { bytes, body } ==> body
            == devices_body(s, long) && bytes == packet_bytes(encode_utf8(body)),
{
}

/// The one device that can be used is picked, wherever it stands in the list; only
/// where none can be used is the client told so.
pub proof fn the_only_usable_device_is_picked(
    snap: &DeviceSnapshot,
    r: Result<&DeviceEntry, String>,
    i: int,
)
    requires
        call_ensures(pick_preferred, (snap,), r),
    ensures
        0 <= i < snap@.len() && snap@[i].state == "device"@ && (forall|j: int|
            0 <= j < snap@.len() && j != i ==> (#[trigger] snap@[j]).state != "device"@) ==> (
        r matches Ok(d) && d@ == snap@[i]),
        r matches Ok(d) ==> d@.state == "device"@ && snap@.contains(d@),
        r matches Err(e) ==> (e@ == "no devices/emulators found"@ <==> forall|j: int|
            0 <= j < snap@.len() ==> (#[trigger] snap@[j]).state != "device"@),
{
    let s = snap@;
    let order = hub_order(s);
    any_usable_device_is_found(s);
    if 0 <= i < s.len() && s[i].state == "device"@ && (forall|j: int|
        0 <= j < s.len() && j != i ==> (#[trigger] s[j]).state != "device"@) {
        every_backend_has_a_place(seq![LOCAL_BACKEND@], s);
        assert(order.contains(s[i].backend_name));
        let k = lemma_first_place(order, s[i].backend_name);
        assert forall|m: int, j: int|
            0 <= m < k && 0 <= j < s.len() && (#[trigger] s[j]).backend_name == (
            #[trigger] order[m]) implies s[j].state != "device"@ by {
            if j == i {
                assert(order[m] != s[i].backend_name);
            }
        }
        first_usable_backend_decides(s, order, k, i);
    }
    if let Ok(d) = r {
        let name = deciding(s, order)->0;
        let j = choose|j: int| #[trigger] only_online(s, name, j) && d@ == s[j];
        assert(s[j] == d@);
    }
}

proof fn lemma_first_place(order: Seq<Seq<char>>, name: Seq<char>) -> (k: int)
    requires
        order.contains(name),
    ensures
        0 <= k < order.len(),
        order[k] == name,
        forall|m: int| 0 <= m < k ==> #[trigger] order[m] != name,
    decreases order.len(),
{
    let before = order.drop_last();
    if before.contains(name) {
        let k = lemma_first_place(before, name);
        assert forall|m: int| 0 <= m < k implies #[trigger] order[m] != name by {
            assert(before[m] != name);
        }
        k
    } else {
        let n = order.len() - 1;
        let i = choose|i: int| 0 <= i < order.len() && order[i] == name;
        if i < n {
            assert(before[i] == name);
        }
        assert forall|m: int| 0 <= m < n implies #[trigger] order[m] != name by {
            if order[m] == name {
                assert(before[m] == name);
            }
        }
        n
    }
}

/// A peer that went away ends a session without a failure, and a tracking client may
/// go away on an ordinary change; any other failure is one.
pub proof fn peers_may_go_away(
    ended: Result<(), IoFault>,
    r: Result<(), IoFault>,
    event: TrackEvent,
    f: IoFault,
    t: Result<(), IoFault>,
)
    requires
        call_ensures(finish_session, (ended,), r),
        call_ensures(track_failed, (event, f), t),
    ensures
        r is Ok <==> (ended is Ok || benign(ended->Err_0.kind)),
        r is Err ==> r == ended,
        t is Ok <==> event == TrackEvent::Changed && benign(f.kind),
        t is Err ==> t == Err::<(), IoFault>(f),
{
}

/// A client that tracks the devices is first sent the list as it is, after `OKAY`,
/// and the list as it is then on every change, until there are no more.
pub proof fn trackers_are_sent_every_list(
    snap: &DeviceSnapshot,
    long: bool,
    first: Vec<u8>,
    event: TrackEvent,
    next: Option<Vec<u8>>,
)
    requires
        call_ensures(track_opening, (snap, long), first),
        call_ensures(track_update, (event, snap, long), next),
    ensures
        first@ == okay_status() + packet_bytes(encode_utf8(devices_body(snap@, long))),
        next is None <==> event == TrackEvent::Closed,
        next matches Some(b) ==> first@ == okay_status() + b@,
{
}

/// A request by the serial that a device is shown under is about that very device,
/// in whatever state it is, unless a longer listed serial is named; its backend is
/// sent it with the serial that it knows.
pub proof fn requests_by_serial_are_about_the_device(
    s: Seq<EntryView>,
    order: Seq<Seq<char>>,
    i: int,
    request: Seq<char>,
    d: EntryView,
)
    requires
        0 <= i < s.len(),
        forall|j: int| 0 <= j < i ==> (#[trigger] s[j]).public_serial != s[i].public_serial,
        forall|j: int|
            0 <= j < s.len() && starts_with_serial(
                s[i].public_serial + ":"@ + request,
                (#[trigger] s[j]).public_serial,
            ) ==> s[j].public_serial.len() <= s[i].public_serial.len(),
    ensures
        ({
            let service = "host-serial:"@ + s[i].public_serial + ":"@ + request;
            &&& about_device(service)
            &&& asked(service, s) == (Asked::HostSerial { serial: s[i].public_serial, request })
            &&& rewrite_refusal(service, s, order) is None
            &&& concerns(service, s, order, d) <==> d == s[i]
            &&& upstream_service(service, s, d) == "host-serial:"@ + d.upstream_serial + ":"@
                + request
        }),
{
    let p = "host-serial:"@;
    let serial = s[i].public_serial;
    let rest = serial + ":"@ + request;
    let service = p + serial + ":"@ + request;
    assert(service =~= p + rest);
    lemma_prefixed(p, rest);
    lemma_asked_by_serial(service, rest, s);
    reveal_strlit(":");
    assert(rest.take(serial.len() as int + 1) =~= serial.push(':'));
    longest_listed_serial_is_meant(rest, s, i);
    let found = listed_serial(rest, s)->0;
    let k = find_index(s, found);
    lemma_find_index(s, found);
    assert(s[k].public_serial == found);
    assert(found =~= serial) by {
        assert(found =~= rest.take(found.len() as int + 1).drop_last());
        assert(serial =~= rest.take(serial.len() as int + 1).drop_last());
    }
    assert(rest.skip(serial.len() as int + 1) =~= request);
    lemma_find_index(s, serial);
    assert(find_index(s, serial) == i);
}

/// A client of the hub that asks for the devices is sent exactly those that are
/// registered; one that breaks off is let go, and one that sends no text is refused.
pub proof fn hub_clients_are_answered(
    payload: Result<Vec<u8>, IoFault>,
    snap: &DeviceSnapshot,
    default_backend: &SocketAddr,
    default_code: &Option<String>,
    a: ClientAction,
    long: bool,
)
    requires
        call_ensures(handle_client, (payload, snap, default_backend, default_code), a),
    ensures
        payload matches Ok(p) && p@ == encode_utf8(
            if long {
                "host:devices-l"@
            } else {
                "host:devices"@
            },
        ) ==> a@ == ActionView::Reply(
            okay_payload_bytes(encode_utf8(devices_body(snap@, long))),
        ),
        payload matches Ok(p) && p@ == encode_utf8(
            if long {
                "host:track-devices-l"@
            } else {
                "host:track-devices"@
            },
        ) ==> a@ == (ActionView::Track { long }),
        payload matches Ok(p) && !valid_utf8(p@) ==> a@ == ActionView::Reply(
            fail_bytes("invalid utf8 service"@),
        ),
        payload matches Err(f) ==> a@ == (if f.kind == IoKind::UnexpectedEof {
            ActionView::Close
        } else {
            ActionView::Fault(f@)
        }),
{
    lemma_text_bytes("host:devices"@);
    lemma_text_bytes("host:devices-l"@);
    lemma_text_bytes("host:track-devices"@);
    lemma_text_bytes("host:track-devices-l"@);
    if payload is Ok && valid_utf8(payload->Ok_0@) {
        let service = decode_utf8(payload->Ok_0@);
        let code = opt_view(*default_code);
        clients_without_a_service(
            arbitrary(),
            payload->Ok_0@,
            snap@,
            default_backend@,
            code,
            a@,
        );
        hub_answers_lists_and_hands_on_the_rest(service, snap@, default_backend@, code, a@);
    }
}

/// A backend that was reached is sent the pair code if it has one, and else the
/// service at once; the client of one that was not reached is told why.
pub proof fn reached_backends_are_sent_the_service(
    target: &Target,
    connected: Result<(), IoFault>,
    a: ForwardAction,
)
    requires
        call_ensures(start_forward, (target, connected), a),
    ensures
        connected is Ok && target.pair_code is None ==> a@ == ForwardView::Join(
            packet_bytes(encode_utf8(target.service@)),
        ),
        connected is Ok && target.pair_code is Some ==> a@ == ForwardView::Authenticate(
            packet_bytes(encode_utf8("auth:"@ + target.pair_code->0@)),
        ),
        connected matches Err(f) ==> a@ == ForwardView::Refuse(
            fail_bytes("backend "@ + target.addr@.chars() + ": "@ + f.message@),
        ),
{
    connections_are_joined_or_refused(target@, arbitrary());
}

} // verus!
