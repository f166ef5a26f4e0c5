//! Device snapshots and the merging of per-backend device lists.

use vstd::prelude::*;
use vstd::string::*;

use crate::addr::{AddrView, SocketAddr};
use crate::config::{BackendConfig, BackendView};
use crate::digits::{dec_seq, lemma_dec_seq, push_dec};
use crate::policy::{banner, enabled_by, is_banner, DevicePolicyTable};
use crate::text::{
    cat3, has_prefix, is_empty, is_white_space, is_word, join_from, join_seq, lemma_lines_append,
    lemma_trimmed, lemma_word_alone, lemma_words_concat, lemma_words_join, lines, lines_seq,
    opt_clone, opt_eq, opt_view, split_whitespace, str_eq, trim, trim_seq, views, whole_lines,
    words_seq,
};

verus! {

/// One device as it is shown to clients.
#[derive(Debug, PartialEq, Eq)]
pub struct DeviceEntry {
    /// Serial as seen by clients (may be rewritten on conflict).
    pub public_serial: String,
    /// Serial to send to the upstream adb server.
    pub upstream_serial: String,
    pub state: String,
    /// Extra columns of `devices -l`.
    pub extras: String,
    pub backend_name: String,
    pub backend_addr: SocketAddr,
    pub pair_code: Option<String>,
    /// The agent's name for the way to the device; shared devices have none.
    pub route_id: Option<String>,
}

/// Model of [`DeviceEntry`].
pub struct EntryView {
    pub public_serial: Seq<char>,
    pub upstream_serial: Seq<char>,
    pub state: Seq<char>,
    pub extras: Seq<char>,
    pub backend_name: Seq<char>,
    pub backend_addr: AddrView,
    pub pair_code: Option<Seq<char>>,
    pub route_id: Option<Seq<char>>,
}

impl View for DeviceEntry {
    type V = EntryView;

    open spec fn view(&self) -> EntryView {
        EntryView {
            public_serial: self.public_serial@,
            upstream_serial: self.upstream_serial@,
            state: self.state@,
            extras: self.extras@,
            backend_name: self.backend_name@,
            backend_addr: self.backend_addr@,
            pair_code: opt_view(self.pair_code),
            route_id: opt_view(self.route_id),
        }
    }
}

impl EntryView {
    /// Whether the device can be used.
    pub open spec fn online(self) -> bool {
        self.state == "device"@
    }
}

impl Clone for DeviceEntry {
    fn clone(&self) -> (r: Self)
        ensures
            r@ == self@,
    {
        DeviceEntry {
            public_serial: self.public_serial.clone(),
            upstream_serial: self.upstream_serial.clone(),
            state: self.state.clone(),
            extras: self.extras.clone(),
            backend_name: self.backend_name.clone(),
            backend_addr: self.backend_addr.clone(),
            pair_code: opt_clone(&self.pair_code),
            route_id: opt_clone(&self.route_id),
        }
    }
}

impl DeviceEntry {
    /// Whether two entries are the same.
    pub fn same(&self, other: &DeviceEntry) -> (r: bool)
        ensures
            r == (self@ == other@),
    {
        str_eq(self.public_serial.as_str(), other.public_serial.as_str()) && str_eq(
            self.upstream_serial.as_str(),
            other.upstream_serial.as_str(),
        ) && str_eq(self.state.as_str(), other.state.as_str()) && str_eq(
            self.extras.as_str(),
            other.extras.as_str(),
        ) && str_eq(self.backend_name.as_str(), other.backend_name.as_str())
            && self.backend_addr.same(&other.backend_addr) && opt_eq(
            &self.pair_code,
            &other.pair_code,
        ) && opt_eq(&self.route_id, &other.route_id)
    }

    /// Whether the device can be used.
    pub fn is_online(&self) -> (r: bool)
        ensures
            r == self@.online(),
    {
        str_eq(self.state.as_str(), "device")
    }
}

/// The models of a list of devices.
pub open spec fn entry_views(s: Seq<DeviceEntry>) -> Seq<EntryView> {
    Seq::new(s.len(), |i: int| s[i]@)
}

/// The devices visible at one moment, in order.
#[derive(Debug)]
pub struct DeviceSnapshot {
    pub devices: Vec<DeviceEntry>,
}

impl View for DeviceSnapshot {
    type V = Seq<EntryView>;

    open spec fn view(&self) -> Seq<EntryView> {
        entry_views(self.devices@)
    }
}

impl Default for DeviceSnapshot {
    fn default() -> (r: Self)
        ensures
            r@ == Seq::<EntryView>::empty(),
    {
        let r = DeviceSnapshot { devices: Vec::new() };
        assert(r@ =~= Seq::<EntryView>::empty());
        r
    }
}

impl Clone for DeviceSnapshot {
    fn clone(&self) -> (r: Self)
        ensures
            r@ == self@,
    {
        let mut devices: Vec<DeviceEntry> = Vec::new();
        let mut i: usize = 0;
        while i < self.devices.len()
            invariant
                i <= self.devices@.len(),
                devices@.len() == i,
                forall|j: int| 0 <= j < i ==> (#[trigger] devices@[j])@ == self.devices@[j]@,
            decreases self.devices@.len() - i,
        {
            devices.push(self.devices[i].clone());
            i += 1;
        }
        let r = DeviceSnapshot { devices };
        assert(r@ =~= self@);
        r
    }
}

/// The line that lists one device.
pub open spec fn device_line(d: EntryView, long: bool) -> Seq<char> {
    let short = d.public_serial + "\t"@ + d.state;
    if long && d.extras.len() > 0 {
        short + " "@ + d.extras + "\n"@
    } else {
        short + "\n"@
    }
}

/// The device list that is sent to clients.
pub open spec fn devices_body(s: Seq<EntryView>, long: bool) -> Seq<char>
    decreases s.len(),
{
    if s.len() == 0 {
        Seq::empty()
    } else {
        devices_body(s.drop_last(), long) + device_line(s.last(), long)
    }
}

/// The position of the first device with a public serial, or the length.
pub open spec fn find_index(s: Seq<EntryView>, public_serial: Seq<char>) -> int
    decreases s.len(),
{
    if s.len() == 0 || s[0].public_serial == public_serial {
        0
    } else {
        1 + find_index(s.drop_first(), public_serial)
    }
}

/// `find_index` is the first position with that serial.
pub proof fn lemma_find_index(s: Seq<EntryView>, public_serial: Seq<char>)
    ensures
        0 <= find_index(s, public_serial) <= s.len(),
        forall|j: int|
            0 <= j < find_index(s, public_serial) ==> (#[trigger] s[j]).public_serial
                != public_serial,
        find_index(s, public_serial) < s.len() ==> s[find_index(s, public_serial)].public_serial
            == public_serial,
    decreases s.len(),
{
    if s.len() > 0 && s[0].public_serial != public_serial {
        let t = s.drop_first();
        lemma_find_index(t, public_serial);
        assert forall|j: int| 0 <= j < find_index(s, public_serial) implies (
        #[trigger] s[j]).public_serial != public_serial by {
            if j > 0 {
                assert(t[j - 1] == s[j]);
            }
        }
    }
}

/// The number of devices that can be used.
pub open spec fn online_devices(s: Seq<EntryView>) -> nat
    decreases s.len(),
{
    if s.len() == 0 {
        0
    } else {
        online_devices(s.drop_last()) + if s.last().online() {
            1nat
        } else {
            0nat
        }
    }
}

/// The devices that the policy leaves visible, in order.
pub open spec fn visible_only(s: Seq<EntryView>, policy: Map<Seq<char>, bool>) -> Seq<EntryView>
    decreases s.len(),
{
    if s.len() == 0 {
        Seq::empty()
    } else if enabled_by(policy, s.last().public_serial) {
        visible_only(s.drop_last(), policy).push(s.last())
    } else {
        visible_only(s.drop_last(), policy)
    }
}

impl DeviceSnapshot {
    /// The device list that is sent to clients; `long` adds the extra columns.
    pub fn format_devices(&self, long: bool) -> (out: String)
        ensures
            out@ == devices_body(self@, long),
    {
        let mut out = String::new();
        let mut i: usize = 0;
        assert(self@.take(0) =~= Seq::<EntryView>::empty());
        while i < self.devices.len()
            invariant
                i <= self.devices@.len(),
                out@ == devices_body(self@.take(i as int), long),
            decreases self.devices@.len() - i,
        {
            let d = &self.devices[i];
            let ghost before = out@;
            out.append(d.public_serial.as_str());
            out.append("\t");
            out.append(d.state.as_str());
            if long && !is_empty(d.extras.as_str()) {
                out.append(" ");
                out.append(d.extras.as_str());
            }
            out.append("\n");
            assert(out@ =~= before + device_line(d@, long));
            assert(self@.take(i + 1).drop_last() =~= self@.take(i as int));
            assert(self@.take(i + 1).last() == d@);
            i += 1;
        }
        assert(self@.take(i as int) =~= self@);
        out
    }

    /// The first device with a public serial.
    pub fn find(&self, public_serial: &str) -> (r: Option<&DeviceEntry>)
        ensures
            ({
                let i = find_index(self@, public_serial@);
                match r {
                    Some(d) => 0 <= i < self@.len() && *d == self.devices@[i] && d@ == self@[i],
                    None => i == self@.len(),
                }
            }),
    {
        proof {
            lemma_find_index(self@, public_serial@);
        }
        let mut i: usize = 0;
        while i < self.devices.len()
            invariant
                i <= self.devices@.len(),
                i <= find_index(self@, public_serial@) <= self@.len(),
                find_index(self@, public_serial@) < self@.len() ==> self@[find_index(
                    self@,
                    public_serial@,
                )].public_serial == public_serial@,
                forall|j: int|
                    0 <= j < find_index(self@, public_serial@) ==> (
                    #[trigger] self@[j]).public_serial != public_serial@,
            decreases self.devices@.len() - i,
        {
            assert(self@[i as int] == self.devices@[i as int]@);
            if str_eq(self.devices[i].public_serial.as_str(), public_serial) {
                return Some(&self.devices[i]);
            }
            i += 1;
        }
        None
    }

    /// The number of devices that can be used.
    pub fn online_count(&self) -> (n: usize)
        ensures
            n == online_devices(self@),
    {
        let mut n: usize = 0;
        let mut i: usize = 0;
        assert(self@.take(0) =~= Seq::<EntryView>::empty());
        while i < self.devices.len()
            invariant
                i <= self.devices@.len(),
                n <= i,
                n == online_devices(self@.take(i as int)),
            decreases self.devices@.len() - i,
        {
            assert(self@.take(i + 1).drop_last() =~= self@.take(i as int));
            assert(self@.take(i + 1).last() == self.devices@[i as int]@);
            if self.devices[i].is_online() {
                n += 1;
            }
            i += 1;
        }
        assert(self@.take(i as int) =~= self@);
        n
    }

    /// Whether two snapshots list the same devices in the same order.
    pub fn same(&self, other: &DeviceSnapshot) -> (r: bool)
        ensures
            r == (self@ == other@),
    {
        if self.devices.len() != other.devices.len() {
            assert(self@.len() != other@.len());
            return false;
        }
        let mut i: usize = 0;
        while i < self.devices.len()
            invariant
                i <= self.devices@.len(),
                self.devices@.len() == other.devices@.len(),
                forall|j: int| 0 <= j < i ==> (#[trigger] self@[j]) == other@[j],
            decreases self.devices@.len() - i,
        {
            if !self.devices[i].same(&other.devices[i]) {
                assert(self@[i as int] != other@[i as int]);
                return false;
            }
            i += 1;
        }
        assert(self@ =~= other@);
        true
    }

    /// The devices under serials that tell them apart: `name:serial` where
    /// several have the same one, with a number behind it where that is in use.
    pub fn told_apart(&self) -> (r: DeviceSnapshot)
        ensures
            r@ == told_apart(self@),
    {
        let ghost l = entry_labels(self@);
        let mut devices: Vec<DeviceEntry> = Vec::new();
        while devices.len() < self.devices.len()
            invariant
                devices@.len() <= self.devices@.len(),
                l == entry_labels(self@),
                forall|j: int|
                    0 <= j < devices@.len() ==> (#[trigger] devices@[j])@ == (EntryView {
                        public_serial: shown_serials(l, devices@.len())[j],
                        ..self@[j]
                    }),
            decreases self.devices@.len() - devices@.len(),
        {
            let i = devices.len();
            let mut d = self.devices[i].clone();
            assert(l[i as int] == (Label {
                name: d@.backend_name,
                serial: d@.public_serial,
            }));
            let wanted = if self.is_shared_serial(i) {
                cat3(d.backend_name.as_str(), ":", d.public_serial.as_str())
            } else {
                d.public_serial.clone()
            };
            proof {
                lemma_shown(l, i as nat, (i + 1) as nat);
                assert(public_serials(entry_views(devices@)) =~= shown_serials(l, i as nat));
            }
            d.public_serial =
            fresh_serial(&devices, d.backend_name.as_str(), d.public_serial.as_str(), wanted);
            devices.push(d);
        }
        let r = DeviceSnapshot { devices };
        assert(r@ =~= told_apart(self@));
        r
    }

    /// Whether another device has the serial of device `i`.
    fn is_shared_serial(&self, i: usize) -> (r: bool)
        requires
            i < self.devices@.len(),
        ensures
            r == has_twin(entry_labels(self@), i as int),
    {
        let ghost l = entry_labels(self@);
        let d = &self.devices[i];
        let mut k: usize = 0;
        while k < self.devices.len()
            invariant
                k <= self.devices@.len(),
                i < self.devices@.len(),
                l == entry_labels(self@),
                d == self.devices@[i as int],
                forall|j: int|
                    0 <= j < k && j != i ==> (#[trigger] l[j]).serial != l[i as int].serial,
            decreases self.devices@.len() - k,
        {
            let e = &self.devices[k];
            assert(l[k as int].serial == e@.public_serial);
            assert(l[i as int].serial == d@.public_serial);
            if k != i && str_eq(d.public_serial.as_str(), e.public_serial.as_str()) {
                return true;
            }
            k += 1;
        }
        false
    }

    /// The devices that the policy leaves visible.
    pub fn filtered(&self, policy: &DevicePolicyTable) -> (r: DeviceSnapshot)
        ensures
            r@ == visible_only(self@, policy@),
    {
        let mut devices: Vec<DeviceEntry> = Vec::new();
        let mut i: usize = 0;
        assert(entry_views(devices@) =~= visible_only(self@.take(0), policy@));
        while i < self.devices.len()
            invariant
                i <= self.devices@.len(),
                entry_views(devices@) == visible_only(self@.take(i as int), policy@),
            decreases self.devices@.len() - i,
        {
            let d = &self.devices[i];
            let ghost before = devices@;
            assert(self@.take(i + 1).drop_last() =~= self@.take(i as int));
            assert(self@.take(i + 1).last() == d@);
            if policy.is_enabled(d.public_serial.as_str()) {
                devices.push(d.clone());
                assert(entry_views(devices@) =~= entry_views(before).push(d@));
            }
            i += 1;
        }
        assert(self@.take(i as int) =~= self@);
        DeviceSnapshot { devices }
    }
}

/// The device list of a hub.
#[derive(Debug)]
pub struct DeviceRegistry {
    inner: DeviceSnapshot,
}

impl View for DeviceRegistry {
    type V = Seq<EntryView>;

    closed spec fn view(&self) -> Seq<EntryView> {
        self.inner@
    }
}

impl DeviceRegistry {
    /// A registry without devices.
    pub fn new() -> (r: Self)
        ensures
            r@ == Seq::<EntryView>::empty(),
    {
        DeviceRegistry { inner: DeviceSnapshot::default() }
    }

    /// The devices that are registered now.
    pub fn snapshot(&self) -> (snap: DeviceSnapshot)
        ensures
            snap@ == self@,
    {
        self.inner.clone()
    }

    /// Replace the devices by what the backends list. Tells whether they
    /// changed, so that clients who track them can be told.
    pub fn update_from_backend_lists(&mut self, lists: &[(BackendConfig, String)]) -> (changed:
        bool)
        ensures
            final(self)@ == merged(all_reports(list_views(lists@))),
            changed == (old(self)@ != final(self)@),
    {
        let snap = merge_device_lists(lists);
        let changed = !self.inner.same(&snap);
        self.inner = snap;
        changed
    }
}

impl Default for DeviceRegistry {
    fn default() -> (r: Self)
        ensures
            r@ == Seq::<EntryView>::empty(),
    {
        DeviceRegistry::new()
    }
}

/// The serial, the state and the extra columns of a device line; banners,
/// blank lines and lines without a state hold none.
pub open spec fn device_fields(line: Seq<char>) -> Option<(Seq<char>, Seq<char>, Seq<char>)> {
    let t = trim_seq(line);
    let words = words_seq(t);
    if t.len() == 0 || is_banner(t) || words.len() < 2 {
        None
    } else {
        Some((words[0], words[1], join_seq(words.skip(2), " "@)))
    }
}

/// Parse one line of `adb devices` / `devices -l` output.
pub fn parse_device_line(line: &str) -> (r: Option<(String, String, String)>)
    ensures
        match device_fields(line@) {
            Some((serial, state, extras)) => r matches Some(f) && f.0@ == serial && f.1@ == state
                && f.2@ == extras,
            None => r is None,
        },
{
    let t = trim(line);
    if is_empty(t) || banner(t) {
        return None;
    }
    let words = split_whitespace(t);
    if words.len() < 2 {
        return None;
    }
    let extras = join_from(&words, 2, " ");
    assert(views(words@)[0] == words@[0]@);
    assert(views(words@)[1] == words@[1]@);
    Some((words[0].clone(), words[1].clone(), extras))
}

/// A device line together with the backend that reported it.
#[derive(Debug)]
pub struct Reported {
    pub backend: BackendConfig,
    pub serial: String,
    pub state: String,
    pub extras: String,
}

/// Model of [`Reported`].
pub struct ReportView {
    pub backend: BackendView,
    pub serial: Seq<char>,
    pub state: Seq<char>,
    pub extras: Seq<char>,
}

impl View for Reported {
    type V = ReportView;

    open spec fn view(&self) -> ReportView {
        ReportView {
            backend: self.backend@,
            serial: self.serial@,
            state: self.state@,
            extras: self.extras@,
        }
    }
}

/// The models of a list of reported devices.
pub open spec fn report_views(s: Seq<Reported>) -> Seq<ReportView> {
    Seq::new(s.len(), |i: int| s[i]@)
}

/// The devices on the lines of one backend's list, in order.
pub open spec fn line_reports(backend: BackendView, all: Seq<Seq<char>>) -> Seq<ReportView>
    decreases all.len(),
{
    if all.len() == 0 {
        Seq::empty()
    } else {
        match device_fields(all.last()) {
            Some((serial, state, extras)) => line_reports(backend, all.drop_last()).push(
                ReportView { backend, serial, state, extras },
            ),
            None => line_reports(backend, all.drop_last()),
        }
    }
}

/// A backend and the body of its device list.
pub struct ListView {
    pub backend: BackendView,
    pub body: Seq<char>,
}

/// The models of the lists of all backends.
pub open spec fn list_views(lists: Seq<(BackendConfig, String)>) -> Seq<ListView> {
    Seq::new(lists.len(), |i: int| ListView { backend: lists[i].0@, body: lists[i].1@ })
}

/// The devices of all backends, in the order of the lists.
pub open spec fn all_reports(lists: Seq<ListView>) -> Seq<ReportView>
    decreases lists.len(),
{
    if lists.len() == 0 {
        Seq::empty()
    } else {
        all_reports(lists.drop_last()) + line_reports(
            lists.last().backend,
            lines_seq(lists.last().body),
        )
    }
}

/// `name:serial`.
pub open spec fn joined(name: Seq<char>, serial: Seq<char>) -> Seq<char> {
    name + ":"@ + serial
}

/// The backend and the serial of a device.
pub struct Label {
    pub name: Seq<char>,
    pub serial: Seq<char>,
}

/// The backends and public serials of listed devices.
pub open spec fn entry_labels(s: Seq<EntryView>) -> Seq<Label> {
    Seq::new(
        s.len(),
        |i: int| Label { name: s[i].backend_name, serial: s[i].public_serial },
    )
}

/// The public serials of listed devices.
pub open spec fn public_serials(s: Seq<EntryView>) -> Seq<Seq<char>> {
    Seq::new(s.len(), |i: int| s[i].public_serial)
}

/// Whether another device has the same serial.
pub open spec fn has_twin(l: Seq<Label>, i: int) -> bool {
    exists|j: int| 0 <= j < l.len() && j != i && (#[trigger] l[j]).serial == l[i].serial
}

/// The serial that device `i` is to be shown under: its own, or `name:serial`
/// where another device has the same serial.
pub open spec fn wanted_serial(l: Seq<Label>, i: int) -> Seq<char> {
    if has_twin(l, i) {
        joined(l[i].name, l[i].serial)
    } else {
        l[i].serial
    }
}

/// `name:serial:number`.
pub open spec fn numbered(a: Label, k: nat) -> Seq<char> {
    joined(a.name, a.serial) + ":"@ + dec_seq(k)
}

/// The first number from `k` on with which `name:serial:number` is not in use.
pub open spec fn unused_number(taken: Seq<Seq<char>>, a: Label, k: nat) -> nat
    decreases taken.len(),
{
    if taken.contains(numbered(a, k)) {
        unused_number(taken.remove(taken.index_of(numbered(a, k))), a, k + 1)
    } else {
        k
    }
}

/// The wanted serial, or one with a number from `k` on behind it where the wanted
/// one is in use.
pub open spec fn unused_serial(
    taken: Seq<Seq<char>>,
    a: Label,
    wanted: Seq<char>,
    k: nat,
) -> Seq<char> {
    if taken.contains(wanted) {
        numbered(a, unused_number(taken, a, k))
    } else {
        wanted
    }
}

/// The serials under which the first `n` devices are shown, each chosen so that
/// none before it is the same.
pub open spec fn shown_serials(l: Seq<Label>, n: nat) -> Seq<Seq<char>>
    decreases n,
{
    if n == 0 {
        Seq::empty()
    } else {
        let i = (n - 1) as nat;
        let taken = shown_serials(l, i);
        taken.push(unused_serial(taken, l[i as int], wanted_serial(l, i as int), i))
    }
}

/// The devices under serials that tell them apart.
pub open spec fn told_apart(s: Seq<EntryView>) -> Seq<EntryView> {
    Seq::new(
        s.len(),
        |i: int|
            EntryView { public_serial: shown_serials(entry_labels(s), s.len())[i], ..s[i] },
    )
}

/// The entry of a reported device, under its own serial.
pub open spec fn entry_of(r: ReportView) -> EntryView {
    EntryView {
        public_serial: r.serial,
        upstream_serial: r.serial,
        state: r.state,
        extras: r.extras,
        backend_name: r.backend.name,
        backend_addr: r.backend.addr,
        pair_code: r.backend.pair_code,
        route_id: None,
    }
}

/// The entries of reported devices.
pub open spec fn entries_of(reports: Seq<ReportView>) -> Seq<EntryView> {
    Seq::new(reports.len(), |i: int| entry_of(reports[i]))
}

/// The merged device list.
pub open spec fn merged(reports: Seq<ReportView>) -> Seq<EntryView> {
    told_apart(entries_of(reports))
}

/// The serials of a prefix are the prefix of the serials.
pub proof fn lemma_shown(l: Seq<Label>, m: nat, n: nat)
    requires
        m <= n,
    ensures
        shown_serials(l, n).len() == n,
        shown_serials(l, m).len() == m,
        shown_serials(l, m) == shown_serials(l, n).take(m as int),
        m < n ==> shown_serials(l, n)[m as int] == unused_serial(
            shown_serials(l, m),
            l[m as int],
            wanted_serial(l, m as int),
            m,
        ),
    decreases n,
{
    if n > 0 {
        let k = (n - 1) as nat;
        if m < n {
            lemma_shown(l, m, k);
            assert(shown_serials(l, n).take(m as int) =~= shown_serials(l, k).take(m as int));
        } else {
            lemma_shown(l, k, k);
            assert(shown_serials(l, n).take(n as int) =~= shown_serials(l, n));
        }
    } else {
        assert(shown_serials(l, 0).take(0) =~= shown_serials(l, 0));
    }
}

/// Different numbers give different serials.
proof fn lemma_numbers_differ(a: Label, k: nat, m: nat)
    requires
        numbered(a, k) == numbered(a, m),
    ensures
        k == m,
{
    let p = joined(a.name, a.serial) + ":"@;
    assert(numbered(a, k).skip(p.len() as int) =~= dec_seq(k));
    assert(numbered(a, m).skip(p.len() as int) =~= dec_seq(m));
    lemma_dec_seq(k);
    lemma_dec_seq(m);
}

/// `unused_number` is the first number that is not in use.
pub proof fn lemma_unused_number(taken: Seq<Seq<char>>, a: Label, k: nat)
    ensures
        k <= unused_number(taken, a, k) <= k + taken.len(),
        !taken.contains(numbered(a, unused_number(taken, a, k))),
        forall|m: nat|
            k <= m < unused_number(taken, a, k) ==> taken.contains(#[trigger] numbered(a, m)),
    decreases taken.len(),
{
    let x = numbered(a, k);
    if taken.contains(x) {
        let at = taken.index_of(x);
        let rest = taken.remove(at);
        let f = unused_number(taken, a, k);
        lemma_unused_number(rest, a, k + 1);
        if taken.contains(numbered(a, f)) {
            let j = choose|j: int| 0 <= j < taken.len() && taken[j] == numbered(a, f);
            if j == at {
                lemma_numbers_differ(a, k, f);
            } else if j < at {
                assert(rest[j] == numbered(a, f));
            } else {
                assert(rest[j - 1] == numbered(a, f));
            }
        }
        assert forall|m: nat| k <= m < f implies taken.contains(#[trigger] numbered(a, m)) by {
            if m > k {
                assert(rest.contains(numbered(a, m)));
                let j = choose|j: int| 0 <= j < rest.len() && rest[j] == numbered(a, m);
                assert(taken[if j < at {
                    j
                } else {
                    j + 1
                }] == numbered(a, m));
            }
        }
    }
}

/// The devices on the lines of all lists, in order.
fn collect_reports(lists: &[(BackendConfig, String)]) -> (r: Vec<Reported>)
    ensures
        report_views(r@) == all_reports(list_views(lists@)),
{
    let mut r: Vec<Reported> = Vec::new();
    let mut i: usize = 0;
    let ghost views_all = list_views(lists@);
    assert(report_views(r@) =~= all_reports(views_all.take(0)));
    while i < lists.len()
        invariant
            i <= lists@.len(),
            views_all == list_views(lists@),
            report_views(r@) == all_reports(views_all.take(i as int)),
        decreases lists@.len() - i,
    {
        let backend = &lists[i].0;
        let all = lines(lists[i].1.as_str());
        let ghost texts = views(all@);
        let ghost start = report_views(r@);
        let mut k: usize = 0;
        assert(start + line_reports(backend@, texts.take(0)) =~= start);
        while k < all.len()
            invariant
                k <= all@.len(),
                texts == views(all@),
                report_views(r@) == start + line_reports(backend@, texts.take(k as int)),
            decreases all@.len() - k,
        {
            assert(texts.take(k + 1).drop_last() =~= texts.take(k as int));
            assert(texts.take(k + 1).last() == all@[k as int]@);
            let ghost before = r@;
            if let Some((serial, state, extras)) = parse_device_line(all[k].as_str()) {
                r.push(Reported { backend: backend.clone(), serial, state, extras });
                assert(report_views(r@) =~= report_views(before).push(r@.last()@));
                assert(report_views(r@) =~= start + line_reports(backend@, texts.take(k + 1)));
            }
            k += 1;
        }
        assert(texts.take(k as int) =~= texts);
        assert(views_all.take(i + 1).drop_last() =~= views_all.take(i as int));
        assert(views_all.take(i + 1).last() == views_all[i as int]);
        i += 1;
    }
    assert(views_all.take(i as int) =~= views_all);
    r
}

/// Whether a public serial is already in use.
fn is_taken(devices: &Vec<DeviceEntry>, public: &str) -> (r: bool)
    ensures
        r == public_serials(entry_views(devices@)).contains(public@),
{
    let ghost taken = public_serials(entry_views(devices@));
    let mut i: usize = 0;
    while i < devices.len()
        invariant
            i <= devices@.len(),
            taken == public_serials(entry_views(devices@)),
            forall|j: int| 0 <= j < i ==> #[trigger] taken[j] != public@,
        decreases devices@.len() - i,
    {
        assert(taken[i as int] == devices@[i as int].public_serial@);
        if str_eq(devices[i].public_serial.as_str(), public) {
            return true;
        }
        i += 1;
    }
    false
}

/// The wanted serial for the next device, or `name:serial` with the first number
/// from the device's position on that makes it a new one.
fn fresh_serial(devices: &Vec<DeviceEntry>, name: &str, serial: &str, wanted: String) -> (r:
    String)
    ensures
        r@ == unused_serial(
            public_serials(entry_views(devices@)),
            Label { name: name@, serial: serial@ },
            wanted@,
            devices@.len(),
        ),
{
    if !is_taken(devices, wanted.as_str()) {
        return wanted;
    }
    let ghost taken = public_serials(entry_views(devices@));
    let ghost a = Label { name: name@, serial: serial@ };
    let ghost number = unused_number(taken, a, devices@.len());
    proof {
        lemma_unused_number(taken, a, devices@.len());
    }
    let mut k: u128 = devices.len() as u128;
    loop
        invariant
            taken == public_serials(entry_views(devices@)),
            a == (Label { name: name@, serial: serial@ }),
            taken.contains(wanted@),
            number == unused_number(taken, a, devices@.len()),
            devices@.len() <= k <= number <= 2 * usize::MAX,
            !taken.contains(numbered(a, number)),
            forall|m: nat|
                devices@.len() <= m < number ==> taken.contains(#[trigger] numbered(a, m)),
        decreases number - k,
    {
        let mut public = cat3(name, ":", serial);
        public.append(":");
        push_dec(&mut public, k);
        assert(public@ =~= numbered(a, k as nat));
        if !is_taken(devices, public.as_str()) {
            return public;
        }
        k += 1;
    }
}

/// Merge the device lists of all backends, in order. A serial that more than
/// one line reports is shown as `name:serial`.
pub fn merge_device_lists(lists: &[(BackendConfig, String)]) -> (snap: DeviceSnapshot)
    ensures
        snap@ == merged(all_reports(list_views(lists@))),
{
    let reports = collect_reports(lists);
    let ghost all = report_views(reports@);
    let mut devices: Vec<DeviceEntry> = Vec::new();
    while devices.len() < reports.len()
        invariant
            devices@.len() <= reports@.len(),
            all == report_views(reports@),
            forall|j: int|
                0 <= j < devices@.len() ==> (#[trigger] devices@[j])@ == entry_of(all[j]),
        decreases reports@.len() - devices@.len(),
    {
        let r = &reports[devices.len()];
        devices.push(
            DeviceEntry {
                public_serial: r.serial.clone(),
                upstream_serial: r.serial.clone(),
                state: r.state.clone(),
                extras: r.extras.clone(),
                backend_name: r.backend.name.clone(),
                backend_addr: r.backend.addr.clone(),
                pair_code: opt_clone(&r.backend.pair_code),
                route_id: None,
            },
        );
    }
    let snap = DeviceSnapshot { devices };
    assert(snap@ =~= entries_of(all));
    snap.told_apart()
}

/// Merging loses no device and adds none: every reported device is listed, in
/// order, with its own serial for the upstream and the backend that has it.
pub proof fn merging_keeps_every_device(reports: Seq<ReportView>, i: int)
    requires
        0 <= i < reports.len(),
    ensures
        merged(reports).len() == reports.len(),
        merged(reports)[i].upstream_serial == reports[i].serial,
        merged(reports)[i].state == reports[i].state,
        merged(reports)[i].extras == reports[i].extras,
        merged(reports)[i].backend_name == reports[i].backend.name,
        merged(reports)[i].backend_addr == reports[i].backend.addr,
        merged(reports)[i].pair_code == reports[i].backend.pair_code,
{
}

proof fn lemma_shown_distinct(l: Seq<Label>, n: nat)
    ensures
        shown_serials(l, n).no_duplicates(),
    decreases n,
{
    if n > 0 {
        let i = (n - 1) as nat;
        lemma_shown_distinct(l, i);
        lemma_shown(l, i, n);
        let taken = shown_serials(l, i);
        let all = shown_serials(l, n);
        lemma_unused_number(taken, l[i as int], i);
        assert(!taken.contains(all[i as int]));
        assert forall|a: int, b: int| 0 <= a < n && 0 <= b < n && a != b implies all[a]
            != all[b] by {
            if a < i {
                assert(all[a] == taken[a]);
            }
            if b < i {
                assert(all[b] == taken[b]);
            }
        }
    }
}

/// Devices that are told apart are all shown under different serials.
pub proof fn told_apart_serials_are_unique(s: Seq<EntryView>)
    ensures
        public_serials(told_apart(s)).no_duplicates(),
{
    let l = entry_labels(s);
    lemma_shown_distinct(l, s.len());
    lemma_shown(l, s.len(), s.len());
    assert(public_serials(told_apart(s)) =~= shown_serials(l, s.len()));
}

/// No two devices of a merged list are shown under the same serial.
pub proof fn public_serials_are_unique(reports: Seq<ReportView>)
    ensures
        public_serials(merged(reports)).no_duplicates(),
{
    told_apart_serials_are_unique(entries_of(reports));
}

/// A device whose serial another one has is shown under a serial that begins with
/// `name:serial`; any other keeps its own, unless an earlier device is already
/// shown under it.
pub proof fn shown_serials_name_the_backend(s: Seq<EntryView>, i: int)
    requires
        0 <= i < s.len(),
    ensures
        ({
            let shown = told_apart(s)[i].public_serial;
            let twin = has_twin(entry_labels(s), i);
            &&& twin ==> has_prefix(shown, joined(s[i].backend_name, s[i].public_serial)) && shown
                != s[i].public_serial
            &&& !twin ==> (shown == s[i].public_serial <==> !public_serials(told_apart(s)).take(
                i,
            ).contains(s[i].public_serial))
        }),
{
    reveal_strlit(":");
    let l = entry_labels(s);
    let shown = told_apart(s)[i].public_serial;
    let p = joined(s[i].backend_name, s[i].public_serial);
    let taken = shown_serials(l, i as nat);
    lemma_shown(l, i as nat, s.len());
    lemma_unused_number(taken, l[i], i as nat);
    assert(public_serials(told_apart(s)).take(i) =~= taken);
    if has_twin(l, i) {
        assert(shown.take(p.len() as int) =~= p);
    }
}

/// Whether an earlier device of the same backend has the same serial.
pub open spec fn is_repeated(l: Seq<Label>, i: int) -> bool {
    exists|j: int| 0 <= j < i && (#[trigger] l[j]) == l[i]
}

/// `name:serial`, with a position behind it or not.
pub open spec fn told_form(a: Label, i: int, repeated: bool) -> Seq<char> {
    if repeated {
        numbered(a, i as nat)
    } else {
        joined(a.name, a.serial)
    }
}

/// The serial that tells device `i` apart where no serial can be mistaken for
/// another: its own where no other device has it,
/// else `name:serial`, with its position behind it where the backend has another
/// such device before.
pub open spec fn told_serial(l: Seq<Label>, i: int) -> Seq<char> {
    if !has_twin(l, i) {
        l[i].serial
    } else {
        told_form(l[i], i, is_repeated(l, i))
    }
}

/// Whether serials that are told apart cannot be mistaken for others: where a
/// serial must be told apart the backend's name holds no `:`, no other serial
/// looks like it with the name before it, and none of the backend's like it with
/// a position behind it.
pub open spec fn is_clear(l: Seq<Label>) -> bool {
    forall|i: int, k: int|
        0 <= i < l.len() && 0 <= k < l.len() && has_twin(l, i) ==> {
            &&& !(#[trigger] l[i]).name.contains(':')
            &&& !has_twin(l, k) ==> !has_prefix(
                (#[trigger] l[k]).serial,
                joined(l[i].name, l[i].serial),
            )
            &&& has_twin(l, k) && is_repeated(l, i) && l[k].name == l[i].name ==> !has_prefix(
                l[k].serial,
                l[i].serial + ":"@,
            )
        }
}

/// Backends and serials without `:` are always clear.
pub proof fn plain_labels_are_clear(l: Seq<Label>)
    requires
        forall|i: int|
            0 <= i < l.len() ==> !(#[trigger] l[i]).name.contains(':') && !l[i].serial.contains(
                ':',
            ),
    ensures
        is_clear(l),
{
    reveal_strlit(":");
    assert forall|i: int, k: int|
        0 <= i < l.len() && 0 <= k < l.len() && has_twin(l, i) implies {
        &&& !(#[trigger] l[i]).name.contains(':')
        &&& !has_prefix((#[trigger] l[k]).serial, joined(l[i].name, l[i].serial))
        &&& !has_prefix(l[k].serial, l[i].serial + ":"@)
    } by {
        let t = l[k].serial;
        let p = joined(l[i].name, l[i].serial);
        let q = l[i].serial + ":"@;
        if has_prefix(t, p) {
            let n = l[i].name.len() as int;
            assert(p[n] == ':');
            assert(t.take(p.len() as int)[n] == t[n]);
            assert(t.contains(t[n]));
        }
        if has_prefix(t, q) {
            let n = l[i].serial.len() as int;
            assert(q[n] == ':');
            assert(t.take(q.len() as int)[n] == t[n]);
            assert(t.contains(t[n]));
        }
    }
}

/// Names without `:` can be told from what follows them.
proof fn lemma_joined(m: Seq<char>, s: Seq<char>, n: Seq<char>, t: Seq<char>)
    requires
        !m.contains(':'),
        !n.contains(':'),
        joined(m, s) == joined(n, t),
    ensures
        m == n,
        s == t,
{
    reveal_strlit(":");
    let q = joined(m, s);
    let a = m.len() as int;
    let b = n.len() as int;
    assert(q[a] == ':');
    assert(joined(n, t)[b] == ':');
    if a < b {
        assert(joined(n, t)[a] == n[a]);
        assert(n.contains(n[a]));
    } else if b < a {
        assert(q[b] == m[b]);
        assert(m.contains(m[b]));
    }
    assert(m =~= q.take(a));
    assert(n =~= joined(n, t).take(b));
    assert(s =~= q.skip(a + 1));
    assert(t =~= joined(n, t).skip(b + 1));
}

/// What is numbered can be told from its number.
proof fn lemma_numbered(s: Seq<char>, i: nat, t: Seq<char>, k: nat)
    requires
        joined(s, dec_seq(i)) == joined(t, dec_seq(k)),
    ensures
        s == t && i == k || has_prefix(s, t + ":"@) || has_prefix(t, s + ":"@),
{
    reveal_strlit(":");
    let q = joined(s, dec_seq(i));
    let r = joined(t, dec_seq(k));
    lemma_dec_seq(i);
    lemma_dec_seq(k);
    let a = s.len() as int;
    let b = t.len() as int;
    assert(q[a] == ':' && r[b] == ':');
    if a < b {
        assert(t.take(a + 1) =~= s + ":"@) by {
            assert(r.take(b) =~= t);
            assert(q.take(a + 1) =~= s + ":"@);
            assert(r.take(b).take(a + 1) =~= q.take(a + 1));
        }
    } else if b < a {
        assert(s.take(b + 1) =~= t + ":"@) by {
            assert(q.take(a) =~= s);
            assert(r.take(b + 1) =~= t + ":"@);
            assert(q.take(a).take(b + 1) =~= r.take(b + 1));
        }
    } else {
        assert(s =~= q.take(a));
        assert(t =~= r.take(b));
        assert(dec_seq(i) =~= q.skip(a + 1));
        assert(dec_seq(k) =~= r.skip(b + 1));
    }
}

/// A serial that must be told apart begins with `name:serial`.
proof fn lemma_told_prefix(l: Seq<Label>, i: int)
    requires
        0 <= i < l.len(),
        has_twin(l, i),
    ensures
        has_prefix(told_serial(l, i), joined(l[i].name, l[i].serial)),
        told_serial(l, i) != l[i].serial,
{
    reveal_strlit(":");
    let p = joined(l[i].name, l[i].serial);
    assert(told_serial(l, i).take(p.len() as int) =~= p);
}

/// Where serials are clear no two devices are told apart alike: a device keeps
/// its own serial exactly when no other has it, and else its serial begins with
/// `name:serial`.
pub proof fn told_serials_differ(l: Seq<Label>, i: int, k: int)
    requires
        is_clear(l),
        0 <= i < l.len(),
        0 <= k < l.len(),
        i != k,
    ensures
        told_serial(l, i) != told_serial(l, k),
        told_serial(l, i) == l[i].serial <==> !has_twin(l, i),
        has_twin(l, i) ==> has_prefix(told_serial(l, i), joined(l[i].name, l[i].serial)),
{
    let (a, b) = (l[i], l[k]);
    let (x, y) = (told_serial(l, i), told_serial(l, k));
    if has_twin(l, i) {
        lemma_told_prefix(l, i);
    }
    if has_twin(l, k) {
        lemma_told_prefix(l, k);
    }
    if x == y {
        assert(l[i].serial == a.serial && l[k].serial == b.serial);
        if has_twin(l, i) && has_twin(l, k) {
            lemma_told_twins_differ(l, i, k);
        }
    }
}

proof fn lemma_told_forms(a: Label, i: int, ra: bool, b: Label, k: int, rb: bool)
    requires
        0 <= i,
        0 <= k,
        !a.name.contains(':'),
        !b.name.contains(':'),
        told_form(a, i, ra) == told_form(b, k, rb),
    ensures
        a.name == b.name,
        ra == rb && a.serial == b.serial && (ra ==> i == k) || ra && has_prefix(
            b.serial,
            a.serial + ":"@,
        ) || rb && has_prefix(a.serial, b.serial + ":"@),
{
    let si = joined(a.serial, dec_seq(i as nat));
    let sk = joined(b.serial, dec_seq(k as nat));
    assert(numbered(a, i as nat) =~= joined(a.name, si));
    assert(numbered(b, k as nat) =~= joined(b.name, sk));
    let s = if ra {
        si
    } else {
        a.serial
    };
    let t = if rb {
        sk
    } else {
        b.serial
    };
    lemma_joined(a.name, s, b.name, t);
    if ra && rb {
        lemma_numbered(a.serial, i as nat, b.serial, k as nat);
    } else if ra {
        assert(b.serial.take((a.serial + ":"@).len() as int) =~= a.serial + ":"@);
    } else if rb {
        assert(a.serial.take((b.serial + ":"@).len() as int) =~= b.serial + ":"@);
    }
}

proof fn lemma_told_twins_differ(l: Seq<Label>, i: int, k: int)
    requires
        is_clear(l),
        0 <= i < l.len(),
        0 <= k < l.len(),
        i != k,
        has_twin(l, i),
        has_twin(l, k),
    ensures
        told_serial(l, i) != told_serial(l, k),
{
    let ra = is_repeated(l, i);
    let rb = is_repeated(l, k);
    if told_serial(l, i) == told_serial(l, k) {
        assert(told_serial(l, i) == told_form(l[i], i, ra));
        assert(told_serial(l, k) == told_form(l[k], k, rb));
        assert(!l[i].name.contains(':') && !l[k].name.contains(':'));
        lemma_told_forms(l[i], i, ra, l[k], k, rb);
        if ra {
            assert(!has_prefix(l[k].serial, l[i].serial + ":"@));
        }
        if rb {
            assert(!has_prefix(l[i].serial, l[k].serial + ":"@));
        }
        assert(l[i] == l[k]);
        if i < k {
            assert(is_repeated(l, k));
        } else {
            assert(is_repeated(l, i));
        }
    }
}

/// Devices whose serials are all different keep them.
pub proof fn different_serials_are_kept(s: Seq<EntryView>)
    requires
        public_serials(s).no_duplicates(),
    ensures
        told_apart(s) == s,
{
    lemma_different_shown(s, s.len());
    assert(told_apart(s) =~= s);
}

proof fn lemma_different_shown(s: Seq<EntryView>, n: nat)
    requires
        public_serials(s).no_duplicates(),
        n <= s.len(),
    ensures
        shown_serials(entry_labels(s), n) == public_serials(s).take(n as int),
    decreases n,
{
    let l = entry_labels(s);
    let own = public_serials(s);
    if n > 0 {
        let i = n - 1;
        lemma_different_shown(s, i as nat);
        let taken = shown_serials(l, i as nat);
        if has_twin(l, i) {
            let j = choose|j: int| 0 <= j < l.len() && j != i && (#[trigger] l[j]).serial
                == l[i].serial;
            assert(own[j] == own[i]);
        }
        if taken.contains(own[i]) {
            let j = choose|j: int| 0 <= j < taken.len() && taken[j] == own[i];
            assert(own[j] == own[i]);
        }
    }
    assert(shown_serials(l, n) =~= own.take(n as int));
}

/// Telling devices apart that are told apart changes nothing.
pub proof fn telling_apart_again_changes_nothing(s: Seq<EntryView>)
    ensures
        told_apart(told_apart(s)) == told_apart(s),
{
    told_apart_serials_are_unique(s);
    different_serials_are_kept(told_apart(s));
}

/// The first device with the label of device `i`.
proof fn lemma_first_alike(l: Seq<Label>, i: int) -> (j: int)
    requires
        0 <= i < l.len(),
    ensures
        0 <= j <= i,
        l[j] == l[i],
        !is_repeated(l, j),
    decreases i,
{
    if is_repeated(l, i) {
        let k = choose|k: int| 0 <= k < i && (#[trigger] l[k]) == l[i];
        lemma_first_alike(l, k)
    } else {
        i
    }
}

proof fn lemma_told_given(l: Seq<Label>, n: nat)
    requires
        is_clear(l),
        n <= l.len(),
    ensures
        shown_serials(l, n) == Seq::new(n, |i: int| told_serial(l, i)),
    decreases n,
{
    let given = Seq::new(n, |i: int| told_serial(l, i));
    if n > 0 {
        let m = n - 1;
        lemma_told_given(l, m as nat);
        let taken = shown_serials(l, m as nat);
        let told = told_serial(l, m);
        if taken.contains(told) {
            let k = choose|k: int| 0 <= k < taken.len() && taken[k] == told;
            told_serials_differ(l, k, m);
        }
        if has_twin(l, m) && is_repeated(l, m) {
            let j = lemma_first_alike(l, m);
            assert(has_twin(l, j)) by {
                assert(l[m].serial == l[j].serial);
            }
            assert(taken[j] == wanted_serial(l, m));
        }
    }
    assert(shown_serials(l, n) =~= given);
}

/// Where no serial can be mistaken for another, a device keeps its serial exactly
/// when no other device has it, and else it is shown under `name:serial`, with its
/// position behind it if it is another one of its backend.
pub proof fn clear_serials_are_told_plainly(s: Seq<EntryView>, i: int)
    requires
        is_clear(entry_labels(s)),
        0 <= i < s.len(),
    ensures
        told_apart(s)[i].public_serial == told_serial(entry_labels(s), i),
        told_apart(s)[i].public_serial == s[i].public_serial <==> !has_twin(entry_labels(s), i),
{
    let l = entry_labels(s);
    lemma_told_given(l, s.len());
    if has_twin(l, i) {
        lemma_told_prefix(l, i);
    }
}

/// Devices that several backends report under one serial are told apart in the
/// merged list. Where no serial can be mistaken for another, all others are shown
/// under their own serials, and the first of each backend under `name:serial`.
pub proof fn conflicts_are_shown_by_backend(reports: Seq<ReportView>, i: int, j: int)
    requires
        0 <= i < reports.len(),
        0 <= j < reports.len(),
        i != j,
    ensures
        ({
            let l = entry_labels(entries_of(reports));
            let shown = merged(reports)[i].public_serial;
            let r = reports[i];
            &&& shown != merged(reports)[j].public_serial
            &&& r.serial == reports[j].serial ==> has_prefix(
                shown,
                joined(r.backend.name, r.serial),
            )
            &&& is_clear(l) ==> (shown == r.serial <==> !has_twin(l, i))
            &&& is_clear(l) && r.serial == reports[j].serial && !is_repeated(l, i) ==> shown
                == joined(r.backend.name, r.serial)
        }),
{
    let s = entries_of(reports);
    let l = entry_labels(s);
    public_serials_are_unique(reports);
    assert(public_serials(merged(reports))[i] != public_serials(merged(reports))[j]);
    shown_serials_name_the_backend(s, i);
    if reports[i].serial == reports[j].serial {
        assert(l[j].serial == l[i].serial);
        assert(has_twin(l, i));
    }
    if is_clear(l) {
        clear_serials_are_told_plainly(s, i);
    }
}

/// A device is found again under the serial that it is shown under, wherever
/// no earlier device is shown under the same one.
pub proof fn shown_device_is_found(s: Seq<EntryView>, i: int)
    requires
        0 <= i < s.len(),
        forall|j: int| 0 <= j < i ==> (#[trigger] s[j]).public_serial != s[i].public_serial,
    ensures
        find_index(s, s[i].public_serial) == i,
{
    lemma_find_index(s, s[i].public_serial);
}

/// The policy hides the disabled devices and no others.
pub proof fn policy_hides_the_disabled(
    s: Seq<EntryView>,
    policy: Map<Seq<char>, bool>,
    d: EntryView,
)
    ensures
        visible_only(s, policy).contains(d) <==> s.contains(d) && enabled_by(
            policy,
            d.public_serial,
        ),
    decreases s.len(),
{
    if s.len() > 0 {
        let t = s.drop_last();
        policy_hides_the_disabled(t, policy, d);
        let v = visible_only(s, policy);
        let w = visible_only(t, policy);
        if w.contains(d) {
            let k = choose|k: int| 0 <= k < w.len() && w[k] == d;
            assert(v[k] == d);
        }
        if t.contains(d) {
            let k = choose|k: int| 0 <= k < t.len() && t[k] == d;
            assert(s[k] == d);
        }
        if s.contains(d) && !t.contains(d) {
            let k = choose|k: int| 0 <= k < s.len() && s[k] == d;
            assert(k == s.len() - 1) by {
                if k < s.len() - 1 {
                    assert(t[k] == d);
                }
            }
            if enabled_by(policy, d.public_serial) {
                assert(v[v.len() - 1] == d);
            }
        }
        if v.contains(d) && !w.contains(d) {
            let k = choose|k: int| 0 <= k < v.len() && v[k] == d;
            if k < w.len() {
                assert(w[k] == d);
            }
            assert(d == s.last());
        }
        assert(s.contains(s.last())) by {
            assert(s[s.len() - 1] == s.last());
        }
    }
}

/// A device that is listed is read again by whoever reads the list: the line of
/// a device gives its public serial, its state and its extra columns.
pub proof fn listed_device_is_parsed_back(d: EntryView, extras: Seq<Seq<char>>)
    requires
        is_word(d.public_serial),
        d.public_serial[0] != '*',
        is_word(d.state),
        forall|i: int| 0 <= i < extras.len() ==> is_word(#[trigger] extras[i]),
        d.extras == join_seq(extras, " "@),
    ensures
        device_line(d, true).last() == '\n',
        device_fields(device_line(d, true).drop_last()) == Some(
            (d.public_serial, d.state, d.extras),
        ),
{
    let line = device_line(d, true).drop_last();
    let short = d.public_serial + "\t"@ + d.state;
    reveal_strlit("\t");
    reveal_strlit(" ");
    reveal_strlit("\n");
    assert("\t"@ =~= seq!['\t']);
    assert(" "@ =~= seq![' ']);
    lemma_words_join(extras);
    lemma_words_concat(d.public_serial, '\t', d.state);
    lemma_word_alone(d.public_serial);
    lemma_word_alone(d.state);
    let first_two = seq![d.public_serial, d.state];
    assert(seq![d.public_serial] + seq![d.state] =~= first_two);
    assert(words_seq(short) == first_two);
    assert(!is_white_space(d.public_serial[0]));
    assert(!is_white_space(d.state[d.state.len() - 1]));
    if d.extras.len() > 0 {
        assert(line =~= short + seq![' '] + d.extras);
        lemma_words_concat(short, ' ', d.extras);
        assert(extras.len() > 0);
        assert(line.last() == d.extras.last());
    } else {
        assert(line =~= short);
        assert(extras.len() == 0) by {
            if extras.len() > 0 {
                assert(false);
            }
        }
        assert(first_two + extras =~= first_two);
        assert(line.last() == d.state[d.state.len() - 1]);
    }
    let words = words_seq(line);
    assert(words == first_two + extras);
    assert(line[0] == d.public_serial[0]);
    lemma_trimmed(line);
    assert(words[0] == d.public_serial && words[1] == d.state);
    assert(words.skip(2) =~= extras);
    assert(!is_banner(line)) by {
        reveal_strlit("List of");
        let p = "List of"@;
        if has_prefix(line, p) {
            assert(line.take(p.len() as int) == p);
            let n = d.public_serial.len() as int;
            assert(line[n] == '\t');
            if n <= 4 {
                assert(line.take(p.len() as int)[n] == line[n]);
            } else {
                assert(line.take(p.len() as int)[4] == line[4]);
                assert(line[4] == d.public_serial[4]);
            }
        }
    }
}

/// The line of a device shows its public serial and its state, whether the list is
/// long or short and whatever the state is. In a long list the extra columns follow.
pub proof fn lines_show_serial_and_state(d: EntryView)
    ensures
        device_line(d, false) == d.public_serial + seq!['\t'] + d.state + seq!['\n'],
        device_line(d, true) == (if d.extras.len() == 0 {
            device_line(d, false)
        } else {
            device_line(d, false).drop_last() + seq![' '] + d.extras + seq!['\n']
        }),
{
    reveal_strlit("\t");
    reveal_strlit(" ");
    reveal_strlit("\n");
    assert("\t"@ =~= seq!['\t']);
    assert(" "@ =~= seq![' ']);
    assert("\n"@ =~= seq!['\n']);
    let short = d.public_serial + seq!['\t'] + d.state;
    assert(device_line(d, false).drop_last() =~= short);
    if d.extras.len() > 0 {
        assert(device_line(d, true) =~= short + seq![' '] + d.extras + seq!['\n']);
    }
}

/// A device of a short list is read again by whoever reads the list, with the
/// state that it has.
pub proof fn short_line_is_parsed_back(d: EntryView)
    requires
        is_word(d.public_serial),
        d.public_serial[0] != '*',
        is_word(d.state),
    ensures
        device_line(d, false).last() == '\n',
        device_fields(device_line(d, false).drop_last()) == Some(
            (d.public_serial, d.state, Seq::<char>::empty()),
        ),
{
    let bare = EntryView { extras: Seq::empty(), ..d };
    listed_device_is_parsed_back(bare, Seq::empty());
    lines_show_serial_and_state(d);
    lines_show_serial_and_state(bare);
}

/// A device list is the lines of its devices, one for each and in order.
pub proof fn lists_are_made_of_lines(s: Seq<EntryView>, t: Seq<EntryView>, d: EntryView, long: bool)
    ensures
        devices_body(Seq::empty(), long) == Seq::<char>::empty(),
        devices_body(seq![d], long) == device_line(d, long),
        devices_body(s + t, long) == devices_body(s, long) + devices_body(t, long),
    decreases t.len(),
{
    assert(seq![d].drop_last() =~= Seq::<EntryView>::empty());
    assert(devices_body(seq![d].drop_last(), long) =~= Seq::<char>::empty());
    assert(devices_body(seq![d], long) =~= device_line(d, long));
    if t.len() == 0 {
        assert(s + t =~= s);
        assert(devices_body(s + t, long) =~= devices_body(s, long) + devices_body(t, long));
    } else {
        lists_are_made_of_lines(s, t.drop_last(), d, long);
        assert((s + t).drop_last() =~= s + t.drop_last());
        assert(devices_body(s + t, long) =~= devices_body(s, long) + devices_body(t, long));
    }
}

proof fn lemma_list_lines(s: Seq<EntryView>)
    requires
        forall|i: int|
            0 <= i < s.len() ==> is_word((#[trigger] s[i]).public_serial) && is_word(s[i].state),
    ensures
        whole_lines(devices_body(s, false)),
        lines_seq(devices_body(s, false)) == Seq::new(
            s.len(),
            |i: int| device_line(s[i], false).drop_last(),
        ),
    decreases s.len(),
{
    let lines = Seq::new(s.len(), |i: int| device_line(s[i], false).drop_last());
    if s.len() == 0 {
        assert(lines_seq(devices_body(s, false)) =~= lines);
    } else {
        let t = s.drop_last();
        let d = s.last();
        let n = s.len() - 1;
        assert forall|i: int| 0 <= i < t.len() implies is_word((#[trigger] t[i]).public_serial)
            && is_word(t[i].state) by {
            assert(t[i] == s[i]);
        }
        lemma_list_lines(t);
        assert(is_word(s[n].public_serial) && is_word(s[n].state));
        lines_show_serial_and_state(d);
        let line = device_line(d, false).drop_last();
        assert(line =~= d.public_serial + seq!['\t'] + d.state);
        assert(!line.contains('\n')) by {
            if line.contains('\n') {
                let j = choose|j: int| 0 <= j < line.len() && line[j] == '\n';
                let m = d.public_serial.len() as int;
                if j < m {
                    assert(!is_white_space(d.public_serial[j]));
                } else if j > m {
                    assert(!is_white_space(d.state[j - m - 1]));
                }
            }
        }
        let m = d.state.len() - 1;
        assert(!is_white_space(d.state[m]));
        assert(line.last() == d.state[m]);
        assert(device_line(d, false) =~= line.push('\n'));
        lemma_lines_append(devices_body(t, false), line);
        assert(lines_seq(devices_body(s, false)) =~= lines);
    }
}

/// Whoever reads a device list finds the devices that it was made from, each with
/// its public serial and its state, in order, and no other.
pub proof fn listed_devices_are_read_back(s: Seq<EntryView>, i: int)
    requires
        forall|k: int|
            0 <= k < s.len() ==> is_word((#[trigger] s[k]).public_serial)
                && s[k].public_serial[0] != '*' && is_word(s[k].state),
        0 <= i < s.len(),
    ensures
        lines_seq(devices_body(s, false)).len() == s.len(),
        device_fields(lines_seq(devices_body(s, false))[i]) == Some(
            (s[i].public_serial, s[i].state, Seq::<char>::empty()),
        ),
{
    lemma_list_lines(s);
    assert(is_word(s[i].public_serial));
    short_line_is_parsed_back(s[i]);
}

/// What a line of a device list says: its words are the serial, the state and then
/// the extra columns. A line of fewer than two words names no device, nor does a
/// blank line or a banner.
pub proof fn words_of_a_line_are_its_fields(ws: Seq<Seq<char>>)
    requires
        forall|i: int| 0 <= i < ws.len() ==> is_word(#[trigger] ws[i]),
        ws.len() > 0 ==> ws[0][0] != '*' && ws[0] != "List"@,
    ensures
        device_fields(join_seq(ws, " "@)) == (if ws.len() < 2 {
            None
        } else {
            Some((ws[0], ws[1], join_seq(ws.skip(2), " "@)))
        }),
{
    let line = join_seq(ws, " "@);
    lemma_words_join(ws);
    if ws.len() > 0 {
        lemma_join_start(ws);
        assert(is_word(ws[0]));
        let n = ws[0].len() as int;
        assert(!is_white_space(ws[0][0]));
        assert(line.take(n)[0] == line[0]);
        lemma_trimmed(line);
        assert(!is_banner(line)) by {
            reveal_strlit("List of");
            reveal_strlit("List");
            let p = "List of"@;
            if has_prefix(line, p) {
                assert forall|j: int| 0 <= j < 7 implies line[j] == p[j] by {
                    assert(line.take(7)[j] == line[j]);
                }
                if n < 4 {
                    assert(line[n] == ' ');
                } else if n > 4 {
                    assert(line.take(n)[4] == line[4]);
                    assert(!is_white_space(ws[0][4]));
                } else {
                    assert(ws[0] =~= "List"@) by {
                        assert forall|j: int| 0 <= j < 4 implies ws[0][j] == "List"@[j] by {
                            assert(line.take(n)[j] == line[j]);
                        }
                    }
                }
            }
        }
    } else {
        assert(trim_seq(line) =~= Seq::<char>::empty());
    }
}

proof fn lemma_join_start(ws: Seq<Seq<char>>)
    requires
        ws.len() > 0,
    ensures
        ws[0].len() <= join_seq(ws, " "@).len(),
        join_seq(ws, " "@).take(ws[0].len() as int) == ws[0],
        ws.len() == 1 ==> join_seq(ws, " "@) == ws[0],
        ws.len() > 1 ==> join_seq(ws, " "@).len() > ws[0].len() && join_seq(
            ws,
            " "@,
        )[ws[0].len() as int] == ' ',
    decreases ws.len(),
{
    reveal_strlit(" ");
    let n = ws[0].len() as int;
    if ws.len() == 1 {
        assert(ws[0].take(n) =~= ws[0]);
    } else {
        let before = ws.drop_last();
        lemma_join_start(before);
        assert(before[0] == ws[0]);
        let line = join_seq(ws, " "@);
        assert(line.take(n) =~= join_seq(before, " "@).take(n));
        if before.len() == 1 {
            assert(line[n] == " "@[0]);
        } else {
            assert(line[n] == join_seq(before, " "@)[n]);
        }
    }
}

/// Banners and blank lines name no device.
pub proof fn banners_name_no_device(line: Seq<char>)
    requires
        trim_seq(line).len() == 0 || trim_seq(line)[0] == '*' || has_prefix(
            trim_seq(line),
            "List of"@,
        ),
    ensures
        device_fields(line) is None,
{
}

/// The devices of a backend are those on the lines of its list, one for each line
/// that names one, with the serial, the state and the extra columns of the line.
pub proof fn every_device_line_is_reported(
    b: BackendView,
    s: Seq<Seq<char>>,
    t: Seq<Seq<char>>,
    line: Seq<char>,
)
    ensures
        line_reports(b, Seq::empty()) == Seq::<ReportView>::empty(),
        line_reports(b, s + t) == line_reports(b, s) + line_reports(b, t),
        line_reports(b, seq![line]) == (match device_fields(line) {
            Some(f) => seq![ReportView { backend: b, serial: f.0, state: f.1, extras: f.2 }],
            None => Seq::empty(),
        }),
    decreases t.len(),
{
    assert(seq![line].drop_last() =~= Seq::<Seq<char>>::empty());
    assert(line_reports(b, seq![line].drop_last()) =~= Seq::<ReportView>::empty());
    if let Some(f) = device_fields(line) {
        assert(line_reports(b, seq![line]) =~= seq![
            ReportView { backend: b, serial: f.0, state: f.1, extras: f.2 },
        ]);
    }
    if t.len() == 0 {
        assert(s + t =~= s);
        assert(line_reports(b, s + t) =~= line_reports(b, s) + line_reports(b, t));
    } else {
        every_device_line_is_reported(b, s, t.drop_last(), line);
        assert((s + t).drop_last() =~= s + t.drop_last());
        assert(line_reports(b, s + t) =~= line_reports(b, s) + line_reports(b, t));
    }
}

/// Every backend is heard, in order: its lines are the devices of its list.
pub proof fn every_backend_is_heard(s: Seq<ListView>, t: Seq<ListView>, l: ListView)
    ensures
        all_reports(Seq::empty()) == Seq::<ReportView>::empty(),
        all_reports(s + t) == all_reports(s) + all_reports(t),
        all_reports(seq![l]) == line_reports(l.backend, lines_seq(l.body)),
    decreases t.len(),
{
    assert(seq![l].drop_last() =~= Seq::<ListView>::empty());
    assert(all_reports(seq![l].drop_last()) =~= Seq::<ReportView>::empty());
    assert(all_reports(seq![l]) =~= line_reports(l.backend, lines_seq(l.body)));
    if t.len() == 0 {
        assert(s + t =~= s);
        assert(all_reports(s + t) =~= all_reports(s) + all_reports(t));
    } else {
        every_backend_is_heard(s, t.drop_last(), l);
        assert((s + t).drop_last() =~= s + t.drop_last());
        assert(all_reports(s + t) =~= all_reports(s) + all_reports(t));
    }
}

/// A device that a line of a backend's list names is in the merged list, with the
/// serial that the backend listed, its state, its extra columns, and the backend's
/// name, address and pair code.
pub proof fn named_devices_are_merged(lists: Seq<ListView>, k: int, i: int)
    requires
        0 <= k < lists.len(),
        0 <= i < lines_seq(lists[k].body).len(),
        device_fields(lines_seq(lists[k].body)[i]) is Some,
    ensures
        ({
            let f = device_fields(lines_seq(lists[k].body)[i])->0;
            exists|j: int|
                #![trigger merged(all_reports(lists))[j]]
                0 <= j < merged(all_reports(lists)).len() && {
                    let d = merged(all_reports(lists))[j];
                    &&& d.upstream_serial == f.0
                    &&& d.state == f.1
                    &&& d.extras == f.2
                    &&& d.backend_name == lists[k].backend.name
                    &&& d.backend_addr == lists[k].backend.addr
                    &&& d.pair_code == lists[k].backend.pair_code
                    &&& d.route_id is None
                }
        }),
{
    let l = lists[k];
    let all = lines_seq(l.body);
    let f = device_fields(all[i])->0;
    let before = all_reports(lists.take(k));
    let here = line_reports(l.backend, all.take(i));
    let after = line_reports(l.backend, all.skip(i + 1));
    let later = all_reports(lists.skip(k + 1));
    let one = ReportView { backend: l.backend, serial: f.0, state: f.1, extras: f.2 };
    assert(all =~= all.take(i) + seq![all[i]] + all.skip(i + 1));
    every_device_line_is_reported(l.backend, all.take(i) + seq![all[i]], all.skip(i + 1), all[i]);
    every_device_line_is_reported(l.backend, all.take(i), seq![all[i]], all[i]);
    assert(lists =~= lists.take(k) + seq![l] + lists.skip(k + 1));
    every_backend_is_heard(lists.take(k) + seq![l], lists.skip(k + 1), l);
    every_backend_is_heard(lists.take(k), seq![l], l);
    let j = before.len() + here.len();
    assert(all_reports(lists) =~= before + (here + seq![one] + after) + later);
    assert(all_reports(lists)[j as int] == one);
    merging_keeps_every_device(all_reports(lists), j as int);
    assert(merged(all_reports(lists))[j as int].upstream_serial == f.0);
}

/// The devices that a policy leaves visible are those that it enables, each as it
/// is and in order.
pub proof fn enabled_devices_stay_visible(
    s: Seq<EntryView>,
    t: Seq<EntryView>,
    d: EntryView,
    policy: Map<Seq<char>, bool>,
)
    ensures
        visible_only(Seq::empty(), policy) == Seq::<EntryView>::empty(),
        visible_only(s + t, policy) == visible_only(s, policy) + visible_only(t, policy),
        visible_only(seq![d], policy) == (if policy.contains_key(d.public_serial)
            && !policy[d.public_serial] {
            Seq::empty()
        } else {
            seq![d]
        }),
    decreases t.len(),
{
    assert(seq![d].drop_last() =~= Seq::<EntryView>::empty());
    assert(visible_only(seq![d].drop_last(), policy) =~= Seq::<EntryView>::empty());
    assert(Seq::<EntryView>::empty().push(d) =~= seq![d]);
    if t.len() == 0 {
        assert(s + t =~= s);
        assert(visible_only(s + t, policy) =~= visible_only(s, policy) + visible_only(t, policy));
    } else {
        enabled_devices_stay_visible(s, t.drop_last(), d, policy);
        assert((s + t).drop_last() =~= s + t.drop_last());
        assert(visible_only(s + t, policy) =~= visible_only(s, policy) + visible_only(t, policy));
    }
}

/// A device counts as usable exactly in the state `device`.
pub proof fn usable_devices_are_counted(s: Seq<EntryView>, t: Seq<EntryView>, d: EntryView)
    ensures
        online_devices(Seq::empty()) == 0,
        online_devices(s + t) == online_devices(s) + online_devices(t),
        online_devices(seq![d]) == (if d.state == "device"@ {
            1nat
        } else {
            0nat
        }),
    decreases t.len(),
{
    assert(seq![d].drop_last() =~= Seq::<EntryView>::empty());
    assert(online_devices(seq![d].drop_last()) == 0);
    if t.len() == 0 {
        assert(s + t =~= s);
    } else {
        usable_devices_are_counted(s, t.drop_last(), d);
        assert((s + t).drop_last() =~= s + t.drop_last());
    }
}

/// What is sent to clients as a device list is read back as the devices of the
/// snapshot, each in its own state.
pub proof fn sent_lists_are_read_back(snap: &DeviceSnapshot, out: String, i: int)
    requires
        call_ensures(DeviceSnapshot::format_devices, (snap, false), out),
        forall|k: int|
            0 <= k < snap@.len() ==> is_word((#[trigger] snap@[k]).public_serial)
                && snap@[k].public_serial[0] != '*' && is_word(snap@[k].state),
        0 <= i < snap@.len(),
    ensures
        lines_seq(out@).len() == snap@.len(),
        device_fields(lines_seq(out@)[i]) == Some(
            (snap@[i].public_serial, snap@[i].state, Seq::<char>::empty()),
        ),
{
    listed_devices_are_read_back(snap@, i);
}

/// What the backends list replaces what was registered, and is a change exactly if
/// it differs; without lists nothing is registered.
pub proof fn lists_replace_the_registered(
    reg: &mut DeviceRegistry,
    lists: &[(BackendConfig, String)],
    changed: bool,
)
    requires
        call_ensures(DeviceRegistry::update_from_backend_lists, (reg, lists), changed),
    ensures
        changed <==> final(reg)@ != old(reg)@,
        lists@.len() == 0 ==> final(reg)@.len() == 0,
        lists@.len() == 1 ==> final(reg)@ == merged(
            line_reports(lists@[0].0@, lines_seq(lists@[0].1@)),
        ),
        lists@.len() > 1 ==> final(reg)@ == merged(
            line_reports(lists@[0].0@, lines_seq(lists@[0].1@)) + all_reports(
                list_views(lists@).skip(1),
            ),
        ),
{
    let v = list_views(lists@);
    if v.len() > 0 {
        let l = v[0];
        every_backend_is_heard(seq![l], v.skip(1), l);
        assert(seq![l] + v.skip(1) =~= v);
        assert(v.len() == 1 ==> v =~= seq![l]);
    }
}

} // verus!
