//! Multi-tenant device registry.

use std::collections::HashMap;

use vstd::prelude::*;
use vstd::std_specs::hash::*;
use vstd::string::*;

use crate::config::BackendConfig;
use crate::registry::{
    all_reports, clear_serials_are_told_plainly, different_serials_are_kept, entry_labels,
    find_index, has_twin, is_clear, is_repeated, joined, lemma_find_index, list_views, merge_device_lists,
    merged, plain_labels_are_clear, public_serials, shown_serials_name_the_backend, told_apart,
    told_apart_serials_are_unique, DeviceSnapshot, EntryView,
};
use crate::session::{lookup_refusal, online_refusal};
use crate::text::has_prefix;

verus! {

/// OS user identifier, as the kernel reports it for a local connection.
pub type Uid = u32;

/// Whether a device comes with a route and without a pair code, as every
/// device that an agent reports must.
pub open spec fn private_device(d: EntryView) -> bool {
    d.route_id is Some && d.pair_code is None
}

/// Whether all devices come with a route and without a pair code.
pub open spec fn private_devices(s: Seq<EntryView>) -> bool {
    forall|i: int| 0 <= i < s.len() ==> private_device(#[trigger] s[i])
}

/// Devices by user: `visible_devices(uid) = shared + private(uid)`, under serials
/// that are told apart in each user's own view.
///
/// Shared devices come from the local ADB backend, private ones from the
/// user's agent. No private device holds a pair code.
pub struct TenantRegistry {
    shared: DeviceSnapshot,
    private: HashMap<Uid, DeviceSnapshot>,
}

/// Model of [`TenantRegistry`].
pub struct TenantView {
    pub shared: Seq<EntryView>,
    pub private: Map<Uid, Seq<EntryView>>,
}

impl TenantView {
    /// The devices of a user: the shared ones and their own.
    pub open spec fn devices_of(self, uid: Uid) -> Seq<EntryView> {
        if self.private.contains_key(uid) {
            self.shared + self.private[uid]
        } else {
            self.shared
        }
    }

    /// The devices as a user sees them: serials that occur more than once among
    /// the user's devices are told apart by their backends.
    pub open spec fn visible(self, uid: Uid) -> Seq<EntryView> {
        told_apart(self.devices_of(uid))
    }

    /// No private device holds a pair code.
    pub open spec fn wf(self) -> bool {
        forall|uid: Uid| #[trigger]
            self.private.contains_key(uid) ==> private_devices(self.private[uid])
    }
}

/// The private devices of all users.
spec fn private_view(m: Map<Uid, DeviceSnapshot>) -> Map<Uid, Seq<EntryView>> {
    Map::new(|uid: Uid| m.contains_key(uid), |uid: Uid| m[uid]@)
}

impl View for TenantRegistry {
    type V = TenantView;

    closed spec fn view(&self) -> TenantView {
        TenantView { shared: self.shared@, private: private_view(self.private@) }
    }
}

impl TenantRegistry {
    #[verifier::type_invariant]
    spec fn no_pair_codes(self) -> bool {
        self@.wf()
    }

    /// A registry without devices.
    pub fn new() -> (r: Self)
        ensures
            r@ == (TenantView { shared: Seq::empty(), private: Map::empty() }),
    {
        broadcast use group_hash_axioms;

        let shared = DeviceSnapshot::default();
        let private: HashMap<Uid, DeviceSnapshot> = HashMap::new();
        assert(private_view(private@) =~= Map::empty());
        TenantRegistry { shared, private }
    }

    /// Replace the devices that every user sees. Tells whether they changed.
    pub fn update_shared(&mut self, snap: DeviceSnapshot) -> (changed: bool)
        ensures
            final(self)@ == (TenantView { shared: snap@, ..old(self)@ }),
            changed == (old(self)@.shared != snap@),
    {
        proof {
            use_type_invariant(&*self);
        }
        let changed = !self.shared.same(&snap);
        self.shared = snap;
        changed
    }

    /// Replace the shared devices by what the backends list. Tells whether
    /// they changed.
    pub fn update_shared_from_lists(&mut self, lists: &[(BackendConfig, String)]) -> (changed: bool)
        ensures
            final(self)@ == (TenantView {
                shared: merged(all_reports(list_views(lists@))),
                ..old(self)@
            }),
            changed == (old(self)@.shared != final(self)@.shared),
    {
        let snap = merge_device_lists(lists);
        self.update_shared(snap)
    }

    /// Register or replace the private devices of a user's agent. Tells
    /// whether they changed; a first registration always does.
    pub fn update_agent_devices(&mut self, uid: Uid, devices: DeviceSnapshot) -> (changed: bool)
        requires
            private_devices(devices@),
        ensures
            final(self)@ == (TenantView {
                private: old(self)@.private.insert(uid, devices@),
                ..old(self)@
            }),
            changed == !(old(self)@.private.contains_key(uid) && old(self)@.private[uid]
                == devices@),
    {
        broadcast use group_hash_axioms;

        proof {
            use_type_invariant(&*self);
        }
        let changed = match self.private.get(&uid) {
            Some(prev) => !prev.same(&devices),
            None => true,
        };
        let mut private: HashMap<Uid, DeviceSnapshot> = HashMap::new();
        assert(private_view(private@) =~= Map::empty());
        std::mem::swap(&mut private, &mut self.private);
        private.insert(uid, devices);
        assert(private_view(private@) =~= old(self)@.private.insert(uid, devices@));
        self.private = private;
        changed
    }

    /// Remove a user's private devices; all else stays. Tells whether there
    /// were any registered.
    pub fn remove_agent(&mut self, uid: Uid) -> (changed: bool)
        ensures
            final(self)@ == (TenantView {
                private: old(self)@.private.remove(uid),
                ..old(self)@
            }),
            changed == old(self)@.private.contains_key(uid),
    {
        broadcast use group_hash_axioms;

        proof {
            use_type_invariant(&*self);
        }
        let mut private: HashMap<Uid, DeviceSnapshot> = HashMap::new();
        assert(private_view(private@) =~= Map::empty());
        std::mem::swap(&mut private, &mut self.private);
        let changed = private.remove(&uid).is_some();
        assert(private_view(private@) =~= old(self)@.private.remove(uid));
        self.private = private;
        changed
    }

    /// The devices that a user sees: the shared ones and their own, under serials
    /// that tell them apart.
    pub fn snapshot_for(&self, uid: Uid) -> (snap: DeviceSnapshot)
        ensures
            snap@ == self@.visible(uid),
            self@.wf(),
    {
        broadcast use group_hash_axioms;

        proof {
            use_type_invariant(self);
        }
        let mut snap = self.shared.clone();
        if let Some(own) = self.private.get(&uid) {
            let mut i: usize = 0;
            assert(own@.take(0) =~= Seq::<EntryView>::empty());
            assert(snap@ =~= self.shared@ + own@.take(0));
            while i < own.devices.len()
                invariant
                    i <= own.devices@.len(),
                    snap@ == self.shared@ + own@.take(i as int),
                decreases own.devices@.len() - i,
            {
                let ghost before = snap@;
                snap.devices.push(own.devices[i].clone());
                assert(snap@ =~= before.push(own@[i as int]));
                assert(snap@ =~= self.shared@ + own@.take(i + 1));
                i += 1;
            }
            assert(own@.take(i as int) =~= own@);
        }
        assert(snap@ =~= self@.devices_of(uid));
        snap.told_apart()
    }

    /// The devices that every user sees.
    pub fn snapshot_shared(&self) -> (snap: DeviceSnapshot)
        ensures
            snap@ == self@.shared,
    {
        self.shared.clone()
    }

    /// Whether a user's agent has registered devices.
    pub fn has_agent(&self, uid: Uid) -> (r: bool)
        ensures
            r == self@.private.contains_key(uid),
    {
        broadcast use group_hash_axioms;

        self.private.contains_key(&uid)
    }
}

impl Default for TenantRegistry {
    fn default() -> (r: Self)
        ensures
            r@ == (TenantView { shared: Seq::empty(), private: Map::empty() }),
    {
        TenantRegistry::new()
    }
}

/// What one user's agent reports, and that it leaves, changes nothing that
/// another user sees.
pub proof fn users_are_isolated(t: TenantView, uid: Uid, other: Uid, devices: Seq<EntryView>)
    requires
        uid != other,
    ensures
        (TenantView { private: t.private.insert(uid, devices), ..t }).visible(other) == t.visible(
            other,
        ),
        (TenantView { private: t.private.remove(uid), ..t }).visible(other) == t.visible(other),
{
}

/// A user sees the shared devices and then exactly what their own agent last
/// reported; once the agent is gone, only the shared ones.
pub proof fn users_see_shared_and_own(t: TenantView, uid: Uid, devices: Seq<EntryView>)
    ensures
        (TenantView { private: t.private.insert(uid, devices), ..t }).visible(uid) == told_apart(
            t.shared + devices,
        ),
        (TenantView { private: t.private.remove(uid), ..t }).visible(uid) == told_apart(t.shared),
{
}

/// A user's view holds every shared device and then every one of their own, in
/// order; only the serials that they are shown under may differ.
pub proof fn views_hold_every_device(t: TenantView, uid: Uid, i: int)
    requires
        0 <= i < t.devices_of(uid).len(),
    ensures
        t.visible(uid).len() == t.devices_of(uid).len(),
        t.visible(uid)[i] == (EntryView {
            public_serial: t.visible(uid)[i].public_serial,
            ..t.devices_of(uid)[i]
        }),
        i < t.shared.len() ==> t.devices_of(uid)[i] == t.shared[i],
        i >= t.shared.len() ==> t.private.contains_key(uid) && t.devices_of(uid)[i]
            == t.private[uid][i - t.shared.len()],
{
}

/// A change of the shared devices reaches every user and keeps what each of
/// them has privately.
pub proof fn shared_devices_reach_everyone(t: TenantView, uid: Uid, shared: Seq<EntryView>)
    ensures
        (TenantView { shared, ..t }).visible(uid) == told_apart(
            shared + t.devices_of(uid).skip(t.shared.len() as int),
        ),
{
    let v = (TenantView { shared, ..t }).devices_of(uid);
    assert(v =~= shared + t.devices_of(uid).skip(t.shared.len() as int));
}

/// No two devices of a view are shown under the same serial, and each is found
/// under the one that it is shown under.
pub proof fn views_are_told_apart(t: TenantView, uid: Uid)
    ensures
        public_serials(t.visible(uid)).no_duplicates(),
        forall|i: int|
            0 <= i < t.visible(uid).len() ==> find_index(
                t.visible(uid),
                (#[trigger] t.visible(uid)[i]).public_serial,
            ) == i,
{
    let v = t.visible(uid);
    told_apart_serials_are_unique(t.devices_of(uid));
    assert forall|i: int| 0 <= i < v.len() implies find_index(
        v,
        (#[trigger] v[i]).public_serial,
    ) == i by {
        let j = find_index(v, v[i].public_serial);
        lemma_find_index(v, v[i].public_serial);
        assert(public_serials(v)[i] == public_serials(v)[j]);
    }
}

/// A device of a view is shown under its own serial or, where another of the
/// user's devices has the same one, under a serial that begins with `name:serial`.
/// A device whose serial no other has keeps it, unless an earlier one is already
/// shown under it.
pub proof fn conflicts_of_a_view_name_the_backend(t: TenantView, uid: Uid, i: int)
    requires
        0 <= i < t.devices_of(uid).len(),
    ensures
        ({
            let d = t.devices_of(uid)[i];
            let shown = t.visible(uid)[i].public_serial;
            let twin = has_twin(entry_labels(t.devices_of(uid)), i);
            &&& twin ==> has_prefix(shown, joined(d.backend_name, d.public_serial)) && shown
                != d.public_serial
            &&& !twin ==> (shown == d.public_serial <==> !public_serials(t.visible(uid)).take(
                i,
            ).contains(d.public_serial))
        }),
{
    shown_serials_name_the_backend(t.devices_of(uid), i);
}

/// Where the names and serials of a user's devices hold no `:`, and further
/// wherever told-apart serials cannot be mistaken for others, a device keeps its
/// serial exactly when no other device of the user has it, and else the first of
/// each backend is shown under `name:serial`.
pub proof fn plain_serials_are_told_plainly(t: TenantView, uid: Uid, i: int)
    requires
        is_clear(entry_labels(t.devices_of(uid))) || forall|k: int|
            0 <= k < t.devices_of(uid).len() ==> !(#[trigger] t.devices_of(
                uid,
            )[k]).backend_name.contains(':') && !t.devices_of(uid)[k].public_serial.contains(':'),
        0 <= i < t.devices_of(uid).len(),
    ensures
        ({
            let d = t.devices_of(uid)[i];
            let shown = t.visible(uid)[i].public_serial;
            let l = entry_labels(t.devices_of(uid));
            &&& shown == d.public_serial <==> !has_twin(l, i)
            &&& has_twin(l, i) && !is_repeated(l, i) ==> shown == joined(
                d.backend_name,
                d.public_serial,
            )
        }),
{
    let s = t.devices_of(uid);
    let l = entry_labels(s);
    if !is_clear(l) {
        assert forall|k: int| 0 <= k < l.len() implies !(#[trigger] l[k]).name.contains(':')
            && !l[k].serial.contains(':') by {
            assert(!s[k].backend_name.contains(':'));
        }
        plain_labels_are_clear(l);
    }
    clear_serials_are_told_plainly(s, i);
}

/// Where no two devices of a user have the same serial, all are shown under
/// their own.
pub proof fn different_serials_are_shown_unchanged(t: TenantView, uid: Uid)
    requires
        public_serials(t.devices_of(uid)).no_duplicates(),
    ensures
        t.visible(uid) == t.devices_of(uid),
{
    different_serials_are_kept(t.devices_of(uid));
}

/// A serial that no device of the user is shown under is not found, whoever else
/// may have it.
pub proof fn foreign_serials_are_not_found(t: TenantView, uid: Uid, serial: Seq<char>)
    requires
        forall|i: int|
            0 <= i < t.visible(uid).len() ==> (#[trigger] t.visible(uid)[i]).public_serial
                != serial,
    ensures
        lookup_refusal(t.visible(uid), serial) == Some("device '"@ + serial + "' not found"@),
        online_refusal(t.visible(uid), serial) == Some("device '"@ + serial + "' not found"@),
{
    lemma_find_index(t.visible(uid), serial);
}

/// No user is shown a private device with a pair code: past the shared
/// devices, all have a route instead.
pub proof fn private_devices_hold_no_pair_code(t: TenantView, uid: Uid, i: int)
    requires
        t.wf(),
        t.shared.len() <= i < t.visible(uid).len(),
    ensures
        t.visible(uid)[i].pair_code is None,
        t.visible(uid)[i].route_id is Some,
{
    assert(private_devices(t.private[uid]));
    assert(t.devices_of(uid)[i] == t.private[uid][i - t.shared.len()]);
    assert(private_device(t.private[uid][i - t.shared.len()]));
}

/// What an agent reports is what its user has from then on, besides the shared
/// devices; nothing changes for another user. A report that says the same as the last
/// one is no change.
pub proof fn entered_reports_are_shown(
    t: &mut TenantRegistry,
    uid: Uid,
    devices: DeviceSnapshot,
    changed: bool,
    other: Uid,
)
    requires
        private_devices(devices@),
        call_ensures(TenantRegistry::update_agent_devices, (t, uid, devices), changed),
    ensures
        final(t)@.devices_of(uid) == old(t)@.shared + devices@,
        other != uid ==> final(t)@.visible(other) == old(t)@.visible(other),
        !changed <==> old(t)@.private.contains_key(uid) && old(t)@.devices_of(uid)
            == old(t)@.shared + devices@,
{
    if old(t)@.private.contains_key(uid) && old(t)@.devices_of(uid) == old(t)@.shared + devices@ {
        let own = old(t)@.private[uid];
        let n = old(t)@.shared.len() as int;
        assert((old(t)@.shared + own).skip(n) =~= own);
        assert((old(t)@.shared + devices@).skip(n) =~= devices@);
    }
}

/// A user whose agent is removed has the shared devices only; nothing changes for
/// another user.
pub proof fn removed_agents_leave_nothing(
    t: &mut TenantRegistry,
    uid: Uid,
    changed: bool,
    other: Uid,
)
    requires
        call_ensures(TenantRegistry::remove_agent, (t, uid), changed),
    ensures
        final(t)@.devices_of(uid) == old(t)@.shared,
        other != uid ==> final(t)@.visible(other) == old(t)@.visible(other),
        changed <==> old(t)@.private.contains_key(uid),
{
}

/// Shared devices that are replaced are replaced for every user, whose own ones
/// stay behind them.
pub proof fn shared_devices_are_replaced(
    t: &mut TenantRegistry,
    snap: DeviceSnapshot,
    changed: bool,
    uid: Uid,
)
    requires
        call_ensures(TenantRegistry::update_shared, (t, snap), changed),
    ensures
        final(t)@.devices_of(uid) == snap@ + old(t)@.devices_of(uid).skip(
            old(t)@.shared.len() as int,
        ),
        changed <==> final(t)@.shared != old(t)@.shared,
{
    assert(final(t)@.devices_of(uid) =~= snap@ + old(t)@.devices_of(uid).skip(
        old(t)@.shared.len() as int,
    ));
}

/// A user is shown every shared device and every one that their agent reported,
/// each with its own backend's serial and in its own state.
pub proof fn users_are_shown_all_devices(
    t: TenantRegistry,
    uid: Uid,
    snap: DeviceSnapshot,
    i: int,
)
    requires
        call_ensures(TenantRegistry::snapshot_for, (&t, uid), snap),
        0 <= i < t@.shared.len() + (if t@.private.contains_key(uid) {
            t@.private[uid].len()
        } else {
            0
        }),
    ensures
        ({
            let d = if i < t@.shared.len() {
                t@.shared[i]
            } else {
                t@.private[uid][i - t@.shared.len()]
            };
            &&& i < snap@.len()
            &&& snap@[i].upstream_serial == d.upstream_serial
            &&& snap@[i].state == d.state
            &&& snap@[i].extras == d.extras
            &&& snap@[i].backend_name == d.backend_name
            &&& snap@[i].backend_addr == d.backend_addr
            &&& snap@[i].route_id == d.route_id
        }),
{
    views_hold_every_device(t@, uid, i);
}

} // verus!
