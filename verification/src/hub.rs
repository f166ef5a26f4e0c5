//! The hub: which backends it polls and where it sends what is about no device.

use vstd::prelude::*;
use vstd::string::*;

use crate::addr::{AddrView, SocketAddr};
use crate::config::{
    backend_views, enabled_backends_are_kept, enabled_only, BackendConfig, BackendView, HubConfig,
    HubView,
};
use crate::fault::IoFault;
use crate::local::LocalAdb;
use crate::session::LOCAL_BACKEND;
use crate::text::{cat2, cat3, opt_clone, opt_view};

verus! {

/// Why the hub failed.
#[derive(Debug)]
pub enum HubError {
    Io(IoFault),
    Bind { addr: SocketAddr, source: IoFault },
}

/// The message for an address that cannot be listened on.
pub open spec fn bind_chars(addr: AddrView, why: Seq<char>) -> Seq<char> {
    "failed to bind "@ + addr.chars() + ": "@ + why
        + ". If a local adb server is running, stop it first with `adb kill-server`"@
}

/// The message for an address that cannot be listened on.
pub fn bind_message(addr: &SocketAddr, why: &str) -> (s: String)
    ensures
        s@ == bind_chars(addr@, why@),
{
    let at = addr.to_string();
    let mut s = cat3("failed to bind ", at.as_str(), ": ");
    s.append(why);
    s.append(". If a local adb server is running, stop it first with `adb kill-server`");
    s
}

impl HubError {
    /// The message shown to the user.
    pub open spec fn chars(self) -> Seq<char> {
        match self {
            HubError::Io(f) => "io error: "@ + f.message@,
            HubError::Bind { addr, source } => bind_chars(addr@, source.message@),
        }
    }

    /// The message shown to the user.
    pub fn to_string(&self) -> (s: String)
        ensures
            s@ == self.chars(),
    {
        match self {
            HubError::Io(f) => cat2("io error: ", f.message.as_str()),
            HubError::Bind { addr, source } => bind_message(addr, source.message.as_str()),
        }
    }
}

/// The model of the shared local backend.
pub open spec fn shared_view(addr: AddrView) -> BackendView {
    BackendView { name: LOCAL_BACKEND@, addr, pair_code: None, enabled: true }
}

/// The shared local backend. It needs no pair code.
pub fn shared_backend(local: &LocalAdb) -> (b: BackendConfig)
    ensures
        b@ == shared_view(local.addr@),
{
    BackendConfig {
        name: LocalAdb::backend_name().to_owned(),
        addr: local.addr.clone(),
        pair_code: None,
        enabled: true,
    }
}

/// The backends that a hub polls: the local one, if there is one, then those
/// that are switched on.
pub open spec fn polled(c: HubView, local: Option<AddrView>) -> Seq<BackendView> {
    match local {
        Some(addr) => seq![shared_view(addr)] + enabled_only(c.backends),
        None => enabled_only(c.backends),
    }
}

/// The model of an optional local server.
pub open spec fn local_addr(local: Option<&LocalAdb>) -> Option<AddrView> {
    match local {
        Some(l) => Some(l.addr@),
        None => None,
    }
}

/// The backends that a hub polls.
pub fn poll_backends(config: &HubConfig, local: Option<&LocalAdb>) -> (r: Vec<BackendConfig>)
    ensures
        backend_views(r@) == polled(config@, local_addr(local)),
{
    let enabled = config.enabled_backends();
    let l = match local {
        Some(l) => l,
        None => {
            return enabled;
        },
    };
    let mut r: Vec<BackendConfig> = Vec::new();
    r.push(shared_backend(l));
    let mut i: usize = 0;
    while i < enabled.len()
        invariant
            i <= enabled@.len(),
            r@.len() == i + 1,
            r@[0]@ == shared_view(l.addr@),
            forall|j: int| 0 <= j < i ==> (#[trigger] r@[j + 1])@ == enabled@[j]@,
        decreases enabled@.len() - i,
    {
        r.push(enabled[i].clone());
        i += 1;
    }
    assert forall|j: int| 0 <= j < r@.len() implies (#[trigger] r@[j])@ == polled(
        config@,
        local_addr(local),
    )[j] by {
        if j > 0 {
            assert(r@[(j - 1) + 1]@ == enabled@[j - 1]@);
            assert(backend_views(enabled@)[j - 1] == enabled@[j - 1]@);
        }
    }
    assert(backend_views(r@) =~= polled(config@, local_addr(local)));
    r
}

/// Where a hub sends services that are about no device: to the first backend
/// that it polls.
pub fn default_backend(backends: &Vec<BackendConfig>) -> (r: Option<(SocketAddr, Option<String>)>)
    ensures
        match r {
            Some(p) => backends@.len() > 0 && p.0@ == backends@[0].addr@ && opt_view(p.1)
                == opt_view(backends@[0].pair_code),
            None => backends@.len() == 0,
        },
{
    if backends.len() == 0 {
        None
    } else {
        Some((backends[0].addr.clone(), opt_clone(&backends[0].pair_code)))
    }
}

/// Services that are about no device go to the local adb server where the hub
/// has one, without a pair code.
pub proof fn local_server_is_the_default(c: HubView, addr: AddrView)
    ensures
        polled(c, Some(addr))[0] == shared_view(addr),
        polled(c, Some(addr))[0].pair_code is None,
{
}

/// A hub polls its local server first, if it has one, and then every backend that is
/// switched on, as it is configured and in order.
pub proof fn enabled_backends_are_polled(c: HubView, addr: AddrView, b: BackendView)
    ensures
        polled(c, None) == enabled_only(c.backends),
        polled(c, Some(addr)).len() == 1 + enabled_only(c.backends).len(),
        polled(c, Some(addr)).skip(1) == enabled_only(c.backends),
        polled(c, Some(addr))[0].name == "local"@,
        polled(c, Some(addr))[0].addr == addr,
        polled(c, Some(addr))[0].pair_code is None,
        polled(c, Some(addr))[0].enabled,
        polled(c, None).contains(b) <==> c.backends.contains(b) && b.enabled,
{
    assert(polled(c, Some(addr)).skip(1) =~= enabled_only(c.backends));
    enabled_backends_are_kept(c.backends, Seq::empty(), b);
}

/// What is about no device goes to the first backend that is polled, with its pair
/// code; a hub without backends has nowhere to send it.
pub proof fn first_backend_is_the_default(
    backends: &Vec<BackendConfig>,
    r: Option<(SocketAddr, Option<String>)>,
)
    requires
        call_ensures(default_backend, (backends,), r),
    ensures
        r is None <==> backends@.len() == 0,
        r matches Some(p) ==> p.0@ == backends@[0]@.addr && opt_view(p.1)
            == backends@[0]@.pair_code,
{
}

/// A hub polls the local server first, if it has one, and every backend that is
/// switched on; it polls nothing else.
pub proof fn hubs_poll_what_is_enabled(
    config: &HubConfig,
    local: Option<&LocalAdb>,
    r: Vec<BackendConfig>,
    b: BackendView,
)
    requires
        call_ensures(poll_backends, (config, local), r),
    ensures
        local matches Some(l) ==> r@.len() > 0 && r@[0]@ == (BackendView {
            name: "local"@,
            addr: l.addr@,
            pair_code: None,
            enabled: true,
        }),
        config@.backends.contains(b) && b.enabled ==> backend_views(r@).contains(b),
        backend_views(r@).contains(b) ==> (config@.backends.contains(b) && b.enabled) || (
        local is Some && b == r@[0]@),
{
    let on = enabled_only(config@.backends);
    let all = backend_views(r@);
    let addr: AddrView = match local {
        Some(l) => l.addr@,
        None => arbitrary(),
    };
    enabled_backends_are_polled(config@, addr, b);
    if local is Some {
        assert(all[0] == r@[0]@);
        assert(all.skip(1) == on);
        if on.contains(b) {
            let i = choose|i: int| 0 <= i < on.len() && on[i] == b;
            assert(all[i + 1] == all.skip(1)[i]);
        }
        if all.contains(b) {
            let i = choose|i: int| 0 <= i < all.len() && all[i] == b;
            if i > 0 {
                assert(on[i - 1] == all.skip(1)[i - 1]);
            }
        }
    }
}

} // verus!
