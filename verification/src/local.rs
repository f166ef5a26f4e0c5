//! The real adb server on a side port, so that the hub can own :5037.

use vstd::prelude::*;
use vstd::string::*;

use crate::addr::{AddrView, SocketAddr};
use crate::config::{join_path, loopback, loopback_view, path_chars};
use crate::digits::{dec_seq, dec_string, push_dec};
use crate::fault::{fault, fault_view, FaultView, IoFault, IoKind};
use crate::policy::decides;
use crate::session::LOCAL_BACKEND;
use crate::text::{cat3, views};

verus! {

/// A local adb server that the hub uses.
#[derive(Debug)]
pub struct LocalAdb {
    pub addr: SocketAddr,
    pub adb_path: String,
    pub started_by_us: bool,
}

/// Longest wait for a started server, in milliseconds.
pub const START_WAIT_MS: u64 = 5000;

/// The arguments that start a server on a port.
pub open spec fn start_args_of(port: u16) -> Seq<Seq<char>> {
    seq!["-P"@, dec_seq(port as nat), "start-server"@]
}

/// The arguments that stop the server on a port.
pub open spec fn stop_args_of(port: u16) -> Seq<Seq<char>> {
    seq!["-P"@, dec_seq(port as nat), "kill-server"@]
}

/// The arguments that start a server on a port.
pub fn start_args(port: u16) -> (r: Vec<String>)
    ensures
        views(r@) == start_args_of(port),
{
    let mut r: Vec<String> = Vec::new();
    r.push("-P".to_owned());
    r.push(dec_string(port as u64));
    r.push("start-server".to_owned());
    assert(views(r@) =~= start_args_of(port));
    r
}

/// What to do once it is known whether a server answers on the side port.
#[derive(Debug)]
pub enum PrepareAction {
    /// Use the server that is there.
    Adopt(LocalAdb),
    /// Run adb with these arguments.
    Start(Vec<String>),
}

/// What to do while waiting for a started server.
#[derive(Debug)]
pub enum ReadyAction {
    /// The server answers.
    Use(LocalAdb),
    /// Try again after a short pause.
    Retry,
    /// Give up.
    GiveUp(IoFault),
}

/// The failure of a server that does not come up.
pub open spec fn not_ready(addr: AddrView) -> FaultView {
    fault_view(
        IoKind::TimedOut,
        "local adb server at "@ + addr.chars() + " did not become ready"@,
    )
}

/// The failure of a start command that ended with `status`.
pub open spec fn start_failure(port: u16, status: Seq<char>) -> FaultView {
    fault_view(
        IoKind::Other,
        "adb -P "@ + dec_seq(port as nat) + " start-server failed with "@ + status,
    )
}

impl LocalAdb {
    /// Name of the backend for local devices.
    pub fn backend_name() -> (r: &'static str)
        ensures
            r@ == LOCAL_BACKEND@,
    {
        LOCAL_BACKEND
    }

    /// Decide how to get a server on `port`: adopt the one that answers there,
    /// or start one.
    pub fn prepare(port: u16, adb_path: &str, ready: bool) -> (a: PrepareAction)
        ensures
            match a {
                PrepareAction::Adopt(l) => ready && l.addr@ == loopback_view(port) && l.adb_path@
                    == adb_path@ && !l.started_by_us,
                PrepareAction::Start(args) => !ready && views(args@) == start_args_of(port),
            },
    {
        if ready {
            PrepareAction::Adopt(
                LocalAdb {
                    addr: loopback(port),
                    adb_path: adb_path.to_owned(),
                    started_by_us: false,
                },
            )
        } else {
            PrepareAction::Start(start_args(port))
        }
    }

    /// Judge the start command: `ran` is whether it succeeded and its status
    /// as text, or why it could not be run.
    pub fn started(port: u16, ran: Result<(bool, String), IoFault>) -> (r: Result<(), IoFault>)
        ensures
            match ran {
                Err(f) => r == Err::<(), IoFault>(f),
                Ok(p) => if p.0 {
                    r is Ok
                } else {
                    r matches Err(f) && f@ == start_failure(port, p.1@)
                },
            },
    {
        match ran {
            Err(f) => Err(f),
            Ok((true, _)) => Ok(()),
            Ok((false, status)) => {
                let mut m = "adb -P ".to_owned();
                push_dec(&mut m, port as u128);
                m.append(" start-server failed with ");
                m.append(status.as_str());
                Err(fault(IoKind::Other, m.as_str()))
            },
        }
    }

    /// Decide what to do after asking a started server whether it is ready.
    pub fn wait_until_ready(
        port: u16,
        adb_path: &str,
        ready: bool,
        elapsed_ms: u64,
        max_wait_ms: u64,
    ) -> (a: ReadyAction)
        ensures
            match a {
                ReadyAction::Use(l) => ready && l.addr@ == loopback_view(port) && l.adb_path@
                    == adb_path@ && l.started_by_us,
                ReadyAction::Retry => !ready && elapsed_ms < max_wait_ms,
                ReadyAction::GiveUp(f) => !ready && elapsed_ms >= max_wait_ms && f@ == not_ready(
                    loopback_view(port),
                ),
            },
    {
        if ready {
            return ReadyAction::Use(
                LocalAdb {
                    addr: loopback(port),
                    adb_path: adb_path.to_owned(),
                    started_by_us: true,
                },
            );
        }
        if elapsed_ms >= max_wait_ms {
            let at = loopback(port).to_string();
            let m = cat3("local adb server at ", at.as_str(), " did not become ready");
            return ReadyAction::GiveUp(fault(IoKind::TimedOut, m.as_str()));
        }
        ReadyAction::Retry
    }

    /// The arguments that stop the server when the hub ends; none for a server
    /// that was there before.
    pub fn stop_args(&self) -> (r: Option<Vec<String>>)
        ensures
            match r {
                Some(args) => self.started_by_us && views(args@) == stop_args_of(
                    self.addr@.port(),
                ),
                None => !self.started_by_us,
            },
    {
        if !self.started_by_us {
            return None;
        }
        let mut r: Vec<String> = Vec::new();
        r.push("-P".to_owned());
        r.push(dec_string(self.addr.port() as u64));
        r.push("kill-server".to_owned());
        assert(views(r@) =~= stop_args_of(self.addr@.port()));
        Some(r)
    }
}

/// Where a program is looked for: in each directory, on Windows also with
/// `.exe`.
pub open spec fn candidates(dirs: Seq<Seq<char>>, bin: Seq<char>, exe: bool) -> Seq<Seq<char>>
    decreases dirs.len(),
{
    if dirs.len() == 0 {
        Seq::empty()
    } else {
        let before = candidates(dirs.drop_last(), bin, exe).push(path_chars(dirs.last(), bin));
        if exe {
            before.push(path_chars(dirs.last(), bin + ".exe"@))
        } else {
            before
        }
    }
}

/// The first path that is a file, if any.
pub open spec fn first_file(paths: Seq<Seq<char>>, is_file: spec_fn(Seq<char>) -> bool) -> Option<
    Seq<char>,
>
    decreases paths.len(),
{
    if paths.len() == 0 {
        None
    } else if is_file(paths[0]) {
        Some(paths[0])
    } else {
        first_file(paths.drop_first(), is_file)
    }
}

/// The adb program: the one that `ADB` names, if it is a file, else the first
/// on the search path.
pub open spec fn adb_found(
    adb_var: Option<&str>,
    dirs: Seq<Seq<char>>,
    exe: bool,
    is_file: spec_fn(Seq<char>) -> bool,
) -> Option<Seq<char>> {
    if adb_var is Some && is_file(adb_var->0@) {
        Some(adb_var->0@)
    } else {
        first_file(candidates(dirs, "adb"@, exe), is_file)
    }
}

/// The failure for a machine without adb.
pub open spec fn adb_missing() -> FaultView {
    fault_view(IoKind::NotFound, "adb not found in PATH (set ADB=/path/to/adb)"@)
}

/// Where a program is looked for.
pub fn which_candidates(dirs: &Vec<String>, bin: &str, exe: bool) -> (r: Vec<String>)
    ensures
        views(r@) == candidates(views(dirs@), bin@, exe),
{
    let ghost all = views(dirs@);
    let mut r: Vec<String> = Vec::new();
    let mut i: usize = 0;
    assert(views(r@) =~= candidates(all.take(0), bin@, exe));
    while i < dirs.len()
        invariant
            i <= dirs@.len(),
            all == views(dirs@),
            views(r@) == candidates(all.take(i as int), bin@, exe),
        decreases dirs@.len() - i,
    {
        assert(all.take(i + 1).drop_last() =~= all.take(i as int));
        assert(all.take(i + 1).last() == dirs@[i as int]@);
        let ghost before = views(r@);
        r.push(join_path(dirs[i].as_str(), bin));
        assert(views(r@) =~= before.push(path_chars(dirs@[i as int]@, bin@)));
        if exe {
            let ghost so_far = views(r@);
            let mut name = bin.to_owned();
            name.append(".exe");
            r.push(join_path(dirs[i].as_str(), name.as_str()));
            assert(views(r@) =~= so_far.push(path_chars(dirs@[i as int]@, bin@ + ".exe"@)));
        }
        i += 1;
    }
    assert(all.take(i as int) =~= all);
    r
}

/// Find the adb program. `dirs` is the search path; `is_file` tells whether a
/// path is a file.
pub fn find_adb<F: Fn(&str) -> bool>(
    adb_var: Option<&str>,
    dirs: &Vec<String>,
    exe: bool,
    is_file: F,
) -> (r: Result<String, IoFault>)
    requires
        forall|s: &str| call_requires(is_file, (s,)),
    ensures
        forall|keep: spec_fn(Seq<char>) -> bool| #[trigger]
            decides(is_file, keep) ==> match adb_found(adb_var, views(dirs@), exe, keep) {
                Some(p) => r matches Ok(s) && s@ == p,
                None => r matches Err(f) && f@ == adb_missing(),
            },
{
    if let Some(p) = adb_var {
        if is_file(p) {
            return Ok(p.to_owned());
        }
    }
    let paths = which_candidates(dirs, "adb", exe);
    let ghost all = views(paths@);
    let mut i: usize = 0;
    assert(all.skip(0) =~= all);
    while i < paths.len()
        invariant
            i <= paths@.len(),
            all == views(paths@),
            forall|s: &str| call_requires(is_file, (s,)),
            forall|keep: spec_fn(Seq<char>) -> bool| #[trigger]
                decides(is_file, keep) ==> adb_found(adb_var, views(dirs@), exe, keep)
                    == first_file(all.skip(i as int), keep),
        decreases paths@.len() - i,
    {
        assert(all.skip(i as int)[0] == paths@[i as int]@);
        assert(all.skip(i as int).drop_first() =~= all.skip(i + 1));
        if is_file(paths[i].as_str()) {
            return Ok(paths[i].clone());
        }
        i += 1;
    }
    Err(fault(IoKind::NotFound, "adb not found in PATH (set ADB=/path/to/adb)"))
}

/// A program is looked for in every directory, in order, on Windows also with
/// `.exe` behind its name.
pub proof fn every_directory_is_searched(
    s: Seq<Seq<char>>,
    t: Seq<Seq<char>>,
    dir: Seq<char>,
    bin: Seq<char>,
    exe: bool,
)
    ensures
        candidates(s + t, bin, exe) == candidates(s, bin, exe) + candidates(t, bin, exe),
        candidates(seq![dir], bin, exe) == (if exe {
            seq![path_chars(dir, bin), path_chars(dir, bin + ".exe"@)]
        } else {
            seq![path_chars(dir, bin)]
        }),
    decreases t.len(),
{
    assert(seq![dir].drop_last() =~= Seq::<Seq<char>>::empty());
    assert(candidates(seq![dir].drop_last(), bin, exe) =~= Seq::<Seq<char>>::empty());
    assert(candidates(seq![dir], bin, exe) =~= if exe {
        seq![path_chars(dir, bin), path_chars(dir, bin + ".exe"@)]
    } else {
        seq![path_chars(dir, bin)]
    });
    if t.len() == 0 {
        assert(s + t =~= s);
        assert(candidates(s + t, bin, exe) =~= candidates(s, bin, exe) + candidates(t, bin, exe));
    } else {
        every_directory_is_searched(s, t.drop_last(), dir, bin, exe);
        assert((s + t).drop_last() =~= s + t.drop_last());
        assert(candidates(s + t, bin, exe) =~= candidates(s, bin, exe) + candidates(t, bin, exe));
    }
}

/// The first path that is a file is taken, and none only if there is none.
pub proof fn first_file_is_taken(paths: Seq<Seq<char>>, is_file: spec_fn(Seq<char>) -> bool, i: int)
    ensures
        0 <= i < paths.len() && is_file(paths[i]) && (forall|j: int|
            0 <= j < i ==> !is_file(#[trigger] paths[j])) ==> first_file(paths, is_file) == Some(
            paths[i],
        ),
        (forall|j: int| 0 <= j < paths.len() ==> !is_file(#[trigger] paths[j])) ==> first_file(
            paths,
            is_file,
        ) is None,
    decreases paths.len(),
{
    if paths.len() > 0 {
        let rest = paths.drop_first();
        first_file_is_taken(rest, is_file, i - 1);
        if (forall|j: int| 0 <= j < paths.len() ==> !is_file(#[trigger] paths[j])) {
            assert(!is_file(paths[0]));
            assert forall|j: int| 0 <= j < rest.len() implies !is_file(#[trigger] rest[j]) by {
                assert(rest[j] == paths[j + 1]);
            }
        }
        if 0 < i < paths.len() && is_file(paths[i]) && (forall|j: int|
            0 <= j < i ==> !is_file(#[trigger] paths[j])) {
            assert(!is_file(paths[0]));
            assert(rest[i - 1] == paths[i]);
            assert forall|j: int| 0 <= j < i - 1 implies !is_file(#[trigger] rest[j]) by {
                assert(rest[j] == paths[j + 1]);
            }
        }
    }
}

/// The program that `ADB` names is used if it is a file; else the search path is
/// gone through for `adb`.
pub proof fn named_adb_comes_first(
    adb_var: &str,
    dirs: Seq<Seq<char>>,
    exe: bool,
    is_file: spec_fn(Seq<char>) -> bool,
)
    ensures
        is_file(adb_var@) ==> adb_found(Some(adb_var), dirs, exe, is_file) == Some(adb_var@),
        !is_file(adb_var@) ==> adb_found(Some(adb_var), dirs, exe, is_file) == first_file(
            candidates(dirs, "adb"@, exe),
            is_file,
        ),
        adb_found(None, dirs, exe, is_file) == first_file(candidates(dirs, "adb"@, exe), is_file),
{
}

/// A server that answers on the side port is used and left running in the end; one
/// that is started is told the port, and is stopped again.
pub proof fn only_started_servers_are_stopped(
    port: u16,
    adb_path: &str,
    ready: bool,
    a: PrepareAction,
    elapsed_ms: u64,
    max_wait_ms: u64,
    w: ReadyAction,
)
    requires
        call_ensures(LocalAdb::prepare, (port, adb_path, ready), a),
        call_ensures(
            LocalAdb::wait_until_ready,
            (port, adb_path, ready, elapsed_ms, max_wait_ms),
            w,
        ),
    ensures
        ready <==> a is Adopt,
        a matches PrepareAction::Adopt(l) ==> !l.started_by_us && l.addr@ == loopback_view(port)
            && l.adb_path@ == adb_path@,
        a matches PrepareAction::Start(args) ==> views(args@) == seq![
            "-P"@,
            dec_seq(port as nat),
            "start-server"@,
        ],
        ready <==> w is Use,
        w matches ReadyAction::Use(l) ==> l.started_by_us && l.addr@ == loopback_view(port)
            && l.adb_path@ == adb_path@,
        w is Retry <==> !ready && elapsed_ms < max_wait_ms,
{
}

/// The arguments that stop a server name its port; there are none for a server that
/// was there before.
pub proof fn servers_are_stopped_by_port(l: LocalAdb, r: Option<Vec<String>>)
    requires
        call_ensures(LocalAdb::stop_args, (&l,), r),
    ensures
        r is Some <==> l.started_by_us,
        r matches Some(args) ==> views(args@) == seq![
            "-P"@,
            dec_seq(l.addr@.port() as nat),
            "kill-server"@,
        ],
{
}

} // verus!
