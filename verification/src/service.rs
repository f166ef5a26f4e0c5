//! Unified hub service: one command for every user.
//!
//! Where the shared listener is supported, whoever comes first becomes the
//! shared daemon, and every user's process runs that user's agent. Elsewhere
//! the service is the classic in-process hub.

use vstd::prelude::*;
use vstd::string::*;

use crate::addr::SocketAddr;
use crate::agent::{AgentConfig, AgentError};
use crate::config::{HubConfig, HubView};
use crate::daemon::{DaemonConfig, DaemonError};
use crate::fault::{fault, fault_view, IoFault, IoKind};
use crate::hub::HubError;
use crate::ipc::DEFAULT_CONTROL_ABSTRACT;
use crate::text::{cat2, opt_clone, opt_view};

verus! {

/// Why the service failed.
#[derive(Debug)]
pub enum ServiceError {
    Hub(HubError),
    Daemon(DaemonError),
    Agent(AgentError),
    Io(IoFault),
}

impl ServiceError {
    /// The message shown to the user.
    pub open spec fn chars(self) -> Seq<char> {
        match self {
            ServiceError::Hub(e) => e.chars(),
            ServiceError::Daemon(e) => e.chars(),
            ServiceError::Agent(e) => e.chars(),
            ServiceError::Io(f) => "io error: "@ + f.message@,
        }
    }

    /// The message shown to the user.
    pub fn to_string(&self) -> (s: String)
        ensures
            s@ == self.chars(),
    {
        match self {
            ServiceError::Hub(e) => e.to_string(),
            ServiceError::Daemon(e) => e.to_string(),
            ServiceError::Agent(e) => e.to_string(),
            ServiceError::Io(f) => cat2("io error: ", f.message.as_str()),
        }
    }
}

/// How the service is to run.
#[derive(Clone, Debug)]
pub struct ServiceConfig {
    pub listen: SocketAddr,
    pub local_adb_port: u16,
    pub include_local: bool,
    pub poll_interval_ms: u64,
    pub adb_version: u32,
    /// The user's hub config (remote backends and pair codes).
    pub hub: HubConfig,
    pub control_abstract: String,
    pub control_path: Option<String>,
}

impl ServiceConfig {
    /// The service for a hub configuration. Abstract control sockets exist on
    /// Unix only.
    pub fn from_hub(hub: HubConfig, unix: bool) -> (c: Self)
        ensures
            c.hub == hub,
            c.listen@ == hub@.listen,
            c.local_adb_port == hub@.local_adb_port,
            c.include_local == hub@.include_local,
            c.poll_interval_ms == hub@.poll_interval_ms,
            c.adb_version == hub@.adb_version,
            c.control_abstract@ == (if unix {
                DEFAULT_CONTROL_ABSTRACT@
            } else {
                Seq::empty()
            }),
            c.control_path is None,
    {
        let control_abstract = if unix {
            DEFAULT_CONTROL_ABSTRACT.to_owned()
        } else {
            let none = String::new();
            assert(none@ =~= Seq::<char>::empty());
            none
        };
        ServiceConfig {
            listen: hub.listen.clone(),
            local_adb_port: hub.local_adb_port,
            include_local: hub.include_local,
            poll_interval_ms: hub.poll_interval_ms,
            adb_version: hub.adb_version,
            hub,
            control_abstract,
            control_path: None,
        }
    }

    /// The classic hub that this service runs where there is no shared
    /// listener.
    pub fn classic_hub(&self) -> (h: HubConfig)
        ensures
            h@ == (HubView {
                listen: self.listen@,
                local_adb_port: self.local_adb_port,
                include_local: self.include_local,
                poll_interval_ms: self.poll_interval_ms,
                adb_version: self.adb_version,
                ..self.hub@
            }),
    {
        let mut h = self.hub.clone();
        h.listen = self.listen.clone();
        h.local_adb_port = self.local_adb_port;
        h.include_local = self.include_local;
        h.poll_interval_ms = self.poll_interval_ms;
        h.adb_version = self.adb_version;
        h
    }

    /// The user's agent: it goes by the file that the configuration came from,
    /// else by the one at `default_path`.
    pub fn agent_config(&self, default_path: &str) -> (c: AgentConfig)
        ensures
            c.config_path@ == match self.hub@.config_path {
                Some(p) => p,
                None => default_path@,
            },
            c.control_abstract@ == self.control_abstract@,
            opt_view(c.control_path) == opt_view(self.control_path),
            c.poll_interval_ms == self.poll_interval_ms,
            c.inline_backends matches Some(h) && h@ == self.hub@,
            c.connect_retries == 50,
            c.connect_retry_delay_ms == 100,
    {
        AgentConfig {
            config_path: match &self.hub.config_path {
                Some(p) => p.clone(),
                None => default_path.to_owned(),
            },
            control_abstract: self.control_abstract.clone(),
            control_path: opt_clone(&self.control_path),
            poll_interval_ms: self.poll_interval_ms,
            inline_backends: Some(self.hub.clone()),
            connect_retries: 50,
            connect_retry_delay_ms: 100,
        }
    }

    /// The shared daemon.
    pub fn daemon_config(&self) -> (c: DaemonConfig)
        ensures
            c.listen@ == self.listen@,
            c.local_adb_port == self.local_adb_port,
            c.include_local == self.include_local,
            c.control_abstract@ == self.control_abstract@,
            opt_view(c.control_path) == opt_view(self.control_path),
            c.poll_interval_ms == self.poll_interval_ms,
            c.adb_version == self.adb_version,
    {
        DaemonConfig {
            listen: self.listen.clone(),
            local_adb_port: self.local_adb_port,
            include_local: self.include_local,
            control_abstract: self.control_abstract.clone(),
            control_path: opt_clone(&self.control_path),
            poll_interval_ms: self.poll_interval_ms,
            adb_version: self.adb_version,
        }
    }
}

/// Decide whether to start the daemon, after an attempt to bind its port: a
/// port in use means that another user's process is the daemon.
pub fn starts_daemon(bound: Result<(), IoFault>) -> (r: Result<bool, ServiceError>)
    ensures
        match bound {
            Ok(_) => r == Ok::<bool, ServiceError>(true),
            Err(f) => if f.kind == IoKind::AddrInUse {
                r == Ok::<bool, ServiceError>(false)
            } else {
                r == Err::<bool, ServiceError>(ServiceError::Io(f))
            },
        },
{
    match bound {
        Ok(_) => Ok(true),
        Err(f) => if f.kind == IoKind::AddrInUse {
            Ok(false)
        } else {
            Err(ServiceError::Io(f))
        },
    }
}

/// How a task of the service ended.
#[derive(Debug)]
pub enum TaskEnd<E> {
    Clean,
    Error(E),
    /// The task broke down.
    Crashed(String),
}

/// What happens to a service that runs the daemon and the agent.
#[derive(Debug)]
pub enum ServiceEvent {
    Shutdown,
    AgentEnded(TaskEnd<AgentError>),
    DaemonEnded(TaskEnd<DaemonError>),
}

/// What the service does about it.
#[derive(Debug)]
pub enum ServiceAction {
    /// Stop the tasks that are named, wait for them, and end like this.
    Finish { stop_agent: bool, stop_daemon: bool, outcome: Result<(), ServiceError> },
    /// Another process took the port: go on with the agent alone.
    GoOnWithAgent,
}

/// Whether `outcome` is that of a service whose agent ended.
pub open spec fn agent_outcome(
    end: TaskEnd<AgentError>,
    outcome: Result<(), ServiceError>,
) -> bool {
    match end {
        TaskEnd::Clean => outcome is Ok,
        TaskEnd::Error(e) => outcome == Err::<(), ServiceError>(ServiceError::Agent(e)),
        TaskEnd::Crashed(m) => outcome matches Err(ServiceError::Io(f)) && f@ == fault_view(
            IoKind::Other,
            m@,
        ),
    }
}

/// Whether the daemon lost the port to another process.
pub open spec fn lost_port(e: DaemonError) -> bool {
    e matches DaemonError::Bind { source, .. } && source.kind == IoKind::AddrInUse
}

/// Whether `a` is what the service does about an event.
pub open spec fn service_reaction(event: ServiceEvent, a: ServiceAction) -> bool {
    match event {
        ServiceEvent::Shutdown => a matches ServiceAction::Finish {
            stop_agent,
            stop_daemon,
            outcome,
        } && stop_agent && stop_daemon && outcome is Ok,
        ServiceEvent::AgentEnded(end) => a matches ServiceAction::Finish {
            stop_agent,
            stop_daemon,
            outcome,
        } && !stop_agent && stop_daemon && agent_outcome(end, outcome),
        ServiceEvent::DaemonEnded(TaskEnd::Error(e)) => if lost_port(e) {
            a is GoOnWithAgent
        } else {
            a matches ServiceAction::Finish { stop_agent, stop_daemon, outcome } && stop_agent
                && !stop_daemon && outcome == Err::<(), ServiceError>(ServiceError::Daemon(e))
        },
        ServiceEvent::DaemonEnded(TaskEnd::Clean) => a matches ServiceAction::Finish {
            stop_agent,
            stop_daemon,
            outcome,
        } && stop_agent && !stop_daemon && outcome is Ok,
        ServiceEvent::DaemonEnded(TaskEnd::Crashed(m)) => a matches ServiceAction::Finish {
            stop_agent,
            stop_daemon,
            outcome,
        } && stop_agent && !stop_daemon && (outcome matches Err(ServiceError::Io(f)) && f@
            == fault_view(IoKind::Other, m@)),
    }
}

/// The outcome of a service whose agent ended.
fn agent_result(end: TaskEnd<AgentError>) -> (outcome: Result<(), ServiceError>)
    ensures
        agent_outcome(end, outcome),
{
    match end {
        TaskEnd::Clean => Ok(()),
        TaskEnd::Error(e) => Err(ServiceError::Agent(e)),
        TaskEnd::Crashed(m) => Err(ServiceError::Io(fault(IoKind::Other, m.as_str()))),
    }
}

/// Decide what to do about an event while daemon and agent run.
pub fn run_shared_service(event: ServiceEvent) -> (a: ServiceAction)
    ensures
        service_reaction(event, a),
{
    match event {
        ServiceEvent::Shutdown => ServiceAction::Finish {
            stop_agent: true,
            stop_daemon: true,
            outcome: Ok(()),
        },
        ServiceEvent::AgentEnded(end) => ServiceAction::Finish {
            stop_agent: false,
            stop_daemon: true,
            outcome: agent_result(end),
        },
        ServiceEvent::DaemonEnded(end) => match end {
            TaskEnd::Clean => ServiceAction::Finish {
                stop_agent: true,
                stop_daemon: false,
                outcome: Ok(()),
            },
            TaskEnd::Error(e) => {
                let lost = match &e {
                    DaemonError::Bind { source, .. } => source.kind == IoKind::AddrInUse,
                    _ => false,
                };
                if lost {
                    ServiceAction::GoOnWithAgent
                } else {
                    ServiceAction::Finish {
                        stop_agent: true,
                        stop_daemon: false,
                        outcome: Err(ServiceError::Daemon(e)),
                    }
                }
            },
            TaskEnd::Crashed(m) => ServiceAction::Finish {
                stop_agent: true,
                stop_daemon: false,
                outcome: Err(ServiceError::Io(fault(IoKind::Other, m.as_str()))),
            },
        },
    }
}

/// Decide how the service ends once only the agent is left: `ended` is how the
/// agent ended, or none where the service is to shut down and the agent with
/// it.
pub fn run_agent_only(ended: Option<TaskEnd<AgentError>>) -> (r: (bool, Result<(), ServiceError>))
    ensures
        match ended {
            None => r.0 && r.1 is Ok,
            Some(end) => !r.0 && agent_outcome(end, r.1),
        },
{
    match ended {
        None => (true, Ok(())),
        Some(end) => (false, agent_result(end)),
    }
}

/// What a service does about what happens: it ends on shutdown, ends with the daemon
/// or the agent and stops the other one, but goes on with the agent alone where the
/// daemon only lost the port to another process.
pub proof fn services_end_together(event: ServiceEvent, a: ServiceAction)
    requires
        call_ensures(run_shared_service, (event,), a),
    ensures
        a is GoOnWithAgent <==> (event matches ServiceEvent::DaemonEnded(
            TaskEnd::Error(DaemonError::Bind { source, .. }),
        ) && source.kind == IoKind::AddrInUse),
        a matches ServiceAction::Finish { stop_agent, stop_daemon, outcome } ==> {
            &&& stop_agent <==> !(event is AgentEnded)
            &&& stop_daemon <==> !(event is DaemonEnded)
            &&& outcome is Ok <==> (match event {
                ServiceEvent::Shutdown => true,
                ServiceEvent::AgentEnded(end) => end is Clean,
                ServiceEvent::DaemonEnded(end) => end is Clean,
            })
            &&& event matches ServiceEvent::AgentEnded(TaskEnd::Error(e)) ==> outcome == Err::<
                (),
                ServiceError,
            >(ServiceError::Agent(e))
            &&& event matches ServiceEvent::DaemonEnded(TaskEnd::Error(e)) ==> outcome == Err::<
                (),
                ServiceError,
            >(ServiceError::Daemon(e))
        },
{
}

/// A port in use means that another process is the daemon; a free one that this one
/// becomes it; any other failure is one.
pub proof fn ports_in_use_have_a_daemon(bound: Result<(), IoFault>, r: Result<bool, ServiceError>)
    requires
        call_ensures(starts_daemon, (bound,), r),
    ensures
        r == Ok::<bool, ServiceError>(true) <==> bound is Ok,
        r == Ok::<bool, ServiceError>(false) <==> (bound matches Err(f) && f.kind
            == IoKind::AddrInUse),
        r is Err ==> bound is Err && r == Err::<bool, ServiceError>(
            ServiceError::Io(bound->Err_0),
        ),
{
}

/// With the agent alone, the service ends as the agent does; on shutdown the agent is
/// stopped first.
pub proof fn agent_alone_decides(
    ended: Option<TaskEnd<AgentError>>,
    r: (bool, Result<(), ServiceError>),
)
    requires
        call_ensures(run_agent_only, (ended,), r),
    ensures
        r.0 <==> ended is None,
        r.1 is Ok <==> (ended is None || ended->0 is Clean),
        ended matches Some(TaskEnd::Error(e)) ==> r.1 == Err::<(), ServiceError>(
            ServiceError::Agent(e),
        ),
{
}

/// Daemon, agent and classic hub all run with the settings of the one service.
pub proof fn one_service_one_setting(
    hub: HubConfig,
    unix: bool,
    c: ServiceConfig,
    path: &str,
    agent: AgentConfig,
    daemon: DaemonConfig,
    classic: HubConfig,
)
    requires
        call_ensures(ServiceConfig::from_hub, (hub, unix), c),
        call_ensures(ServiceConfig::agent_config, (&c, path), agent),
        call_ensures(ServiceConfig::daemon_config, (&c,), daemon),
        call_ensures(ServiceConfig::classic_hub, (&c,), classic),
    ensures
        classic@ == hub@,
        daemon.listen@ == hub@.listen,
        daemon.local_adb_port == hub@.local_adb_port,
        daemon.include_local == hub@.include_local,
        daemon.adb_version == hub@.adb_version,
        daemon.poll_interval_ms == hub@.poll_interval_ms,
        agent.poll_interval_ms == hub@.poll_interval_ms,
        agent.control_abstract@ == daemon.control_abstract@,
        opt_view(agent.control_path) == opt_view(daemon.control_path),
        agent.inline_backends matches Some(h) && h@ == hub@,
        agent.config_path@ == hub@.config_path.unwrap_or(path@),
        unix ==> agent.control_abstract@ == "adb-hubd"@,
{
}

} // verus!
