//! Routing core of `adb-proxy` and `adb-hub`.

pub mod addr;
pub mod agent;
pub mod auth;
pub mod backend;
pub mod cli;
pub mod compat;
pub mod config;
pub mod daemon;
pub mod digits;
pub mod fault;
pub mod hub;
pub mod ipc;
pub mod local;
pub mod octets;
pub mod peercred;
pub mod policy;
pub mod protocol;
pub mod proxy;
pub mod proxy_config;
pub mod registry;
pub mod service;
pub mod session;
pub mod tenant;
pub mod text;

pub use crate::compat::VERSION;
pub use crate::proxy::{wait_for_port, ProxyConfig, ProxyError, ProxyStats};
