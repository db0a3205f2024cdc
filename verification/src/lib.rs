//! A round-robin reverse-proxy load balancer, as a verified core.
//!
//! The crate holds the decisions of the balancer: how a liveness probe is
//! judged, how the health record is replaced after a pass, which backend the
//! next request goes to, and what is sent to that backend. Sockets, timers and
//! tasks belong to the program around it, which performs the requests that
//! this crate plans and hands their outcomes back.

pub mod balancer;
pub mod forward;
pub mod gateway;
pub mod health;
pub mod monitor;
pub mod probe;
pub mod selector;
pub mod status;
pub mod text;

pub use balancer::LoadBalancer;
pub use forward::{
    ForwardOutcome, HeaderField, OutboundRequest, ProxiedRequest, ProxiedResponse,
};
pub use gateway::{handle_request, Dispatch};
pub use health::{HealthRecord, HealthStatus};
pub use probe::ProbeOutcome;
