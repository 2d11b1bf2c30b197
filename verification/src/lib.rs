//! Telemetry streaming core of Kiro: node identities, metric snapshots and
//! their wire form, per-node bounded histories, client sessions and the
//! server-side publishing cycle. Every function here is verified with Verus;
//! the calls into other crates are gathered in [`outside`].

pub mod history;
pub mod kiro;
pub mod nodes;
pub mod outside;
pub mod publisher;
pub mod session;
pub mod snapshot;
pub mod websocket;
pub mod wire;
