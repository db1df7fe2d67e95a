//! Verified core of the cross-chain sidecar: configuration defaults and
//! layering, the pending cross-chain transaction table, voting and decision
//! rules, builder-poll delivery, mailbox bookkeeping and state-override merging.

pub mod assoc;
pub mod config;
pub mod overrides;
pub mod primitives;
pub mod pending_xt;
pub mod hex;
pub mod coordinator;
pub mod builder_poll;
pub mod pipeline;
pub mod evm;
pub mod mailbox_overrides;
pub mod loader;
pub mod laws;
pub mod run;
pub mod simulation;
pub mod storage;
pub mod peer;
pub mod publisher;
pub mod wiring;
pub mod put_inbox;
pub mod override_json;
