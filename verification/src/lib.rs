//! Verified core of a hardware and LLM-engine monitoring dashboard: node
//! list parsing and polling bookkeeping, counter deltas, history rollup
//! boundaries and summary selection, container discovery, and start-up plans.

pub mod text;
pub mod nodes;
pub mod metrics;
pub mod logs;
pub mod history;
pub mod startup;
pub mod server;
