//! Ingestion of inbound mail notifications: every notification of a batch
//! becomes one normalized ledger record with a short preview of the message
//! body, and bumps the message counter of its recipient.

pub mod text;
pub mod decimal;
pub mod preview;
pub mod envelope;
pub mod record;
pub mod state;
pub mod api_types;
pub mod orchestrator;
pub mod wire;
pub mod rows;
pub mod store;
pub mod memory;
pub mod relative_time;
