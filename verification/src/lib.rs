//! Local collection and assembly core of a telemetry client: metric storage,
//! label cardinality control, ping assembly and the pending-queue file format.

pub mod glean;
pub mod json;
pub mod labeled;
pub mod metrics;
pub mod pending;
pub mod ping;
pub mod storage;
pub mod text;
pub mod time;
pub mod upload;
pub mod wire;
