//! Archive processing engine: format sniffing, a codec registry,
//! streaming integrity verification, container walking and a batch
//! pipeline, with the failure-isolation rules proved as contracts.

pub mod errors;
pub mod text;
pub mod telemetry;
pub mod format_detection;
pub mod resilience;
pub mod tarfmt;
pub mod codecs;
pub mod containers;
pub mod pipeline;
