//! Telemetry ingestion and time-windowed queries.
//!
//! Readings arrive on a hierarchical topic namespace, are resolved to a stable
//! (station, sensor) identity, appended to an ordered store keyed by
//! `(sensor id, timestamp)`, and served back through windowed range scans.

pub mod topic;
pub mod model;
pub mod keys;
pub mod store;
pub mod window;
pub mod ingest;
pub mod query;
pub mod laws;
pub mod config;
pub mod auth;
pub mod retry;

pub use auth::{Claims, SignInFormData, UserFormData, TOKEN_LIFETIME_SECS};
pub use config::{get_endpoint, AppState, Config, RestApi, ServerConfig};
pub use ingest::{ingest, ingest_at, resolve, IngestError, ResolveError};
pub use model::{ReadingKey, Sensor, SensorId, SensorValue, Station, Timestamp};
pub use query::{latest, readings_in_period, readings_in_window};
pub use store::{ScanPage, Store};
pub use topic::{mock, parse, ParseError, TOPIC_PREFIX};
pub use window::{build_window, QueryError, TimePeriod, TimeSpec, WindowSpec};
pub use retry::{RetryPolicy, StoreFailure, WriteStep};
