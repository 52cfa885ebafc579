//! Client-side logic of a WireGuard based SD-WAN site agent: configuration
//! resolution, the key file, the authorization exchange, the control-stream
//! message format, peer and route bookkeeping and the reconnect schedule.

pub mod addr;
pub mod authorize;
pub mod codec;
pub mod config;
pub mod keyfile;
pub mod message;
pub mod net;
pub mod peers;
pub mod routes;
pub mod schedule;
pub mod text;

pub use config::{default_base_delay, default_log_level, default_max_attempts};
