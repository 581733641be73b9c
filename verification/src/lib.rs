//! Runtime self-protection for shared-library loading.
//!
//! The crate audits a process-map snapshot against an allow-list of library
//! basenames, decides whether the host process may continue, and models the
//! kernel-side interception hook together with its whitelist and detection
//! tables.

pub mod config;
pub mod digest;
pub mod ebpf;
pub mod guard;
pub mod learning;
pub mod metrics;
pub mod monitor;
pub mod preload_check;
pub mod text;
pub mod util;
