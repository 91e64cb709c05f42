//! Core of an over-the-air firmware updater for a sensor node: version
//! comparison, request framing, aligned streaming flash writes and the
//! update cycle's decision logic.
pub mod semver;
pub mod sensors;
pub mod text;
pub mod transport;
pub mod config;
pub mod cstr;
pub mod flash;
pub mod ota;
pub mod protocol;
