//! Ephemeral execution boundary: syscall filters and sandbox configuration.
pub mod macos_seatbelt;
pub mod mount;
pub mod seccomp;
