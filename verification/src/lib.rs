//! A minimal reverse-proxy gateway: response compression with the choice of
//! an encoding from `Accept-Encoding`, upstream round-robin selection, static
//! file resolution and serving, and the TLS certificate store with its SNI
//! decision.
pub mod text;
pub mod path;
pub mod compress;
pub mod accept;
pub mod upstream;
pub mod fs;
pub mod tls;
