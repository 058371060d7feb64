//! A host-side controller core bridging a GRBL-class motion device on a
//! serial line with remote UI clients on a bidirectional web channel.
//!
//! The crate is organised around a pure application state machine driven by
//! an effect runtime: effect managers own the I/O channels, the runtime
//! merges their messages, feeds them to the application, and routes the
//! produced commands back to exactly one manager.

pub mod channel;
pub mod text;
pub mod grbl;
pub mod serial;
pub mod eff;
pub mod http;
pub mod ticker;
pub mod json;
pub mod protocol;
pub mod application;
