//! Audio routing core of a modular mixer: a registry of named audio
//! channels (one listener, at most one connected sender each), signal
//! modules that fill or copy sample buffers, and the client-side workspace
//! state that follows the server's updates.

mod online;
pub mod ring;
pub mod feed;
pub mod source;
pub mod protocol;
pub mod trigger;
pub mod webaudio_device;
pub mod workspace_state;
pub mod client;
