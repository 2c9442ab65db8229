//! Authoritative-server core of a real-time position-synchronisation engine:
//! the shared game state, the wire protocol, the server's session manager and
//! diff-broadcast scheduler, the axis-separated collision resolver and the
//! client's merging of authoritative updates with local prediction.
pub mod client;
pub mod collision;
pub mod game;
pub mod net_common;
pub mod server;
pub mod wire;
