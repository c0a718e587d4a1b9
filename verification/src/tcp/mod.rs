//! Parts of a TCP socket.
pub mod congestion;
pub mod dynbuf;
pub mod dynbuf_laws;
pub mod handle;
pub mod pool;
pub mod sack;
pub mod step_laws;
