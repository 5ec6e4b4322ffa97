//! An ephemeral, rate-limited, room-scoped message relay.
//!
//! Clients post pre-encrypted text into named rooms. The relay keeps each
//! message only briefly, limits how fast messages may arrive, and erases the
//! bytes of every message it lets go of. This crate holds the state and the
//! rules; the server around it supplies the clock, the sockets and the locks.

pub mod limits;
pub mod window;
pub mod text;
pub mod rooms;
pub mod store;
pub mod limiter;
pub mod classify;
pub mod render;
pub mod relay;
pub mod killswitch;
