//! Core of a browser-embedded remote-desktop client.
//!
//! The crate holds the protocol logic that sits between a transport and a
//! drawing surface: the pixel-format model, the ZRLE tile decoder with its
//! byte and bit cursors, the rectangle dispatcher, the session state machine
//! and the mapping of local input to wire events.  Everything here is
//! verified; transport, timers and the drawing surface live with the caller.

pub mod bits;
pub mod decoder;
pub mod dispatch;
pub mod error;
pub mod input;
pub mod pixel_format;
pub mod rect;
pub mod session;
pub mod zlib;
pub mod zrle;
