//! Core logic for a chat bot that offers to recolor overly bright image
//! attachments into a fixed dark palette.
//!
//! The library holds the verified pieces: hex color parsing, the option
//! token codec, the brightness analyzer, the palette transform, the
//! memoizing image cache, and the interaction state machine.  The chat
//! platform itself (gateway, message transport) is an external collaborator
//! driven by a thin unverified adapter.

pub mod brightness;
pub mod cache;
pub mod codec;
pub mod color;
pub mod data;
pub mod image_data;
pub mod numeric;
pub mod palette;
pub mod pipeline;
pub mod session;
