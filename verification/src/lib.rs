//! The gesture logic of a touchpad filter: while one finger moves the pointer, a short tap of a
//! second finger becomes a left click.
//!
//! Times are counted in nanoseconds from an arbitrary origin. Positions are in device units; the
//! settings give lengths in millimetres.

pub mod attributes;
pub mod codes;
pub mod contact_laws;
pub mod device;
pub mod event;
pub mod frame;
pub mod frame_laws;
pub mod gesture_laws;
pub mod options;
pub mod order;
pub mod recognizer;
pub mod session;
pub mod session_laws;
pub mod setup_laws;
pub mod stream_laws;
pub mod text;
