//! fathom: the integer core of a low-level visualization library.
//!
//! Packed colors, text and unit newtypes, the vertex arena and its command
//! list, primitive batching, texture and video frame sizing, and the small
//! state machines around a renderer session. Everything floating-point lives
//! with the caller.
pub mod color;
pub mod batch;
pub mod pack;
pub mod text;
pub mod font;
pub mod media;
pub mod units;
pub mod texture;
pub mod surface;
pub mod calib;
pub mod session;
pub mod shapes;
