//! Core logic of a wearable LED-matrix device: the temporal dithering engine
//! that drives the 5x5 LED panel, the glyph renderer and scrolling state
//! machine, the binary message codec of the BLE control protocol, the
//! broadcast event bus that fans decoded messages out to consumer threads,
//! and the connection registry and state machine of the GATT server.

pub mod codec;
pub mod colour;
pub mod dither;
pub mod eventbus;
pub mod glyph;
pub mod router;
pub mod scroll;
