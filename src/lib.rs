//! The capture-and-broadcast core of a screen mirroring service: a frame cell
//! that always holds the latest encoded image, a registry of delivery sinks that
//! is pruned of every sink that fails a delivery, a tick scheduler that captures
//! only while someone is watching, and the conversion of a raw BGRA screen grab
//! into an encoded PNG frame.
pub mod capture;
pub mod pixels;
pub mod provider;
pub mod registry;
