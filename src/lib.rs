//! Selection and cycling of the default audio input or output device.
//!
//! The library decides which device becomes the default from a snapshot of the
//! server's device list and the index remembered by the previous invocation,
//! and describes the side effects to perform as plain values.
pub mod device;
pub mod catalog;
pub mod selector;
pub mod applier;
pub mod store;
pub mod status;
