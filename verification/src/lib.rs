//! FerrumKV: the RESP wire protocol (reply encoders and the inline command
//! parser), the error type shared by the layers, and the MONITOR fan-out
//! registry.

pub mod error;
pub mod network;
pub mod protocol;
