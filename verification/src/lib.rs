//! A consumer-side engine for the TUIO protocol: the OSC binary codec and the
//! session dispatcher that turns decoded frames into lifecycle events.

pub mod blob;
pub mod codec_laws;
pub mod cursor;
pub mod decode;
pub mod dispatcher;
pub mod encode;
pub mod errors;
pub mod frame;
pub mod lifecycle;
pub mod object;
pub mod osc;
pub mod profile;
pub mod wire;
