//! Engine of a framed serial-link protocol: byte stuffing, stream framing with
//! checksums, a window-one send/acknowledge session and a mesh telemetry decoder.

pub mod codec;
pub mod framer;
pub mod hexstr;
pub mod mesh;
pub mod session;
pub mod fixtures;
