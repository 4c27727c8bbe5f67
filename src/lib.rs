//! Telemetry acquisition core for a GPS-tagged sensor node: the frame
//! decoder, the capture-file model, the upload offload queue and the
//! decisions of the acquisition loop.

pub mod acquisition;
pub mod capture;
pub mod flags;
pub mod float_text;
pub mod frame;
pub mod metadata;
pub mod numeric;
pub mod status;
pub mod storage;
pub mod text;
