//! Verified core of a tool that measures the audio latency of a conference
//! system from two recordings (sender and receiver) that carry a timing
//! sidecar and an FSK time mark.

pub mod analyze;
pub mod detector;
pub mod error;
pub mod hash;
pub mod output;
pub mod preprocess;
pub mod text;
pub mod timestamp;
pub mod timing;
pub mod wav;
