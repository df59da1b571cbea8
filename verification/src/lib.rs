//! A framed compression service: a streaming packet codec, a run-length
//! compressor for lowercase text, and the dispatcher that answers requests.

pub mod buffer;
pub mod compress;
pub mod counters;
pub mod dispatch;
pub mod encoding;
pub mod encoding_proofs;
pub mod framing;
pub mod framing_proofs;
pub mod message;
pub mod packet;
pub mod streaming;
pub mod streaming_proofs;
