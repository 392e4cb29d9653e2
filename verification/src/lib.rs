//! Encodes arbitrary bytes as synthetic image frames for a lossy video
//! channel, and recovers the original bytes from extracted frames.
//!
//! The pixel codec spreads every payload byte over many pixels of a
//! deterministic geometric pattern; decoding averages the redundant
//! carriers, which tolerates the bounded per-pixel noise that a lossy
//! video transform introduces. The frame channel's write path is a
//! verified state machine driven by an I/O layer; the pipeline adds
//! optional compression, adaptive chunk sizing, sidecar metadata and
//! SHA-256 integrity checksums.

pub mod arith;
pub mod channel;
pub mod codec;
pub mod compress;
pub mod composer;
pub mod config;
pub mod decimal;
pub mod decoder;
pub mod encoder;
pub mod error;
pub mod handles;
pub mod hashing;

pub use channel::ChannelPhase;
pub use channel::ComposeSession;
pub use codec::GeometricArtGenerator;
pub use composer::VideoComposer;
pub use composer::VideoValidator;
pub use config::DecodeConfig;
pub use config::EncodeConfig;
pub use decoder::DecodedFileInfo;
pub use decoder::Decoder;
pub use encoder::EncodedFileInfo;
pub use encoder::Encoder;
pub use error::ErrorContext;
pub use error::F2V2FError;
pub use handles::DecodeHandle;
pub use handles::EncodeHandle;
pub use handles::F2V2FErrorCode;
