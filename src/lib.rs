//! Receiving side of per-frame media encryption: header parsing, replay
//! protection, a key store and authenticated decryption of frames.
pub mod bytes;
pub mod crypto;
pub mod error;
pub mod frame_validation;
pub mod header;
pub mod receiver;
