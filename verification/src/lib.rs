//! Trust primitives for one-time-programmable (OTP) memory and the platform
//! descriptor store (PDS).
//!
//! Two independent components live here:
//!
//! - the PRESENT block cipher together with scramble/unscramble wrappers and
//!   an iterated-compression digest over 64-bit blocks (`present`, `digest`);
//! - a defensively validated parser for the PDS binary format, which stores
//!   platform metadata as a singly linked chain of UUID-typed descriptors
//!   with variable-size payloads (`pds`).
//!
//! Both operate purely on caller-supplied memory: no allocation beyond
//! scratch buffers, no I/O, no shared state between calls.

pub mod digest;
pub mod pds;
pub mod present;

pub use digest::{otp_digest, otp_digest_iter, otp_scramble, otp_unscramble};
pub use pds::{find_descriptor, for_each_descriptor, validate_header};
pub use pds::{PdsDescriptor, PdsDescriptorHeaderV1, PdsError, PdsHeaderV1, Uuid};
pub use present::Present;
