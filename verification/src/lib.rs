//! Xoodyak: a lightweight cryptographic duplex sponge built on the Xoodoo
//! permutation, offering hashing, keyed pseudorandom output, authenticated
//! encryption and ratcheting from a single 48-byte invertible state
//! transform.
//!
//! Every engine operation is specified against [`duplex::DuplexModel`], a
//! mathematical image of an engine's 48 state bytes, mode and phase, so
//! outputs are a pure function of the model and the arguments.
//! [`laws`] proves the library-level theorems over that model, the
//! authenticated-encryption round trip among them.

pub mod any;
pub mod common;
pub mod duplex;
pub mod error;
pub mod hash;
pub mod keyed;
pub mod laws;
pub mod tag;
pub mod xoodoo;

pub use crate::any::XoodyakAny;
pub use crate::common::XoodyakCommon;
pub use crate::duplex::{Mode, Phase};
pub use crate::error::Error;
pub use crate::error::Error as XoodyakError;
pub use crate::hash::XoodyakHash;
pub use crate::keyed::XoodyakKeyed;
pub use crate::laws::{
    lemma_absorb_empty_advances, lemma_aead_round_trip, lemma_aead_round_trip_from_construction,
    lemma_decrypt_of_encrypt,
};
pub use crate::tag::Tag;
pub use crate::tag::Tag as XoodyakTag;
pub use crate::tag::AUTH_TAG_BYTES;
pub use crate::tag::AUTH_TAG_BYTES as XOODYAK_AUTH_TAG_BYTES;
pub use crate::xoodoo::Xoodoo;
