//! The STREAM construction: online authenticated encryption for an ordered
//! sequence of messages under one key and one 8-byte nonce prefix.
//!
//! A [`stream::Encryptor`] turns a single-nonce AEAD capability into a
//! sequence cipher: every message is sealed under the nonce
//! `prefix || be32(counter) || terminal_flag`, the counter advancing by one
//! per message and the flag marking the final message. A matching
//! [`stream::Decryptor`] accepts the sequence only in the order, and with the
//! termination, that the encryptor produced.

pub mod aead;
pub mod bytes;
pub mod laws;
pub mod nonce;
pub mod null_aead;
pub mod stream;
