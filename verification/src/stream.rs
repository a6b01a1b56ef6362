//! The STREAM encryptor and decryptor objects: one AEAD capability coupled
//! with one nonce sequencer, driven strictly in message order.
//!
//! An [`Encryptor`] seals the k-th interior message under the nonce
//! `prefix || be32(k) || 0x00` and the final message under
//! `prefix || be32(n) || 0x01`; a [`Decryptor`] built from the same key and
//! prefix accepts exactly that sequence, in that order. The `*_last`
//! operations take the object by value: once a sequence is closed, no
//! further message can be produced or accepted under it, by ownership.

use vstd::prelude::*;

use crate::aead::{Aead, Error};
use crate::nonce::{nonce_bytes, NonceEncoder32, NONCE_SIZE};

verus! {

/// A STREAM encryptor with a 32-bit counter, generic over the AEAD
/// capability.
pub struct Encryptor<A: Aead> {
    alg: A,
    nonce: NonceEncoder32,
}

impl<A: Aead> Encryptor<A> {
    /// The key the underlying capability was constructed with.
    pub closed spec fn key(&self) -> Seq<u8> {
        self.alg.key_view()
    }

    /// The 8-byte nonce prefix of this sequence.
    pub closed spec fn prefix(&self) -> Seq<u8> {
        self.nonce.prefix()
    }

    /// How many interior messages have been encrypted so far.
    pub closed spec fn counter(&self) -> u32 {
        self.nonce.counter()
    }

    /// The internal nonce encoder is well formed.
    pub closed spec fn wf(&self) -> bool {
        self.nonce.wf()
    }

    /// A well-formed encryptor always carries an 8-byte prefix.
    pub proof fn lemma_wf_prefix_len(&self)
        requires
            self.wf(),
        ensures
            self.prefix().len() == 8,
    {
        self.nonce.lemma_wf_prefix_len();
    }

    /// Creates a STREAM encryptor from a key and an 8-byte nonce prefix,
    /// positioned at message 0.
    pub fn new(key: &[u8], nonce: &[u8]) -> (r: Self)
        requires
            key@.len() == A::key_len(),
            nonce@.len() == NONCE_SIZE,
        ensures
            r.wf(),
            r.key() == key@,
            r.prefix() == nonce@,
            r.counter() == 0,
    {
        Encryptor { alg: A::new(key), nonce: NonceEncoder32::new(nonce) }
    }

    /// Encrypts the next interior message, overwriting `buffer` with the
    /// ciphertext, and advances the sequence by one.
    pub fn encrypt_next_in_place(&mut self, ad: &[u8], buffer: &mut Vec<u8>)
        requires
            old(self).wf(),
            old(self).counter() < u32::MAX,
        ensures
            final(self).wf(),
            final(self).key() == old(self).key(),
            final(self).prefix() == old(self).prefix(),
            final(self).counter() == old(self).counter() + 1,
            final(buffer)@ == A::enc(
                old(self).key(),
                nonce_bytes(old(self).prefix(), old(self).counter(), false),
                ad@,
                old(buffer)@,
            ),
    {
        let ciphertext = self.alg.encrypt(self.nonce.as_slice(), ad, buffer.as_slice());
        *buffer = ciphertext;
        self.nonce.increment();
    }

    /// Encrypts the final message, overwriting `buffer` with the ciphertext
    /// and consuming the encryptor.
    pub fn encrypt_last_in_place(self, ad: &[u8], buffer: &mut Vec<u8>)
        requires
            self.wf(),
        ensures
            final(buffer)@ == A::enc(
                self.key(),
                nonce_bytes(self.prefix(), self.counter(), true),
                ad@,
                old(buffer)@,
            ),
    {
        let ciphertext = self.encrypt_last(ad, buffer.as_slice());
        *buffer = ciphertext;
    }

    /// Encrypts the next interior message into a fresh buffer and advances
    /// the sequence by one.
    pub fn encrypt_next(&mut self, ad: &[u8], plaintext: &[u8]) -> (r: Vec<u8>)
        requires
            old(self).wf(),
            old(self).counter() < u32::MAX,
        ensures
            final(self).wf(),
            final(self).key() == old(self).key(),
            final(self).prefix() == old(self).prefix(),
            final(self).counter() == old(self).counter() + 1,
            r@ == A::enc(
                old(self).key(),
                nonce_bytes(old(self).prefix(), old(self).counter(), false),
                ad@,
                plaintext@,
            ),
    {
        let ciphertext = self.alg.encrypt(self.nonce.as_slice(), ad, plaintext);
        self.nonce.increment();
        ciphertext
    }

    /// Encrypts the final message into a fresh buffer, consuming the
    /// encryptor.
    pub fn encrypt_last(self, ad: &[u8], plaintext: &[u8]) -> (r: Vec<u8>)
        requires
            self.wf(),
        ensures
            r@ == A::enc(
                self.key(),
                nonce_bytes(self.prefix(), self.counter(), true),
                ad@,
                plaintext@,
            ),
    {
        let Encryptor { alg, nonce } = self;
        let last_nonce = nonce.finish();
        alg.encrypt(last_nonce.as_slice(), ad, plaintext)
    }
}

/// A STREAM decryptor with a 32-bit counter, generic over the AEAD
/// capability: the mirror of [`Encryptor`], with fallible operations.
pub struct Decryptor<A: Aead> {
    alg: A,
    nonce: NonceEncoder32,
}

impl<A: Aead> Decryptor<A> {
    /// The key the underlying capability was constructed with.
    pub closed spec fn key(&self) -> Seq<u8> {
        self.alg.key_view()
    }

    /// The 8-byte nonce prefix of this sequence.
    pub closed spec fn prefix(&self) -> Seq<u8> {
        self.nonce.prefix()
    }

    /// How many interior messages have been decrypted so far.
    pub closed spec fn counter(&self) -> u32 {
        self.nonce.counter()
    }

    /// The internal nonce encoder is well formed.
    pub closed spec fn wf(&self) -> bool {
        self.nonce.wf()
    }

    /// A well-formed decryptor always carries an 8-byte prefix.
    pub proof fn lemma_wf_prefix_len(&self)
        requires
            self.wf(),
        ensures
            self.prefix().len() == 8,
    {
        self.nonce.lemma_wf_prefix_len();
    }

    /// Creates a STREAM decryptor from a key and an 8-byte nonce prefix,
    /// positioned at message 0.
    pub fn new(key: &[u8], nonce: &[u8]) -> (r: Self)
        requires
            key@.len() == A::key_len(),
            nonce@.len() == NONCE_SIZE,
        ensures
            r.wf(),
            r.key() == key@,
            r.prefix() == nonce@,
            r.counter() == 0,
    {
        Decryptor { alg: A::new(key), nonce: NonceEncoder32::new(nonce) }
    }

    /// Decrypts the next interior message, overwriting `buffer` with the
    /// plaintext. On success the sequence advances by one; on authentication
    /// failure the decryptor and the buffer are left unchanged.
    pub fn decrypt_next_in_place(&mut self, ad: &[u8], buffer: &mut Vec<u8>) -> (r: Result<
        (),
        Error,
    >)
        requires
            old(self).wf(),
            old(self).counter() < u32::MAX,
        ensures
            final(self).wf(),
            final(self).key() == old(self).key(),
            final(self).prefix() == old(self).prefix(),
            match r {
                Ok(()) => old(buffer)@ == A::enc(
                    old(self).key(),
                    nonce_bytes(old(self).prefix(), old(self).counter(), false),
                    ad@,
                    final(buffer)@,
                ) && final(self).counter() == old(self).counter() + 1,
                Err(_) => {
                    &&& *final(self) == *old(self)
                    &&& final(buffer)@ == old(buffer)@
                    &&& forall|pt: Seq<u8>|
                        old(buffer)@ != A::enc(
                            old(self).key(),
                            nonce_bytes(old(self).prefix(), old(self).counter(), false),
                            ad@,
                            pt,
                        )
                },
            },
    {
        match self.alg.decrypt(self.nonce.as_slice(), ad, buffer.as_slice()) {
            Ok(plaintext) => {
                *buffer = plaintext;
                self.nonce.increment();
                Ok(())
            },
            Err(e) => Err(e),
        }
    }

    /// Decrypts the final message, overwriting `buffer` with the plaintext
    /// and consuming the decryptor. Succeeds only on a ciphertext that was
    /// sealed with the terminal flag at this position; on failure the buffer
    /// is left unchanged.
    pub fn decrypt_last_in_place(self, ad: &[u8], buffer: &mut Vec<u8>) -> (r: Result<(), Error>)
        requires
            self.wf(),
        ensures
            match r {
                Ok(()) => old(buffer)@ == A::enc(
                    self.key(),
                    nonce_bytes(self.prefix(), self.counter(), true),
                    ad@,
                    final(buffer)@,
                ),
                Err(_) => {
                    &&& final(buffer)@ == old(buffer)@
                    &&& forall|pt: Seq<u8>|
                        old(buffer)@ != A::enc(
                            self.key(),
                            nonce_bytes(self.prefix(), self.counter(), true),
                            ad@,
                            pt,
                        )
                },
            },
    {
        match self.decrypt_last(ad, buffer.as_slice()) {
            Ok(plaintext) => {
                *buffer = plaintext;
                Ok(())
            },
            Err(e) => Err(e),
        }
    }

    /// Decrypts the next interior message into a fresh buffer. On success
    /// the sequence advances by one; on authentication failure the decryptor
    /// is left unchanged.
    pub fn decrypt_next(&mut self, ad: &[u8], ciphertext: &[u8]) -> (r: Result<Vec<u8>, Error>)
        requires
            old(self).wf(),
            old(self).counter() < u32::MAX,
        ensures
            final(self).wf(),
            final(self).key() == old(self).key(),
            final(self).prefix() == old(self).prefix(),
            match r {
                Ok(pt) => ciphertext@ == A::enc(
                    old(self).key(),
                    nonce_bytes(old(self).prefix(), old(self).counter(), false),
                    ad@,
                    pt@,
                ) && final(self).counter() == old(self).counter() + 1,
                Err(_) => {
                    &&& *final(self) == *old(self)
                    &&& forall|pt: Seq<u8>|
                        ciphertext@ != A::enc(
                            old(self).key(),
                            nonce_bytes(old(self).prefix(), old(self).counter(), false),
                            ad@,
                            pt,
                        )
                },
            },
    {
        match self.alg.decrypt(self.nonce.as_slice(), ad, ciphertext) {
            Ok(plaintext) => {
                self.nonce.increment();
                Ok(plaintext)
            },
            Err(e) => Err(e),
        }
    }

    /// Decrypts the final message into a fresh buffer, consuming the
    /// decryptor. Succeeds only on a ciphertext that was sealed with the
    /// terminal flag at this position.
    pub fn decrypt_last(self, ad: &[u8], ciphertext: &[u8]) -> (r: Result<Vec<u8>, Error>)
        requires
            self.wf(),
        ensures
            match r {
                Ok(pt) => ciphertext@ == A::enc(
                    self.key(),
                    nonce_bytes(self.prefix(), self.counter(), true),
                    ad@,
                    pt@,
                ),
                Err(_) => forall|pt: Seq<u8>|
                    ciphertext@ != A::enc(
                        self.key(),
                        nonce_bytes(self.prefix(), self.counter(), true),
                        ad@,
                        pt,
                    ),
            },
    {
        let Decryptor { alg, nonce } = self;
        let last_nonce = nonce.finish();
        alg.decrypt(last_nonce.as_slice(), ad, ciphertext)
    }
}

} // verus!
