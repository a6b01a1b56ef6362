//! The AEAD capability the stream layer is built over.
//!
//! The stream construction is generic over any keyed
//! authenticated-encryption-with-associated-data primitive. The cipher's
//! internals are out of scope here; what the stream layer relies on is the
//! contract below: encryption is a function of key, nonce, associated data
//! and plaintext, that function is injective in nonce, associated data and
//! plaintext, and decryption succeeds exactly on its image.

use vstd::prelude::*;

verus! {

/// Authentication failure: the ciphertext, associated data or nonce position
/// does not match what the encrypting side produced. The value carries no
/// detail of why verification failed.
#[derive(Clone, Copy, Debug, PartialEq, Eq, Structural)]
pub struct Error;

/// A keyed AEAD capability.
///
/// `enc` is the capability's encryption function at the specification level;
/// the executable methods are exact with respect to it. An implementation
/// must prove [`Aead::lemma_enc_injective`]: under one key, a ciphertext
/// determines the nonce, the associated data and the plaintext it was made
/// from. That idealization is what the authenticity guarantees of the stream
/// layer rest on, and every method contract below is stated against it.
pub trait Aead: Sized {
    /// The bytes of the key this instance was constructed with.
    spec fn key_view(&self) -> Seq<u8>;

    /// The key length, in bytes, that this algorithm variant demands.
    spec fn key_len() -> nat;

    /// The ciphertext produced under `key` for the given 13-byte nonce,
    /// associated data and plaintext.
    spec fn enc(key: Seq<u8>, nonce: Seq<u8>, ad: Seq<u8>, pt: Seq<u8>) -> Seq<u8>;

    /// Under one key, equal ciphertexts come from equal nonce, associated
    /// data and plaintext.
    proof fn lemma_enc_injective(
        key: Seq<u8>,
        n1: Seq<u8>,
        a1: Seq<u8>,
        p1: Seq<u8>,
        n2: Seq<u8>,
        a2: Seq<u8>,
        p2: Seq<u8>,
    )
        requires
            n1.len() == 13,
            n2.len() == 13,
            a1.len() <= u64::MAX,
            a2.len() <= u64::MAX,
            Self::enc(key, n1, a1, p1) == Self::enc(key, n2, a2, p2),
        ensures
            n1 == n2,
            a1 == a2,
            p1 == p2,
    ;

    /// Constructs the capability from a key of the variant's exact length.
    fn new(key: &[u8]) -> (r: Self)
        requires
            key@.len() == Self::key_len(),
        ensures
            r.key_view() == key@,
    ;

    /// Seals `plaintext` under the given nonce, authenticating `ad` with it.
    fn encrypt(&self, nonce: &[u8], ad: &[u8], plaintext: &[u8]) -> (r: Vec<u8>)
        requires
            nonce@.len() == 13,
        ensures
            r@ == Self::enc(self.key_view(), nonce@, ad@, plaintext@),
    ;

    /// Opens `ciphertext`: returns the unique plaintext it seals under this
    /// key, nonce and associated data, and fails if and only if there is
    /// none.
    fn decrypt(&self, nonce: &[u8], ad: &[u8], ciphertext: &[u8]) -> (r: Result<Vec<u8>, Error>)
        requires
            nonce@.len() == 13,
        ensures
            match r {
                Ok(pt) => ciphertext@ == Self::enc(self.key_view(), nonce@, ad@, pt@),
                Err(_) => forall|pt: Seq<u8>|
                    ciphertext@ != Self::enc(self.key_view(), nonce@, ad@, pt),
            },
    ;
}

} // verus!
