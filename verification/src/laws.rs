//! The guarantees of the stream construction, stated once over the
//! specification functions that the executable contracts use.
//!
//! Each law is a consequence of the nonce wire format together with the
//! injectivity that the [`Aead`] contract demands of a capability; the
//! executable methods of [`crate::stream`] tie their results to the same
//! `A::enc` and `nonce_bytes` terms, so these lemmas transfer directly to
//! what `decrypt_next` and `decrypt_last` return.

use vstd::prelude::*;

use crate::aead::Aead;
use crate::nonce::nonce_bytes;

verus! {

/// Nonce format: the nonce for the interior message at position `counter`
/// is `prefix || be32(counter) || 0x00`, and the terminal nonce is
/// `prefix || be32(counter) || 0x01`; its layout is fixed, 13 bytes long.
pub proof fn lemma_nonce_format(prefix: Seq<u8>, counter: u32, last: bool)
    requires
        prefix.len() == 8,
    ensures
        nonce_bytes(prefix, counter, last).len() == 13,
        nonce_bytes(prefix, counter, last).subrange(0, 8) == prefix,
        nonce_bytes(prefix, counter, last).subrange(8, 12) == crate::bytes::u32_be_bytes(counter),
        nonce_bytes(prefix, counter, last)[12] == if last { 1u8 } else { 0u8 },
{
    let n = nonce_bytes(prefix, counter, last);
    assert(n.subrange(0, 8) =~= prefix);
    assert(n.subrange(8, 12) =~= crate::bytes::u32_be_bytes(counter));
}

/// Round trip: at one stream position, under one key and one associated
/// data, a ciphertext has at most one plaintext. Together with the decryptor
/// contract — success exactly on the image of `A::enc` — decrypting what the
/// matching encryptor produced yields back the original plaintext.
pub proof fn lemma_round_trip<A: Aead>(
    key: Seq<u8>,
    prefix: Seq<u8>,
    counter: u32,
    last: bool,
    ad: Seq<u8>,
    pt: Seq<u8>,
    qt: Seq<u8>,
)
    requires
        prefix.len() == 8,
        ad.len() <= u64::MAX,
        A::enc(key, nonce_bytes(prefix, counter, last), ad, qt) == A::enc(
            key,
            nonce_bytes(prefix, counter, last),
            ad,
            pt,
        ),
    ensures
        qt == pt,
{
    A::lemma_enc_injective(key, nonce_bytes(prefix, counter, last), ad, qt, nonce_bytes(
        prefix,
        counter,
        last,
    ), ad, pt);
}

/// Round trip over a whole sequence: for any run of interior messages whose
/// ciphertexts each open to some plaintext at their own position — which the
/// decryptor contract guarantees whenever the ciphertexts are the sealed
/// ones — the plaintexts recovered are exactly the plaintexts sealed, in
/// order.
pub proof fn lemma_sequence_round_trip<A: Aead>(
    key: Seq<u8>,
    prefix: Seq<u8>,
    ads: Seq<Seq<u8>>,
    pts: Seq<Seq<u8>>,
    qts: Seq<Seq<u8>>,
)
    requires
        prefix.len() == 8,
        ads.len() == pts.len(),
        qts.len() == pts.len(),
        pts.len() <= 0x1_0000_0000,
        forall|i: int| 0 <= i < pts.len() ==> #[trigger] ads[i].len() <= u64::MAX,
        forall|i: int|
            0 <= i < pts.len() ==> A::enc(key, nonce_bytes(prefix, i as u32, false), ads[i], #[trigger] qts[i])
                == A::enc(key, nonce_bytes(prefix, i as u32, false), ads[i], pts[i]),
    ensures
        qts == pts,
{
    assert forall|i: int| 0 <= i < pts.len() implies qts[i] == pts[i] by {
        lemma_round_trip::<A>(key, prefix, i as u32, false, ads[i], pts[i], qts[i]);
    }
    assert(qts =~= pts);
}

/// Distinct stream positions give distinct ciphertexts: two messages sealed
/// under one key and prefix can collide only if both counter and terminal
/// flag agree, whatever their associated data and plaintexts were.
pub proof fn lemma_positions_bind_ciphertexts<A: Aead>(
    key: Seq<u8>,
    prefix: Seq<u8>,
    c1: u32,
    l1: bool,
    a1: Seq<u8>,
    p1: Seq<u8>,
    c2: u32,
    l2: bool,
    a2: Seq<u8>,
    p2: Seq<u8>,
)
    requires
        prefix.len() == 8,
        a1.len() <= u64::MAX,
        a2.len() <= u64::MAX,
        c1 != c2 || l1 != l2,
    ensures
        A::enc(key, nonce_bytes(prefix, c1, l1), a1, p1) != A::enc(
            key,
            nonce_bytes(prefix, c2, l2),
            a2,
            p2,
        ),
{
    if A::enc(key, nonce_bytes(prefix, c1, l1), a1, p1) == A::enc(
        key,
        nonce_bytes(prefix, c2, l2),
        a2,
        p2,
    ) {
        A::lemma_enc_injective(
            key,
            nonce_bytes(prefix, c1, l1),
            a1,
            p1,
            nonce_bytes(prefix, c2, l2),
            a2,
            p2,
        );
        crate::nonce::lemma_nonce_bytes_injective(prefix, c1, l1, prefix, c2, l2);
    }
}

/// Terminal binding: a ciphertext sealed with the terminal flag raised never
/// equals one sealed with it lowered, so an interior ciphertext handed to
/// `decrypt_last` — or a final ciphertext handed to `decrypt_next` — fails
/// authentication, whatever the message content and counters.
pub proof fn lemma_terminal_binding<A: Aead>(
    key: Seq<u8>,
    prefix: Seq<u8>,
    c1: u32,
    a1: Seq<u8>,
    p1: Seq<u8>,
    c2: u32,
    a2: Seq<u8>,
    p2: Seq<u8>,
)
    requires
        prefix.len() == 8,
        a1.len() <= u64::MAX,
        a2.len() <= u64::MAX,
    ensures
        A::enc(key, nonce_bytes(prefix, c1, false), a1, p1) != A::enc(
            key,
            nonce_bytes(prefix, c2, true),
            a2,
            p2,
        ),
{
    lemma_positions_bind_ciphertexts::<A>(key, prefix, c1, false, a1, p1, c2, true, a2, p2);
}

/// Reordering detection: two interior ciphertexts of one sequence can only
/// be equal at equal positions, so a ciphertext moved to a different
/// position fails authentication there.
pub proof fn lemma_reordering_detected<A: Aead>(
    key: Seq<u8>,
    prefix: Seq<u8>,
    c1: u32,
    a1: Seq<u8>,
    p1: Seq<u8>,
    c2: u32,
    a2: Seq<u8>,
    p2: Seq<u8>,
)
    requires
        prefix.len() == 8,
        a1.len() <= u64::MAX,
        a2.len() <= u64::MAX,
        c1 != c2,
    ensures
        A::enc(key, nonce_bytes(prefix, c1, false), a1, p1) != A::enc(
            key,
            nonce_bytes(prefix, c2, false),
            a2,
            p2,
        ),
{
    lemma_positions_bind_ciphertexts::<A>(key, prefix, c1, false, a1, p1, c2, false, a2, p2);
}

/// Associated-data binding: under one key and nonce, changing the associated
/// data changes the ciphertext, whatever the plaintexts; a ciphertext
/// presented with tampered associated data therefore fails authentication.
pub proof fn lemma_associated_data_binding<A: Aead>(
    key: Seq<u8>,
    prefix: Seq<u8>,
    counter: u32,
    last: bool,
    a1: Seq<u8>,
    p1: Seq<u8>,
    a2: Seq<u8>,
    p2: Seq<u8>,
)
    requires
        prefix.len() == 8,
        a1.len() <= u64::MAX,
        a2.len() <= u64::MAX,
        a1 != a2,
    ensures
        A::enc(key, nonce_bytes(prefix, counter, last), a1, p1) != A::enc(
            key,
            nonce_bytes(prefix, counter, last),
            a2,
            p2,
        ),
{
    let n = nonce_bytes(prefix, counter, last);
    if A::enc(key, n, a1, p1) == A::enc(key, n, a2, p2) {
        A::lemma_enc_injective(key, n, a1, p1, n, a2, p2);
    }
}

/// Prefix binding: sequences under different 8-byte prefixes never share a
/// ciphertext, whatever their positions and contents — a stream decrypted
/// under a tampered nonce prefix fails authentication.
pub proof fn lemma_prefix_binding<A: Aead>(
    key: Seq<u8>,
    prefix1: Seq<u8>,
    c1: u32,
    l1: bool,
    a1: Seq<u8>,
    p1: Seq<u8>,
    prefix2: Seq<u8>,
    c2: u32,
    l2: bool,
    a2: Seq<u8>,
    p2: Seq<u8>,
)
    requires
        prefix1.len() == 8,
        prefix2.len() == 8,
        a1.len() <= u64::MAX,
        a2.len() <= u64::MAX,
        prefix1 != prefix2,
    ensures
        A::enc(key, nonce_bytes(prefix1, c1, l1), a1, p1) != A::enc(
            key,
            nonce_bytes(prefix2, c2, l2),
            a2,
            p2,
        ),
{
    if A::enc(key, nonce_bytes(prefix1, c1, l1), a1, p1) == A::enc(
        key,
        nonce_bytes(prefix2, c2, l2),
        a2,
        p2,
    ) {
        A::lemma_enc_injective(
            key,
            nonce_bytes(prefix1, c1, l1),
            a1,
            p1,
            nonce_bytes(prefix2, c2, l2),
            a2,
            p2,
        );
        crate::nonce::lemma_nonce_bytes_injective(prefix1, c1, l1, prefix2, c2, l2);
    }
}

} // verus!
