//! A bundled AEAD capability that authenticates but does not conceal.
//!
//! The "ciphertext" is a transparent envelope:
//! `nonce(13) || be64(|ad|) || ad || plaintext || be32(checksum)`, the
//! checksum folding key, nonce, associated data and plaintext into 32 bits.
//! Opening re-seals the candidate plaintext and accepts only an exact match,
//! so a ciphertext opens under exactly one key-sum, nonce, associated data
//! and plaintext combination, and any single-byte corruption is rejected.
//!
//! It witnesses that the [`Aead`] contract is implementable and gives the
//! stream layer something executable to run against. It offers no
//! confidentiality whatsoever and must never be used to protect secrets;
//! production callers supply a real cipher behind the same trait.

use vstd::prelude::*;

use crate::aead::{Aead, Error};
use crate::bytes::{
    bytes_eq, lemma_u32_be_bytes_injective, lemma_u64_be_bytes_injective, push_bytes, push_u32_be,
    push_u64_be, u32_be_bytes, u64_be_bytes,
};
use vstd::arithmetic::div_mod::{
    lemma_add_mod_noop_right, lemma_fundamental_div_mod, lemma_mod_multiples_vanish,
    lemma_small_mod,
};

verus! {

/// 32-bit wrapping accumulation of one byte.
pub open spec fn wrap_add32(acc: u32, b: u8) -> u32 {
    if acc + b > u32::MAX {
        (acc + b - 0x1_0000_0000) as u32
    } else {
        (acc + b) as u32
    }
}

/// Folds a byte sequence into a 32-bit accumulator, wrapping on overflow.
pub open spec fn sum32(acc: u32, s: Seq<u8>) -> u32
    decreases s.len(),
{
    if s.len() == 0 {
        acc
    } else {
        sum32(wrap_add32(acc, s[0]), s.subrange(1, s.len() as int))
    }
}

/// The envelope checksum: key, nonce, associated data and plaintext folded
/// into 32 bits.
pub open spec fn tag32(key: Seq<u8>, nonce: Seq<u8>, ad: Seq<u8>, pt: Seq<u8>) -> u32 {
    sum32(sum32(sum32(sum32(0u32, key), nonce), ad), pt)
}

/// The envelope wire format produced by [`NullAead`].
pub open spec fn envelope(key: Seq<u8>, nonce: Seq<u8>, ad: Seq<u8>, pt: Seq<u8>) -> Seq<u8> {
    nonce + u64_be_bytes(ad.len() as u64) + ad + pt + u32_be_bytes(tag32(key, nonce, ad, pt))
}

/// How an envelope splits back into its fields.
pub proof fn lemma_envelope_parse(key: Seq<u8>, nonce: Seq<u8>, ad: Seq<u8>, pt: Seq<u8>)
    requires
        nonce.len() == 13,
    ensures
        envelope(key, nonce, ad, pt).len() == 25 + ad.len() + pt.len() as int,
        envelope(key, nonce, ad, pt).subrange(0, 13) == nonce,
        envelope(key, nonce, ad, pt).subrange(13, 21) == u64_be_bytes(ad.len() as u64),
        envelope(key, nonce, ad, pt).subrange(21, 21 + ad.len() as int) == ad,
        envelope(key, nonce, ad, pt).subrange(
            21 + ad.len() as int,
            21 + ad.len() + pt.len() as int,
        ) == pt,
        envelope(key, nonce, ad, pt).subrange(
            21 + ad.len() + pt.len() as int,
            25 + ad.len() + pt.len() as int,
        ) == u32_be_bytes(tag32(key, nonce, ad, pt)),
{
    let e = envelope(key, nonce, ad, pt);
    assert(e.subrange(0, 13) =~= nonce);
    assert(e.subrange(13, 21) =~= u64_be_bytes(ad.len() as u64));
    assert(e.subrange(21, 21 + ad.len() as int) =~= ad);
    assert(e.subrange(21 + ad.len() as int, 21 + ad.len() + pt.len() as int) =~= pt);
    assert(e.subrange(21 + ad.len() + pt.len() as int, 25 + ad.len() + pt.len() as int) =~= u32_be_bytes(
        tag32(key, nonce, ad, pt),
    ));
}

/// The arithmetic total of a byte sequence, without wrapping.
pub open spec fn byte_total(s: Seq<u8>) -> nat
    decreases s.len(),
{
    if s.len() == 0 {
        0nat
    } else {
        (s[0] + byte_total(s.subrange(1, s.len() as int))) as nat
    }
}

/// The wrapping fold equals the plain total reduced modulo 2^32.
proof fn lemma_sum32_is_total_mod(acc: u32, s: Seq<u8>)
    ensures
        sum32(acc, s) == (acc + byte_total(s)) % 0x1_0000_0000,
    decreases s.len(),
{
    let m: int = 0x1_0000_0000;
    if s.len() == 0 {
        lemma_small_mod(acc as nat, 0x1_0000_0000nat);
    } else {
        let s0: u8 = s[0];
        let tail = s.subrange(1, s.len() as int);
        let w: u32 = wrap_add32(acc, s0);
        lemma_sum32_is_total_mod(w, tail);
        if acc + s0 > u32::MAX {
            lemma_mod_multiples_vanish(1, acc + s0 - m, m);
            lemma_small_mod((acc + s0 - m) as nat, 0x1_0000_0000nat);
        } else {
            lemma_small_mod((acc + s0) as nat, 0x1_0000_0000nat);
        }
        assert(w == (acc + s0) % m);
        lemma_add_mod_noop_right(byte_total(tail) as int, acc + s0, m);
        assert(byte_total(s) == s0 + byte_total(tail));
    }
}

/// Replacing one byte moves the total by exactly the byte difference.
proof fn lemma_byte_total_update(s: Seq<u8>, j: int, b: u8)
    requires
        0 <= j < s.len(),
    ensures
        byte_total(s.update(j, b)) + s[j] == byte_total(s) + b,
    decreases s.len(),
{
    let su = s.update(j, b);
    if j == 0 {
        assert(su.subrange(1, su.len() as int) =~= s.subrange(1, s.len() as int));
    } else {
        assert(su[0] == s[0]);
        assert(su.subrange(1, su.len() as int) =~= s.subrange(1, s.len() as int).update(
            j - 1,
            b,
        ));
        lemma_byte_total_update(s.subrange(1, s.len() as int), j - 1, b);
    }
}

/// Changing one plaintext byte changes the checksum: the totals differ by
/// less than 2^32, so their residues cannot collide.
proof fn lemma_tag32_update_changes(
    key: Seq<u8>,
    nonce: Seq<u8>,
    ad: Seq<u8>,
    pt: Seq<u8>,
    j: int,
    b: u8,
)
    requires
        0 <= j < pt.len(),
        b != pt[j],
    ensures
        tag32(key, nonce, ad, pt.update(j, b)) != tag32(key, nonce, ad, pt),
{
    let m: int = 0x1_0000_0000;
    let acc = sum32(sum32(sum32(0u32, key), nonce), ad);
    lemma_sum32_is_total_mod(acc, pt);
    lemma_sum32_is_total_mod(acc, pt.update(j, b));
    lemma_byte_total_update(pt, j, b);
    if tag32(key, nonce, ad, pt.update(j, b)) == tag32(key, nonce, ad, pt) {
        let x: int = acc + byte_total(pt);
        let d: int = b - pt[j];
        assert((x + d) % m == x % m);
        lemma_fundamental_div_mod(x, m);
        lemma_fundamental_div_mod(x + d, m);
        let k: int = (x + d) / m - x / m;
        assert(d == m * k) by (nonlinear_arith)
            requires
                x == m * (x / m) + x % m,
                x + d == m * ((x + d) / m) + (x + d) % m,
                (x + d) % m == x % m,
                k == (x + d) / m - x / m,
        ;
        assert(false) by (nonlinear_arith)
            requires
                d == m * k,
                m == 0x1_0000_0000,
                -256 < d < 256,
                d != 0,
        ;
    }
}

/// The bytes of an envelope below the plaintext region are fixed by the
/// nonce and the associated data alone.
proof fn lemma_envelope_header(key: Seq<u8>, nonce: Seq<u8>, ad: Seq<u8>, pt: Seq<u8>, i: int)
    requires
        nonce.len() == 13,
        0 <= i < 21 + ad.len(),
    ensures
        envelope(key, nonce, ad, pt)[i] == if i < 13 {
            nonce[i]
        } else if i < 21 {
            u64_be_bytes(ad.len() as u64)[i - 13]
        } else {
            ad[i - 21]
        },
{
    lemma_envelope_parse(key, nonce, ad, pt);
    let e = envelope(key, nonce, ad, pt);
    if i < 13 {
        assert(e.subrange(0, 13)[i] == e[i]);
    } else if i < 21 {
        assert(e.subrange(13, 21)[i - 13] == e[i]);
    } else {
        assert(e.subrange(21, 21 + ad.len() as int)[i - 21] == e[i]);
    }
}

/// Tamper detection for this capability: changing any single byte of an
/// envelope leaves a byte string that no plaintext seals to under the same
/// key, nonce and associated data, so opening it fails authentication.
pub proof fn lemma_byte_tamper_detected(
    key: Seq<u8>,
    nonce: Seq<u8>,
    ad: Seq<u8>,
    pt: Seq<u8>,
    i: int,
    b: u8,
)
    requires
        nonce.len() == 13,
        0 <= i < envelope(key, nonce, ad, pt).len(),
        b != envelope(key, nonce, ad, pt)[i],
    ensures
        forall|qt: Seq<u8>|
            envelope(key, nonce, ad, qt) != envelope(key, nonce, ad, pt).update(i, b),
{
    let e = envelope(key, nonce, ad, pt);
    let t = e.update(i, b);
    let al = ad.len() as int;
    let pl = pt.len() as int;
    lemma_envelope_parse(key, nonce, ad, pt);
    assert forall|qt: Seq<u8>| envelope(key, nonce, ad, qt) != t by {
        if envelope(key, nonce, ad, qt) == t {
            let eq = envelope(key, nonce, ad, qt);
            lemma_envelope_parse(key, nonce, ad, qt);
            assert(qt.len() == pt.len());
            if i < 21 + al {
                lemma_envelope_header(key, nonce, ad, pt, i);
                lemma_envelope_header(key, nonce, ad, qt, i);
                assert(eq[i] == e[i]);
                assert(t[i] == b);
            } else if i < 21 + al + pl {
                let j: int = i - 21 - al;
                assert(e[i] == pt[j]) by {
                    assert(e.subrange(21 + al, 21 + al + pl)[j] == e[i]);
                }
                assert forall|w: int| 0 <= w < pl implies qt[w] == pt.update(j, b)[w] by {
                    assert(eq.subrange(21 + al, 21 + al + pl)[w] == eq[21 + al + w]);
                    assert(e.subrange(21 + al, 21 + al + pl)[w] == e[21 + al + w]);
                }
                assert(qt =~= pt.update(j, b));
                assert(eq.subrange(21 + al + pl, 25 + al + pl) =~= e.subrange(
                    21 + al + pl,
                    25 + al + pl,
                ));
                lemma_u32_be_bytes_injective(
                    tag32(key, nonce, ad, qt),
                    tag32(key, nonce, ad, pt),
                );
                lemma_tag32_update_changes(key, nonce, ad, pt, j, b);
            } else {
                assert forall|w: int| 0 <= w < pl implies qt[w] == pt[w] by {
                    assert(eq.subrange(21 + al, 21 + al + pl)[w] == eq[21 + al + w]);
                    assert(e.subrange(21 + al, 21 + al + pl)[w] == e[21 + al + w]);
                }
                assert(qt =~= pt);
                assert(eq[i] == e[i]);
                assert(t[i] == b);
            }
            assert(false);
        }
    }
}

/// Accumulates `s` into `acc` with 32-bit wrapping addition.
fn sum_bytes(acc0: u32, s: &[u8]) -> (r: u32)
    ensures
        r == sum32(acc0, s@),
{
    let mut acc: u32 = acc0;
    let mut i: usize = 0;
    proof {
        assert(s@.subrange(0, s@.len() as int) =~= s@);
    }
    while i < s.len()
        invariant
            i <= s@.len(),
            sum32(acc, s@.subrange(i as int, s@.len() as int)) == sum32(acc0, s@),
        decreases s@.len() - i,
    {
        proof {
            let rem = s@.subrange(i as int, s@.len() as int);
            assert(rem[0] == s@[i as int]);
            assert(rem.subrange(1, rem.len() as int) =~= s@.subrange(
                i as int + 1,
                s@.len() as int,
            ));
        }
        acc = acc.wrapping_add(s[i] as u32);
        i = i + 1;
    }
    proof {
        assert(s@.subrange(s@.len() as int, s@.len() as int) =~= Seq::<u8>::empty());
    }
    acc
}

/// The authenticity-only capability. Its key contributes to the checksum and
/// fixes which envelopes the instance accepts, nothing more.
pub struct NullAead {
    key: Vec<u8>,
}

impl NullAead {
    /// Computes the envelope checksum for the given fields under this key.
    fn tag_of(&self, nonce: &[u8], ad: &[u8], pt: &[u8]) -> (r: u32)
        ensures
            r == tag32(self.key@, nonce@, ad@, pt@),
    {
        let acc: u32 = sum_bytes(0, self.key.as_slice());
        let acc: u32 = sum_bytes(acc, nonce);
        let acc: u32 = sum_bytes(acc, ad);
        sum_bytes(acc, pt)
    }
}

impl Aead for NullAead {
    closed spec fn key_view(&self) -> Seq<u8> {
        self.key@
    }

    open spec fn key_len() -> nat {
        32
    }

    open spec fn enc(key: Seq<u8>, nonce: Seq<u8>, ad: Seq<u8>, pt: Seq<u8>) -> Seq<u8> {
        envelope(key, nonce, ad, pt)
    }

    proof fn lemma_enc_injective(
        key: Seq<u8>,
        n1: Seq<u8>,
        a1: Seq<u8>,
        p1: Seq<u8>,
        n2: Seq<u8>,
        a2: Seq<u8>,
        p2: Seq<u8>,
    ) {
        let e1 = envelope(key, n1, a1, p1);
        let e2 = envelope(key, n2, a2, p2);
        lemma_envelope_parse(key, n1, a1, p1);
        lemma_envelope_parse(key, n2, a2, p2);
        assert(n1 == e1.subrange(0, 13));
        assert(n2 == e2.subrange(0, 13));
        assert(u64_be_bytes(a1.len() as u64) == e1.subrange(13, 21));
        lemma_u64_be_bytes_injective(a1.len() as u64, a2.len() as u64);
        assert(a1.len() == a2.len());
        assert(a1 == e1.subrange(21, 21 + a1.len() as int));
        assert(a2 == e2.subrange(21, 21 + a2.len() as int));
        assert(p1.len() == p2.len());
        assert(p1 == e1.subrange(21 + a1.len() as int, 21 + a1.len() + p1.len() as int));
        assert(p2 == e2.subrange(21 + a2.len() as int, 21 + a2.len() + p2.len() as int));
    }

    fn new(key: &[u8]) -> (r: Self) {
        NullAead { key: vstd::slice::slice_to_vec(key) }
    }

    fn encrypt(&self, nonce: &[u8], ad: &[u8], plaintext: &[u8]) -> (r: Vec<u8>) {
        let mut out: Vec<u8> = Vec::new();
        push_bytes(&mut out, nonce);
        push_u64_be(&mut out, ad.len() as u64);
        push_bytes(&mut out, ad);
        push_bytes(&mut out, plaintext);
        let tag: u32 = self.tag_of(nonce, ad, plaintext);
        push_u32_be(&mut out, tag);
        proof {
            assert(out@ =~= envelope(self.key@, nonce@, ad@, plaintext@));
        }
        out
    }

    fn decrypt(&self, nonce: &[u8], ad: &[u8], ciphertext: &[u8]) -> (r: Result<Vec<u8>, Error>) {
        let total: usize = ciphertext.len();
        if total < 25 || total - 25 < ad.len() {
            proof {
                assert forall|pt: Seq<u8>|
                    ciphertext@ != envelope(self.key@, nonce@, ad@, pt) by {
                    lemma_envelope_parse(self.key@, nonce@, ad@, pt);
                }
            }
            return Err(Error);
        }
        let pt_slice = vstd::slice::slice_subrange(ciphertext, 21 + ad.len(), total - 4);
        let candidate = vstd::slice::slice_to_vec(pt_slice);
        let expected = self.encrypt(nonce, ad, candidate.as_slice());
        if bytes_eq(expected.as_slice(), ciphertext) {
            Ok(candidate)
        } else {
            proof {
                assert forall|pt: Seq<u8>|
                    ciphertext@ != envelope(self.key@, nonce@, ad@, pt) by {
                    if ciphertext@ == envelope(self.key@, nonce@, ad@, pt) {
                        lemma_envelope_parse(self.key@, nonce@, ad@, pt);
                        assert(pt =~= candidate@);
                    }
                }
            }
            Err(Error)
        }
    }
}

} // verus!
