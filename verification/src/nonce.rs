//! The nonce sequencer: an 8-byte caller-chosen prefix, a 32-bit big-endian
//! message counter, and a one-byte terminal flag, encoded as a 13-byte nonce.

use vstd::prelude::*;

use crate::bytes::{lemma_u32_be_bytes_injective, push_bytes, push_u32_be, u32_be_bytes};

verus! {

/// Size of the caller-supplied nonce prefix in bytes.
pub const NONCE_SIZE: usize = 8;

/// The wire form of a stream nonce: `prefix(8) || counter_be(4) || flag(1)`.
/// The flag byte is 1 on the final message of a sequence and 0 before it.
pub open spec fn nonce_bytes(prefix: Seq<u8>, counter: u32, last: bool) -> Seq<u8> {
    prefix + u32_be_bytes(counter) + seq![if last { 1u8 } else { 0u8 }]
}

/// Two encoded nonces agree only if prefix, counter and flag all agree.
pub proof fn lemma_nonce_bytes_injective(
    p1: Seq<u8>,
    c1: u32,
    l1: bool,
    p2: Seq<u8>,
    c2: u32,
    l2: bool,
)
    requires
        p1.len() == 8,
        p2.len() == 8,
        nonce_bytes(p1, c1, l1) == nonce_bytes(p2, c2, l2),
    ensures
        p1 == p2,
        c1 == c2,
        l1 == l2,
{
    let n1 = nonce_bytes(p1, c1, l1);
    let n2 = nonce_bytes(p2, c2, l2);
    assert(p1 =~= p2) by {
        assert forall|i: int| 0 <= i < 8 implies p1[i] == p2[i] by {
            assert(n1[i] == p1[i]);
            assert(n2[i] == p2[i]);
        }
    }
    assert(u32_be_bytes(c1) =~= u32_be_bytes(c2)) by {
        assert forall|i: int| 0 <= i < 4 implies u32_be_bytes(c1)[i] == u32_be_bytes(c2)[i] by {
            assert(n1[8 + i] == u32_be_bytes(c1)[i]);
            assert(n2[8 + i] == u32_be_bytes(c2)[i]);
        }
    }
    lemma_u32_be_bytes_injective(c1, c2);
    assert(n1[12] == if l1 { 1u8 } else { 0u8 });
    assert(n2[12] == if l2 { 1u8 } else { 0u8 });
}

/// Computes successive 13-byte STREAM nonces from an 8-byte prefix and an
/// internal 32-bit counter. The counter never repeats a value and never
/// wraps; the terminal flag is raised exactly once, by [`Self::finish`],
/// which consumes the encoder.
pub struct NonceEncoder32 {
    value: Vec<u8>,
    ctr: u32,
}

impl NonceEncoder32 {
    /// The 8-byte prefix the encoder was built from.
    pub closed spec fn prefix(&self) -> Seq<u8> {
        self.value@.subrange(0, 8)
    }

    /// The number of messages consumed so far via `increment`.
    pub closed spec fn counter(&self) -> u32 {
        self.ctr
    }

    /// The stored 13-byte nonce always encodes the prefix, the current
    /// counter and a lowered terminal flag.
    pub closed spec fn wf(&self) -> bool {
        &&& self.value@.len() == 13
        &&& self.value@ == nonce_bytes(self.prefix(), self.ctr, false)
    }

    /// A well-formed encoder always carries an 8-byte prefix.
    pub proof fn lemma_wf_prefix_len(&self)
        requires
            self.wf(),
        ensures
            self.prefix().len() == 8,
    {
    }

    /// Builds an encoder positioned at counter 0.
    pub fn new(prefix: &[u8]) -> (r: Self)
        requires
            prefix@.len() == NONCE_SIZE,
        ensures
            r.wf(),
            r.prefix() == prefix@,
            r.counter() == 0,
    {
        let mut value: Vec<u8> = Vec::new();
        push_bytes(&mut value, prefix);
        push_u32_be(&mut value, 0);
        value.push(0);
        let r = NonceEncoder32 { value, ctr: 0 };
        proof {
            assert(r.value@ =~= prefix@ + u32_be_bytes(0) + seq![0u8]);
            assert(r.prefix() =~= prefix@);
        }
        r
    }

    /// Advances the counter to the next message position.
    pub fn increment(&mut self)
        requires
            old(self).wf(),
            old(self).counter() < u32::MAX,
        ensures
            final(self).wf(),
            final(self).prefix() == old(self).prefix(),
            final(self).counter() == old(self).counter() + 1,
    {
        self.ctr = self.ctr + 1;
        let c: u32 = self.ctr;
        self.value[8] = #[verifier::truncate] ((c >> 24) as u8);
        self.value[9] = #[verifier::truncate] ((c >> 16) as u8);
        self.value[10] = #[verifier::truncate] ((c >> 8) as u8);
        self.value[11] = #[verifier::truncate] (c as u8);
        proof {
            assert(self.prefix() =~= old(self).prefix());
            assert(self.value@ =~= nonce_bytes(self.prefix(), self.ctr, false));
        }
    }

    /// Borrows the current 13-byte nonce, terminal flag lowered.
    pub fn as_slice(&self) -> (r: &[u8])
        requires
            self.wf(),
        ensures
            r@ == nonce_bytes(self.prefix(), self.counter(), false),
            r@.len() == 13,
    {
        proof {
            self.lemma_wf_prefix_len();
        }
        self.value.as_slice()
    }

    /// Consumes the encoder and returns the final nonce: the current counter
    /// with the terminal flag raised. No further nonce can be produced from
    /// this encoder afterwards.
    pub fn finish(self) -> (r: Vec<u8>)
        requires
            self.wf(),
        ensures
            r@ == nonce_bytes(self.prefix(), self.counter(), true),
            r@.len() == 13,
    {
        proof {
            self.lemma_wf_prefix_len();
        }
        let mut value = self.value;
        value[12] = 1;
        proof {
            assert(value@ =~= nonce_bytes(self.prefix(), self.ctr, true));
        }
        value
    }
}

} // verus!
