//! Keys in the 256-bit XOR key space and the log2 distance between them.

use vstd::prelude::*;
use vstd::arithmetic::power2::pow2;
use crate::node_id::NodeId;

verus! {

/// Bit length of a byte value: zero for zero, otherwise one more than the
/// index of the highest set bit.
pub open spec fn byte_bit_len(b: nat) -> nat
    decreases b,
{
    if b == 0 {
        0
    } else {
        1 + byte_bit_len(b / 2)
    }
}

/// Bit length of a big-endian byte string: zero when every byte is zero,
/// otherwise one more than the index, counted from the least significant
/// bit, of the highest set bit.
pub open spec fn bit_len_bytes(s: Seq<u8>) -> nat
    decreases s.len(),
{
    if s.len() == 0 {
        0
    } else if s[0] != 0 {
        ((s.len() - 1) * 8 + byte_bit_len(s[0] as nat)) as nat
    } else {
        bit_len_bytes(s.skip(1))
    }
}

/// The numeric value of a big-endian byte string.
pub open spec fn bytes_value(s: Seq<u8>) -> nat
    decreases s.len(),
{
    if s.len() == 0 {
        0
    } else {
        s[0] as nat * pow2((8 * (s.len() - 1)) as nat) + bytes_value(s.skip(1))
    }
}

/// A nonzero byte lies between the two consecutive powers of two that its
/// bit length names.
proof fn lemma_byte_bit_len_bounds(b: nat)
    requires
        b > 0,
    ensures
        pow2((byte_bit_len(b) - 1) as nat) <= b < pow2(byte_bit_len(b)),
    decreases b,
{
    vstd::arithmetic::power2::lemma2_to64();
    if b == 1 {
        assert(byte_bit_len(0) == 0);
    } else {
        lemma_byte_bit_len_bounds(b / 2);
        let l = byte_bit_len(b / 2);
        vstd::arithmetic::power2::lemma_pow2_unfold(l);
        vstd::arithmetic::power2::lemma_pow2_unfold((l + 1) as nat);
    }
}

/// A byte string's value stays below the power of two spanned by its width.
proof fn lemma_bytes_value_bound(s: Seq<u8>)
    ensures
        bytes_value(s) < pow2((8 * s.len()) as nat),
    decreases s.len(),
{
    vstd::arithmetic::power2::lemma2_to64();
    if s.len() > 0 {
        lemma_bytes_value_bound(s.skip(1));
        let p = pow2((8 * (s.len() - 1)) as nat);
        vstd::arithmetic::power2::lemma_pow2_adds(8, (8 * (s.len() - 1)) as nat);
        vstd::arithmetic::mul::lemma_mul_is_distributive_add_other_way(
            p as int,
            s[0] as int,
            1,
        );
        vstd::arithmetic::mul::lemma_mul_inequality(s[0] as int + 1, 256, p as int);
    }
}

/// The bit length of a byte string is the mathematical base-2 logarithm of
/// its value, rounded down, plus one: a nonzero value is bracketed between
/// the two consecutive powers of two its bit length names, and only the
/// all-zero string has bit length zero. This is what makes `bit_len_bytes`
/// of an XOR the log2 distance.
pub proof fn lemma_bit_len_is_log2(s: Seq<u8>)
    ensures
        bit_len_bytes(s) == 0 <==> bytes_value(s) == 0,
        bytes_value(s) > 0 ==> pow2((bit_len_bytes(s) - 1) as nat) <= bytes_value(s) < pow2(
            bit_len_bytes(s),
        ),
    decreases s.len(),
{
    if s.len() == 0 {
    } else if s[0] != 0 {
        lemma_byte_bit_len_bounds(s[0] as nat);
        lemma_bytes_value_bound(s.skip(1));
        let m = (8 * (s.len() - 1)) as nat;
        let p = pow2(m);
        let l = byte_bit_len(s[0] as nat);
        assert(l >= 1);
        assert(bit_len_bytes(s) == m + l);
        assert(bytes_value(s) == s[0] as nat * p + bytes_value(s.skip(1)));
        assert(bytes_value(s.skip(1)) < p);
        vstd::arithmetic::power2::lemma_pow2_pos(m);
        // lower bound: pow2(m + l - 1) == pow2(l - 1) * p <= s[0] * p
        vstd::arithmetic::power2::lemma_pow2_adds((l - 1) as nat, m);
        vstd::arithmetic::mul::lemma_mul_inequality(
            pow2((l - 1) as nat) as int,
            s[0] as int,
            p as int,
        );
        assert(pow2(((m + l) - 1) as nat) <= s[0] as nat * p);
        vstd::arithmetic::mul::lemma_mul_inequality(1, s[0] as int, p as int);
        assert(bytes_value(s) > 0);
        // upper bound: value < (s[0] + 1) * p <= pow2(l) * p == pow2(m + l)
        vstd::arithmetic::mul::lemma_mul_is_distributive_add_other_way(
            p as int,
            s[0] as int,
            1,
        );
        assert((s[0] as int + 1) * p as int == s[0] as int * p as int + 1 * p as int);
        vstd::arithmetic::mul::lemma_mul_inequality(s[0] as int + 1, pow2(l) as int, p as int);
        vstd::arithmetic::power2::lemma_pow2_adds(l, m);
        assert(bytes_value(s) < pow2((m + l) as nat));
    } else {
        lemma_bit_len_is_log2(s.skip(1));
        assert(bytes_value(s) == bytes_value(s.skip(1)));
        assert(bit_len_bytes(s) == bit_len_bytes(s.skip(1)));
    }
}

/// Byte-wise XOR of two equal-length byte strings.
pub open spec fn xor_bytes(a: Seq<u8>, b: Seq<u8>) -> Seq<u8> {
    Seq::new(a.len(), |i: int| a[i] ^ b[i])
}

/// The log2 XOR distance between two keys: the position (one-based, from the
/// least significant bit) of the highest bit in which they differ, and zero
/// when they are equal.
pub open spec fn log2_distance_of(a: Seq<u8>, b: Seq<u8>) -> nat {
    bit_len_bytes(xor_bytes(a, b))
}

/// XOR, and with it the log2 distance, is symmetric in its two keys.
pub proof fn lemma_xor_bytes_sym(a: Seq<u8>, b: Seq<u8>)
    requires
        a.len() == b.len(),
    ensures
        xor_bytes(a, b) == xor_bytes(b, a),
{
    assert forall|j: int| 0 <= j < a.len() implies xor_bytes(a, b)[j] == xor_bytes(b, a)[j] by {
        let yb = a[j];
        let zb = b[j];
        assert((yb ^ zb) == (zb ^ yb)) by (bit_vector);
    }
    assert(xor_bytes(a, b) =~= xor_bytes(b, a));
}

/// A key in the XOR key space, as the routing table sees it: the identifier
/// it was built from, together with its 32-byte key-space value.
#[derive(Clone, Copy, Debug)]
pub struct Key {
    preimage: NodeId,
    hash: [u8; 32],
}

impl View for Key {
    type V = Seq<u8>;

    closed spec fn view(&self) -> Seq<u8> {
        self.hash@
    }
}

proof fn lemma_byte_bit_len_le(b: nat, k: nat)
    requires
        b < pow2(k),
    ensures
        byte_bit_len(b) <= k,
    decreases k,
{
    if b > 0 {
        vstd::arithmetic::power2::lemma2_to64();
        if k == 0 {
            assert(false);
        } else {
            vstd::arithmetic::power2::lemma_pow2_unfold(k);
            lemma_byte_bit_len_le(b / 2, (k - 1) as nat);
        }
    }
}

/// Where the first nonzero byte of `s` stands at index `i`, the bit length
/// of `s` is the bit length of that byte, shifted up by the bytes below it.
proof fn lemma_bit_len_bytes_at(s: Seq<u8>, i: int)
    requires
        0 <= i < s.len(),
        forall|j: int| 0 <= j < i ==> s[j] == 0,
        s[i] != 0,
    ensures
        bit_len_bytes(s) == (s.len() - i - 1) * 8 + byte_bit_len(s[i] as nat),
    decreases i,
{
    if i > 0 {
        lemma_bit_len_bytes_at(s.skip(1), i - 1);
    }
}

impl Key {
    /// The identifier this key was built from.
    pub closed spec fn preimage_spec(&self) -> NodeId {
        self.preimage
    }

    /// Builds a key directly from an identifier and its key-space value.
    pub fn new_raw(preimage: NodeId, hash: [u8; 32]) -> (r: Key)
        ensures
            r@ == hash@,
            r.preimage_spec() == preimage,
    {
        Key { preimage, hash }
    }

    /// The key-space value of an identifier: the identifier's own bytes.
    pub fn from_node_id(node_id: &NodeId) -> (r: Key)
        ensures
            r@ == node_id@,
            r.preimage_spec() == *node_id,
    {
        Key { preimage: *node_id, hash: node_id.raw() }
    }

    /// The identifier this key was built from.
    pub fn preimage(&self) -> (r: &NodeId)
        ensures
            *r == self.preimage_spec(),
    {
        &self.preimage
    }

    /// The raw 32-byte key-space value.
    pub fn hash(&self) -> (r: [u8; 32])
        ensures
            r@ == self@,
    {
        self.hash
    }

    /// The log2 XOR distance to `other`, or `None` when the two keys are
    /// equal and no finite log2 distance exists.
    pub fn log2_distance(&self, other: &Key) -> (r: Option<u64>)
        ensures
            (r is Some) <==> self@ != other@,
            (r matches Some(d) ==> 1 <= d <= 256 && d == log2_distance_of(self@, other@)),
    {
        let mut i: usize = 0;
        while i < 32 && self.hash[i] == other.hash[i]
            invariant
                i <= 32,
                forall|j: int| 0 <= j < i ==> self@[j] == other@[j],
            decreases 32 - i,
        {
            i = i + 1;
        }
        if i == 32 {
            proof {
                assert(self@ =~= other@);
            }
            return None;
        }
        let a_byte: u8 = self.hash[i];
        let b_byte: u8 = other.hash[i];
        let x: u8 = a_byte ^ b_byte;
        proof {
            assert((a_byte ^ b_byte) != 0) by (bit_vector)
                requires
                    a_byte != b_byte,
            ;
            let xs = xor_bytes(self@, other@);
            assert(xs[i as int] == x);
            assert forall|j: int| 0 <= j < i implies xs[j] == 0 by {
                let yb = self@[j];
                let zb = other@[j];
                assert((yb ^ zb) == 0) by (bit_vector)
                    requires
                        yb == zb,
                ;
            }
            lemma_bit_len_bytes_at(xs, i as int);
            vstd::arithmetic::power2::lemma2_to64();
            lemma_byte_bit_len_le(x as nat, 8);
        }
        let mut v: u8 = x;
        let mut c: u64 = 0;
        while v > 0
            invariant
                c <= 8,
                byte_bit_len(x as nat) == c + byte_bit_len(v as nat),
                byte_bit_len(x as nat) <= 8,
            decreases v,
        {
            v = v / 2;
            c = c + 1;
        }
        Some(8 * (31 - i as u64) + c)
    }
}

} // verus!
