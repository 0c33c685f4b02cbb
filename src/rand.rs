use vstd::arithmetic::power2::{lemma2_to64, pow2};
use vstd::bits::lemma_u8_shl_is_mul;
use vstd::prelude::*;
use vstd::wrapping::u32_specs;

verus! {

/// The multiplier of the linear-congruential update.
pub const LCG_MUL: u32 = 1664525;

/// The increment of the linear-congruential update.
pub const LCG_INC: u32 = 1013904223;

/// One linear-congruential update, `s * LCG_MUL + LCG_INC` modulo 2^32.
#[verifier::opaque]
pub open spec fn lcg_step(s: u32) -> u32 {
    u32_specs::wrapping_add(u32_specs::wrapping_mul(s, LCG_MUL), LCG_INC)
}

/// The state after `n` updates from `s`.
pub open spec fn lcg_iter(s: u32, n: nat) -> u32
    decreases n,
{
    if n == 0 {
        s
    } else {
        lcg_step(lcg_iter(s, (n - 1) as nat))
    }
}

/// `a` updates followed by `b` more are `a + b` updates.
pub proof fn lemma_lcg_iter_add(s: u32, a: nat, b: nat)
    ensures
        lcg_iter(lcg_iter(s, a), b) == lcg_iter(s, a + b),
    decreases b,
{
    if b > 0 {
        lemma_lcg_iter_add(s, a, (b - 1) as nat);
    }
}

/// The most significant bit of a state.
pub open spec fn msb(s: u32) -> bool {
    s >= 0x8000_0000
}

/// The first `n` bits that a generator in state `s` hands out, in order.
pub open spec fn bool_stream(s: u32, n: nat) -> Seq<bool> {
    Seq::new(n, |k: int| msb(lcg_iter(s, (k + 1) as nat)))
}

/// The number whose bit `i` is `bits[i]` (least significant bit first).
pub open spec fn pack_bits(bits: Seq<bool>) -> nat
    decreases bits.len(),
{
    if bits.len() == 0 {
        0
    } else {
        pack_bits(bits.drop_last()) + if bits.last() {
            pow2((bits.len() - 1) as nat)
        } else {
            0
        }
    }
}

/// The byte that a generator in state `s` hands out from `next_u8`.
pub open spec fn byte_of(s: u32) -> nat {
    pack_bits(bool_stream(s, 8))
}

/// The first `n` bytes that a generator in state `s` hands out, in order.
pub open spec fn byte_stream(s: u32, n: nat) -> Seq<nat> {
    Seq::new(n, |k: int| byte_of(lcg_iter(s, (8 * k) as nat)))
}

/// Setting a bit above every set bit of `r` adds its weight.
proof fn lemma_or_fresh_bit(r: u8, i: u8)
    by (bit_vector)
    requires
        i < 8,
        r < (1u8 << i),
    ensures
        r | (1u8 << i) == r + (1u8 << i),
        r + (1u8 << i) < 256,
{
}

/// A 32-bit linear-congruential pseudo-random generator.
pub struct Rand {
    state: u32,
}

impl View for Rand {
    type V = u32;

    /// The generator's state word.
    closed spec fn view(&self) -> u32 {
        self.state
    }
}

impl Rand {
    /// A generator whose state is `seed`.
    pub fn new(seed: u32) -> (r: Rand)
        ensures
            r@ == seed,
    {
        Rand { state: seed }
    }

    /// Advances the state once and returns its most significant bit.
    pub fn next_bool(&mut self) -> (r: bool)
        ensures
            final(self)@ == lcg_step(old(self)@),
            r == msb(final(self)@),
    {
        self.state = self.state.wrapping_mul(LCG_MUL).wrapping_add(LCG_INC);
        proof {
            reveal(lcg_step);
        }
        let s = self.state;
        assert((s & 0x8000_0000u32 != 0) == (s >= 0x8000_0000u32)) by (bit_vector);
        self.state & 0x8000_0000u32 != 0
    }

    /// Draws eight bits and packs the i-th of them into bit i of a byte.
    pub fn next_u8(&mut self) -> (r: u8)
        ensures
            final(self)@ == lcg_iter(old(self)@, 8),
            r as nat == byte_of(old(self)@),
    {
        let ghost s0 = self.state;
        let mut result: u8 = 0;
        let mut i: u8 = 0;
        proof {
            lemma2_to64();
        }
        while i < 8
            invariant
                i <= 8,
                self.state == lcg_iter(s0, i as nat),
                result as nat == pack_bits(bool_stream(s0, 8).take(i as int)),
                result < pow2(i as nat),
            decreases 8 - i,
        {
            let b = self.next_bool();
            proof {
                lemma2_to64();
                lemma_u8_shl_is_mul(1u8, i);
                lemma_or_fresh_bit(result, i);
                assert(0u8 << i == 0u8) by (bit_vector);
                assert(result | 0u8 == result) by (bit_vector);
                assert(b == bool_stream(s0, 8)[i as int]);
                assert(bool_stream(s0, 8).take(i + 1).drop_last() =~= bool_stream(s0, 8).take(
                    i as int,
                ));
            }
            result = result | ((b as u8) << i);
            i = i + 1;
        }
        assert(bool_stream(s0, 8).take(8) =~= bool_stream(s0, 8));
        result
    }
}

/// After one draw the rest of a generator's bits are the bits of its new
/// state: the stream is a function of the state alone.
pub proof fn lemma_bool_stream_step(s: u32, n: nat)
    ensures
        bool_stream(s, n + 1) == seq![msb(lcg_step(s))] + bool_stream(lcg_step(s), n),
{
    assert forall|k: int| 0 <= k < n implies #[trigger] bool_stream(lcg_step(s), n)[k]
        == bool_stream(s, n + 1)[k + 1] by {
        lemma_lcg_iter_add(s, 1, (k + 1) as nat);
        assert(lcg_iter(s, 0) == s);
        assert(lcg_iter(s, 1) == lcg_step(s));
    }
    assert(lcg_iter(s, 0) == s);
    assert(lcg_iter(s, 1) == lcg_step(s));
    assert(bool_stream(s, n + 1) =~= seq![msb(lcg_step(s))] + bool_stream(lcg_step(s), n));
}

/// Two generators built with the same seed hand out the same bits and the
/// same bytes, however many are drawn.
pub proof fn lemma_same_seed_same_stream(a: Rand, b: Rand, n: nat)
    requires
        a@ == b@,
    ensures
        bool_stream(a@, n) == bool_stream(b@, n),
        byte_stream(a@, n) == byte_stream(b@, n),
{
}

/// Byte `k` of a generator's bytes packs bits `8k` to `8k + 7` of its bits,
/// the first of them into the least significant place: drawing a byte is
/// drawing eight bits.
pub proof fn lemma_bytes_pack_bits(s: u32, n: nat, k: int)
    requires
        0 <= k < n,
    ensures
        byte_stream(s, n)[k] == pack_bits(bool_stream(s, 8 * n).subrange(8 * k, 8 * k + 8)),
{
    let w = bool_stream(s, 8 * n).subrange(8 * k, 8 * k + 8);
    let t = lcg_iter(s, (8 * k) as nat);
    assert forall|i: int| 0 <= i < 8 implies #[trigger] bool_stream(t, 8)[i] == w[i] by {
        lemma_lcg_iter_add(s, (8 * k) as nat, (i + 1) as nat);
    }
    assert(bool_stream(t, 8) =~= w);
}

} // verus!
