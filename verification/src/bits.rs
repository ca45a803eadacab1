//! The MSB-first bit stream over byte buffers: the core-block writer and
//! reader.
//!
//! A bit sequence is modelled directly; bytes enter and leave through
//! `bits_of` and `bits_value`, which spell out the MSB-first convention.

use vstd::prelude::*;
use vstd::arithmetic::power2::pow2;

verus! {

/// The `n` low bits of `v`, most significant first.
pub open spec fn bits_of(v: nat, n: nat) -> Seq<bool>
    decreases n,
{
    if n == 0 {
        Seq::empty()
    } else {
        bits_of(v / 2, (n - 1) as nat).push(v % 2 == 1)
    }
}

/// The value a bit sequence denotes, most significant bit first.
pub open spec fn bits_value(s: Seq<bool>) -> nat
    decreases s.len(),
{
    if s.len() == 0 {
        0
    } else {
        bits_value(s.drop_last()) * 2 + if s.last() {
            1nat
        } else {
            0nat
        }
    }
}

/// A bit value fits in its width.
pub proof fn lemma_bits_value_bound(s: Seq<bool>)
    ensures
        bits_value(s) < pow2(s.len() as nat),
    decreases s.len(),
{
    if s.len() == 0 {
        assert(pow2(0) == 1) by {
            vstd::arithmetic::power2::lemma2_to64();
        }
    } else {
        lemma_bits_value_bound(s.drop_last());
        assert(pow2(s.len() as nat) == 2 * pow2((s.len() - 1) as nat)) by {
            vstd::arithmetic::power2::lemma_pow2_unfold(s.len() as nat);
        }
    }
}

/// Reading back the bits of a value yields the value.
pub proof fn lemma_bits_round_trip(v: nat, n: nat)
    requires
        v < pow2(n),
    ensures
        bits_value(bits_of(v, n)) == v,
    decreases n,
{
    if n == 0 {
        assert(pow2(0) == 1) by {
            vstd::arithmetic::power2::lemma2_to64();
        }
    } else {
        assert(pow2(n) == 2 * pow2((n - 1) as nat)) by {
            vstd::arithmetic::power2::lemma_pow2_unfold(n);
        }
        lemma_bits_round_trip(v / 2, (n - 1) as nat);
        assert(bits_of(v, n).drop_last() =~= bits_of(v / 2, (n - 1) as nat));
    }
}

/// Accumulates bits onto `bits`, most significant of `v`'s `n` low bits
/// first.
fn push_bits_of(bits: &mut Vec<bool>, v: u32, n: usize)
    requires
        n <= 32,
        (v as nat) < pow2(n as nat),
    ensures
        final(bits)@ == old(bits)@ + bits_of(v as nat, n as nat),
    decreases n,
{
    if n == 0 {
        proof {
            assert(bits@ =~= old(bits)@ + bits_of(v as nat, 0));
        }
    } else {
        proof {
            assert(pow2(n as nat) == 2 * pow2((n - 1) as nat)) by {
                vstd::arithmetic::power2::lemma_pow2_unfold(n as nat);
            }
        }
        push_bits_of(bits, v / 2, n - 1);
        bits.push(v % 2 == 1);
        proof {
            assert(bits@ =~= old(bits)@ + bits_of(v as nat, n as nat));
        }
    }
}

/// The MSB-first bit writer over an in-memory sink.
#[derive(Debug)]
pub struct BitWriter {
    /// Every bit written so far, in order.
    pub bits: Vec<bool>,
}

impl BitWriter {
    /// An empty bit stream.
    pub fn new() -> (w: BitWriter)
        ensures
            w.bits@ == Seq::<bool>::empty(),
    {
        BitWriter { bits: Vec::new() }
    }

    /// Appends the `len` low bits of `value`, most significant first.
    pub fn write_bits(&mut self, value: u32, len: usize)
        requires
            len <= 32,
            (value as nat) < pow2(len as nat),
        ensures
            final(self).bits@ == old(self).bits@ + bits_of(value as nat, len as nat),
    {
        push_bits_of(&mut self.bits, value, len);
    }

    /// Closes the stream: pads with zero bits to a byte boundary and packs,
    /// eight bits to a byte, most significant first.
    #[verifier::loop_isolation(false)]
    pub fn finish(self) -> (out: Vec<u8>)
        ensures
            ({
                let padding = (8 - self.bits@.len() % 8) % 8;
                let padded = self.bits@ + Seq::new(padding as nat, |i: int| false);
                &&& out@.len() * 8 == padded.len()
                &&& forall|k: int|
                    0 <= k < out@.len() ==> (#[trigger] out@[k]) as nat == bits_value(
                        padded.subrange(8 * k, 8 * k + 8),
                    )
            }),
    {
        let mut bits = self.bits;
        let ghost orig = bits@;
        let pad = (8 - bits.len() % 8) % 8;
        let mut p: usize = 0;
        while p < pad
            invariant
                p <= pad,
                pad < 8,
                bits@ == orig + Seq::new(p as nat, |i: int| false),
            decreases pad - p,
        {
            bits.push(false);
            proof {
                assert(bits@ =~= orig + Seq::new((p + 1) as nat, |i: int| false));
            }
            p = p + 1;
        }
        proof {
            assert(bits@.len() % 8 == 0);
        }

        let ghost padded = bits@;
        let mut out: Vec<u8> = Vec::new();
        let mut k: usize = 0;
        let n_bits = bits.len();
        let total = n_bits / 8;
        while k < total
            invariant
                k <= total,
                total * 8 == padded.len(),
                bits@ == padded,
                out@.len() == k,
                forall|q: int|
                    0 <= q < k ==> (#[trigger] out@[q]) as nat == bits_value(
                        padded.subrange(8 * q, 8 * q + 8),
                    ),
            decreases total - k,
        {
            let mut acc: u32 = 0;
            let mut j: usize = 0;
            while j < 8
                invariant
                    j <= 8,
                    k < total,
                    total * 8 == padded.len(),
                    bits@ == padded,
                    (acc as nat) == bits_value(padded.subrange(8 * k as int, 8 * k + j as int)),
                    acc < 256,
                decreases 8 - j,
            {
                proof {
                    lemma_bits_value_bound(padded.subrange(8 * k as int, 8 * k + j as int));
                    assert(pow2(padded.subrange(8 * k as int, 8 * k + j as int).len() as nat)
                        <= pow2(7)) by {
                        if padded.subrange(8 * k as int, 8 * k + j as int).len() < 7 {
                            vstd::arithmetic::power2::lemma_pow2_strictly_increases(
                                padded.subrange(8 * k as int, 8 * k + j as int).len() as nat,
                                7,
                            );
                        }
                    }
                    assert(pow2(7) == 128) by {
                        vstd::arithmetic::power2::lemma2_to64();
                    }
                    assert(padded.subrange(8 * k as int, 8 * k + (j + 1) as int).drop_last()
                        =~= padded.subrange(8 * k as int, 8 * k + j as int));
                }
                let bit = bits[8 * k + j];
                acc = acc * 2 + if bit {
                    1
                } else {
                    0
                };
                j = j + 1;
            }
            out.push(acc as u8);
            k = k + 1;
        }
        out
    }
}

/// The MSB-first bit reader over a byte buffer.
#[derive(Debug)]
pub struct BitReader {
    /// The unpacked bit stream.
    pub bits: Vec<bool>,
    /// How many bits have been consumed.
    pub pos: usize,
}

/// The bit stream a byte buffer denotes, eight MSB-first bits per byte.
pub open spec fn bytes_bits(s: Seq<u8>) -> Seq<bool>
    decreases s.len(),
{
    if s.len() == 0 {
        Seq::empty()
    } else {
        bytes_bits(s.drop_last()) + bits_of(s.last() as nat, 8)
    }
}

impl BitReader {
    /// Opens a bit stream over `src`.
    #[verifier::loop_isolation(false)]
    pub fn new(src: &Vec<u8>) -> (r: BitReader)
        ensures
            r.bits@ == bytes_bits(src@),
            r.pos == 0,
    {
        let mut bits: Vec<bool> = Vec::new();
        let mut i: usize = 0;
        while i < src.len()
            invariant
                i <= src@.len(),
                bits@ == bytes_bits(src@.take(i as int)),
            decreases src@.len() - i,
        {
            proof {
                assert((src@[i as int] as nat) < pow2(8)) by {
                    vstd::arithmetic::power2::lemma2_to64();
                }
            }
            push_bits_of(&mut bits, src[i] as u32, 8);
            proof {
                assert(src@.take(i + 1 as int).drop_last() =~= src@.take(i as int));
            }
            i = i + 1;
        }
        proof {
            assert(src@.take(src@.len() as int) =~= src@);
        }
        BitReader { bits, pos: 0 }
    }

    /// How many bits are left.
    pub fn remaining(&self) -> (n: usize)
        requires
            self.pos <= self.bits@.len(),
        ensures
            n == self.bits@.len() - self.pos,
    {
        self.bits.len() - self.pos
    }

    /// Reads the next `len` bits as a value, most significant first.
    #[verifier::loop_isolation(false)]
    pub fn read_bits(&mut self, len: usize) -> (value: u32)
        requires
            len <= 32,
            old(self).pos + len <= old(self).bits@.len(),
        ensures
            final(self).bits@ == old(self).bits@,
            final(self).pos == old(self).pos + len,
            value as nat == bits_value(
                old(self).bits@.subrange(old(self).pos as int, old(self).pos + len as int),
            ),
    {
        let n_bits = self.bits.len();
        let ghost start = self.pos as int;
        proof {
            vstd::arithmetic::power2::lemma2_to64();
            vstd::arithmetic::power2::lemma2_to64_rest();
        }
        let mut acc: u32 = 0;
        let mut j: usize = 0;
        while j < len
            invariant
                j <= len <= 32,
                self.bits@ == old(self).bits@,
                self.pos == old(self).pos + j,
                self.pos <= self.bits@.len(),
                start == old(self).pos as int,
                old(self).pos + len <= self.bits@.len(),
                (acc as nat) == bits_value(self.bits@.subrange(start, start + j as int)),
                (acc as nat) < pow2(j as nat),
            decreases len - j,
        {
            proof {
                assert(pow2((j + 1) as nat) == 2 * pow2(j as nat)) by {
                    vstd::arithmetic::power2::lemma_pow2_unfold((j + 1) as nat);
                }
                if j + 1 < 32 {
                    vstd::arithmetic::power2::lemma_pow2_strictly_increases((j + 1) as nat, 32);
                }
                assert(self.bits@.subrange(start, start + (j + 1) as int).drop_last()
                    =~= self.bits@.subrange(start, start + j as int));
            }
            let bit = self.bits[self.pos];
            acc = acc * 2 + if bit {
                1
            } else {
                0
            };
            self.pos = self.pos + 1;
            j = j + 1;
        }
        acc
    }
}


/// The number of binary digits of a value; zero for zero.
pub open spec fn bit_len(n: nat) -> nat
    decreases n,
{
    if n == 0 {
        0
    } else {
        (1 + bit_len(n / 2)) as nat
    }
}

/// A value sits between the powers of two its digit count names.
pub proof fn lemma_bit_len(n: nat)
    ensures
        n < pow2(bit_len(n)),
        n >= 1 ==> pow2((bit_len(n) - 1) as nat) <= n,
    decreases n,
{
    vstd::arithmetic::power2::lemma2_to64();
    if n > 0 {
        lemma_bit_len(n / 2);
        assert(pow2(bit_len(n)) == 2 * pow2((bit_len(n) - 1) as nat)) by {
            vstd::arithmetic::power2::lemma_pow2_unfold(bit_len(n));
        }
        if n / 2 >= 1 {
            assert(pow2((bit_len(n) - 1) as nat) == 2 * pow2((bit_len(n) - 2) as nat)) by {
                vstd::arithmetic::power2::lemma_pow2_unfold((bit_len(n) - 1) as nat);
            }
        }
    }
}

/// Powers of two do not decrease.
pub proof fn lemma_pow2_le(a: nat, b: nat)
    requires
        a <= b,
    ensures
        pow2(a) <= pow2(b),
{
    if a < b {
        vstd::arithmetic::power2::lemma_pow2_strictly_increases(a, b);
    }
}

/// A value below a power of two has at most that many digits.
pub proof fn lemma_bit_len_le(n: nat, k: nat)
    requires
        n < pow2(k),
    ensures
        bit_len(n) <= k,
{
    lemma_bit_len(n);
    if bit_len(n) > k {
        lemma_pow2_le(k, (bit_len(n) - 1) as nat);
    }
}

/// `q` one bits, then a zero: the unary form of `q`.
pub open spec fn unary_bits(q: nat) -> Seq<bool> {
    Seq::new(q, |i: int| true).push(false)
}

/// The Elias gamma form of `v >= 1`: the digit count less one in leading
/// zeros, then the value's binary digits.
pub open spec fn gamma_bits(v: nat) -> Seq<bool> {
    bits_of(0, (bit_len(v) - 1) as nat) + bits_of(v, bit_len(v))
}

/// The Golomb form of `v` with modulus `m >= 1`: the quotient in unary,
/// then the remainder in truncated binary over `bit_len(m - 1)` digits.
/// With a power-of-two modulus this is Golomb-Rice: the remainder always
/// takes exactly `log2(m)` digits.
pub open spec fn golomb_bits(v: nat, m: nat) -> Seq<bool> {
    let q = v / m;
    let r = v % m;
    let b = bit_len((m - 1) as nat);
    let cutoff = (pow2(b) - m) as nat;
    unary_bits(q) + if r < cutoff {
        bits_of(r, (b - 1) as nat)
    } else {
        bits_of((r + cutoff) as nat, b)
    }
}

/// The subexponential form of `v` with parameter `k`: a value under `2^k`
/// carries `k` digits after a single zero; a larger value carries a unary
/// prefix giving its digit count over `k`, then its digits below the
/// leading one.
pub open spec fn subexp_bits(v: nat, k: nat) -> Seq<bool> {
    if v < pow2(k) {
        seq![false] + bits_of(v, k)
    } else {
        let b = (bit_len(v) - 1) as nat;
        unary_bits((b - k + 1) as nat) + bits_of((v - pow2(b)) as nat, b)
    }
}

/// The number of binary digits of a value, executably.
pub fn bit_length(v: u32) -> (n: usize)
    ensures
        n == bit_len(v as nat),
        n <= 32,
    decreases v,
{
    proof {
        vstd::arithmetic::power2::lemma2_to64();
        lemma_bit_len_le(v as nat, 32);
    }
    if v == 0 {
        0
    } else {
        1 + bit_length(v / 2)
    }
}

impl BitWriter {
    /// Appends the unary form of `q`: `q` one bits, then a zero.
    #[verifier::loop_isolation(false)]
    pub fn write_unary(&mut self, q: u32)
        ensures
            final(self).bits@ == old(self).bits@ + unary_bits(q as nat),
    {
        proof {
            vstd::arithmetic::power2::lemma2_to64();
        }
        let mut i: u32 = 0;
        while i < q
            invariant
                i <= q,
                self.bits@ == old(self).bits@ + Seq::new(i as nat, |j: int| true),
            decreases q - i,
        {
            self.write_bits(1, 1);
            proof {
                assert(bits_of(0, 0) =~= Seq::<bool>::empty());
                assert(bits_of(1, 1) =~= seq![true]);
                assert(self.bits@ =~= old(self).bits@ + Seq::new((i + 1) as nat, |j: int| true));
            }
            i = i + 1;
        }
        self.write_bits(0, 1);
        proof {
            assert(bits_of(0, 0) =~= Seq::<bool>::empty());
            assert(bits_of(0, 1) =~= seq![false]);
            assert(self.bits@ =~= old(self).bits@ + unary_bits(q as nat));
        }
    }

    /// Appends the Elias gamma form of `v >= 1`.
    pub fn write_gamma(&mut self, v: u32)
        requires
            v >= 1,
        ensures
            final(self).bits@ == old(self).bits@ + gamma_bits(v as nat),
    {
        proof {
            lemma_bit_len(v as nat);
            vstd::arithmetic::power2::lemma2_to64();
            vstd::arithmetic::power2::lemma2_to64_rest();
            lemma_bit_len_le(v as nat, 32);
            vstd::arithmetic::power2::lemma_pow2_pos((bit_len(v as nat) - 1) as nat);
        }
        let n = bit_length(v);
        self.write_bits(0, n - 1);
        self.write_bits(v, n);
        proof {
            assert(self.bits@ =~= old(self).bits@ + gamma_bits(v as nat));
        }
    }

    /// Appends the Golomb form of `v` with modulus `m >= 1`.
    pub fn write_golomb(&mut self, v: u32, m: u32)
        requires
            m >= 1,
        ensures
            final(self).bits@ == old(self).bits@ + golomb_bits(v as nat, m as nat),
    {
        let q = v / m;
        let r = v % m;
        proof {
            lemma_bit_len((m - 1) as nat);
            vstd::arithmetic::power2::lemma2_to64();
            vstd::arithmetic::power2::lemma2_to64_rest();
            lemma_bit_len_le((m - 1) as nat, 32);
        }
        let b = bit_length(m - 1);
        let ghost bn = bit_len((m - 1) as nat);
        proof {
            if b > 0 {
                assert(pow2(bn) == 2 * pow2((bn - 1) as nat)) by {
                    vstd::arithmetic::power2::lemma_pow2_unfold(bn);
                }
            }
        }
        let cutoff = pow2_u64(b) - (m as u64);
        self.write_unary(q);
        if (r as u64) < cutoff {
            self.write_bits(r, b - 1);
        } else {
            let coded = (r as u64) + cutoff;
            self.write_bits(coded as u32, b);
        }
        proof {
            assert(self.bits@ =~= old(self).bits@ + golomb_bits(v as nat, m as nat));
        }
    }

    /// Appends the subexponential form of `v` with parameter `k <= 31`.
    pub fn write_subexp(&mut self, v: u32, k: u32)
        requires
            k <= 31,
        ensures
            final(self).bits@ == old(self).bits@ + subexp_bits(v as nat, k as nat),
    {
        proof {
            vstd::arithmetic::power2::lemma2_to64();
            vstd::arithmetic::power2::lemma2_to64_rest();
        }
        let threshold = pow2_u64(k as usize);
        if (v as u64) < threshold {
            self.write_bits(0, 1);
            self.write_bits(v, k as usize);
            proof {
                assert(bits_of(0, 0) =~= Seq::<bool>::empty());
                assert(bits_of(0, 1) =~= seq![false]);
                assert(seq![false] + bits_of(v as nat, k as nat) =~= bits_of(0, 1) + bits_of(
                    v as nat,
                    k as nat,
                ));
                assert(self.bits@ =~= old(self).bits@ + subexp_bits(v as nat, k as nat));
            }
        } else {
            proof {
                lemma_bit_len(v as nat);
                lemma_bit_len_le(v as nat, 32);
                lemma_pow2_le(k as nat, (bit_len(v as nat) - 1) as nat);
            }
            let n = bit_length(v);
            let b = n - 1;
            proof {
                assert(pow2((b + 1) as nat) == 2 * pow2(b as nat)) by {
                    vstd::arithmetic::power2::lemma_pow2_unfold((b + 1) as nat);
                }
                if bit_len(v as nat) <= k as nat {
                    lemma_pow2_le(bit_len(v as nat), k as nat);
                }
            }
            let u = (b as u32) - k + 1;
            let top = pow2_u64(b);
            let low = (v as u64) - top;
            self.write_unary(u);
            self.write_bits(low as u32, b);
            proof {
                assert(self.bits@ =~= old(self).bits@ + subexp_bits(v as nat, k as nat));
            }
        }
    }
}

/// A small power of two, executably.
pub fn pow2_u64(k: usize) -> (r: u64)
    requires
        k <= 63,
    ensures
        r as nat == pow2(k as nat),
{
    proof {
        vstd::arithmetic::power2::lemma2_to64();
        vstd::arithmetic::power2::lemma2_to64_rest();
    }
    let mut r: u64 = 1;
    let mut i: usize = 0;
    while i < k
        invariant
            i <= k <= 63,
            r as nat == pow2(i as nat),
        decreases k - i,
    {
        proof {
            lemma_pow2_le((i + 1) as nat, 63);
            assert(pow2((i + 1) as nat) == 2 * pow2(i as nat)) by {
                vstd::arithmetic::power2::lemma_pow2_unfold((i + 1) as nat);
            }
            assert(pow2(63) < 0x1_0000_0000_0000_0000) by {
                vstd::arithmetic::power2::lemma2_to64_rest();
            }
        }
        r = r * 2;
        i = i + 1;
    }
    r
}

} // verus!
