//! The order-0 adaptive frequency model of the arithmetic block codec.
//!
//! The model keeps one frequency per symbol. Decoding one symbol selects the
//! slot whose cumulative-frequency window contains the coder's frequency,
//! bumps that slot, renormalizes when the total grows past its cap, and then
//! lets a more frequent symbol bubble one slot forward. The total always
//! equals the sum of the frequencies, every frequency stays at least one,
//! and the symbol list stays a permutation of the initial alphabet.

use vstd::prelude::*;
use vstd::seq_lib::lemma_multiset_commutative;

verus! {

/// The cap on `total_freq`; one step past it the model renormalizes.
pub const MAX_TOTAL_FREQ: u32 = 0xffef;

/// How much a decoded symbol's frequency grows.
pub const FREQ_STEP: u32 = 16;

/// The sum of a frequency table.
pub open spec fn sum_freqs(s: Seq<u32>) -> int
    decreases s.len(),
{
    if s.len() == 0 {
        0
    } else {
        sum_freqs(s.drop_last()) + s.last()
    }
}

/// The sum of the first `x` entries of a frequency table.
pub open spec fn cum_freq(s: Seq<u32>, x: int) -> int
    decreases x,
{
    if x <= 0 {
        0
    } else {
        cum_freq(s, x - 1) + s[x - 1]
    }
}

/// Every frequency halved upward: `f` becomes `f - f / 2`, which keeps a
/// frequency of one at one.
pub open spec fn halved(s: Seq<u32>) -> Seq<u32> {
    s.map_values(|f: u32| (f - f / 2) as u32)
}

proof fn lemma_cum_drop_last(s: Seq<u32>, x: int)
    requires
        0 <= x < s.len(),
    ensures
        cum_freq(s.drop_last(), x) == cum_freq(s, x),
    decreases x,
{
    if x > 0 {
        lemma_cum_drop_last(s, x - 1);
    }
}

/// The whole-prefix cumulative frequency is the sum.
pub proof fn lemma_cum_all(s: Seq<u32>)
    ensures
        cum_freq(s, s.len() as int) == sum_freqs(s),
    decreases s.len(),
{
    if s.len() > 0 {
        lemma_cum_all(s.drop_last());
        lemma_cum_drop_last(s, s.len() - 1);
    }
}

/// Cumulative frequencies grow with the prefix length.
pub proof fn lemma_cum_mono(s: Seq<u32>, a: int, b: int)
    requires
        0 <= a <= b <= s.len(),
    ensures
        cum_freq(s, a) <= cum_freq(s, b),
    decreases b - a,
{
    if a < b {
        lemma_cum_mono(s, a, b - 1);
    }
}

proof fn lemma_sum_update(s: Seq<u32>, x: int, v: u32)
    requires
        0 <= x < s.len(),
    ensures
        sum_freqs(s.update(x, v)) == sum_freqs(s) - s[x] + v,
    decreases s.len(),
{
    if x == s.len() - 1 {
        assert(s.update(x, v).drop_last() =~= s.drop_last());
    } else {
        assert(s.update(x, v).drop_last() =~= s.drop_last().update(x, v));
        lemma_sum_update(s.drop_last(), x, v);
    }
}

proof fn lemma_sum_take_le(s: Seq<u32>, i: int)
    requires
        0 <= i <= s.len(),
    ensures
        sum_freqs(s.take(i)) <= sum_freqs(s),
        sum_freqs(s) >= 0,
    decreases s.len(),
{
    if s.len() == 0 {
    } else if i == s.len() {
        assert(s.take(i) =~= s);
        lemma_sum_take_le(s.drop_last(), s.len() - 1);
    } else {
        assert(s.take(i) =~= s.drop_last().take(i));
        lemma_sum_take_le(s.drop_last(), i);
    }
}

/// Index selection: the slot whose cumulative window contains `f`.
pub open spec fn decode_index(s: Seq<u32>, f: int) -> int
    decreases s.len(),
{
    if s.len() == 0 {
        0
    } else if f < s[0] {
        0
    } else {
        1 + decode_index(s.skip(1), f - s[0])
    }
}

proof fn lemma_cum_skip1(s: Seq<u32>, k: int)
    requires
        s.len() >= 1,
        0 <= k <= s.len() - 1,
    ensures
        cum_freq(s.skip(1), k) == cum_freq(s, k + 1) - s[0],
    decreases k,
{
    assert(cum_freq(s.skip(1), 0) == 0);
    assert(cum_freq(s, 0) == 0);
    if k > 0 {
        lemma_cum_skip1(s, k - 1);
        assert(s.skip(1)[k - 1] == s[k]);
    }
}

/// The scan's exit window determines `decode_index` exactly.
proof fn lemma_decode_index_unique(s: Seq<u32>, f: int, x: int)
    requires
        0 <= x < s.len(),
        cum_freq(s, x) <= f < cum_freq(s, x) + s[x],
    ensures
        decode_index(s, f) == x,
    decreases x,
{
    if x == 0 {
    } else {
        lemma_cum_mono(s, 1, x);
        lemma_cum_skip1(s, x - 1);
        lemma_decode_index_unique(s.skip(1), f - s[0], x - 1);
    }
}

proof fn lemma_halved_sum(s: Seq<u32>)
    ensures
        2 * sum_freqs(halved(s)) <= sum_freqs(s) + s.len(),
    decreases s.len(),
{
    if s.len() > 0 {
        assert(halved(s).drop_last() =~= halved(s.drop_last()));
        lemma_halved_sum(s.drop_last());
    }
}

/// Swapping two adjacent entries leaves a sequence's multiset unchanged.
proof fn lemma_swap_adjacent_multiset(s: Seq<u8>, x: int)
    requires
        1 <= x < s.len(),
    ensures
        s.update(x, s[x - 1]).update(x - 1, s[x]).to_multiset() == s.to_multiset(),
{
    broadcast use vstd::seq_lib::group_to_multiset_ensures;
    broadcast use vstd::multiset::group_multiset_axioms;

    let t = s.update(x, s[x - 1]).update(x - 1, s[x]);
    let a = s.take(x - 1);
    let b = s.skip(x + 1);
    let mid_s = seq![s[x - 1], s[x]];
    let mid_t = seq![s[x], s[x - 1]];
    assert(s =~= a + mid_s + b);
    assert(t =~= a + mid_t + b);
    lemma_multiset_commutative(a + mid_s, b);
    lemma_multiset_commutative(a, mid_s);
    lemma_multiset_commutative(a + mid_t, b);
    lemma_multiset_commutative(a, mid_t);
    assert(mid_s =~= Seq::<u8>::empty().push(s[x - 1]).push(s[x]));
    assert(mid_t =~= Seq::<u8>::empty().push(s[x]).push(s[x - 1]));
    assert(mid_s.to_multiset() =~= mid_t.to_multiset());
    assert(t.to_multiset() =~= s.to_multiset());
}

/// The order-0 adaptive model: a symbol table, one frequency per symbol,
/// and their running total.
#[derive(Clone, Debug)]
pub struct Model {
    /// The sum of `frequencies`.
    pub total_freq: u32,
    /// The symbol each slot currently decodes to.
    pub symbols: Vec<u8>,
    /// The adaptive frequency of each slot.
    pub frequencies: Vec<u32>,
}

impl Model {
    /// The model's invariant: parallel tables of up to 256 symbols, every
    /// frequency at least one, and the total equal to their sum, capped so
    /// one more step cannot overflow.
    pub open spec fn wf(&self) -> bool {
        &&& self.symbols@.len() == self.frequencies@.len()
        &&& 1 <= self.symbols@.len() <= 256
        &&& (forall|i: int| 0 <= i < self.frequencies@.len() ==> 1 <= #[trigger] self.frequencies@[i])
        &&& self.total_freq as int == sum_freqs(self.frequencies@)
        &&& self.total_freq <= MAX_TOTAL_FREQ
    }

    /// A fresh model over the alphabet `0..=max_sym`, every frequency one.
    #[verifier::loop_isolation(false)]
    pub fn new(max_sym: u8) -> (model: Model)
        ensures
            model.wf(),
            model.symbols@ == Seq::new(max_sym as nat + 1, |i: int| i as u8),
            model.frequencies@ == Seq::new(max_sym as nat + 1, |i: int| 1u32),
            model.total_freq == max_sym as u32 + 1,
    {
        let num_sym: usize = max_sym as usize + 1;
        let mut symbols: Vec<u8> = Vec::new();
        let mut frequencies: Vec<u32> = Vec::new();

        let mut i: usize = 0;
        while i < num_sym
            invariant
                i <= num_sym,
                num_sym == max_sym as int + 1,
                symbols@.len() == i,
                frequencies@.len() == i,
                forall|k: int| 0 <= k < i ==> symbols@[k] == k as u8,
                forall|k: int| 0 <= k < i ==> frequencies@[k] == 1u32,
                sum_freqs(frequencies@) == i,
            decreases num_sym - i,
        {
            let ghost old_freqs = frequencies@;
            symbols.push(i as u8);
            frequencies.push(1);
            proof {
                assert(frequencies@.drop_last() =~= old_freqs);
            }
            i = i + 1;
        }

        let model = Model { total_freq: max_sym as u32 + 1, symbols, frequencies };
        proof {
            assert(model.symbols@ =~= Seq::new(max_sym as nat + 1, |i: int| i as u8));
            assert(model.frequencies@ =~= Seq::new(max_sym as nat + 1, |i: int| 1u32));
        }
        model
    }

    /// Halves every frequency upward and recomputes the total. Called when
    /// the total passes [`MAX_TOTAL_FREQ`]; afterwards the total is back
    /// under the cap.
    fn renormalize(&mut self)
        requires
            old(self).symbols@.len() == old(self).frequencies@.len(),
            1 <= old(self).symbols@.len() <= 256,
            forall|i: int|
                0 <= i < old(self).frequencies@.len() ==> 1 <= #[trigger] old(
                    self,
                ).frequencies@[i],
            sum_freqs(old(self).frequencies@) <= 0x1_0000,
        ensures
            final(self).symbols@ == old(self).symbols@,
            final(self).frequencies@ == halved(old(self).frequencies@),
            final(self).total_freq as int == sum_freqs(final(self).frequencies@),
            final(self).total_freq <= MAX_TOTAL_FREQ,
    {
        let ghost orig = self.frequencies@;
        let mut total_freq: u32 = 0;
        let n = self.frequencies.len();

        let mut i: usize = 0;
        while i < n
            invariant
                i <= n,
                n == orig.len(),
                1 <= n <= 256,
                self.symbols@ == old(self).symbols@,
                self.frequencies@.len() == n,
                forall|k: int| 0 <= k < i ==> self.frequencies@[k] == halved(orig)[k],
                forall|k: int| i <= k < n ==> self.frequencies@[k] == orig[k],
                forall|k: int| 0 <= k < n ==> 1 <= #[trigger] orig[k],
                sum_freqs(orig) <= 0x1_0000,
                total_freq as int == sum_freqs(halved(orig).take(i as int)),
                2 * (total_freq as int) <= sum_freqs(orig.take(i as int)) + i,
            decreases n - i,
        {
            let f = self.frequencies[i];
            let halved_f = f - f / 2;
            self.frequencies[i] = halved_f;
            proof {
                assert(halved(orig).take(i + 1 as int) =~= halved(orig).take(i as int).push(
                    (orig[i as int] - orig[i as int] / 2) as u32,
                ));
                assert(halved(orig).take(i + 1 as int).drop_last() =~= halved(orig).take(i as int));
                assert(orig.take(i + 1 as int) =~= orig.take(i as int).push(orig[i as int]));
                assert(orig.take(i + 1 as int).drop_last() =~= orig.take(i as int));
                lemma_sum_take_le(orig, i + 1);
            }
            total_freq = total_freq + halved_f;
            i = i + 1;
        }

        proof {
            assert(halved(orig).take(n as int) =~= halved(orig));
            assert(orig.take(n as int) =~= orig);
            assert(self.frequencies@ =~= halved(orig));
        }
        self.total_freq = total_freq;
    }

    /// Decodes one symbol step. `freq` is what the range coder handed back
    /// for the current total. Returns the symbol together with the
    /// cumulative frequency and the symbol frequency that the caller must
    /// pass on to the range coder's decode step, then updates the model:
    /// the slot's frequency grows, the table renormalizes when the total
    /// passes its cap, and a slot that outgrew its left neighbour is swapped
    /// one place forward. The symbol returned is the one selected before
    /// that swap.
    #[verifier::loop_isolation(false)]
    pub fn decode(&mut self, freq: u32) -> (res: (u8, u32, u32))
        requires
            old(self).wf(),
            freq < old(self).total_freq,
        ensures
            final(self).wf(),
            final(self).symbols@.to_multiset() == old(self).symbols@.to_multiset(),
            ({
                let s0 = old(self).frequencies@;
                let x = decode_index(s0, freq as int);
                let bumped = s0.update(x, (s0[x] + FREQ_STEP) as u32);
                let f2 = if sum_freqs(bumped) > MAX_TOTAL_FREQ as int {
                    halved(bumped)
                } else {
                    bumped
                };
                let swap = x > 0 && f2[x] > f2[x - 1];
                &&& 0 <= x < s0.len()
                &&& res.0 == old(self).symbols@[x]
                &&& res.1 as int == cum_freq(s0, x)
                &&& res.2 == s0[x]
                &&& final(self).symbols@ == if swap {
                    old(self).symbols@.update(x, old(self).symbols@[x - 1]).update(
                        x - 1,
                        old(self).symbols@[x],
                    )
                } else {
                    old(self).symbols@
                }
                &&& final(self).frequencies@ == if swap {
                    f2.update(x, f2[x - 1]).update(x - 1, f2[x])
                } else {
                    f2
                }
            }),
    {
        let ghost s0 = self.frequencies@;
        let n = self.frequencies.len();
        proof {
            lemma_cum_all(s0);
            assert forall|j: int| 0 <= j && j <= n as int implies cum_freq(s0, j) <= sum_freqs(
                s0,
            ) by {
                lemma_cum_mono(s0, j, n as int);
            }
        }

        let mut acc: u32 = 0;
        let mut x: usize = 0;
        while x < n && self.frequencies[x] <= freq - acc
            invariant
                0 <= x <= n,
                acc as int == cum_freq(s0, x as int),
                acc <= freq,
            decreases n - x,
        {
            proof {
                assert(cum_freq(s0, x + 1 as int) == cum_freq(s0, x as int) + s0[x as int]);
            }
            acc = acc + self.frequencies[x];
            x = x + 1;
        }
        proof {
            if x == n {
                assert(acc as int == sum_freqs(s0));
                assert(false);
            }
            lemma_decode_index_unique(s0, freq as int, x as int);
            assert(cum_freq(s0, x + 1 as int) == cum_freq(s0, x as int) + s0[x as int]);
        }

        let sym = self.symbols[x];
        let sym_freq = self.frequencies[x];

        self.frequencies[x] = sym_freq + FREQ_STEP;
        self.total_freq = self.total_freq + FREQ_STEP;
        proof {
            lemma_sum_update(s0, x as int, (s0[x as int] + FREQ_STEP) as u32);
        }

        if self.total_freq > MAX_TOTAL_FREQ {
            proof {
                lemma_halved_sum(self.frequencies@);
            }
            self.renormalize();
        }

        let ghost f2 = self.frequencies@;

        if x > 0 && self.frequencies[x] > self.frequencies[x - 1] {
            let fa = self.frequencies[x];
            let fb = self.frequencies[x - 1];
            self.frequencies[x] = fb;
            self.frequencies[x - 1] = fa;
            let sa = self.symbols[x];
            let sb = self.symbols[x - 1];
            self.symbols[x] = sb;
            self.symbols[x - 1] = sa;
            proof {
                lemma_sum_update(f2, x as int, f2[x - 1]);
                lemma_sum_update(f2.update(x as int, f2[x - 1]), x - 1 as int, f2[x as int]);
                lemma_swap_adjacent_multiset(old(self).symbols@, x as int);
            }
        }

        (sym, acc, sym_freq)
    }
}

} // verus!
