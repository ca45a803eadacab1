//! The substitution matrix and the histogram it is learned from.
//!
//! For every reference base the matrix ranks the four other bases by how
//! often each was observed substituted for it, ties broken by the canonical
//! base order A, C, G, T, N. Codes 0 to 3 then name the ranked bases, so
//! the most common substitution takes the fewest bits under a prefix code.

use vstd::prelude::*;

use crate::record::{Feature, Record, SubstitutionValue};

verus! {

/// A nucleotide as the substitution machinery sees it: N is a distinct
/// symbol.
#[derive(Clone, Copy, Debug, PartialEq, Eq, Structural)]
pub enum Base {
    /// Adenine.
    A,
    /// Cytosine.
    C,
    /// Guanine.
    G,
    /// Thymine.
    T,
    /// Any other or unknown base.
    N,
}

/// A base's rank in the canonical order A, C, G, T, N.
pub open spec fn base_idx(b: Base) -> int {
    match b {
        Base::A => 0,
        Base::C => 1,
        Base::G => 2,
        Base::T => 3,
        Base::N => 4,
    }
}

impl Base {
    /// This base's rank in the canonical order A, C, G, T, N.
    pub fn index(self) -> (i: usize)
        ensures
            i == base_idx(self),
    {
        match self {
            Base::A => 0,
            Base::C => 1,
            Base::G => 2,
            Base::T => 3,
            Base::N => 4,
        }
    }

    /// The base a canonical rank names.
    pub fn from_index(i: usize) -> (b: Base)
        requires
            i < 5,
        ensures
            base_idx(b) == i,
    {
        if i == 0 {
            Base::A
        } else if i == 1 {
            Base::C
        } else if i == 2 {
            Base::G
        } else if i == 3 {
            Base::T
        } else {
            Base::N
        }
    }
}

/// The four candidate read bases for a reference base: the canonical order
/// with the reference base itself removed.
pub open spec fn candidates(r: int) -> Seq<Base> {
    if r == 0 {
        seq![Base::C, Base::G, Base::T, Base::N]
    } else if r == 1 {
        seq![Base::A, Base::G, Base::T, Base::N]
    } else if r == 2 {
        seq![Base::A, Base::C, Base::T, Base::N]
    } else if r == 3 {
        seq![Base::A, Base::C, Base::G, Base::N]
    } else {
        seq![Base::A, Base::C, Base::G, Base::T]
    }
}

/// Counts of observed (reference base, read base) substitution pairs,
/// stored as a flat 5-by-5 table in canonical base order.
#[derive(Clone, Debug, PartialEq, Eq)]
pub struct Histogram {
    /// `counts[ref_rank * 5 + read_rank]` observations; the diagonal is
    /// never written.
    pub counts: Vec<u64>,
}

/// How often `read` was observed substituted for the reference base of
/// rank `r`.
pub open spec fn hist_count(counts: Seq<u64>, r: int, read: Base) -> u64 {
    counts[r * 5 + base_idx(read)]
}

/// The histogram's shape: one slot per ordered base pair.
pub open spec fn hist_wf(counts: Seq<u64>) -> bool {
    counts.len() == 25
}

impl Histogram {
    /// An empty histogram.
    pub fn new() -> (h: Histogram)
        ensures
            hist_wf(h.counts@),
            forall|i: int| 0 <= i < 25 ==> h.counts@[i] == 0,
    {
        let mut counts: Vec<u64> = Vec::new();
        let mut i: usize = 0;
        while i < 25
            invariant
                i <= 25,
                counts@.len() == i,
                forall|k: int| 0 <= k < i ==> counts@[k] == 0,
            decreases 25 - i,
        {
            counts.push(0);
            i = i + 1;
        }
        Histogram { counts }
    }

    /// Records one observation of `read_base` where the reference holds
    /// `reference_base`. The count saturates rather than wrap.
    pub fn hit(&mut self, reference_base: Base, read_base: Base)
        requires
            hist_wf(old(self).counts@),
        ensures
            hist_wf(final(self).counts@),
            ({
                let i = base_idx(reference_base) * 5 + base_idx(read_base);
                let c = old(self).counts@[i];
                final(self).counts@ == old(self).counts@.update(
                    i,
                    if c < u64::MAX {
                        (c + 1) as u64
                    } else {
                        c
                    },
                )
            }),
    {
        let i = reference_base.index() * 5 + read_base.index();
        let c = self.counts[i];
        if c < u64::MAX {
            self.counts[i] = c + 1;
        } else {
            proof {
                assert(self.counts@ =~= self.counts@.update(i as int, c));
            }
        }
    }
}

impl Default for Histogram {
    /// An empty histogram.
    fn default() -> (h: Histogram)
        ensures
            hist_wf(h.counts@),
            forall|i: int| 0 <= i < 25 ==> h.counts@[i] == 0,
    {
        Histogram::new()
    }
}

/// `x` ranks strictly before `y` for reference rank `r`: observed more
/// often, or equally often and earlier in the canonical order.
pub open spec fn ranks_before(counts: Seq<u64>, r: int, x: Base, y: Base) -> bool {
    ||| hist_count(counts, r, x) > hist_count(counts, r, y)
    ||| (hist_count(counts, r, x) == hist_count(counts, r, y) && base_idx(x) < base_idx(y))
}

/// The 5-by-4 substitution table: `substitutions[r * 4 + code]` is the read
/// base that `code` names under reference rank `r`.
#[derive(Clone, Debug, PartialEq, Eq)]
pub struct SubstitutionMatrix {
    /// The flat table, row by reference rank.
    pub substitutions: Vec<Base>,
}

impl SubstitutionMatrix {
    /// The table's shape: five rows of four codes, each row holding only
    /// bases other than its reference base, each exactly once.
    pub open spec fn wf(&self) -> bool {
        &&& self.substitutions@.len() == 20
        &&& forall|r: int, c: int|
            0 <= r < 5 && 0 <= c < 4 ==> candidates(r).contains(
                #[trigger] self.substitutions@[r * 4 + c],
            )
        &&& forall|r: int, i: int|
            0 <= r < 5 && 0 <= i < 4 ==> self.substitutions@.subrange(r * 4, r * 4 + 4).contains(
                #[trigger] candidates(r)[i],
            )
    }

    /// The read base a code names under a reference base.
    pub fn base_for(&self, reference_base: Base, code: u8) -> (b: Base)
        requires
            self.substitutions@.len() == 20,
            code < 4,
        ensures
            b == self.substitutions@[base_idx(reference_base) * 4 + code as int],
    {
        self.substitutions[reference_base.index() * 4 + code as usize]
    }

    /// The code that names `read_base` under `reference_base`, or `None`
    /// where the row does not hold it - in particular where the two bases
    /// are equal.
    pub fn find_code(&self, reference_base: Base, read_base: Base) -> (r: Option<u8>)
        requires
            self.substitutions@.len() == 20,
        ensures
            ({
                let row = base_idx(reference_base) * 4;
                match r {
                    Some(code) => code < 4 && self.substitutions@[row + code as int] == read_base
                        && (forall|c: int|
                        0 <= c < code ==> #[trigger] self.substitutions@[row + c] != read_base),
                    None => forall|c: int|
                        0 <= c < 4 ==> #[trigger] self.substitutions@[row + c] != read_base,
                }
            }),
    {
        let row = reference_base.index() * 4;
        let mut c: usize = 0;
        while c < 4
            invariant
                c <= 4,
                row == base_idx(reference_base) * 4,
                self.substitutions@.len() == 20,
                forall|k: int| 0 <= k < c ==> #[trigger] self.substitutions@[row + k]
                    != read_base,
            decreases 4 - c,
        {
            if self.substitutions[row + c] == read_base {
                return Some(c as u8);
            }
            c = c + 1;
        }
        None
    }
}

/// One row of the matrix: the four candidates for reference rank `r`,
/// sorted by descending observed count with canonical tie-breaks.
fn sort_row(counts: &Vec<u64>, r: usize) -> (row: (Base, Base, Base, Base))
    requires
        hist_wf(counts@),
        r < 5,
    ensures
        ranks_before(counts@, r as int, row.0, row.1),
        ranks_before(counts@, r as int, row.1, row.2),
        ranks_before(counts@, r as int, row.2, row.3),
        candidates(r as int).contains(row.0) && candidates(r as int).contains(row.1) && candidates(
            r as int,
        ).contains(row.2) && candidates(r as int).contains(row.3),
        forall|i: int|
            0 <= i < 4 ==> seq![row.0, row.1, row.2, row.3].contains(
                #[trigger] candidates(r as int)[i],
            ),
{
    let mut b0 = Base::from_index(if r == 0 {
        1
    } else {
        0
    });
    let mut b1 = Base::from_index(if r <= 1 {
        2
    } else {
        1
    });
    let mut b2 = Base::from_index(if r <= 2 {
        3
    } else {
        2
    });
    let mut b3 = Base::from_index(if r <= 3 {
        4
    } else {
        3
    });
    proof {
        assert(candidates(r as int)[0] == b0 && candidates(r as int)[1] == b1 && candidates(
            r as int,
        )[2] == b2 && candidates(r as int)[3] == b3);
    }

    let mut c0 = counts[r * 5 + b0.index()];
    let mut c1 = counts[r * 5 + b1.index()];
    let mut c2 = counts[r * 5 + b2.index()];
    let mut c3 = counts[r * 5 + b3.index()];

    // A five-comparator sorting network over the four candidates. A swap
    // fires when the later entry ranks strictly before the earlier one:
    // a higher count, or an equal count and an earlier canonical rank.
    if c1 > c0 || (c1 == c0 && b1.index() < b0.index()) {
        let (tb, tc) = (b0, c0);
        b0 = b1;
        c0 = c1;
        b1 = tb;
        c1 = tc;
    }
    if c3 > c2 || (c3 == c2 && b3.index() < b2.index()) {
        let (tb, tc) = (b2, c2);
        b2 = b3;
        c2 = c3;
        b3 = tb;
        c3 = tc;
    }
    if c2 > c0 || (c2 == c0 && b2.index() < b0.index()) {
        let (tb, tc) = (b0, c0);
        b0 = b2;
        c0 = c2;
        b2 = tb;
        c2 = tc;
    }
    if c3 > c1 || (c3 == c1 && b3.index() < b1.index()) {
        let (tb, tc) = (b1, c1);
        b1 = b3;
        c1 = c3;
        b3 = tb;
        c3 = tc;
    }
    if c2 > c1 || (c2 == c1 && b2.index() < b1.index()) {
        let (tb, tc) = (b1, c1);
        b1 = b2;
        c1 = c2;
        b2 = tb;
        c2 = tc;
    }

    (b0, b1, b2, b3)
}

impl SubstitutionMatrix {
    /// Builds the matrix from a histogram: per reference base, the four
    /// other bases ranked by descending count, ties broken canonically.
    pub fn from_histogram(histogram: &Histogram) -> (matrix: SubstitutionMatrix)
        requires
            hist_wf(histogram.counts@),
        ensures
            matrix.wf(),
            forall|r: int, a: int, b: int|
                0 <= r < 5 && 0 <= a < b < 4 ==> ranks_before(
                    histogram.counts@,
                    r,
                    #[trigger] matrix.substitutions@[r * 4 + a],
                    #[trigger] matrix.substitutions@[r * 4 + b],
                ),
    {
        let mut substitutions: Vec<Base> = Vec::new();
        let mut r: usize = 0;
        while r < 5
            invariant
                r <= 5,
                hist_wf(histogram.counts@),
                substitutions@.len() == r * 4,
                forall|q: int, c: int|
                    0 <= q < r && 0 <= c < 4 ==> candidates(q).contains(
                        #[trigger] substitutions@[q * 4 + c],
                    ),
                forall|q: int, i: int|
                    0 <= q < r && 0 <= i < 4 ==> substitutions@.subrange(q * 4, q * 4 + 4).contains(
                        #[trigger] candidates(q)[i],
                    ),
                forall|q: int, a: int, b: int|
                    0 <= q < r && 0 <= a < b < 4 ==> ranks_before(
                        histogram.counts@,
                        q,
                        #[trigger] substitutions@[q * 4 + a],
                        #[trigger] substitutions@[q * 4 + b],
                    ),
            decreases 5 - r,
        {
            let ghost before = substitutions@;
            let (b0, b1, b2, b3) = sort_row(&histogram.counts, r);
            substitutions.push(b0);
            substitutions.push(b1);
            substitutions.push(b2);
            substitutions.push(b3);
            proof {
                assert(substitutions@.subrange(r as int * 4, r as int * 4 + 4) =~= seq![
                    b0,
                    b1,
                    b2,
                    b3,
                ]);
                assert forall|q: int, i: int| 0 <= q < r && 0 <= i < 4 implies substitutions@
                    .subrange(q * 4, q * 4 + 4).contains(#[trigger] candidates(q)[i]) by {
                    assert(substitutions@.subrange(q * 4, q * 4 + 4) =~= before.subrange(
                        q * 4,
                        q * 4 + 4,
                    ));
                }
                // transitivity of the strict ranking inside the new row
                assert(ranks_before(histogram.counts@, r as int, b0, b2));
                assert(ranks_before(histogram.counts@, r as int, b0, b3));
                assert(ranks_before(histogram.counts@, r as int, b1, b3));
            }
            r = r + 1;
        }
        SubstitutionMatrix { substitutions }
    }
}


/// Learns a substitution matrix from the substitution features of a run of
/// records.
#[derive(Debug)]
pub struct Builder {
    /// The histogram of observed substitution pairs so far.
    pub histogram: Histogram,
}

/// One observation folded into a histogram: substitution features with a
/// base pair count, everything else is ignored.
pub open spec fn hist_step(counts: Seq<u64>, f: Feature) -> Seq<u64> {
    match f {
        Feature::Substitution(_, SubstitutionValue::Bases(reference_base, read_base)) => {
            let i = base_idx(reference_base) * 5 + base_idx(read_base);
            let c = counts[i];
            counts.update(
                i,
                if c < u64::MAX {
                    (c + 1) as u64
                } else {
                    c
                },
            )
        },
        _ => counts,
    }
}

/// A run of features folded into a histogram, in order.
pub open spec fn hist_after(counts: Seq<u64>, features: Seq<Feature>) -> Seq<u64>
    decreases features.len(),
{
    if features.len() == 0 {
        counts
    } else {
        hist_step(hist_after(counts, features.drop_last()), features.last())
    }
}

/// Folding features never changes the histogram's shape.
proof fn lemma_hist_after_wf(counts: Seq<u64>, features: Seq<Feature>)
    requires
        hist_wf(counts),
    ensures
        hist_wf(hist_after(counts, features)),
    decreases features.len(),
{
    if features.len() > 0 {
        lemma_hist_after_wf(counts, features.drop_last());
    }
}

impl Default for Builder {
    /// A builder over an empty histogram.
    fn default() -> (b: Builder)
        ensures
            hist_wf(b.histogram.counts@),
            forall|i: int| 0 <= i < 25 ==> b.histogram.counts@[i] == 0,
    {
        Builder { histogram: Histogram::new() }
    }
}

impl Builder {
    /// Counts every substitution feature of `record` into the histogram.
    /// On this side substitutions carry base pairs; a bare wire code holds
    /// no pair to count, so records carrying one are excluded.
    pub fn update(&mut self, record: &Record)
        requires
            hist_wf(old(self).histogram.counts@),
            forall|i: int|
                0 <= i < record.features@.len() ==> !(#[trigger] record.features@[i] matches
                Feature::Substitution(_, SubstitutionValue::Code(_))),
        ensures
            final(self).histogram.counts@ == hist_after(
                old(self).histogram.counts@,
                record.features@,
            ),
            hist_wf(final(self).histogram.counts@),
    {
        let ghost orig = self.histogram.counts@;
        let mut i: usize = 0;
        while i < record.features.len()
            invariant
                i <= record.features@.len(),
                hist_wf(self.histogram.counts@),
                self.histogram.counts@ == hist_after(orig, record.features@.take(i as int)),
            decreases record.features@.len() - i,
        {
            let ghost before = self.histogram.counts@;
            match &record.features[i] {
                Feature::Substitution(_, SubstitutionValue::Bases(reference_base, read_base)) => {
                    self.histogram.hit(*reference_base, *read_base);
                },
                _ => {},
            }
            proof {
                assert(record.features@.take(i + 1 as int).drop_last() =~= record.features@.take(
                    i as int,
                ));
                assert(record.features@.take(i + 1 as int).last() == record.features@[i as int]);
                assert(self.histogram.counts@ == hist_step(before, record.features@[i as int]));
            }
            i = i + 1;
        }
        proof {
            assert(record.features@.take(record.features@.len() as int) =~= record.features@);
        }
    }

    /// Builds the matrix: per reference base the four other bases ranked by
    /// descending observed count, ties broken canonically.
    pub fn build(self) -> (matrix: SubstitutionMatrix)
        requires
            hist_wf(self.histogram.counts@),
        ensures
            matrix.wf(),
            forall|r: int, a: int, b: int|
                0 <= r < 5 && 0 <= a < b < 4 ==> ranks_before(
                    self.histogram.counts@,
                    r,
                    #[trigger] matrix.substitutions@[r * 4 + a],
                    #[trigger] matrix.substitutions@[r * 4 + b],
                ),
    {
        SubstitutionMatrix::from_histogram(&self.histogram)
    }
}


/// The four candidates for reference rank `r`, executably.
pub fn candidates_of(r: usize) -> (c: (Base, Base, Base, Base))
    requires
        r < 5,
    ensures
        c.0 == candidates(r as int)[0],
        c.1 == candidates(r as int)[1],
        c.2 == candidates(r as int)[2],
        c.3 == candidates(r as int)[3],
{
    if r == 0 {
        (Base::C, Base::G, Base::T, Base::N)
    } else if r == 1 {
        (Base::A, Base::G, Base::T, Base::N)
    } else if r == 2 {
        (Base::A, Base::C, Base::T, Base::N)
    } else if r == 3 {
        (Base::A, Base::C, Base::G, Base::N)
    } else {
        (Base::A, Base::C, Base::G, Base::T)
    }
}

/// The first code in row `r` naming `b`, searching from `c`; 4 when the
/// row does not hold `b`.
pub open spec fn row_code(subs: Seq<Base>, r: int, b: Base, c: int) -> int
    decreases 4 - c,
{
    if c >= 4 {
        4
    } else if subs[r * 4 + c] == b {
        c
    } else {
        row_code(subs, r, b, c + 1)
    }
}

/// A base a row holds gets a code below four.
proof fn lemma_row_code_found(subs: Seq<Base>, r: int, b: Base, c: int)
    requires
        0 <= c <= 4,
        exists|i: int| c <= i < 4 && #[trigger] subs[r * 4 + i] == b,
    ensures
        c <= row_code(subs, r, b, c) <= 3,
    decreases 4 - c,
{
    if c < 4 && subs[r * 4 + c] != b {
        lemma_row_code_found(subs, r, b, c + 1);
    }
}

/// The five packed matrix bytes: per reference row, the codes of the four
/// canonical candidates, two bits each, high pair first.
pub open spec fn sm_wire(subs: Seq<Base>) -> Seq<u8> {
    Seq::new(
        5,
        |r: int|
            (row_code(subs, r, candidates(r)[0], 0) * 64 + row_code(subs, r, candidates(r)[1], 0)
                * 16 + row_code(subs, r, candidates(r)[2], 0) * 4 + row_code(
                subs,
                r,
                candidates(r)[3],
                0,
            )) as u8,
    )
}

impl SubstitutionMatrix {
    /// The first code in row `r` naming `b`; 4 when the row lacks it.
    pub(crate) fn code_in_row(&self, r: usize, b: Base, c: usize) -> (code: usize)
        requires
            self.substitutions@.len() == 20,
            r < 5,
            c <= 4,
        ensures
            code == row_code(self.substitutions@, r as int, b, c as int),
        decreases 4 - c,
    {
        if c >= 4 {
            4
        } else if self.substitutions[r * 4 + c] == b {
            c
        } else {
            self.code_in_row(r, b, c + 1)
        }
    }

    /// Packs the matrix into its five wire bytes.
    pub fn to_bytes(&self) -> (out: Vec<u8>)
        requires
            self.wf(),
        ensures
            out@ == sm_wire(self.substitutions@),
    {
        let mut out: Vec<u8> = Vec::new();
        let mut r: usize = 0;
        while r < 5
            invariant
                r <= 5,
                self.wf(),
                out@ == sm_wire(self.substitutions@).take(r as int),
            decreases 5 - r,
        {
            let cands = candidates_of(r);
            proof {
                let subs = self.substitutions@;
                assert forall|i: int| 0 <= i < 4 implies 0 <= #[trigger] row_code(
                    subs,
                    r as int,
                    candidates(r as int)[i],
                    0,
                ) <= 3 by {
                    assert(subs.subrange(r as int * 4, r as int * 4 + 4).contains(
                        candidates(r as int)[i],
                    ));
                    let w = choose|w: int|
                        0 <= w < 4 && #[trigger] subs.subrange(r as int * 4, r as int * 4 + 4)[w]
                            == candidates(r as int)[i];
                    assert(subs[r as int * 4 + w] == candidates(r as int)[i]);
                    lemma_row_code_found(subs, r as int, candidates(r as int)[i], 0);
                }
            }
            let c0 = self.code_in_row(r, cands.0, 0);
            let c1 = self.code_in_row(r, cands.1, 0);
            let c2 = self.code_in_row(r, cands.2, 0);
            let c3 = self.code_in_row(r, cands.3, 0);
            let byte = (c0 * 64 + c1 * 16 + c2 * 4 + c3) as u8;
            out.push(byte);
            proof {
                assert(out@ =~= sm_wire(self.substitutions@).take(r + 1 as int));
            }
            r = r + 1;
        }
        proof {
            assert(sm_wire(self.substitutions@).take(5) =~= sm_wire(self.substitutions@));
        }
        out
    }
}

/// One matrix row as five wire bits decode it: four two-bit codes assign
/// the four canonical candidates their slots; an unassigned slot keeps N.
pub open spec fn row_from_byte(r: int, b: u8) -> Seq<Base> {
    seq![Base::N, Base::N, Base::N, Base::N].update(
        (b / 64) as int % 4,
        candidates(r)[0],
    ).update((b / 16) as int % 4, candidates(r)[1]).update(
        (b / 4) as int % 4,
        candidates(r)[2],
    ).update(b as int % 4, candidates(r)[3])
}

/// The whole table five wire bytes decode to.
pub open spec fn matrix_from_bytes(bytes: Seq<u8>) -> Seq<Base> {
    row_from_byte(0, bytes[0]) + row_from_byte(1, bytes[1]) + row_from_byte(2, bytes[2])
        + row_from_byte(3, bytes[3]) + row_from_byte(4, bytes[4])
}

impl SubstitutionMatrix {
    /// Unpacks a matrix from its five wire bytes.
    #[verifier::rlimit(100)]
    pub fn from_bytes(bytes: [u8; 5]) -> (matrix: SubstitutionMatrix)
        ensures
            matrix.substitutions@ == matrix_from_bytes(bytes@),
            matrix.substitutions@.len() == 20,
    {
        let mut substitutions: Vec<Base> = Vec::new();
        let mut r: usize = 0;
        while r < 5
            invariant
                r <= 5,
                substitutions@.len() == 4 * r,
                forall|q: int|
                    0 <= q < r ==> substitutions@.subrange(q * 4, q * 4 + 4) =~= row_from_byte(
                        q,
                        bytes@[q],
                    ),
            decreases 5 - r,
        {
            let ghost before = substitutions@;
            let b = bytes[r];
            let cands = candidates_of(r);
            let mut row: Vec<Base> = Vec::new();
            row.push(Base::N);
            row.push(Base::N);
            row.push(Base::N);
            row.push(Base::N);
            let c0 = (b / 64) as usize % 4;
            let c1 = (b / 16) as usize % 4;
            let c2 = (b / 4) as usize % 4;
            let c3 = b as usize % 4;
            row[c0] = cands.0;
            row[c1] = cands.1;
            row[c2] = cands.2;
            row[c3] = cands.3;
            proof {
                assert(row@ =~= row_from_byte(r as int, b));
            }
            substitutions.push(row[0]);
            substitutions.push(row[1]);
            substitutions.push(row[2]);
            substitutions.push(row[3]);
            proof {
                assert forall|q: int| 0 <= q < r + 1 implies substitutions@.subrange(
                    q * 4,
                    q * 4 + 4,
                ) =~= row_from_byte(q, bytes@[q]) by {
                    if q < r {
                        assert(substitutions@.subrange(q * 4, q * 4 + 4) =~= before.subrange(
                            q * 4,
                            q * 4 + 4,
                        ));
                    } else {
                        assert(substitutions@.subrange(q * 4, q * 4 + 4) =~= row@);
                    }
                }
            }
            r = r + 1;
        }
        let matrix = SubstitutionMatrix { substitutions };
        proof {
            assert(matrix.substitutions@ =~= matrix_from_bytes(bytes@));
        }
        matrix
    }
}

impl Default for SubstitutionMatrix {
    /// The identity ranking: every row in canonical candidate order, the
    /// table the five wire bytes 0x1b decode to.
    fn default() -> (matrix: SubstitutionMatrix)
        ensures
            matrix.wf(),
            forall|r: int, c: int|
                0 <= r < 5 && 0 <= c < 4 ==> matrix.substitutions@[r * 4 + c] == candidates(r)[c],
            matrix.substitutions@ == matrix_from_bytes(seq![0x1bu8, 0x1b, 0x1b, 0x1b, 0x1b]),
    {
        let mut substitutions: Vec<Base> = Vec::new();
        let mut r: usize = 0;
        while r < 5
            invariant
                r <= 5,
                substitutions@.len() == 4 * r,
                forall|q: int, c: int|
                    0 <= q < r && 0 <= c < 4 ==> substitutions@[q * 4 + c] == candidates(q)[c],
            decreases 5 - r,
        {
            let cands = candidates_of(r);
            substitutions.push(cands.0);
            substitutions.push(cands.1);
            substitutions.push(cands.2);
            substitutions.push(cands.3);
            r = r + 1;
        }
        let matrix = SubstitutionMatrix { substitutions };
        proof {
            assert forall|r: int, i: int| 0 <= r < 5 && 0 <= i < 4 implies matrix.substitutions@
                .subrange(r * 4, r * 4 + 4).contains(#[trigger] candidates(r)[i]) by {
                assert(matrix.substitutions@.subrange(r * 4, r * 4 + 4)[i] == candidates(r)[i]);
            }
            assert(matrix.substitutions@ =~= matrix_from_bytes(
                seq![0x1bu8, 0x1b, 0x1b, 0x1b, 0x1b],
            ));
        }
        matrix
    }
}

} // verus!
