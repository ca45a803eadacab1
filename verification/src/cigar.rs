//! CIGAR strings: alignment operations, the spans they consume, and the
//! text form.

use vstd::prelude::*;
use vstd::string::StringSliceAdditionalSpecFns;

verus! {

/// An alignment operation kind.
#[derive(Clone, Copy, Debug, PartialEq, Eq, Structural)]
pub enum Kind {
    /// `M`: an alignment match.
    Match,
    /// `I`: an insertion into the reference.
    Insertion,
    /// `D`: a deletion from the reference.
    Deletion,
    /// `N`: a skipped reference region.
    Skip,
    /// `S`: a soft clip.
    SoftClip,
    /// `H`: a hard clip.
    HardClip,
    /// `P`: padding.
    Pad,
    /// `=`: a sequence match.
    SequenceMatch,
    /// `X`: a sequence mismatch.
    SequenceMismatch,
}

/// The kinds that consume the reference sequence.
pub open spec fn consumes_reference(kind: Kind) -> bool {
    match kind {
        Kind::Match | Kind::Deletion | Kind::Skip | Kind::SequenceMatch
            | Kind::SequenceMismatch => true,
        _ => false,
    }
}

/// The kinds that consume the read.
pub open spec fn consumes_read(kind: Kind) -> bool {
    match kind {
        Kind::Match | Kind::Insertion | Kind::SoftClip | Kind::SequenceMatch
            | Kind::SequenceMismatch => true,
        _ => false,
    }
}

/// One CIGAR operation: a kind and a length.
#[derive(Clone, Copy, Debug, PartialEq, Eq, Structural)]
pub struct Op {
    /// The operation kind.
    pub kind: Kind,
    /// The operation length.
    pub len: usize,
}

impl Op {
    /// Bundles a kind and a length.
    pub fn new(kind: Kind, len: usize) -> (op: Op)
        ensures
            op.kind == kind,
            op.len == len,
    {
        Op { kind, len }
    }
}

/// The reference span of a run of operations.
pub open spec fn spec_reference_len(ops: Seq<Op>) -> int
    decreases ops.len(),
{
    if ops.len() == 0 {
        0
    } else {
        spec_reference_len(ops.drop_last()) + if consumes_reference(ops.last().kind) {
            ops.last().len as int
        } else {
            0
        }
    }
}

/// The read length of a run of operations.
pub open spec fn spec_read_len(ops: Seq<Op>) -> int
    decreases ops.len(),
{
    if ops.len() == 0 {
        0
    } else {
        spec_read_len(ops.drop_last()) + if consumes_read(ops.last().kind) {
            ops.last().len as int
        } else {
            0
        }
    }
}

/// An error returned when a raw CIGAR string fails to parse.
#[derive(Clone, Copy, Debug, PartialEq, Eq, Structural)]
pub enum ParseError {
    /// The input is empty.
    Empty,
    /// The input ends inside an operation.
    Invalid,
    /// An operation is invalid.
    InvalidOp(OpParseError),
}

/// Why one operation failed to parse.
#[derive(Clone, Copy, Debug, PartialEq, Eq, Structural)]
pub enum OpParseError {
    /// The length is missing or does not fit.
    InvalidLength,
    /// The kind letter is unknown.
    InvalidKind,
}

/// A CIGAR: the ordered operations of one alignment.
#[derive(Clone, Debug, PartialEq, Eq)]
pub struct Cigar {
    /// The operations, in order.
    pub ops: Vec<Op>,
}

impl Cigar {
    /// Wraps a run of operations.
    pub fn new(ops: Vec<Op>) -> (c: Cigar)
        ensures
            c.ops@ == ops@,
    {
        Cigar { ops }
    }

    /// Whether the CIGAR holds no operations.
    pub fn is_empty(&self) -> (r: bool)
        ensures
            r == (self.ops@.len() == 0),
    {
        self.ops.is_empty()
    }

    /// Removes all operations.
    pub fn clear(&mut self)
        ensures
            final(self).ops@.len() == 0,
    {
        self.ops.clear();
    }

    /// The alignment span over the reference: the summed lengths of the
    /// operations that consume it.
    #[verifier::loop_isolation(false)]
    pub fn reference_len(&self) -> (n: usize)
        requires
            spec_reference_len(self.ops@) <= usize::MAX,
        ensures
            n == spec_reference_len(self.ops@),
    {
        proof {
            lemma_span_take_le(self.ops@, self.ops@.len() as int, true);
        }
        let mut n: usize = 0;
        let mut i: usize = 0;
        while i < self.ops.len()
            invariant
                i <= self.ops@.len(),
                n == spec_reference_len(self.ops@.take(i as int)),
            decreases self.ops@.len() - i,
        {
            proof {
                assert(self.ops@.take(i + 1 as int).drop_last() =~= self.ops@.take(i as int));
                lemma_span_take_le(self.ops@, i + 1, true);
            }
            let op = self.ops[i];
            if match op.kind {
                Kind::Match | Kind::Deletion | Kind::Skip | Kind::SequenceMatch
                    | Kind::SequenceMismatch => true,
                _ => false,
            } {
                n = n + op.len;
            }
            i = i + 1;
        }
        proof {
            assert(self.ops@.take(self.ops@.len() as int) =~= self.ops@);
        }
        n
    }

    /// The read length: the summed lengths of the operations that consume
    /// the read.
    #[verifier::loop_isolation(false)]
    pub fn read_len(&self) -> (n: usize)
        requires
            spec_read_len(self.ops@) <= usize::MAX,
        ensures
            n == spec_read_len(self.ops@),
    {
        proof {
            lemma_span_take_le(self.ops@, self.ops@.len() as int, false);
        }
        let mut n: usize = 0;
        let mut i: usize = 0;
        while i < self.ops.len()
            invariant
                i <= self.ops@.len(),
                n == spec_read_len(self.ops@.take(i as int)),
            decreases self.ops@.len() - i,
        {
            proof {
                assert(self.ops@.take(i + 1 as int).drop_last() =~= self.ops@.take(i as int));
                lemma_span_take_le(self.ops@, i + 1, false);
            }
            let op = self.ops[i];
            if match op.kind {
                Kind::Match | Kind::Insertion | Kind::SoftClip | Kind::SequenceMatch
                    | Kind::SequenceMismatch => true,
                _ => false,
            } {
                n = n + op.len;
            }
            i = i + 1;
        }
        proof {
            assert(self.ops@.take(self.ops@.len() as int) =~= self.ops@);
        }
        n
    }
}

/// Spans of prefixes never exceed the whole run's span.
proof fn lemma_span_take_le(ops: Seq<Op>, i: int, reference: bool)
    requires
        0 <= i <= ops.len(),
    ensures
        reference ==> 0 <= spec_reference_len(ops.take(i)) <= spec_reference_len(ops),
        !reference ==> 0 <= spec_read_len(ops.take(i)) <= spec_read_len(ops),
    decreases ops.len(),
{
    if ops.len() == 0 {
        assert(ops.take(i) =~= ops);
    } else if i == ops.len() {
        assert(ops.take(i) =~= ops);
        lemma_span_take_le(ops.drop_last(), ops.len() - 1, reference);
    } else {
        assert(ops.take(i) =~= ops.drop_last().take(i));
        lemma_span_take_le(ops.drop_last(), i, reference);
    }
}

impl Default for Cigar {
    /// A CIGAR with no operations.
    fn default() -> (c: Cigar)
        ensures
            c.ops@.len() == 0,
    {
        Cigar { ops: Vec::new() }
    }
}

/// An ASCII decimal digit.
pub open spec fn is_digit(b: u8) -> bool {
    0x30 <= b <= 0x39
}

/// The operation kind a letter names, if any.
pub open spec fn spec_kind(b: u8) -> Option<Kind> {
    if b == 0x4d {
        Some(Kind::Match)
    } else if b == 0x49 {
        Some(Kind::Insertion)
    } else if b == 0x44 {
        Some(Kind::Deletion)
    } else if b == 0x4e {
        Some(Kind::Skip)
    } else if b == 0x53 {
        Some(Kind::SoftClip)
    } else if b == 0x48 {
        Some(Kind::HardClip)
    } else if b == 0x50 {
        Some(Kind::Pad)
    } else if b == 0x3d {
        Some(Kind::SequenceMatch)
    } else if b == 0x58 {
        Some(Kind::SequenceMismatch)
    } else {
        None
    }
}

/// The first non-digit index at or after `i`, or the input's end.
pub open spec fn digits_end(s: Seq<u8>, i: int) -> int
    decreases s.len() - i,
{
    if i < 0 || i >= s.len() {
        s.len() as int
    } else if is_digit(s[i]) {
        digits_end(s, i + 1)
    } else {
        i
    }
}

/// The decimal value of the digits in `[i, end)` carried onto `acc`, or
/// `None` where a step would push the value past the parser's `usize`
/// guard.
pub open spec fn digits_val(s: Seq<u8>, i: int, end: int, acc: int) -> Option<int>
    decreases end - i,
{
    if i >= end {
        Some(acc)
    } else if acc > (usize::MAX - 9) / 10 {
        None
    } else {
        digits_val(s, i + 1, end, acc * 10 + (s[i] - 0x30))
    }
}

/// The operations of a CIGAR text from `i` on: each a digit run and a kind
/// letter. A missing or oversized length and an unknown letter are invalid
/// operations; a length with no letter after it is invalid input.
pub open spec fn parse_cigar_ops(s: Seq<u8>, i: int) -> Result<Seq<Op>, ParseError>
    decreases s.len() - i,
{
    if i < 0 || i >= s.len() {
        Ok(Seq::empty())
    } else {
        let de = digits_end(s, i);
        if !(i < de <= s.len()) {
            Err(ParseError::InvalidOp(OpParseError::InvalidLength))
        } else {
            match digits_val(s, i, de, 0) {
                None => Err(ParseError::InvalidOp(OpParseError::InvalidLength)),
                Some(v) => if de >= s.len() {
                    Err(ParseError::Invalid)
                } else {
                    match spec_kind(s[de]) {
                        None => Err(ParseError::InvalidOp(OpParseError::InvalidKind)),
                        Some(kind) => match parse_cigar_ops(s, de + 1) {
                            Ok(ops) => Ok(seq![Op { kind, len: v as usize }] + ops),
                            Err(e) => Err(e),
                        },
                    }
                },
            }
        }
    }
}

/// A whole CIGAR text: empty input is its own error.
pub open spec fn spec_parse_cigar(s: Seq<u8>) -> Result<Seq<Op>, ParseError> {
    if s.len() == 0 {
        Err(ParseError::Empty)
    } else {
        parse_cigar_ops(s, 0)
    }
}

/// Digit runs end where `digits_end` says.
proof fn lemma_digits_end(s: Seq<u8>, i: int)
    requires
        0 <= i <= s.len(),
    ensures
        i <= digits_end(s, i) <= s.len(),
        digits_end(s, i) < s.len() ==> !is_digit(s[digits_end(s, i)]),
        forall|j: int| i <= j < digits_end(s, i) ==> is_digit(s[j]),
    decreases s.len() - i,
{
    if i < s.len() && is_digit(s[i]) {
        lemma_digits_end(s, i + 1);
    }
}

/// The operation kind a letter names, if any.
fn kind_from_byte(b: u8) -> (r: Option<Kind>)
    ensures
        r == spec_kind(b),
{
    if b == 0x4d {
        Some(Kind::Match)
    } else if b == 0x49 {
        Some(Kind::Insertion)
    } else if b == 0x44 {
        Some(Kind::Deletion)
    } else if b == 0x4e {
        Some(Kind::Skip)
    } else if b == 0x53 {
        Some(Kind::SoftClip)
    } else if b == 0x48 {
        Some(Kind::HardClip)
    } else if b == 0x50 {
        Some(Kind::Pad)
    } else if b == 0x3d {
        Some(Kind::SequenceMatch)
    } else if b == 0x58 {
        Some(Kind::SequenceMismatch)
    } else {
        None
    }
}

/// Parses the text form: one or more decimal-length, one-letter
/// operations; an empty input, a trailing length, an absent length and an
/// unknown letter are each rejected.
#[verifier::loop_isolation(false)]
#[verifier::rlimit(100)]
fn parse_cigar(bytes: &[u8]) -> (r: Result<Cigar, ParseError>)
    ensures
        match spec_parse_cigar(bytes@) {
            Ok(spec_ops) => r matches Ok(c) && c.ops@ == spec_ops,
            Err(e) => r == Err::<Cigar, ParseError>(e),
        },
{
    let ghost s = bytes@;
    if bytes.len() == 0 {
        return Err(ParseError::Empty);
    }
    let mut ops: Vec<Op> = Vec::new();
    let mut i: usize = 0;
    while i < bytes.len()
        invariant
            i <= bytes@.len(),
            match parse_cigar_ops(s, i as int) {
                Ok(rest) => parse_cigar_ops(s, 0) == Ok::<Seq<Op>, ParseError>(ops@ + rest),
                Err(e) => parse_cigar_ops(s, 0) == Err::<Seq<Op>, ParseError>(e),
            },
        decreases bytes@.len() - i,
    {
        let ghost i_op = i as int;
        let ghost old_ops = ops@;
        proof {
            lemma_digits_end(s, i_op);
        }
        let ghost de = digits_end(s, i_op);
        let mut len: usize = 0;
        let mut digits: usize = 0;
        let ghost i0 = i as int;
        while i < bytes.len() && 0x30 <= bytes[i] && bytes[i] <= 0x39
            invariant
                i <= bytes@.len(),
                0 <= i0 <= i,
                i == i0 + digits,
                (i as int) <= de,
                digits_end(s, i as int) == de,
                digits_val(s, i0, de, 0) == digits_val(s, i as int, de, len as int),
            decreases bytes@.len() - i,
        {
            let d = (bytes[i] - 0x30) as usize;
            if len > (usize::MAX - 9) / 10 {
                proof {
                    assert((i as int) < de);
                    assert(digits_val(s, i as int, de, len as int) is None);
                }
                return Err(ParseError::InvalidOp(OpParseError::InvalidLength));
            }
            len = len * 10 + d;
            digits = digits + 1;
            i = i + 1;
        }
        proof {
            assert(digits_end(s, i as int) == i as int);
            assert(de == i as int);
            assert(digits_val(s, i as int, de, len as int) == Some(len as int));
        }
        if digits == 0 {
            return Err(ParseError::InvalidOp(OpParseError::InvalidLength));
        }
        if i >= bytes.len() {
            // a length with no operation letter after it
            return Err(ParseError::Invalid);
        }
        let kind = match kind_from_byte(bytes[i]) {
            Some(kind) => kind,
            None => {
                return Err(ParseError::InvalidOp(OpParseError::InvalidKind));
            },
        };
        ops.push(Op { kind, len });
        proof {
            match parse_cigar_ops(s, i_op + digits + 1) {
                Ok(rest) => {
                    assert(old_ops + (seq![Op { kind, len }] + rest) =~= ops@ + rest);
                },
                Err(_) => {},
            }
        }
        i = i + 1;
    }
    proof {
        assert(ops@ + Seq::<Op>::empty() =~= ops@);
    }
    Ok(Cigar { ops })
}

impl core::str::FromStr for Cigar {
    type Err = ParseError;

    /// Parses the text form of a CIGAR.
    fn from_str(s: &str) -> (r: Result<Cigar, ParseError>)
        ensures
            match spec_parse_cigar(s.spec_bytes()) {
                Ok(spec_ops) => r matches Ok(c) && c.ops@ == spec_ops,
                Err(e) => r == Err::<Cigar, ParseError>(e),
            },
    {
        parse_cigar(s.as_bytes())
    }
}

} // verus!
