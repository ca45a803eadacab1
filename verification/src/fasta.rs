//! The FASTA indexer: walks definition and sequence lines and yields one
//! index record per sequence.

use vstd::prelude::*;
use vstd::slice::slice_subrange;

verus! {

/// The first index of `needle` in `s`, or -1.
pub open spec fn find_byte(s: Seq<u8>, needle: u8) -> int
    decreases s.len(),
{
    if s.len() == 0 {
        -1
    } else if s[0] == needle {
        0
    } else {
        let r = find_byte(s.skip(1), needle);
        if r < 0 {
            -1
        } else {
            1 + r
        }
    }
}

/// `find_byte` finds the first occurrence exactly.
pub proof fn lemma_find_byte(s: Seq<u8>, needle: u8)
    ensures
        find_byte(s, needle) >= 0 ==> 0 <= find_byte(s, needle) < s.len() && s[find_byte(
            s,
            needle,
        )] == needle && (forall|j: int| 0 <= j < find_byte(s, needle) ==> s[j] != needle),
        find_byte(s, needle) < 0 ==> forall|j: int| 0 <= j < s.len() ==> s[j] != needle,
    decreases s.len(),
{
    if s.len() > 0 && s[0] != needle {
        lemma_find_byte(s.skip(1), needle);
        assert(forall|j: int| 1 <= j < s.len() ==> s.skip(1)[j - 1] == s[j]);
    }
}

/// Relies on `memchr::memchr`: the index of the first occurrence of
/// `needle` in `haystack`, or `None` when it does not occur.
pub assume_specification [ memchr::memchr ](needle: u8, haystack: &[u8]) -> (r: Option<usize>)
    ensures
        match r {
            Some(i) => i < haystack@.len() && haystack@[i as int] == needle && (forall|j: int|
                0 <= j < i ==> haystack@[j] != needle),
            None => forall|j: int| 0 <= j < haystack@.len() ==> haystack@[j] != needle,
        },
;

/// Relies on `String::from_utf8`: wraps the bytes when they are valid
/// UTF-8. ASCII bytes are always valid and decode to themselves.
#[verifier::external_body]
fn utf8_string(bytes: Vec<u8>) -> (r: Option<String>)
    ensures
        match r {
            Some(s) => (forall|i: int| 0 <= i < bytes@.len() ==> bytes@[i] < 0x80) ==> s@
                == bytes@.map_values(|b: u8| b as char),
            None => !(forall|i: int| 0 <= i < bytes@.len() ==> bytes@[i] < 0x80),
        },
{
    String::from_utf8(bytes).ok()
}

/// An ASCII whitespace byte.
pub open spec fn is_ascii_ws(b: u8) -> bool {
    b == 0x20 || (0x09 <= b <= 0x0d)
}

/// The length of a byte run with trailing ASCII whitespace dropped.
pub open spec fn spec_len_with_right_trim(s: Seq<u8>) -> int
    decreases s.len(),
{
    if s.len() == 0 {
        0
    } else if is_ascii_ws(s.last()) {
        spec_len_with_right_trim(s.drop_last())
    } else {
        s.len() as int
    }
}

/// Trimming never grows a run.
pub proof fn lemma_trim_le(s: Seq<u8>)
    ensures
        0 <= spec_len_with_right_trim(s) <= s.len(),
    decreases s.len(),
{
    if s.len() > 0 && is_ascii_ws(s.last()) {
        lemma_trim_le(s.drop_last());
    }
}

/// The length of `bytes` with trailing ASCII whitespace dropped.
pub fn len_with_right_trim(bytes: &[u8]) -> (n: usize)
    ensures
        n == spec_len_with_right_trim(bytes@),
{
    let mut n = bytes.len();
    proof {
        assert(bytes@.take(bytes@.len() as int) =~= bytes@);
    }
    while n > 0
        invariant
            n <= bytes@.len(),
            spec_len_with_right_trim(bytes@) == spec_len_with_right_trim(bytes@.take(n as int)),
        decreases n,
    {
        let b = bytes[n - 1];
        if !(b == 0x20 || (0x09 <= b && b <= 0x0d)) {
            proof {
                assert(spec_len_with_right_trim(bytes@.take(n as int)) == n);
            }
            return n;
        }
        proof {
            assert(bytes@.take(n as int).drop_last() =~= bytes@.take(n - 1 as int));
        }
        n = n - 1;
    }
    proof {
        assert(bytes@.take(0) =~= Seq::<u8>::empty());
    }
    0
}

/// One sequence line starting at `pos`: how many bytes it occupies
/// (through its newline) and how many bases it holds. Zero bytes at the
/// end of input or at the next definition.
pub open spec fn line_at(src: Seq<u8>, pos: int) -> (int, int) {
    if pos >= src.len() || src[pos] == 0x3e {
        (0, 0)
    } else {
        let i = find_byte(src.skip(pos), 0x0a);
        if i < 0 {
            (src.len() - pos, spec_len_with_right_trim(src.skip(pos)))
        } else {
            ((i + 1) as int, spec_len_with_right_trim(src.skip(pos).take(i + 1)))
        }
    }
}

/// The byte length of the raw line at `pos`, its newline included, or the
/// rest of the input when no newline follows.
pub open spec fn raw_line_len(src: Seq<u8>, pos: int) -> int {
    let i = find_byte(src.skip(pos), 0x0a);
    if i < 0 {
        src.len() - pos
    } else {
        i + 1
    }
}

/// The first whitespace index at or after `j`, or the line's end.
pub open spec fn scan_ws(line: Seq<u8>, j: int) -> int
    decreases line.len() - j,
{
    if j < 0 || j >= line.len() {
        line.len() as int
    } else if is_ascii_ws(line[j]) {
        j
    } else {
        scan_ws(line, j + 1)
    }
}

/// The definition line starting at `pos`.
pub open spec fn def_line(src: Seq<u8>, pos: int) -> Seq<u8> {
    src.subrange(pos, pos + raw_line_len(src, pos))
}

/// A well-formed definition line: it opens with `>` and carries a
/// non-empty name.
pub open spec fn def_valid(line: Seq<u8>) -> bool {
    line.len() >= 1 && line[0] == 0x3e && scan_ws(line, 1) > 1
}

/// The name bytes of a definition line: between the `>` and the first
/// whitespace.
pub open spec fn def_name_bytes(line: Seq<u8>) -> Seq<u8> {
    line.subrange(1, scan_ws(line, 1))
}

/// Every byte is ASCII.
pub open spec fn all_ascii(s: Seq<u8>) -> bool {
    forall|i: int| 0 <= i < s.len() ==> s[i] < 0x80
}

/// The outcome of walking one record's sequence lines.
pub enum FastaLinesOut {
    /// The lines were regular: total bases, the position after the last
    /// line, and the first line's width and base count.
    Done { length: int, end_pos: int },
    /// A line's base count differs from its predecessor's.
    BadBases(int, int),
    /// A line's byte width differs from its predecessor's.
    BadWidth(int, int),
}

/// Folds sequence lines from `pos` on, carrying the first line's shape and
/// the previous line's shape, exactly as the indexer walks them.
pub open spec fn fasta_lines(
    src: Seq<u8>,
    pos: int,
    first_w: int,
    first_b: int,
    prev_w: int,
    prev_b: int,
    length: int,
) -> FastaLinesOut
    decreases src.len() - pos,
{
    let length2 = length + prev_b;
    let (w, b) = line_at(src, pos);
    if w <= 0 || pos < 0 || pos >= src.len() || pos + w > src.len() {
        FastaLinesOut::Done { length: length2, end_pos: pos }
    } else if first_b != prev_b {
        FastaLinesOut::BadBases(first_b, prev_b)
    } else if first_w != prev_w {
        FastaLinesOut::BadWidth(first_w, prev_w)
    } else {
        fasta_lines(src, pos + w, first_w, first_b, w, b, length2)
    }
}

/// An error raised while indexing.
#[derive(Clone, Copy, Debug, PartialEq, Eq, Structural)]
pub enum IndexError {
    /// A record has no sequence; holds the offset past its definition.
    EmptySequence(u64),
    /// A definition line is malformed.
    InvalidDefinition,
    /// A line's base count differs from its predecessor's.
    InvalidLineBases(usize, usize),
    /// A line's byte width differs from its predecessor's.
    InvalidLineWidth(usize, usize),
}

/// One index record: a sequence's name, base count, offset, and line
/// shape.
#[derive(Clone, Debug, PartialEq, Eq)]
pub struct FaiRecord {
    /// The sequence name.
    pub name: String,
    /// The total number of bases.
    pub length: u64,
    /// The byte offset of the first sequence line.
    pub offset: u64,
    /// Bases per full line.
    pub line_bases: u64,
    /// Bytes per full line, newline included.
    pub line_width: u64,
}

impl FaiRecord {
    /// Bundles the five fields.
    pub fn new(name: String, length: u64, offset: u64, line_bases: u64, line_width: u64) -> (r:
        FaiRecord)
        ensures
            r.name == name,
            r.length == length,
            r.offset == offset,
            r.line_bases == line_bases,
            r.line_width == line_width,
    {
        FaiRecord { name, length, offset, line_bases, line_width }
    }
}

/// A FASTA indexer over a byte buffer.
#[derive(Debug)]
pub struct Indexer {
    /// The input.
    pub inner: Vec<u8>,
    /// The read position.
    pub pos: usize,
}

impl Indexer {
    /// An indexer at the start of `inner`.
    pub fn new(inner: Vec<u8>) -> (r: Indexer)
        ensures
            r.inner == inner,
            r.pos == 0,
    {
        Indexer { inner, pos: 0 }
    }

    /// Consumes a single sequence line: how many bytes were read (the line
    /// width, newline included) and how many bases it holds. Zero bytes
    /// read means the current record's sequence is done.
    pub fn consume_sequence_line(&mut self) -> (r: (usize, usize))
        requires
            old(self).pos <= old(self).inner@.len(),
        ensures
            final(self).inner@ == old(self).inner@,
            (r.0 as int, r.1 as int) == line_at(old(self).inner@, old(self).pos as int),
            final(self).pos == old(self).pos + r.0,
            final(self).pos <= final(self).inner@.len(),
            r.1 <= r.0,
    {
        let n = self.inner.len();
        if self.pos >= n || self.inner[self.pos] == 0x3e {
            return (0, 0);
        }
        let rest = slice_subrange(self.inner.as_slice(), self.pos, n);
        proof {
            lemma_find_byte(rest@, 0x0a);
        }
        let (bytes_read, line): (usize, &[u8]) = match memchr::memchr(0x0a, rest) {
            Some(i) => {
                proof {
                    assert(find_byte(rest@, 0x0a) == i as int);
                }
                (i + 1, slice_subrange(rest, 0, i + 1))
            },
            None => {
                proof {
                    assert(find_byte(rest@, 0x0a) < 0);
                    assert(rest@.take(rest@.len() as int) =~= rest@);
                }
                (n - self.pos, rest)
            },
        };
        let base_count = len_with_right_trim(line);
        proof {
            lemma_trim_le(line@);
        }
        self.pos = self.pos + bytes_read;
        (bytes_read, base_count)
    }

    /// Reads a definition line: `None` at the end of input, else the
    /// sequence name between `>` and the first whitespace.
    #[verifier::loop_isolation(false)]
    fn read_definition(&mut self) -> (r: Result<Option<String>, IndexError>)
        requires
            old(self).pos <= old(self).inner@.len(),
        ensures
            final(self).inner@ == old(self).inner@,
            final(self).pos >= old(self).pos,
            final(self).pos <= final(self).inner@.len(),
            old(self).pos == old(self).inner@.len() <==> r == Ok::<Option<String>, IndexError>(
                Option::<String>::None,
            ),
            old(self).pos < old(self).inner@.len() ==> ({
                let src = old(self).inner@;
                let line = def_line(src, old(self).pos as int);
                &&& final(self).pos == old(self).pos + raw_line_len(src, old(self).pos as int)
                &&& !def_valid(line) ==> r == Err::<Option<String>, IndexError>(
                    IndexError::InvalidDefinition,
                )
                &&& (def_valid(line) && all_ascii(def_name_bytes(line)) ==> (r matches Ok(name)
                    && name matches Some(name) && name@ == def_name_bytes(line).map_values(
                    |b: u8| b as char,
                )))
                &&& (r matches Ok(name) && name is Some ==> def_valid(line))
            }),
    {
        let ghost src = self.inner@;
        let ghost pos0 = self.pos as int;
        let n = self.inner.len();
        if self.pos >= n {
            return Ok(None);
        }
        let rest = slice_subrange(self.inner.as_slice(), self.pos, n);
        proof {
            lemma_find_byte(rest@, 0x0a);
        }
        let line_len: usize = match memchr::memchr(0x0a, rest) {
            Some(i) => {
                proof {
                    assert(find_byte(rest@, 0x0a) == i as int);
                }
                i + 1
            },
            None => {
                proof {
                    assert(find_byte(rest@, 0x0a) < 0);
                }
                n - self.pos
            },
        };
        let line = slice_subrange(rest, 0, line_len);
        proof {
            assert(line@ =~= def_line(src, pos0));
        }
        self.pos = self.pos + line_len;

        // the definition proper: `>` then the name, up to the first
        // whitespace
        if line.len() < 1 || line[0] != 0x3e {
            return Err(IndexError::InvalidDefinition);
        }
        let mut name_end: usize = 1;
        while name_end < line.len()
            invariant
                1 <= name_end <= line@.len(),
                scan_ws(line@, 1) == scan_ws(line@, name_end as int),
            decreases line@.len() - name_end,
        {
            let b = line[name_end];
            if b == 0x20 || (0x09 <= b && b <= 0x0d) {
                break;
            }
            name_end = name_end + 1;
        }
        proof {
            assert(scan_ws(line@, 1) == name_end as int);
        }
        if name_end == 1 {
            return Err(IndexError::InvalidDefinition);
        }
        let name_bytes = slice_subrange(line, 1, name_end);
        let mut name: Vec<u8> = Vec::new();
        name.extend_from_slice(name_bytes);
        proof {
            assert(name@ =~= def_name_bytes(line@));
        }
        match utf8_string(name) {
            Some(s) => Ok(Some(s)),
            None => Err(IndexError::InvalidDefinition),
        }
    }

    /// Indexes one raw FASTA record: `None` at the end of input. The
    /// stream must sit at a definition; every sequence line but the last
    /// must share one shape; an empty sequence is an error.
    #[verifier::loop_isolation(false)]
    pub fn index_record(&mut self) -> (r: Result<Option<FaiRecord>, IndexError>)
        requires
            old(self).pos <= old(self).inner@.len(),
        ensures
            final(self).inner@ == old(self).inner@,
            final(self).pos <= final(self).inner@.len(),
            old(self).pos == old(self).inner@.len() <==> r == Ok::<Option<FaiRecord>, IndexError>(
                Option::<FaiRecord>::None,
            ),
            old(self).pos < old(self).inner@.len() ==> ({
                let src = old(self).inner@;
                let line = def_line(src, old(self).pos as int);
                let seq_start = old(self).pos + raw_line_len(src, old(self).pos as int);
                let (w0, b0) = line_at(src, seq_start as int);
                &&& !def_valid(line) ==> r == Err::<Option<FaiRecord>, IndexError>(
                    IndexError::InvalidDefinition,
                )
                &&& (def_valid(line) && all_ascii(def_name_bytes(line)) ==> match fasta_lines(
                    src,
                    seq_start + w0,
                    w0,
                    b0,
                    w0,
                    b0,
                    0,
                ) {
                    FastaLinesOut::Done { length, end_pos } => if length == 0 {
                        r == Err::<Option<FaiRecord>, IndexError>(
                            IndexError::EmptySequence(end_pos as u64),
                        )
                    } else {
                        (r matches Ok(rec) && rec matches Some(rec) && rec.name@ == def_name_bytes(
                            line,
                        ).map_values(|x: u8| x as char) && rec.length == length && rec.offset
                            == seq_start && rec.line_bases == b0 && rec.line_width == w0
                            && final(self).pos == end_pos)
                    },
                    FastaLinesOut::BadBases(a, b) => r == Err::<Option<FaiRecord>, IndexError>(
                        IndexError::InvalidLineBases(a as usize, b as usize),
                    ),
                    FastaLinesOut::BadWidth(a, b) => r == Err::<Option<FaiRecord>, IndexError>(
                        IndexError::InvalidLineWidth(a as usize, b as usize),
                    ),
                })
            }),
    {
        let definition = match self.read_definition() {
            Ok(Option::None) => {
                return Ok(None);
            },
            Ok(Option::Some(d)) => d,
            Err(e) => {
                return Err(e);
            },
        };

        let ghost src = self.inner@;
        let offset = self.pos;
        let mut length: usize = 0;

        let (line_width, line_bases) = self.consume_sequence_line();
        let mut prev_line_width = line_width;
        let mut prev_line_bases = line_bases;

        loop
            invariant
                self.inner@ == src,
                self.pos <= src.len(),
                length + prev_line_bases <= self.pos,
                fasta_lines(
                    src,
                    offset + line_width as int,
                    line_width as int,
                    line_bases as int,
                    line_width as int,
                    line_bases as int,
                    0,
                ) == fasta_lines(
                    src,
                    self.pos as int,
                    line_width as int,
                    line_bases as int,
                    prev_line_width as int,
                    prev_line_bases as int,
                    length as int,
                ),
            decreases src.len() - self.pos,
        {
            length = length + prev_line_bases;

            let (bytes_read, base_count) = self.consume_sequence_line();
            if bytes_read == 0 {
                break;
            }
            if line_bases != prev_line_bases {
                return Err(IndexError::InvalidLineBases(line_bases, prev_line_bases));
            }
            if line_width != prev_line_width {
                return Err(IndexError::InvalidLineWidth(line_width, prev_line_width));
            }
            prev_line_width = bytes_read;
            prev_line_bases = base_count;
        }

        if length == 0 {
            return Err(IndexError::EmptySequence(self.pos as u64));
        }

        let record = FaiRecord {
            name: definition,
            length: length as u64,
            offset: offset as u64,
            line_bases: line_bases as u64,
            line_width: line_width as u64,
        };
        Ok(Some(record))
    }
}

} // verus!
