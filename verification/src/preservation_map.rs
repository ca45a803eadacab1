//! The preservation map: three boolean flags, the substitution matrix and
//! the tag-IDs dictionary.
//!
//! On the wire: an ITF8 byte length, an ITF8 entry count, then that many
//! entries of a two-byte ASCII key and a per-key value. Booleans default to
//! true when absent; a map without its substitution matrix or its
//! dictionary is invalid.

use vstd::prelude::*;

use bytes::Bytes;

use crate::buf::{bytes_view, get_itf8, get_u8, remaining, split_to, ReadError};
use crate::encoding::{lemma_parse_itf8_len, MAX_ITF8};
use crate::num::{itf8_bytes, parse_itf8, write_itf8};
use crate::record::TagKey;
use crate::substitution_matrix::{matrix_from_bytes, sm_wire, Base, SubstitutionMatrix};

verus! {

/// A preservation-map key.
#[derive(Clone, Copy, Debug, PartialEq, Eq, Structural)]
pub enum Key {
    /// `RN`: read names are stored.
    ReadNamesIncluded,
    /// `AP`: alignment starts are stored as deltas.
    ApDataSeriesDelta,
    /// `RR`: decoding needs the reference.
    ReferenceRequired,
    /// `SM`: the substitution matrix.
    SubstitutionMatrix,
    /// `TD`: the tag-IDs dictionary.
    TagIdsDictionary,
}

/// The key a two-byte wire tag names, if any: 0 RN, 1 AP, 2 RR, 3 SM,
/// 4 TD.
pub open spec fn pm_key_ord(b0: u8, b1: u8) -> Option<int> {
    if b0 == 0x52 && b1 == 0x4e {
        Some(0int)
    } else if b0 == 0x41 && b1 == 0x50 {
        Some(1int)
    } else if b0 == 0x52 && b1 == 0x52 {
        Some(2int)
    } else if b0 == 0x53 && b1 == 0x4d {
        Some(3int)
    } else if b0 == 0x54 && b1 == 0x44 {
        Some(4int)
    } else {
        None
    }
}

/// Decodes a two-byte key; `None` outside the vocabulary.
pub fn key_from_bytes(b0: u8, b1: u8) -> (r: Option<Key>)
    ensures
        match pm_key_ord(b0, b1) {
            Some(k) => if k == 0 {
                r == Some(Key::ReadNamesIncluded)
            } else if k == 1 {
                r == Some(Key::ApDataSeriesDelta)
            } else if k == 2 {
                r == Some(Key::ReferenceRequired)
            } else if k == 3 {
                r == Some(Key::SubstitutionMatrix)
            } else {
                r == Some(Key::TagIdsDictionary)
            },
            None => r is None,
        },
{
    if b0 == 0x52 && b1 == 0x4e {
        Some(Key::ReadNamesIncluded)
    } else if b0 == 0x41 && b1 == 0x50 {
        Some(Key::ApDataSeriesDelta)
    } else if b0 == 0x52 && b1 == 0x52 {
        Some(Key::ReferenceRequired)
    } else if b0 == 0x53 && b1 == 0x4d {
        Some(Key::SubstitutionMatrix)
    } else if b0 == 0x54 && b1 == 0x44 {
        Some(Key::TagIdsDictionary)
    } else {
        None
    }
}

/// The ordered tag-key lines a slice's records draw from.
#[derive(Debug, PartialEq, Eq)]
pub struct TagIdsDictionary {
    /// Each line is the exact ordered tag-key set of some records.
    pub lines: Vec<Vec<TagKey>>,
}

/// The dictionary's mathematical shape.
pub open spec fn td_view(d: &TagIdsDictionary) -> Seq<Seq<TagKey>> {
    d.lines@.map_values(|l: Vec<TagKey>| l@)
}

impl TagIdsDictionary {
    /// Wraps dictionary lines.
    pub fn new(lines: Vec<Vec<TagKey>>) -> (d: TagIdsDictionary)
        ensures
            d.lines@ == lines@,
    {
        TagIdsDictionary { lines }
    }
}

/// A valid first tag byte: an ASCII letter.
pub open spec fn valid_tag0(b: u8) -> bool {
    (0x41 <= b <= 0x5a) || (0x61 <= b <= 0x7a)
}

/// A valid second tag byte: an ASCII letter or digit.
pub open spec fn valid_tag1(b: u8) -> bool {
    valid_tag0(b) || (0x30 <= b <= 0x39)
}

/// A valid SAM type byte: one of A c C s S i I f Z H B.
pub open spec fn valid_type(b: u8) -> bool {
    b == 0x41 || b == 0x63 || b == 0x43 || b == 0x73 || b == 0x53 || b == 0x69 || b == 0x49 || b
        == 0x66 || b == 0x5a || b == 0x48 || b == 0x42
}

/// A line's keys: consecutive 3-byte groups; one or two leftover bytes are
/// dropped. A group that is not a valid tag-and-type key is invalid.
pub open spec fn parse_td_keys(s: Seq<u8>) -> Result<Seq<TagKey>, ReadError>
    decreases s.len(),
{
    if s.len() < 3 {
        Ok(Seq::empty())
    } else if valid_tag0(s[0]) && valid_tag1(s[1]) && valid_type(s[2]) {
        match parse_td_keys(s.skip(3)) {
            Ok(keys) => Ok(seq![TagKey { tag0: s[0], tag1: s[1], ty: s[2] }] + keys),
            Err(e) => Err(e),
        }
    } else {
        Err(ReadError::InvalidData)
    }
}

/// The index of the first NUL byte, or -1.
pub open spec fn find_nul(s: Seq<u8>) -> int
    decreases s.len(),
{
    if s.len() == 0 {
        -1
    } else if s[0] == 0 {
        0
    } else {
        let r = find_nul(s.skip(1));
        if r < 0 {
            -1
        } else {
            1 + r
        }
    }
}

/// `find_nul` finds the first NUL exactly.
pub proof fn lemma_find_nul(s: Seq<u8>)
    ensures
        find_nul(s) >= 0 ==> 0 <= find_nul(s) < s.len() && s[find_nul(s)] == 0 && (forall|j: int|
            0 <= j < find_nul(s) ==> s[j] != 0),
        find_nul(s) < 0 ==> forall|j: int| 0 <= j < s.len() ==> s[j] != 0,
    decreases s.len(),
{
    if s.len() > 0 && s[0] != 0 {
        lemma_find_nul(s.skip(1));
        assert forall|j: int| 1 <= j < s.len() implies s.skip(1)[j - 1] == s[j] by {}
    }
}

/// The dictionary lines of a TD block: NUL-delimited key runs; bytes after
/// the last NUL are dropped.
pub open spec fn parse_td_lines(s: Seq<u8>) -> Result<Seq<Seq<TagKey>>, ReadError>
    decreases s.len(),
{
    let i = find_nul(s);
    if !(0 <= i < s.len()) {
        Ok(Seq::empty())
    } else {
        match parse_td_keys(s.take(i)) {
            Err(e) => Err(e),
            Ok(keys) => match parse_td_lines(s.skip(i + 1)) {
                Err(e) => Err(e),
                Ok(lines) => Ok(seq![keys] + lines),
            },
        }
    }
}

/// Parses one line's keys from `line`.
#[verifier::loop_isolation(false)]
fn get_td_keys(line: &Bytes) -> (r: Result<Vec<TagKey>, ReadError>)
    ensures
        match parse_td_keys(bytes_view(*line)) {
            Ok(keys) => r matches Ok(v) && v@ == keys,
            Err(e) => r == Err::<Vec<TagKey>, ReadError>(e),
        },
{
    let ghost s = bytes_view(*line);
    let n = remaining(line);
    let mut keys: Vec<TagKey> = Vec::new();
    proof {
        assert(s.skip(0) =~= s);
        match parse_td_keys(s) {
            Ok(rest) => {
                assert(Seq::<TagKey>::empty() + rest =~= rest);
            },
            Err(_) => {},
        }
    }
    let mut i: usize = 0;
    while i < n && n - i >= 3
        invariant
            i <= n,
            i % 3 == 0,
            n == s.len(),
            match parse_td_keys(s.skip(i as int)) {
                Ok(rest) => parse_td_keys(s) == Ok::<Seq<TagKey>, ReadError>(keys@ + rest),
                Err(e) => parse_td_keys(s) == Err::<Seq<TagKey>, ReadError>(e),
            },
        decreases n - i,
    {
        let b0 = crate::buf::byte_at(line, i);
        let b1 = crate::buf::byte_at(line, i + 1);
        let b2 = crate::buf::byte_at(line, i + 2);
        let tag0_ok = (0x41 <= b0 && b0 <= 0x5a) || (0x61 <= b0 && b0 <= 0x7a);
        let tag1_ok = (0x41 <= b1 && b1 <= 0x5a) || (0x61 <= b1 && b1 <= 0x7a) || (0x30 <= b1 && b1
            <= 0x39);
        if !(tag0_ok && tag1_ok && is_type_byte(b2)) {
            proof {
                assert(s.skip(i as int)[0] == s[i as int]);
                assert(s.skip(i as int)[1] == s[i as int + 1]);
                assert(s.skip(i as int)[2] == s[i as int + 2]);
            }
            return Err(ReadError::InvalidData);
        }
        let ghost old_keys = keys@;
        keys.push(TagKey { tag0: b0, tag1: b1, ty: b2 });
        proof {
            assert(s.skip(i as int)[0] == s[i as int]);
            assert(s.skip(i as int)[1] == s[i as int + 1]);
            assert(s.skip(i as int)[2] == s[i as int + 2]);
            assert(s.skip(i as int).skip(3) =~= s.skip(i + 3 as int));
            match parse_td_keys(s.skip(i + 3 as int)) {
                Ok(rest) => {
                    assert(old_keys + (seq![
                        TagKey { tag0: s[i as int], tag1: s[i as int + 1], ty: s[i as int + 2] },
                    ] + rest) =~= keys@ + rest);
                },
                Err(_) => {},
            }
        }
        i = i + 3;
    }
    proof {
        assert(keys@ + Seq::<TagKey>::empty() =~= keys@);
    }
    Ok(keys)
}

/// The type byte is one the SAM vocabulary knows.
fn is_type_byte(b: u8) -> (r: bool)
    ensures
        r == valid_type(b),
{
    b == 0x41 || b == 0x63 || b == 0x43 || b == 0x73 || b == 0x53 || b == 0x69 || b == 0x49 || b
        == 0x66 || b == 0x5a || b == 0x48 || b == 0x42
}

/// Parses the NUL-delimited dictionary lines of a whole TD block.
#[verifier::loop_isolation(false)]
fn get_td_lines(block: &mut Bytes) -> (r: Result<Vec<Vec<TagKey>>, ReadError>)
    ensures
        match parse_td_lines(bytes_view(*old(block))) {
            Ok(lines) => r matches Ok(v) && v@.map_values(|l: Vec<TagKey>| l@) == lines,
            Err(e) => r == Err::<Vec<Vec<TagKey>>, ReadError>(e),
        },
    decreases bytes_view(*old(block)).len(),
{
    let ghost s = bytes_view(*block);
    proof {
        lemma_find_nul(s);
    }
    let n = remaining(block);
    let mut nul_at: usize = 0;
    while nul_at < n && crate::buf::byte_at(block, nul_at) != 0
        invariant
            nul_at <= n,
            n == s.len(),
            forall|j: int| 0 <= j < nul_at ==> s[j] != 0,
        decreases n - nul_at,
    {
        nul_at = nul_at + 1;
    }
    if nul_at == n {
        proof {
            assert(find_nul(s) < 0);
        }
        return Ok(Vec::new());
    }
    proof {
        assert(find_nul(s) == nul_at as int);
    }
    let line = split_to(block, nul_at);
    crate::buf::advance(block, 1);
    proof {
        assert(bytes_view(*block) =~= s.skip(nul_at + 1));
    }
    let keys = get_td_keys(&line)?;
    let rest = get_td_lines(block)?;
    let ghost rest_view = rest@.map_values(|l: Vec<TagKey>| l@);
    let mut lines = rest;
    lines.insert(0, keys);
    proof {
        assert(lines@.map_values(|l: Vec<TagKey>| l@) =~= seq![
            parse_td_keys(s.take(nul_at as int))->Ok_0,
        ] + rest_view);
    }
    Ok(lines)
}

/// The booleans, matrix bytes and dictionary lines a preservation-map
/// block yields: flags default to true; the matrix and the dictionary must
/// both appear.
pub struct PmFields {
    /// `RN`.
    pub read_names_included: bool,
    /// `AP`.
    pub ap_data_series_delta: bool,
    /// `RR`.
    pub reference_required: bool,
    /// `SM`, decoded.
    pub substitution_matrix: Option<Seq<Base>>,
    /// `TD`, decoded.
    pub tag_ids_dictionary: Option<Seq<Seq<TagKey>>>,
}

/// One map value folded into the running fields; yields the fields and the
/// bytes the value occupied. A flag byte past one is invalid; values cut
/// short are an unexpected end.
pub open spec fn pm_step(s: Seq<u8>, key: int, st: PmFields) -> Result<(PmFields, int), ReadError> {
    if key == 0 || key == 1 || key == 2 {
        if s.len() < 1 {
            Err(ReadError::UnexpectedEof)
        } else if s[0] > 1 {
            Err(ReadError::InvalidData)
        } else {
            let v = s[0] == 1;
            Ok(
                (
                    if key == 0 {
                        PmFields { read_names_included: v, ..st }
                    } else if key == 1 {
                        PmFields { ap_data_series_delta: v, ..st }
                    } else {
                        PmFields { reference_required: v, ..st }
                    },
                    1,
                ),
            )
        }
    } else if key == 3 {
        if s.len() < 5 {
            Err(ReadError::UnexpectedEof)
        } else {
            Ok(
                (
                    PmFields { substitution_matrix: Some(matrix_from_bytes(s.take(5))), ..st },
                    5,
                ),
            )
        }
    } else {
        match parse_itf8(s) {
            None => Err(ReadError::UnexpectedEof),
            Some((data_len, n)) => if data_len < 0 {
                Err(ReadError::InvalidData)
            } else if s.len() - n < data_len {
                Err(ReadError::UnexpectedEof)
            } else {
                match parse_td_lines(s.skip(n).take(data_len as int)) {
                    Err(e) => Err(e),
                    Ok(lines) => Ok(
                        (PmFields { tag_ids_dictionary: Some(lines), ..st }, n + data_len),
                    ),
                }
            },
        }
    }
}

/// One whole map entry: key and value. Yields the new fields and the
/// bytes the entry occupied.
pub open spec fn pm_entry_once(s: Seq<u8>, st: PmFields) -> Result<(PmFields, int), ReadError> {
    if s.len() < 2 {
        Err(ReadError::UnexpectedEof)
    } else {
        match pm_key_ord(s[0], s[1]) {
            None => Err(ReadError::InvalidData),
            Some(key) => match pm_step(s.skip(2), key, st) {
                Err(e) => Err(e),
                Ok((st2, n)) => Ok((st2, 2 + n)),
            },
        }
    }
}

/// `count` preservation-map entries folded into the fields.
pub open spec fn pm_entries(s: Seq<u8>, count: int, st: PmFields) -> Result<PmFields, ReadError>
    decreases count,
{
    if count <= 0 {
        Ok(st)
    } else {
        match pm_entry_once(s, st) {
            Err(e) => Err(e),
            Ok((st2, n)) => pm_entries(s.skip(n), count - 1, st2),
        }
    }
}

/// The fields gathered so far while reading a map.
struct PmAcc {
    read_names_included: bool,
    ap_data_series_delta: bool,
    reference_required: bool,
    substitution_matrix: Option<SubstitutionMatrix>,
    tag_ids_dictionary: Option<TagIdsDictionary>,
}

/// What the gathered fields denote.
spec fn pm_acc_view(a: &PmAcc) -> PmFields {
    PmFields {
        read_names_included: a.read_names_included,
        ap_data_series_delta: a.ap_data_series_delta,
        reference_required: a.reference_required,
        substitution_matrix: match a.substitution_matrix {
            Some(m) => Some(m.substitutions@),
            None => None,
        },
        tag_ids_dictionary: match a.tag_ids_dictionary {
            Some(d) => Some(td_view(&d)),
            None => None,
        },
    }
}

/// Reads one key-value entry into the gathered fields.
#[verifier::rlimit(100)]
fn get_pm_entry(buf: &mut Bytes, acc: &mut PmAcc) -> (r: Result<(), ReadError>)
    ensures
        match pm_entry_once(bytes_view(*old(buf)), pm_acc_view(&*old(acc))) {
            Ok((st2, n)) => r == Ok::<(), ReadError>(()) && pm_acc_view(&*final(acc)) == st2
                && bytes_view(*final(buf)) == bytes_view(*old(buf)).skip(n),
            Err(e) => r == Err::<(), ReadError>(e),
        },
{
    let ghost cur = bytes_view(*buf);
    if remaining(buf) < 2 {
        return Err(ReadError::UnexpectedEof);
    }
    let b0 = get_u8(buf);
    let b1 = get_u8(buf);
    proof {
        assert(cur.skip(1)[0] == cur[1]);
        assert(cur.skip(1).skip(1) =~= cur.skip(2));
    }
    let key = match key_from_bytes(b0, b1) {
        Some(key) => key,
        None => {
            return Err(ReadError::InvalidData);
        },
    };
    let ghost val = cur.skip(2);
    match key {
        Key::ReadNamesIncluded => {
            acc.read_names_included = get_bool(buf)?;
            proof {
                assert(val.skip(1) =~= cur.skip(3int));
            }
        },
        Key::ApDataSeriesDelta => {
            acc.ap_data_series_delta = get_bool(buf)?;
            proof {
                assert(val.skip(1) =~= cur.skip(3int));
            }
        },
        Key::ReferenceRequired => {
            acc.reference_required = get_bool(buf)?;
            proof {
                assert(val.skip(1) =~= cur.skip(3int));
            }
        },
        Key::SubstitutionMatrix => {
            let m = get_substitution_matrix(buf)?;
            acc.substitution_matrix = Some(m);
            proof {
                assert(val.skip(5) =~= cur.skip(7int));
            }
        },
        Key::TagIdsDictionary => {
            let ghost vn = match parse_itf8(val) {
                Some((dl, m)) => m + dl,
                None => 0,
            };
            let d = get_tag_ids_dictionary(buf)?;
            acc.tag_ids_dictionary = Some(d);
            proof {
                assert(val.skip(vn) =~= cur.skip(2 + vn));
            }
        },
    }
    Ok(())
}

/// Reads a whole preservation map from the front of a sequence: the fields
/// and the bytes consumed. `None` when the input ends early, a key is
/// unknown, a value is malformed, or the matrix or dictionary is missing.
/// A preservation-map block after its length prefix: the entry count, the
/// entries, and the check that the matrix and the dictionary both arrived.
pub open spec fn parse_pm_block(block: Seq<u8>) -> Result<PmFields, ReadError> {
    match parse_itf8(block) {
        None => Err(ReadError::UnexpectedEof),
        Some((count, n2)) => if count < 0 {
            Err(ReadError::InvalidData)
        } else {
            match pm_entries(
                block.skip(n2),
                count as int,
                PmFields {
                    read_names_included: true,
                    ap_data_series_delta: true,
                    reference_required: true,
                    substitution_matrix: None,
                    tag_ids_dictionary: None,
                },
            ) {
                Err(e) => Err(e),
                Ok(st) => if st.substitution_matrix is Some && st.tag_ids_dictionary is Some {
                    Ok(st)
                } else {
                    Err(ReadError::InvalidData)
                },
            }
        },
    }
}

pub open spec fn parse_pm(s: Seq<u8>) -> Result<(PmFields, int), ReadError> {
    match parse_itf8(s) {
        None => Err(ReadError::UnexpectedEof),
        Some((data_len, n1)) => if data_len < 0 {
            Err(ReadError::InvalidData)
        } else if s.len() - n1 < data_len {
            Err(ReadError::UnexpectedEof)
        } else {
            match parse_pm_block(s.skip(n1).take(data_len as int)) {
                Err(e) => Err(e),
                Ok(st) => Ok((st, n1 + data_len)),
            }
        },
    }
}

/// The preservation map: the three flags, the substitution matrix and the
/// tag-IDs dictionary.
#[derive(Debug, PartialEq, Eq)]
pub struct PreservationMap {
    /// Read names are stored.
    pub read_names_included: bool,
    /// Alignment starts are stored as deltas from the previous record.
    pub ap_data_series_delta: bool,
    /// Decoding needs the reference sequence.
    pub reference_required: bool,
    /// The substitution matrix.
    pub substitution_matrix: SubstitutionMatrix,
    /// The tag-IDs dictionary.
    pub tag_ids_dictionary: TagIdsDictionary,
}

impl PreservationMap {
    /// Bundles the five fields.
    pub fn new(
        read_names_included: bool,
        ap_data_series_delta: bool,
        reference_required: bool,
        substitution_matrix: SubstitutionMatrix,
        tag_ids_dictionary: TagIdsDictionary,
    ) -> (m: PreservationMap)
        ensures
            m.read_names_included == read_names_included,
            m.ap_data_series_delta == ap_data_series_delta,
            m.reference_required == reference_required,
            m.substitution_matrix == substitution_matrix,
            m.tag_ids_dictionary == tag_ids_dictionary,
    {
        PreservationMap {
            read_names_included,
            ap_data_series_delta,
            reference_required,
            substitution_matrix,
            tag_ids_dictionary,
        }
    }
}

/// Reads one boolean value byte: zero false, one true, anything else
/// invalid.
pub fn get_bool(src: &mut Bytes) -> (r: Result<bool, ReadError>)
    ensures
        ({
            let s = bytes_view(*old(src));
            if s.len() < 1 {
                r == Err::<bool, ReadError>(ReadError::UnexpectedEof)
            } else if s[0] > 1 {
                r == Err::<bool, ReadError>(ReadError::InvalidData)
            } else {
                r == Ok::<bool, ReadError>(s[0] == 1) && bytes_view(*final(src)) == s.skip(1)
            }
        }),
{
    if remaining(src) < 1 {
        return Err(ReadError::UnexpectedEof);
    }
    let b = get_u8(src);
    if b == 0 {
        Ok(false)
    } else if b == 1 {
        Ok(true)
    } else {
        Err(ReadError::InvalidData)
    }
}

/// Reads the five packed substitution-matrix bytes.
pub fn get_substitution_matrix(src: &mut Bytes) -> (r: Result<SubstitutionMatrix, ReadError>)
    ensures
        ({
            let s = bytes_view(*old(src));
            if s.len() < 5 {
                r == Err::<SubstitutionMatrix, ReadError>(ReadError::UnexpectedEof)
            } else {
                r matches Ok(m) && m.substitutions@ == matrix_from_bytes(s.take(5))
                    && bytes_view(*final(src)) == s.skip(5)
            }
        }),
{
    let ghost s = bytes_view(*src);
    if remaining(src) < 5 {
        return Err(ReadError::UnexpectedEof);
    }
    let b0 = get_u8(src);
    let b1 = get_u8(src);
    let b2 = get_u8(src);
    let b3 = get_u8(src);
    let b4 = get_u8(src);
    proof {
        assert(s.skip(1)[0] == s[1] && s.skip(1).skip(1)[0] == s[2] && s.skip(1).skip(1).skip(
            1,
        )[0] == s[3] && s.skip(1).skip(1).skip(1).skip(1)[0] == s[4]);
        assert(bytes_view(*src) =~= s.skip(5));
    }
    let bytes: [u8; 5] = [b0, b1, b2, b3, b4];
    let m = SubstitutionMatrix::from_bytes(bytes);
    proof {
        assert(bytes@ =~= s.take(5));
    }
    Ok(m)
}

/// Reads a TD value: an ITF8 byte length, then NUL-delimited lines.
pub fn get_tag_ids_dictionary(src: &mut Bytes) -> (r: Result<TagIdsDictionary, ReadError>)
    ensures
        ({
            let s = bytes_view(*old(src));
            match parse_itf8(s) {
                None => r == Err::<TagIdsDictionary, ReadError>(ReadError::UnexpectedEof),
                Some((data_len, n)) => if data_len < 0 {
                    r == Err::<TagIdsDictionary, ReadError>(ReadError::InvalidData) && bytes_view(
                        *final(src),
                    ) == s.skip(n)
                } else if s.len() - n < data_len {
                    r == Err::<TagIdsDictionary, ReadError>(ReadError::UnexpectedEof)
                        && bytes_view(*final(src)) == s.skip(n)
                } else {
                    bytes_view(*final(src)) == s.skip(n + data_len) && match parse_td_lines(
                        s.skip(n).take(data_len as int),
                    ) {
                        Err(e) => r == Err::<TagIdsDictionary, ReadError>(e),
                        Ok(lines) => r matches Ok(d) && td_view(&d) == lines,
                    }
                },
            }
        }),
{
    let ghost s = bytes_view(*src);
    proof {
        lemma_parse_itf8_len(s);
    }
    let data_len_raw = get_itf8(src)?;
    if data_len_raw < 0 {
        return Err(ReadError::InvalidData);
    }
    let ghost n = parse_itf8(s).unwrap().1;
    let data_len = data_len_raw as usize;
    if remaining(src) < data_len {
        return Err(ReadError::UnexpectedEof);
    }
    let mut block = split_to(src, data_len);
    proof {
        assert(bytes_view(block) =~= s.skip(n).take(data_len_raw as int));
        assert(s.skip(n).skip(data_len_raw as int) =~= s.skip(n + data_len_raw));
    }
    let lines = get_td_lines(&mut block)?;
    Ok(TagIdsDictionary { lines })
}

/// Reads one preservation-map block: its entry count and entries.
#[verifier::loop_isolation(false)]
#[verifier::rlimit(100)]
fn get_pm_block(buf: &mut Bytes) -> (r: Result<PreservationMap, ReadError>)
    ensures
        match parse_pm_block(bytes_view(*old(buf))) {
            Ok(st) => r matches Ok(m) && m.read_names_included == st.read_names_included
                && m.ap_data_series_delta == st.ap_data_series_delta && m.reference_required
                == st.reference_required && Some(m.substitution_matrix.substitutions@)
                == st.substitution_matrix && Some(td_view(&m.tag_ids_dictionary))
                == st.tag_ids_dictionary,
            Err(e) => r == Err::<PreservationMap, ReadError>(e),
        },
{
    let ghost block = bytes_view(*buf);
    proof {
        lemma_parse_itf8_len(block);
    }
    let count = get_itf8(buf)?;
    if count < 0 {
        return Err(ReadError::InvalidData);
    }
    let ghost n2 = parse_itf8(block).unwrap().1;

    let mut acc = PmAcc {
        read_names_included: true,
        ap_data_series_delta: true,
        reference_required: true,
        substitution_matrix: None,
        tag_ids_dictionary: None,
    };
    let ghost init = pm_acc_view(&acc);

    let mut i: i32 = 0;
    while i < count
        invariant
            0 <= i <= count,
            match pm_entries(bytes_view(*buf), count - i, pm_acc_view(&acc)) {
                Ok(fin) => pm_entries(block.skip(n2), count as int, init) == Ok::<
                    PmFields,
                    ReadError,
                >(fin),
                Err(e) => pm_entries(block.skip(n2), count as int, init) == Err::<
                    PmFields,
                    ReadError,
                >(e),
            },
        decreases count - i,
    {
        get_pm_entry(buf, &mut acc)?;
        i = i + 1;
    }

    let substitution_matrix = match acc.substitution_matrix {
        Some(m) => m,
        None => {
            return Err(ReadError::InvalidData);
        },
    };
    let tag_ids_dictionary = match acc.tag_ids_dictionary {
        Some(d) => d,
        None => {
            return Err(ReadError::InvalidData);
        },
    };

    Ok(
        PreservationMap {
            read_names_included: acc.read_names_included,
            ap_data_series_delta: acc.ap_data_series_delta,
            reference_required: acc.reference_required,
            substitution_matrix,
            tag_ids_dictionary,
        },
    )
}

/// Deserializes a preservation map from the front of `src`.
pub fn get_preservation_map(src: &mut Bytes) -> (r: Result<PreservationMap, ReadError>)
    ensures
        match parse_pm(bytes_view(*old(src))) {
            Ok((st, n)) => r matches Ok(m) && m.read_names_included == st.read_names_included
                && m.ap_data_series_delta == st.ap_data_series_delta && m.reference_required
                == st.reference_required && Some(m.substitution_matrix.substitutions@)
                == st.substitution_matrix && Some(td_view(&m.tag_ids_dictionary))
                == st.tag_ids_dictionary && bytes_view(*final(src)) == bytes_view(
                *old(src),
            ).skip(n),
            Err(e) => r == Err::<PreservationMap, ReadError>(e),
        },
        ({
            let s0 = bytes_view(*old(src));
            match parse_itf8(s0) {
                Some((data_len, n1)) => if data_len >= 0 && s0.len() - n1 >= data_len {
                    bytes_view(*final(src)) == s0.skip(n1 + data_len)
                } else {
                    bytes_view(*final(src)) == s0.skip(n1)
                },
                None => true,
            }
        }),
{
    let ghost s0 = bytes_view(*src);
    proof {
        lemma_parse_itf8_len(s0);
    }
    let data_len_raw = get_itf8(src)?;
    if data_len_raw < 0 {
        return Err(ReadError::InvalidData);
    }
    let ghost n1 = parse_itf8(s0).unwrap().1;
    let data_len = data_len_raw as usize;
    if remaining(src) < data_len {
        return Err(ReadError::UnexpectedEof);
    }
    let mut buf = split_to(src, data_len);
    proof {
        assert(bytes_view(buf) =~= s0.skip(n1).take(data_len_raw as int));
        assert(s0.skip(n1).skip(data_len_raw as int) =~= s0.skip(n1 + data_len_raw));
    }
    get_pm_block(&mut buf)
}

/// The wire byte of a boolean value.
pub open spec fn bool_byte(b: bool) -> u8 {
    if b {
        1
    } else {
        0
    }
}

/// One dictionary line on the wire: its keys' three bytes each, in order.
pub open spec fn td_keys_wire(line: Seq<TagKey>) -> Seq<u8>
    decreases line.len(),
{
    if line.len() == 0 {
        Seq::empty()
    } else {
        td_keys_wire(line.drop_last()) + seq![
            line.last().tag0,
            line.last().tag1,
            line.last().ty,
        ]
    }
}

/// The dictionary on the wire: each line then a NUL.
pub open spec fn td_lines_wire(lines: Seq<Seq<TagKey>>) -> Seq<u8>
    decreases lines.len(),
{
    if lines.len() == 0 {
        Seq::empty()
    } else {
        td_lines_wire(lines.drop_last()) + td_keys_wire(lines.last()) + seq![0u8]
    }
}

/// The whole preservation-map block after its length prefix: the entry
/// count, then the five entries in the fixed order RN, AP, RR, SM, TD.
pub open spec fn pm_body(m: &PreservationMap) -> Seq<u8> {
    let td = td_lines_wire(td_view(&m.tag_ids_dictionary));
    itf8_bytes(5) + seq![0x52u8, 0x4e, bool_byte(m.read_names_included)] + seq![
        0x41u8,
        0x50,
        bool_byte(m.ap_data_series_delta),
    ] + seq![0x52u8, 0x52, bool_byte(m.reference_required)] + seq![0x53u8, 0x4d] + sm_wire(
        m.substitution_matrix.substitutions@,
    ) + seq![0x54u8, 0x44] + itf8_bytes(td.len() as i32) + td
}

/// Serializes a preservation map: an ITF8 byte length, then the five
/// entries. Every entry is written, booleans included.
#[verifier::loop_isolation(false)]
pub fn write_preservation_map(dst: &mut Vec<u8>, m: &PreservationMap) -> (r: Result<
    (),
    crate::encoding::WriteError,
>)
    requires
        m.substitution_matrix.wf(),
    ensures
        ({
            let td = td_lines_wire(td_view(&m.tag_ids_dictionary));
            let body = pm_body(m);
            if td.len() <= MAX_ITF8 && body.len() <= MAX_ITF8 {
                r == Ok::<(), crate::encoding::WriteError>(()) && final(dst)@ == old(dst)@
                    + itf8_bytes(body.len() as i32) + body
            } else {
                r == Err::<(), crate::encoding::WriteError>(
                    crate::encoding::WriteError::InvalidInput,
                ) && final(dst)@ == old(dst)@
            }
        }),
{
    let ghost lines_view = td_view(&m.tag_ids_dictionary);

    let mut td: Vec<u8> = Vec::new();
    let lines = &m.tag_ids_dictionary.lines;
    let mut i: usize = 0;
    while i < lines.len()
        invariant
            i <= lines@.len(),
            lines_view.len() == lines@.len(),
            forall|q: int| 0 <= q < lines@.len() ==> lines_view[q] == (#[trigger] lines@[q])@,
            td@ == td_lines_wire(lines_view.take(i as int)),
        decreases lines@.len() - i,
    {
        let line = &lines[i];
        let ghost line_view = line@;
        let mut j: usize = 0;
        while j < line.len()
            invariant
                j <= line@.len(),
                line_view == line@,
                td@ == td_lines_wire(lines_view.take(i as int)) + td_keys_wire(
                    line_view.take(j as int),
                ),
            decreases line@.len() - j,
        {
            let key = &line[j];
            td.push(key.tag0);
            td.push(key.tag1);
            td.push(key.ty);
            proof {
                assert(line_view.take(j + 1 as int).drop_last() =~= line_view.take(j as int));
                assert(td@ =~= td_lines_wire(lines_view.take(i as int)) + td_keys_wire(
                    line_view.take(j + 1 as int),
                ));
            }
            j = j + 1;
        }
        td.push(0);
        proof {
            assert(line_view.take(line_view.len() as int) =~= line_view);
            assert(lines_view.take(i + 1 as int).drop_last() =~= lines_view.take(i as int));
            assert(lines_view.take(i + 1 as int).last() == lines_view[i as int]);
            assert(td@ =~= td_lines_wire(lines_view.take(i + 1 as int)));
        }
        i = i + 1;
    }
    proof {
        assert(lines_view.take(lines_view.len() as int) =~= lines_view);
    }
    if td.len() > MAX_ITF8 {
        return Err(crate::encoding::WriteError::InvalidInput);
    }

    let mut body: Vec<u8> = Vec::new();
    write_itf8(&mut body, 5);
    body.push(0x52);
    body.push(0x4e);
    body.push(if m.read_names_included {
        1
    } else {
        0
    });
    body.push(0x41);
    body.push(0x50);
    body.push(if m.ap_data_series_delta {
        1
    } else {
        0
    });
    body.push(0x52);
    body.push(0x52);
    body.push(if m.reference_required {
        1
    } else {
        0
    });
    body.push(0x53);
    body.push(0x4d);
    let sm = m.substitution_matrix.to_bytes();
    body.extend_from_slice(sm.as_slice());
    body.push(0x54);
    body.push(0x44);
    write_itf8(&mut body, td.len() as i32);
    body.extend_from_slice(td.as_slice());
    proof {
        assert(body@ =~= pm_body(m));
    }

    if body.len() > MAX_ITF8 {
        return Err(crate::encoding::WriteError::InvalidInput);
    }
    write_itf8(dst, body.len() as i32);
    dst.extend_from_slice(body.as_slice());
    Ok(())
}

} // verus!
