//! The encoding algebra: the typed sum of per-series encodings and the
//! serialization of the self-describing encoding descriptor.
//!
//! On the wire a descriptor is an ITF8 kind tag followed, for every kind but
//! Null, by an args block prefixed with its own ITF8 byte length.

use vstd::prelude::*;

use bytes::Bytes;

use crate::buf::{bytes_view, get_u8, get_itf8, remaining, split_to, ReadError};
use crate::num::{itf8_bytes, parse_itf8, write_itf8};
use crate::sink::put_u8;

verus! {

/// The largest value ITF8 can carry, and so the largest args-block length
/// and the largest count a descriptor can state.
pub const MAX_ITF8: usize = 0x7fff_ffff;

/// A per-series encoding.
#[derive(Debug, PartialEq, Eq)]
#[verifier::ext_equal]
pub enum Encoding {
    /// No value is ever written or read.
    Null,
    /// Values pass through the external block with this content id.
    External(i32),
    /// Golomb coding over the core bit stream: offset, then `m`.
    Golomb(i32, i32),
    /// Canonical Huffman coding: the alphabet and one bit length per symbol.
    Huffman(Vec<i32>, Vec<u32>),
    /// A byte array as a length encoding followed by a value encoding.
    ByteArrayLen(Box<Encoding>, Box<Encoding>),
    /// A byte array terminated by a stop byte in an external block.
    ByteArrayStop(u8, i32),
    /// Fixed-width binary over the core bit stream: offset, then bit count.
    Beta(i32, u32),
    /// Subexponential coding over the core bit stream: offset, then `k`.
    Subexp(i32, i32),
    /// Golomb-Rice coding over the core bit stream: offset, then `log2(m)`.
    GolombRice(i32, i32),
    /// Elias gamma coding over the core bit stream: offset.
    Gamma(i32),
}

/// The mathematical shape of an [`Encoding`]: vectors become sequences.
#[verifier::ext_equal]
pub enum EncodingView {
    /// See [`Encoding::Null`].
    Null,
    /// See [`Encoding::External`].
    External(i32),
    /// See [`Encoding::Golomb`].
    Golomb(i32, i32),
    /// See [`Encoding::Huffman`].
    Huffman(Seq<i32>, Seq<u32>),
    /// See [`Encoding::ByteArrayLen`].
    ByteArrayLen(Box<EncodingView>, Box<EncodingView>),
    /// See [`Encoding::ByteArrayStop`].
    ByteArrayStop(u8, i32),
    /// See [`Encoding::Beta`].
    Beta(i32, u32),
    /// See [`Encoding::Subexp`].
    Subexp(i32, i32),
    /// See [`Encoding::GolombRice`].
    GolombRice(i32, i32),
    /// See [`Encoding::Gamma`].
    Gamma(i32),
}

impl View for Encoding {
    type V = EncodingView;

    open spec fn view(&self) -> EncodingView
        decreases self,
    {
        match self {
            Encoding::Null => EncodingView::Null,
            Encoding::External(block_content_id) => EncodingView::External(*block_content_id),
            Encoding::Golomb(offset, m) => EncodingView::Golomb(*offset, *m),
            Encoding::Huffman(alphabet, bit_lens) => EncodingView::Huffman(alphabet@, bit_lens@),
            Encoding::ByteArrayLen(len_encoding, value_encoding) => EncodingView::ByteArrayLen(
                Box::new((**len_encoding).view()),
                Box::new((**value_encoding).view()),
            ),
            Encoding::ByteArrayStop(stop_byte, block_content_id) => EncodingView::ByteArrayStop(
                *stop_byte,
                *block_content_id,
            ),
            Encoding::Beta(offset, len) => EncodingView::Beta(*offset, *len),
            Encoding::Subexp(offset, k) => EncodingView::Subexp(*offset, *k),
            Encoding::GolombRice(offset, log2_m) => EncodingView::GolombRice(*offset, *log2_m),
            Encoding::Gamma(offset) => EncodingView::Gamma(*offset),
        }
    }
}

/// The ITF8 kind tag a descriptor opens with.
pub open spec fn kind_id(e: EncodingView) -> i32 {
    match e {
        EncodingView::Null => 0,
        EncodingView::External(..) => 1,
        EncodingView::Golomb(..) => 2,
        EncodingView::Huffman(..) => 3,
        EncodingView::ByteArrayLen(..) => 4,
        EncodingView::ByteArrayStop(..) => 5,
        EncodingView::Beta(..) => 6,
        EncodingView::Subexp(..) => 7,
        EncodingView::GolombRice(..) => 8,
        EncodingView::Gamma(..) => 9,
    }
}

/// A size measure for termination of the recursion through ByteArrayLen.
pub open spec fn enc_size(e: EncodingView) -> nat
    decreases e,
{
    match e {
        EncodingView::ByteArrayLen(len_encoding, value_encoding) => 1 + enc_size(*len_encoding)
            + enc_size(*value_encoding),
        _ => 1,
    }
}

/// The concatenated ITF8 encodings of a sequence of values.
pub open spec fn itf8_seq(values: Seq<i32>) -> Seq<u8>
    decreases values.len(),
{
    if values.len() == 0 {
        Seq::empty()
    } else {
        itf8_bytes(values[0]) + itf8_seq(values.skip(1))
    }
}

/// `itf8_seq` distributes over appending one value at the back.
pub proof fn lemma_itf8_seq_snoc(values: Seq<i32>, x: i32)
    ensures
        itf8_seq(values.push(x)) == itf8_seq(values) + itf8_bytes(x),
    decreases values.len(),
{
    if values.len() == 0 {
        assert(values.push(x)[0] == x);
        assert(values.push(x).skip(1) =~= Seq::<i32>::empty());
        assert(itf8_seq(values.push(x)) == itf8_bytes(x) + itf8_seq(Seq::<i32>::empty()));
        assert(itf8_bytes(x) + Seq::<u8>::empty() =~= itf8_bytes(x));
        assert(Seq::<u8>::empty() + itf8_bytes(x) =~= itf8_bytes(x));
    } else {
        assert(values.push(x)[0] == values[0]);
        assert(values.push(x).skip(1) =~= values.skip(1).push(x));
        lemma_itf8_seq_snoc(values.skip(1), x);
        assert((itf8_bytes(values[0]) + itf8_seq(values.skip(1))) + itf8_bytes(x) =~= itf8_bytes(
            values[0],
        ) + (itf8_seq(values.skip(1)) + itf8_bytes(x)));
    }
}

/// The args block of a descriptor, or `None` where a length or parameter
/// falls outside ITF8's `i32` domain.
pub open spec fn enc_args(e: EncodingView) -> Option<Seq<u8>>
    decreases e, 0int,
{
    match e {
        EncodingView::Null => Some(Seq::empty()),
        EncodingView::External(block_content_id) => Some(itf8_bytes(block_content_id)),
        EncodingView::Golomb(offset, m) => Some(itf8_bytes(offset) + itf8_bytes(m)),
        EncodingView::Huffman(alphabet, bit_lens) => if alphabet.len() <= MAX_ITF8
            && bit_lens.len() <= MAX_ITF8 && (forall|i: int|
            0 <= i < bit_lens.len() ==> bit_lens[i] <= MAX_ITF8 as u32) {
            Some(
                itf8_bytes(alphabet.len() as i32) + itf8_seq(alphabet) + itf8_bytes(
                    bit_lens.len() as i32,
                ) + itf8_seq(bit_lens.map_values(|x: u32| x as i32)),
            )
        } else {
            None
        },
        EncodingView::ByteArrayLen(len_encoding, value_encoding) => match (
            enc_wire(*len_encoding),
            enc_wire(*value_encoding),
        ) {
            (Some(lw), Some(vw)) => Some(lw + vw),
            _ => None,
        },
        EncodingView::ByteArrayStop(stop_byte, block_content_id) => Some(
            seq![stop_byte] + itf8_bytes(block_content_id),
        ),
        EncodingView::Beta(offset, len) => if len <= MAX_ITF8 as u32 {
            Some(itf8_bytes(offset) + itf8_bytes(len as i32))
        } else {
            None
        },
        EncodingView::Subexp(offset, k) => Some(itf8_bytes(offset) + itf8_bytes(k)),
        EncodingView::GolombRice(offset, log2_m) => Some(itf8_bytes(offset) + itf8_bytes(log2_m)),
        EncodingView::Gamma(offset) => Some(itf8_bytes(offset)),
    }
}

/// The full wire form of a descriptor: kind, args length, args. Null is the
/// one kind written without an args block.
pub open spec fn enc_wire(e: EncodingView) -> Option<Seq<u8>>
    decreases e, 1int,
{
    if e is Null {
        Some(itf8_bytes(0))
    } else {
        match enc_args(e) {
            Some(args) => if args.len() <= MAX_ITF8 {
                Some(itf8_bytes(kind_id(e)) + itf8_bytes(args.len() as i32) + args)
            } else {
                None
            },
            None => None,
        }
    }
}

/// An error raised while serializing: a length or parameter exceeds the
/// range of ITF8's `i32` domain.
#[derive(Clone, Copy, Debug, PartialEq, Eq, Structural)]
pub enum WriteError {
    /// A count, length or parameter cannot be carried by ITF8.
    InvalidInput,
}

/// Writes a kind tag and a length-prefixed args block, or reports that the
/// args block is too long and leaves `dst` untouched.
pub fn write_args(dst: &mut Vec<u8>, kind: i32, args: &Vec<u8>) -> (r: Result<(), WriteError>)
    ensures
        if args@.len() <= MAX_ITF8 {
            r == Ok::<(), WriteError>(()) && final(dst)@ == old(dst)@ + itf8_bytes(kind)
                + itf8_bytes(args@.len() as i32) + args@
        } else {
            r == Err::<(), WriteError>(WriteError::InvalidInput) && final(dst)@ == old(dst)@
        },
{
    if args.len() > MAX_ITF8 {
        return Err(WriteError::InvalidInput);
    }
    write_itf8(dst, kind);
    write_itf8(dst, args.len() as i32);
    dst.extend_from_slice(args.as_slice());
    Ok(())
}

/// Writes the Null descriptor: a bare kind tag.
pub fn write_null_encoding(dst: &mut Vec<u8>) -> (r: Result<(), WriteError>)
    ensures
        r == Ok::<(), WriteError>(()),
        enc_wire(EncodingView::Null) matches Some(w) && final(dst)@ == old(dst)@ + w,
{
    write_itf8(dst, 0);
    Ok(())
}

/// Writes an External descriptor.
pub fn write_external_encoding(dst: &mut Vec<u8>, block_content_id: i32) -> (r: Result<
    (),
    WriteError,
>)
    ensures
        r == Ok::<(), WriteError>(()),
        enc_wire(EncodingView::External(block_content_id)) matches Some(w) && final(dst)@ == old(
            dst,
        )@ + w,
{
    let mut args: Vec<u8> = Vec::new();
    write_itf8(&mut args, block_content_id);
    write_args(dst, 1, &args)?;
    Ok(())
}

/// Writes a Golomb descriptor.
pub fn write_golomb_encoding(dst: &mut Vec<u8>, offset: i32, m: i32) -> (r: Result<
    (),
    WriteError,
>)
    ensures
        r == Ok::<(), WriteError>(()),
        enc_wire(EncodingView::Golomb(offset, m)) matches Some(w) && final(dst)@ == old(dst)@ + w,
{
    let mut args: Vec<u8> = Vec::new();
    write_itf8(&mut args, offset);
    write_itf8(&mut args, m);
    write_args(dst, 2, &args)?;
    Ok(())
}

/// Writes a Huffman descriptor: the alphabet, then the code lengths.
pub fn write_huffman_encoding(dst: &mut Vec<u8>, alphabet: &[i32], bit_lens: &[u32]) -> (r: Result<
    (),
    WriteError,
>)
    ensures
        match enc_wire(EncodingView::Huffman(alphabet@, bit_lens@)) {
            Some(w) => r == Ok::<(), WriteError>(()) && final(dst)@ == old(dst)@ + w,
            None => r == Err::<(), WriteError>(WriteError::InvalidInput) && final(dst)@ == old(
                dst,
            )@,
        },
{
    let mut args: Vec<u8> = Vec::new();

    if alphabet.len() > MAX_ITF8 {
        return Err(WriteError::InvalidInput);
    }
    write_itf8(&mut args, alphabet.len() as i32);

    let mut i: usize = 0;
    while i < alphabet.len()
        invariant
            i <= alphabet@.len() <= MAX_ITF8,
            args@ == itf8_bytes(alphabet@.len() as i32) + itf8_seq(alphabet@.take(i as int)),
        decreases alphabet@.len() - i,
    {
        write_itf8(&mut args, alphabet[i]);
        proof {
            lemma_itf8_seq_snoc(alphabet@.take(i as int), alphabet@[i as int]);
            assert(alphabet@.take(i + 1 as int) =~= alphabet@.take(i as int).push(
                alphabet@[i as int],
            ));
        }
        i = i + 1;
    }
    proof {
        assert(alphabet@.take(alphabet@.len() as int) =~= alphabet@);
    }

    if bit_lens.len() > MAX_ITF8 {
        return Err(WriteError::InvalidInput);
    }
    write_itf8(&mut args, bit_lens.len() as i32);

    let ghost lens_as_i32 = bit_lens@.map_values(|x: u32| x as i32);
    let mut j: usize = 0;
    while j < bit_lens.len()
        invariant
            j <= bit_lens@.len() <= MAX_ITF8,
            lens_as_i32 == bit_lens@.map_values(|x: u32| x as i32),
            forall|k: int| 0 <= k < j ==> bit_lens@[k] <= MAX_ITF8 as u32,
            args@ == itf8_bytes(alphabet@.len() as i32) + itf8_seq(alphabet@) + itf8_bytes(
                bit_lens@.len() as i32,
            ) + itf8_seq(lens_as_i32.take(j as int)),
            alphabet@.len() <= MAX_ITF8,
        decreases bit_lens@.len() - j,
    {
        let len = bit_lens[j];
        if len > MAX_ITF8 as u32 {
            return Err(WriteError::InvalidInput);
        }
        write_itf8(&mut args, len as i32);
        proof {
            lemma_itf8_seq_snoc(lens_as_i32.take(j as int), lens_as_i32[j as int]);
            assert(lens_as_i32.take(j + 1 as int) =~= lens_as_i32.take(j as int).push(
                lens_as_i32[j as int],
            ));
        }
        j = j + 1;
    }
    proof {
        assert(lens_as_i32.take(lens_as_i32.len() as int) =~= lens_as_i32);
    }

    write_args(dst, 3, &args)?;
    Ok(())
}

/// Writes a ByteArrayLen descriptor: the two sub-descriptors as args.
pub fn write_byte_array_len_encoding(
    dst: &mut Vec<u8>,
    len_encoding: &Encoding,
    value_encoding: &Encoding,
) -> (r: Result<(), WriteError>)
    ensures
        match enc_wire(
            EncodingView::ByteArrayLen(Box::new(len_encoding@), Box::new(value_encoding@)),
        ) {
            Some(w) => r == Ok::<(), WriteError>(()) && final(dst)@ == old(dst)@ + w,
            None => r == Err::<(), WriteError>(WriteError::InvalidInput) && final(dst)@ == old(
                dst,
            )@,
        },
    decreases enc_size(len_encoding@) + enc_size(value_encoding@),
{
    let mut args: Vec<u8> = Vec::new();
    write_encoding(&mut args, len_encoding)?;
    write_encoding(&mut args, value_encoding)?;
    write_args(dst, 4, &args)?;
    Ok(())
}

/// Writes a ByteArrayStop descriptor: the stop byte, then the block id.
pub fn write_byte_array_stop_encoding(
    dst: &mut Vec<u8>,
    stop_byte: u8,
    block_content_id: i32,
) -> (r: Result<(), WriteError>)
    ensures
        r == Ok::<(), WriteError>(()),
        enc_wire(EncodingView::ByteArrayStop(stop_byte, block_content_id)) matches Some(w)
            && final(dst)@ == old(dst)@ + w,
{
    let mut args: Vec<u8> = Vec::new();
    put_u8(&mut args, stop_byte);
    write_itf8(&mut args, block_content_id);
    write_args(dst, 5, &args)?;
    Ok(())
}

/// Writes a Beta descriptor: the offset, then the bit length.
pub fn write_beta_encoding(dst: &mut Vec<u8>, offset: i32, len: u32) -> (r: Result<
    (),
    WriteError,
>)
    ensures
        match enc_wire(EncodingView::Beta(offset, len)) {
            Some(w) => r == Ok::<(), WriteError>(()) && final(dst)@ == old(dst)@ + w,
            None => r == Err::<(), WriteError>(WriteError::InvalidInput) && final(dst)@ == old(
                dst,
            )@,
        },
{
    if len > MAX_ITF8 as u32 {
        return Err(WriteError::InvalidInput);
    }
    let mut args: Vec<u8> = Vec::new();
    write_itf8(&mut args, offset);
    write_itf8(&mut args, len as i32);
    write_args(dst, 6, &args)?;
    Ok(())
}

/// Writes a Subexp descriptor.
pub fn write_subexp_encoding(dst: &mut Vec<u8>, offset: i32, k: i32) -> (r: Result<
    (),
    WriteError,
>)
    ensures
        r == Ok::<(), WriteError>(()),
        enc_wire(EncodingView::Subexp(offset, k)) matches Some(w) && final(dst)@ == old(dst)@ + w,
{
    let mut args: Vec<u8> = Vec::new();
    write_itf8(&mut args, offset);
    write_itf8(&mut args, k);
    write_args(dst, 7, &args)?;
    Ok(())
}

/// Writes a GolombRice descriptor.
pub fn write_golomb_rice_encoding(dst: &mut Vec<u8>, offset: i32, log2_m: i32) -> (r: Result<
    (),
    WriteError,
>)
    ensures
        r == Ok::<(), WriteError>(()),
        enc_wire(EncodingView::GolombRice(offset, log2_m)) matches Some(w) && final(dst)@ == old(
            dst,
        )@ + w,
{
    let mut args: Vec<u8> = Vec::new();
    write_itf8(&mut args, offset);
    write_itf8(&mut args, log2_m);
    write_args(dst, 8, &args)?;
    Ok(())
}

/// Writes a Gamma descriptor.
pub fn write_gamma_encoding(dst: &mut Vec<u8>, offset: i32) -> (r: Result<(), WriteError>)
    ensures
        r == Ok::<(), WriteError>(()),
        enc_wire(EncodingView::Gamma(offset)) matches Some(w) && final(dst)@ == old(dst)@ + w,
{
    let mut args: Vec<u8> = Vec::new();
    write_itf8(&mut args, offset);
    write_args(dst, 9, &args)?;
    Ok(())
}

/// Serializes one encoding descriptor onto `dst`.
pub fn write_encoding(dst: &mut Vec<u8>, encoding: &Encoding) -> (r: Result<(), WriteError>)
    ensures
        match enc_wire(encoding@) {
            Some(w) => r == Ok::<(), WriteError>(()) && final(dst)@ == old(dst)@ + w,
            None => r == Err::<(), WriteError>(WriteError::InvalidInput) && final(dst)@ == old(
                dst,
            )@,
        },
    decreases enc_size(encoding@),
{
    match encoding {
        Encoding::Null => write_null_encoding(dst),
        Encoding::External(block_content_id) => write_external_encoding(dst, *block_content_id),
        Encoding::Golomb(offset, m) => write_golomb_encoding(dst, *offset, *m),
        Encoding::Huffman(alphabet, bit_lens) => write_huffman_encoding(
            dst,
            alphabet.as_slice(),
            bit_lens.as_slice(),
        ),
        Encoding::ByteArrayLen(len_encoding, value_encoding) => write_byte_array_len_encoding(
            dst,
            len_encoding,
            value_encoding,
        ),
        Encoding::ByteArrayStop(stop_byte, block_content_id) => write_byte_array_stop_encoding(
            dst,
            *stop_byte,
            *block_content_id,
        ),
        Encoding::Beta(offset, len) => write_beta_encoding(dst, *offset, *len),
        Encoding::Subexp(offset, k) => write_subexp_encoding(dst, *offset, *k),
        Encoding::GolombRice(offset, log2_m) => write_golomb_rice_encoding(
            dst,
            *offset,
            *log2_m,
        ),
        Encoding::Gamma(offset) => write_gamma_encoding(dst, *offset),
    }
}

/// Reads `count` consecutive ITF8 values from the front of a sequence;
/// input that runs out is an unexpected end.
pub open spec fn parse_itf8_seq(s: Seq<u8>, count: int) -> Result<(Seq<i32>, int), ReadError>
    decreases count,
{
    if count <= 0 {
        Ok((Seq::empty(), 0))
    } else {
        match parse_itf8(s) {
            None => Err(ReadError::UnexpectedEof),
            Some((value, n)) => match parse_itf8_seq(s.skip(n), count - 1) {
                Err(e) => Err(e),
                Ok((values, m)) => Ok((seq![value] + values, n + m)),
            },
        }
    }
}

/// A successful ITF8 parse consumes one to five bytes, all available.
pub proof fn lemma_parse_itf8_len(s: Seq<u8>)
    ensures
        parse_itf8(s) matches Some((value, n)) ==> 1 <= n <= 5 && n <= s.len(),
{
}

/// A successful ITF8-sequence parse yields `count` values within the input.
pub proof fn lemma_parse_itf8_seq_len(s: Seq<u8>, count: int)
    ensures
        parse_itf8_seq(s, count) matches Ok((values, m)) ==> 0 <= m <= s.len() && values.len()
            == if count >= 0 {
            count
        } else {
            0
        },
    decreases count,
{
    if count > 0 {
        if let Some((value, n)) = parse_itf8(s) {
            lemma_parse_itf8_len(s);
            lemma_parse_itf8_seq_len(s.skip(n), count - 1);
        }
    }
}

/// The External args block: one ITF8 block content id, consumed exactly.
pub open spec fn parse_args_external(args: Seq<u8>) -> Result<EncodingView, ReadError> {
    match parse_itf8(args) {
        None => Err(ReadError::UnexpectedEof),
        Some((block_content_id, m1)) => if m1 == args.len() {
            Ok(EncodingView::External(block_content_id))
        } else {
            Err(ReadError::InvalidData)
        },
    }
}

/// An args block of exactly two ITF8 values, as Golomb, Subexp, GolombRice
/// and Beta carry.
pub open spec fn parse_args_pair(args: Seq<u8>) -> Result<(i32, i32), ReadError> {
    match parse_itf8(args) {
        None => Err(ReadError::UnexpectedEof),
        Some((first, m1)) => match parse_itf8(args.skip(m1)) {
            None => Err(ReadError::UnexpectedEof),
            Some((second, m2)) => if m1 + m2 == args.len() {
                Ok((first, second))
            } else {
                Err(ReadError::InvalidData)
            },
        },
    }
}

/// The Huffman args block: a counted alphabet, then counted code lengths,
/// consumed exactly; lengths must be non-negative.
pub open spec fn parse_args_huffman(args: Seq<u8>) -> Result<EncodingView, ReadError> {
    match parse_itf8(args) {
        None => Err(ReadError::UnexpectedEof),
        Some((alphabet_len, m1)) => if alphabet_len < 0 {
            Err(ReadError::InvalidData)
        } else {
            match parse_itf8_seq(args.skip(m1), alphabet_len as int) {
                Err(e) => Err(e),
                Ok((alphabet, m2)) => match parse_itf8(args.skip(m1 + m2)) {
                    None => Err(ReadError::UnexpectedEof),
                    Some((lens_len, m3)) => if lens_len < 0 {
                        Err(ReadError::InvalidData)
                    } else {
                        match parse_itf8_seq(args.skip(m1 + m2 + m3), lens_len as int) {
                            Err(e) => Err(e),
                            Ok((lens, m4)) => if m1 + m2 + m3 + m4 == args.len() && (forall|
                                i: int,
                            |
                                0 <= i < lens.len() ==> lens[i] >= 0) {
                                Ok(
                                    EncodingView::Huffman(
                                        alphabet,
                                        lens.map_values(|x: i32| x as u32),
                                    ),
                                )
                            } else {
                                Err(ReadError::InvalidData)
                            },
                        }
                    },
                },
            }
        },
    }
}

/// The ByteArrayLen args block: two nested descriptors, consumed exactly.
pub open spec fn parse_args_byte_array_len(args: Seq<u8>) -> Result<EncodingView, ReadError>
    decreases args.len(), 1int,
{
    match parse_encoding(args) {
        Err(e) => Err(e),
        Ok((len_encoding, m1)) => if !(1 <= m1 <= args.len()) {
            Err(ReadError::InvalidData)
        } else {
            match parse_encoding(args.skip(m1)) {
                Err(e) => Err(e),
                Ok((value_encoding, m2)) => if m1 + m2 == args.len() {
                    Ok(
                        EncodingView::ByteArrayLen(
                            Box::new(len_encoding),
                            Box::new(value_encoding),
                        ),
                    )
                } else {
                    Err(ReadError::InvalidData)
                },
            }
        },
    }
}

/// The ByteArrayStop args block: the stop byte, then an ITF8 block id.
pub open spec fn parse_args_byte_array_stop(args: Seq<u8>) -> Result<EncodingView, ReadError> {
    if args.len() < 1 {
        Err(ReadError::UnexpectedEof)
    } else {
        match parse_itf8(args.skip(1)) {
            None => Err(ReadError::UnexpectedEof),
            Some((block_content_id, m1)) => if 1 + m1 == args.len() {
                Ok(EncodingView::ByteArrayStop(args[0], block_content_id))
            } else {
                Err(ReadError::InvalidData)
            },
        }
    }
}

/// The Gamma args block: one ITF8 offset, consumed exactly.
pub open spec fn parse_args_gamma(args: Seq<u8>) -> Result<EncodingView, ReadError> {
    match parse_itf8(args) {
        None => Err(ReadError::UnexpectedEof),
        Some((offset, m1)) => if m1 == args.len() {
            Ok(EncodingView::Gamma(offset))
        } else {
            Err(ReadError::InvalidData)
        },
    }
}

/// Interprets an args block under a kind tag. An unknown kind, a negative
/// count or parameter out of domain, and a block not consumed exactly are
/// invalid; input that runs out is an unexpected end.
pub open spec fn parse_enc_args(kind: i32, args: Seq<u8>) -> Result<EncodingView, ReadError>
    decreases args.len(), 2int,
{
    if kind == 1 {
        parse_args_external(args)
    } else if kind == 2 {
        match parse_args_pair(args) {
            Ok((offset, m)) => Ok(EncodingView::Golomb(offset, m)),
            Err(e) => Err(e),
        }
    } else if kind == 3 {
        parse_args_huffman(args)
    } else if kind == 4 {
        parse_args_byte_array_len(args)
    } else if kind == 5 {
        parse_args_byte_array_stop(args)
    } else if kind == 6 {
        match parse_args_pair(args) {
            Ok((offset, len)) => if len >= 0 {
                Ok(EncodingView::Beta(offset, len as u32))
            } else {
                Err(ReadError::InvalidData)
            },
            Err(e) => Err(e),
        }
    } else if kind == 7 {
        match parse_args_pair(args) {
            Ok((offset, k)) => Ok(EncodingView::Subexp(offset, k)),
            Err(e) => Err(e),
        }
    } else if kind == 8 {
        match parse_args_pair(args) {
            Ok((offset, log2_m)) => Ok(EncodingView::GolombRice(offset, log2_m)),
            Err(e) => Err(e),
        }
    } else if kind == 9 {
        parse_args_gamma(args)
    } else {
        Err(ReadError::InvalidData)
    }
}

/// Reads one encoding descriptor from the front of a sequence: the
/// descriptor and the number of bytes it occupied. Input that ends early
/// is an unexpected end; an unknown kind, a negative length, and an args
/// block not consumed exactly are invalid.
pub open spec fn parse_encoding(s: Seq<u8>) -> Result<(EncodingView, int), ReadError>
    decreases s.len(), 0int,
{
    match parse_itf8(s) {
        None => Err(ReadError::UnexpectedEof),
        Some((kind, n1)) => if kind == 0 {
            Ok((EncodingView::Null, n1))
        } else {
            match parse_itf8(s.skip(n1)) {
                None => Err(ReadError::UnexpectedEof),
                Some((args_len, n2)) => if args_len < 0 {
                    Err(ReadError::InvalidData)
                } else if s.len() - n1 - n2 < args_len {
                    Err(ReadError::UnexpectedEof)
                } else {
                    match parse_enc_args(kind, s.skip(n1 + n2).take(args_len as int)) {
                        Ok(e) => Ok((e, n1 + n2 + args_len)),
                        Err(e) => Err(e),
                    }
                },
            }
        },
    }
}

/// A successful descriptor parse consumes at least one byte, all available.
pub proof fn lemma_parse_encoding_len(s: Seq<u8>)
    ensures
        parse_encoding(s) matches Ok((e, n)) ==> 1 <= n <= s.len(),
{
    if let Some((kind, n1)) = parse_itf8(s) {
        lemma_parse_itf8_len(s);
        if kind != 0 {
            if let Some((args_len, n2)) = parse_itf8(s.skip(n1)) {
                lemma_parse_itf8_len(s.skip(n1));
            }
        }
    }
}

/// Reads `count` consecutive ITF8 values from the front of `src`.
#[verifier::loop_isolation(false)]
pub fn get_itf8_vec(src: &mut Bytes, count: usize) -> (r: Result<Vec<i32>, ReadError>)
    ensures
        match parse_itf8_seq(bytes_view(*old(src)), count as int) {
            Ok((values, m)) => r matches Ok(v) && v@ == values && bytes_view(*final(src))
                == bytes_view(*old(src)).skip(m),
            Err(e) => r == Err::<Vec<i32>, ReadError>(e),
        },
{
    let ghost s0 = bytes_view(*src);
    let mut values: Vec<i32> = Vec::new();
    let ghost mut consumed: int = 0;
    let mut i: usize = 0;
    while i < count
        invariant
            i <= count,
            values@.len() == i,
            0 <= consumed <= s0.len(),
            bytes_view(*src) == s0.skip(consumed),
            match parse_itf8_seq(bytes_view(*src), count - i) {
                Ok((vs, m)) => parse_itf8_seq(s0, count as int) == Ok::<(Seq<i32>, int), ReadError>(
                    (values@ + vs, consumed + m),
                ),
                Err(e) => parse_itf8_seq(s0, count as int) == Err::<(Seq<i32>, int), ReadError>(e),
            },
        decreases count - i,
    {
        let ghost cur = bytes_view(*src);
        let ghost old_values = values@;
        let value = match get_itf8(src) {
            Ok(value) => value,
            Err(e) => {
                proof {
                    assert(parse_itf8_seq(cur, count - i) == Err::<(Seq<i32>, int), ReadError>(
                        ReadError::UnexpectedEof,
                    ));
                }
                return Err(e);
            },
        };
        values.push(value);
        proof {
            let (v0, n) = parse_itf8(cur).unwrap();
            lemma_parse_itf8_len(cur);
            assert(cur.skip(n) =~= s0.skip(consumed + n));
            consumed = consumed + n;
            match parse_itf8_seq(bytes_view(*src), count - i - 1) {
                Ok((vs2, m2)) => {
                    assert(parse_itf8_seq(cur, count - i) == Ok::<(Seq<i32>, int), ReadError>(
                        (seq![v0] + vs2, n + m2),
                    ));
                    assert(old_values + (seq![v0] + vs2) =~= values@ + vs2);
                },
                Err(_) => {},
            }
        }
        i = i + 1;
    }
    proof {
        assert(values@ + Seq::<i32>::empty() =~= values@);
    }
    Ok(values)
}

/// Reads an External args block, requiring exact consumption.
fn get_args_external(args: &mut Bytes) -> (r: Result<Encoding, ReadError>)
    ensures
        match parse_args_external(bytes_view(*old(args))) {
            Ok(e) => r matches Ok(enc) && enc@ == e,
            Err(e) => r == Err::<Encoding, ReadError>(e),
        },
{
    let ghost args0 = bytes_view(*args);
    proof {
        lemma_parse_itf8_len(args0);
    }
    let block_content_id = get_itf8(args)?;
    if remaining(args) != 0 {
        return Err(ReadError::InvalidData);
    }
    Ok(Encoding::External(block_content_id))
}

/// Reads an args block of exactly two ITF8 values.
fn get_args_pair(args: &mut Bytes) -> (r: Result<(i32, i32), ReadError>)
    ensures
        match parse_args_pair(bytes_view(*old(args))) {
            Ok(pair) => r == Ok::<(i32, i32), ReadError>(pair),
            Err(e) => r == Err::<(i32, i32), ReadError>(e),
        },
{
    let ghost args0 = bytes_view(*args);
    proof {
        lemma_parse_itf8_len(args0);
    }
    let first = get_itf8(args)?;
    let second = get_itf8(args)?;
    proof {
        if let Some((_, m1)) = parse_itf8(args0) {
            lemma_parse_itf8_len(args0.skip(m1));
            if let Some((_, m2)) = parse_itf8(args0.skip(m1)) {
                assert(args0.skip(m1).skip(m2) =~= args0.skip(m1 + m2));
            }
        }
    }
    if remaining(args) != 0 {
        return Err(ReadError::InvalidData);
    }
    Ok((first, second))
}

/// Reads a Huffman args block, requiring exact consumption.
#[verifier::loop_isolation(false)]
#[verifier::rlimit(100)]
fn get_args_huffman(args: &mut Bytes) -> (r: Result<Encoding, ReadError>)
    ensures
        match parse_args_huffman(bytes_view(*old(args))) {
            Ok(e) => r matches Ok(enc) && enc@ == e,
            Err(e) => r == Err::<Encoding, ReadError>(e),
        },
{
    let ghost args0 = bytes_view(*args);
    proof {
        lemma_parse_itf8_len(args0);
    }
    let alphabet_len = get_itf8(args)?;
    if alphabet_len < 0 {
        return Err(ReadError::InvalidData);
    }
    let ghost m1 = parse_itf8(args0).unwrap().1;
    proof {
        lemma_parse_itf8_seq_len(args0.skip(m1), alphabet_len as int);
    }
    let alphabet = get_itf8_vec(args, alphabet_len as usize)?;
    let ghost m2 = parse_itf8_seq(args0.skip(m1), alphabet_len as int)->Ok_0.1;
    proof {
        assert(args0.skip(m1).skip(m2) =~= args0.skip(m1 + m2));
        lemma_parse_itf8_len(args0.skip(m1 + m2));
    }
    let lens_len = get_itf8(args)?;
    if lens_len < 0 {
        return Err(ReadError::InvalidData);
    }
    let ghost m3 = parse_itf8(args0.skip(m1 + m2)).unwrap().1;
    proof {
        assert(args0.skip(m1 + m2).skip(m3) =~= args0.skip(m1 + m2 + m3));
        lemma_parse_itf8_seq_len(args0.skip(m1 + m2 + m3), lens_len as int);
    }
    let lens_raw = get_itf8_vec(args, lens_len as usize)?;
    let ghost m4 = parse_itf8_seq(args0.skip(m1 + m2 + m3), lens_len as int)->Ok_0.1;
    proof {
        assert(args0.skip(m1 + m2 + m3).skip(m4) =~= args0.skip(m1 + m2 + m3 + m4));
    }
    if remaining(args) != 0 {
        return Err(ReadError::InvalidData);
    }

    let mut bit_lens: Vec<u32> = Vec::new();
    let mut j: usize = 0;
    while j < lens_raw.len()
        invariant
            j <= lens_raw@.len(),
            forall|k: int| 0 <= k < j ==> lens_raw@[k] >= 0,
            bit_lens@ == lens_raw@.take(j as int).map_values(|x: i32| x as u32),
        decreases lens_raw@.len() - j,
    {
        let len = lens_raw[j];
        if len < 0 {
            proof {
                assert(0 <= j < lens_raw@.len() && lens_raw@[j as int] < 0);
            }
            return Err(ReadError::InvalidData);
        }
        bit_lens.push(len as u32);
        proof {
            assert(lens_raw@.take(j + 1 as int).map_values(|x: i32| x as u32)
                =~= lens_raw@.take(j as int).map_values(|x: i32| x as u32).push(
                lens_raw@[j as int] as u32,
            ));
        }
        j = j + 1;
    }
    proof {
        assert(lens_raw@.take(lens_raw@.len() as int) =~= lens_raw@);
        assert(EncodingView::Huffman(alphabet@, bit_lens@) =~= EncodingView::Huffman(
            alphabet@,
            lens_raw@.map_values(|x: i32| x as u32),
        ));
    }
    Ok(Encoding::Huffman(alphabet, bit_lens))
}

/// Reads a ByteArrayStop args block, requiring exact consumption.
fn get_args_byte_array_stop(args: &mut Bytes) -> (r: Result<Encoding, ReadError>)
    ensures
        match parse_args_byte_array_stop(bytes_view(*old(args))) {
            Ok(e) => r matches Ok(enc) && enc@ == e,
            Err(e) => r == Err::<Encoding, ReadError>(e),
        },
{
    let ghost args0 = bytes_view(*args);
    if remaining(args) < 1 {
        return Err(ReadError::UnexpectedEof);
    }
    let stop_byte = get_u8(args);
    proof {
        lemma_parse_itf8_len(args0.skip(1));
    }
    let block_content_id = get_itf8(args)?;
    proof {
        if let Some((_, m1)) = parse_itf8(args0.skip(1)) {
            assert(args0.skip(1).skip(m1) =~= args0.skip(1 + m1));
        }
    }
    if remaining(args) != 0 {
        return Err(ReadError::InvalidData);
    }
    Ok(Encoding::ByteArrayStop(stop_byte, block_content_id))
}

/// Reads a Gamma args block, requiring exact consumption.
fn get_args_gamma(args: &mut Bytes) -> (r: Result<Encoding, ReadError>)
    ensures
        match parse_args_gamma(bytes_view(*old(args))) {
            Ok(e) => r matches Ok(enc) && enc@ == e,
            Err(e) => r == Err::<Encoding, ReadError>(e),
        },
{
    let ghost args0 = bytes_view(*args);
    proof {
        lemma_parse_itf8_len(args0);
    }
    let offset = get_itf8(args)?;
    if remaining(args) != 0 {
        return Err(ReadError::InvalidData);
    }
    Ok(Encoding::Gamma(offset))
}

/// Reads a ByteArrayLen args block: two nested descriptors, consumed
/// exactly.
fn get_args_byte_array_len(args: &mut Bytes) -> (r: Result<Encoding, ReadError>)
    ensures
        match parse_args_byte_array_len(bytes_view(*old(args))) {
            Ok(e) => r matches Ok(enc) && enc@ == e,
            Err(e) => r == Err::<Encoding, ReadError>(e),
        },
    decreases bytes_view(*old(args)).len(), 1int,
{
    let ghost args0 = bytes_view(*args);
    proof {
        lemma_parse_encoding_len(args0);
    }
    let len_encoding = get_encoding(args)?;
    let ghost m1 = parse_encoding(args0)->Ok_0.1;
    proof {
        lemma_parse_encoding_len(args0.skip(m1));
    }
    let value_encoding = get_encoding(args)?;
    let ghost m2 = parse_encoding(args0.skip(m1))->Ok_0.1;
    proof {
        assert(args0.skip(m1).skip(m2) =~= args0.skip(m1 + m2));
    }
    if remaining(args) != 0 {
        return Err(ReadError::InvalidData);
    }
    Ok(Encoding::ByteArrayLen(Box::new(len_encoding), Box::new(value_encoding)))
}

/// Deserializes one encoding descriptor from the front of `src`.
pub fn get_encoding(src: &mut Bytes) -> (r: Result<Encoding, ReadError>)
    ensures
        match parse_encoding(bytes_view(*old(src))) {
            Ok((e, n)) => r matches Ok(enc) && enc@ == e && bytes_view(*final(src))
                == bytes_view(*old(src)).skip(n),
            Err(e) => r == Err::<Encoding, ReadError>(e),
        },
    decreases bytes_view(*old(src)).len(), 0int,
{
    let ghost s0 = bytes_view(*src);
    proof {
        lemma_parse_itf8_len(s0);
    }
    let kind = get_itf8(src)?;
    if kind == 0 {
        return Ok(Encoding::Null);
    }
    let ghost n1 = parse_itf8(s0).unwrap().1;
    proof {
        lemma_parse_itf8_len(s0.skip(n1));
    }
    let args_len_raw = get_itf8(src)?;
    if args_len_raw < 0 {
        return Err(ReadError::InvalidData);
    }
    let ghost n2 = parse_itf8(s0.skip(n1)).unwrap().1;
    let args_len = args_len_raw as usize;
    if remaining(src) < args_len {
        return Err(ReadError::UnexpectedEof);
    }
    proof {
        assert(s0.skip(n1).skip(n2) =~= s0.skip(n1 + n2));
    }
    let mut args = split_to(src, args_len);
    let ghost args0 = bytes_view(args);
    proof {
        assert(args0 =~= s0.skip(n1 + n2).take(args_len_raw as int));
        assert(s0.skip(n1 + n2).skip(args_len_raw as int) =~= s0.skip(n1 + n2 + args_len_raw));
    }

    if kind == 1 {
        get_args_external(&mut args)
    } else if kind == 2 {
        let (offset, m) = get_args_pair(&mut args)?;
        Ok(Encoding::Golomb(offset, m))
    } else if kind == 3 {
        get_args_huffman(&mut args)
    } else if kind == 4 {
        get_args_byte_array_len(&mut args)
    } else if kind == 5 {
        get_args_byte_array_stop(&mut args)
    } else if kind == 6 {
        let (offset, len) = get_args_pair(&mut args)?;
        if len < 0 {
            return Err(ReadError::InvalidData);
        }
        Ok(Encoding::Beta(offset, len as u32))
    } else if kind == 7 {
        let (offset, k) = get_args_pair(&mut args)?;
        Ok(Encoding::Subexp(offset, k))
    } else if kind == 8 {
        let (offset, log2_m) = get_args_pair(&mut args)?;
        Ok(Encoding::GolombRice(offset, log2_m))
    } else if kind == 9 {
        get_args_gamma(&mut args)
    } else {
        Err(ReadError::InvalidData)
    }
}

} // verus!
