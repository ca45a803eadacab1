//! Reading from `bytes::Bytes` buffers.
//!
//! The compression-header readers consume a `Bytes` value from the front.
//! The handful of `Bytes` operations they use are declared here, each with
//! the contract its source shows, over the buffer's contents `bytes_view`.

use vstd::prelude::*;

use bytes::Bytes;

use crate::num::{parse_itf8, parse_ltf8};

verus! {

#[verifier::external_type_specification]
#[verifier::external_body]
pub struct ExBytes(Bytes);

/// What a `Bytes` buffer holds, front to back.
pub uninterp spec fn bytes_view(b: Bytes) -> Seq<u8>;

/// An error raised while decoding a wire structure.
#[derive(Clone, Copy, Debug, PartialEq, Eq, Structural)]
pub enum ReadError {
    /// The input ended before the structure did.
    UnexpectedEof,
    /// A key, kind, flag or table on the wire has no valid meaning.
    InvalidData,
}

/// Relies on `bytes::Buf::remaining` for `Bytes`: the number of bytes left.
#[verifier::external_body]
pub fn remaining(src: &Bytes) -> (n: usize)
    ensures
        n == bytes_view(*src).len(),
{
    bytes::Buf::remaining(src)
}

/// Relies on `bytes::Buf::get_u8`: pops the front byte; panics when empty,
/// so emptiness is excluded here.
#[verifier::external_body]
pub fn get_u8(src: &mut Bytes) -> (b: u8)
    requires
        bytes_view(*old(src)).len() >= 1,
    ensures
        b == bytes_view(*old(src))[0],
        bytes_view(*final(src)) == bytes_view(*old(src)).skip(1),
{
    bytes::Buf::get_u8(src)
}

/// Relies on `bytes::Bytes::split_to`: the first `at` bytes are handed back
/// and the buffer keeps the rest; panics when `at` is past the end.
#[verifier::external_body]
pub fn split_to(src: &mut Bytes, at: usize) -> (front: Bytes)
    requires
        at <= bytes_view(*old(src)).len(),
    ensures
        bytes_view(front) == bytes_view(*old(src)).take(at as int),
        bytes_view(*final(src)) == bytes_view(*old(src)).skip(at as int),
{
    src.split_to(at)
}

/// Relies on `bytes::Buf::advance` for `Bytes`: discards the first `cnt`
/// bytes; panics when `cnt` is past the end.
#[verifier::external_body]
pub fn advance(src: &mut Bytes, cnt: usize)
    requires
        cnt <= bytes_view(*old(src)).len(),
    ensures
        bytes_view(*final(src)) == bytes_view(*old(src)).skip(cnt as int),
{
    bytes::Buf::advance(src, cnt)
}

/// Relies on `Bytes`'s `Deref` to `[u8]`: one byte read in place.
#[verifier::external_body]
pub fn byte_at(src: &Bytes, i: usize) -> (b: u8)
    requires
        i < bytes_view(*src).len(),
    ensures
        b == bytes_view(*src)[i as int],
{
    src[i]
}

/// Decodes one ITF8 integer from the front of `src`.
pub fn get_itf8(src: &mut Bytes) -> (r: Result<i32, ReadError>)
    ensures
        match parse_itf8(bytes_view(*old(src))) {
            Some((value, n)) => r == Ok::<i32, ReadError>(value) && bytes_view(*final(src))
                == bytes_view(*old(src)).skip(n),
            None => r == Err::<i32, ReadError>(ReadError::UnexpectedEof),
        },
{
    let ghost s0 = bytes_view(*src);
    if remaining(src) < 1 {
        return Err(ReadError::UnexpectedEof);
    }
    let b0 = get_u8(src) as u32;

    if b0 & 0x80 == 0 {
        Ok(b0 as i32)
    } else if b0 & 0x40 == 0 {
        if remaining(src) < 1 {
            return Err(ReadError::UnexpectedEof);
        }
        let b1 = get_u8(src) as u32;
        proof {
            assert(bytes_view(*src) =~= s0.skip(2));
        }
        Ok((((b0 & 0x7f) << 8) | b1) as i32)
    } else if b0 & 0x20 == 0 {
        if remaining(src) < 2 {
            return Err(ReadError::UnexpectedEof);
        }
        let b1 = get_u8(src) as u32;
        let b2 = get_u8(src) as u32;
        proof {
            assert(bytes_view(*src) =~= s0.skip(3));
            assert(s0.skip(1)[0] == s0[1] && s0.skip(1).skip(1)[0] == s0[2]);
        }
        Ok((((b0 & 0x3f) << 16) | (b1 << 8) | b2) as i32)
    } else if b0 & 0x10 == 0 {
        if remaining(src) < 3 {
            return Err(ReadError::UnexpectedEof);
        }
        let b1 = get_u8(src) as u32;
        let b2 = get_u8(src) as u32;
        let b3 = get_u8(src) as u32;
        proof {
            assert(bytes_view(*src) =~= s0.skip(4));
            assert(s0.skip(1)[0] == s0[1] && s0.skip(1).skip(1)[0] == s0[2] && s0.skip(1).skip(
                1,
            ).skip(1)[0] == s0[3]);
        }
        Ok((((b0 & 0x1f) << 24) | (b1 << 16) | (b2 << 8) | b3) as i32)
    } else {
        if remaining(src) < 4 {
            return Err(ReadError::UnexpectedEof);
        }
        let b1 = get_u8(src) as u32;
        let b2 = get_u8(src) as u32;
        let b3 = get_u8(src) as u32;
        let b4 = get_u8(src) as u32;
        proof {
            assert(bytes_view(*src) =~= s0.skip(5));
            assert(s0.skip(1)[0] == s0[1] && s0.skip(1).skip(1)[0] == s0[2] && s0.skip(1).skip(
                1,
            ).skip(1)[0] == s0[3] && s0.skip(1).skip(1).skip(1).skip(1)[0] == s0[4]);
        }
        #[verifier::truncate]
        let value: i32 = (((b0 & 0x0f) << 28) | (b1 << 20) | (b2 << 12) | (b3 << 4) | (b4
            & 0x0f)) as i32;
        Ok(value)
    }
}

/// Decodes one LTF8 integer from the front of `src`.
pub fn get_ltf8(src: &mut Bytes) -> (r: Result<i64, ReadError>)
    ensures
        match parse_ltf8(bytes_view(*old(src))) {
            Some((value, n)) => r == Ok::<i64, ReadError>(value) && bytes_view(*final(src))
                == bytes_view(*old(src)).skip(n),
            None => r == Err::<i64, ReadError>(ReadError::UnexpectedEof),
        },
{
    let ghost s0 = bytes_view(*src);
    if remaining(src) < 1 {
        return Err(ReadError::UnexpectedEof);
    }
    let b0 = get_u8(src) as u64;
    if b0 & 0x80 == 0 {
        Ok(b0 as i64)
    } else if b0 & 0x40 == 0 {
        if remaining(src) < 1 {
            return Err(ReadError::UnexpectedEof);
        }
        let b1 = get_u8(src) as u64;
        proof {
            assert(bytes_view(*src) =~= s0.skip(2));
            assert(s0.skip(1)[0] == s0[1]);
        }
        #[verifier::truncate]
        let value: i64 = (((b0 & 0x7f) << 8) | b1) as i64;
        Ok(value)
    } else if b0 & 0x20 == 0 {
        if remaining(src) < 2 {
            return Err(ReadError::UnexpectedEof);
        }
        let b1 = get_u8(src) as u64;
        let b2 = get_u8(src) as u64;
        proof {
            assert(bytes_view(*src) =~= s0.skip(3));
            assert(s0.skip(1)[0] == s0[1] && s0.skip(1).skip(1)[0] == s0[2]);
        }
        #[verifier::truncate]
        let value: i64 = (((b0 & 0x3f) << 16) | (b1 << 8) | b2) as i64;
        Ok(value)
    } else if b0 & 0x10 == 0 {
        if remaining(src) < 3 {
            return Err(ReadError::UnexpectedEof);
        }
        let b1 = get_u8(src) as u64;
        let b2 = get_u8(src) as u64;
        let b3 = get_u8(src) as u64;
        proof {
            assert(bytes_view(*src) =~= s0.skip(4));
            assert(s0.skip(1)[0] == s0[1] && s0.skip(1).skip(1)[0] == s0[2] && s0.skip(1).skip(1).skip(1)[0] == s0[3]);
        }
        #[verifier::truncate]
        let value: i64 = (((b0 & 0x1f) << 24) | (b1 << 16) | (b2 << 8) | b3) as i64;
        Ok(value)
    } else if b0 & 0x08 == 0 {
        if remaining(src) < 4 {
            return Err(ReadError::UnexpectedEof);
        }
        let b1 = get_u8(src) as u64;
        let b2 = get_u8(src) as u64;
        let b3 = get_u8(src) as u64;
        let b4 = get_u8(src) as u64;
        proof {
            assert(bytes_view(*src) =~= s0.skip(5));
            assert(s0.skip(1)[0] == s0[1] && s0.skip(1).skip(1)[0] == s0[2] && s0.skip(1).skip(1).skip(1)[0] == s0[3] && s0.skip(1).skip(1).skip(1).skip(1)[0] == s0[4]);
        }
        #[verifier::truncate]
        let value: i64 = (((b0 & 0x0f) << 32) | (b1 << 24) | (b2 << 16) | (b3 << 8) | b4) as i64;
        Ok(value)
    } else if b0 & 0x04 == 0 {
        if remaining(src) < 5 {
            return Err(ReadError::UnexpectedEof);
        }
        let b1 = get_u8(src) as u64;
        let b2 = get_u8(src) as u64;
        let b3 = get_u8(src) as u64;
        let b4 = get_u8(src) as u64;
        let b5 = get_u8(src) as u64;
        proof {
            assert(bytes_view(*src) =~= s0.skip(6));
            assert(s0.skip(1)[0] == s0[1] && s0.skip(1).skip(1)[0] == s0[2] && s0.skip(1).skip(1).skip(1)[0] == s0[3] && s0.skip(1).skip(1).skip(1).skip(1)[0] == s0[4] && s0.skip(1).skip(1).skip(1).skip(1).skip(1)[0] == s0[5]);
        }
        #[verifier::truncate]
        let value: i64 = (((b0 & 0x07) << 40) | (b1 << 32) | (b2 << 24) | (b3 << 16) | (b4 << 8) | b5) as i64;
        Ok(value)
    } else if b0 & 0x02 == 0 {
        if remaining(src) < 6 {
            return Err(ReadError::UnexpectedEof);
        }
        let b1 = get_u8(src) as u64;
        let b2 = get_u8(src) as u64;
        let b3 = get_u8(src) as u64;
        let b4 = get_u8(src) as u64;
        let b5 = get_u8(src) as u64;
        let b6 = get_u8(src) as u64;
        proof {
            assert(bytes_view(*src) =~= s0.skip(7));
            assert(s0.skip(1)[0] == s0[1] && s0.skip(1).skip(1)[0] == s0[2] && s0.skip(1).skip(1).skip(1)[0] == s0[3] && s0.skip(1).skip(1).skip(1).skip(1)[0] == s0[4] && s0.skip(1).skip(1).skip(1).skip(1).skip(1)[0] == s0[5] && s0.skip(1).skip(1).skip(1).skip(1).skip(1).skip(1)[0] == s0[6]);
        }
        #[verifier::truncate]
        let value: i64 = (((b0 & 0x03) << 48) | (b1 << 40) | (b2 << 32) | (b3 << 24) | (b4 << 16) | (b5 << 8) | b6) as i64;
        Ok(value)
    } else if b0 & 0x01 == 0 {
        if remaining(src) < 7 {
            return Err(ReadError::UnexpectedEof);
        }
        let b1 = get_u8(src) as u64;
        let b2 = get_u8(src) as u64;
        let b3 = get_u8(src) as u64;
        let b4 = get_u8(src) as u64;
        let b5 = get_u8(src) as u64;
        let b6 = get_u8(src) as u64;
        let b7 = get_u8(src) as u64;
        proof {
            assert(bytes_view(*src) =~= s0.skip(8));
            assert(s0.skip(1)[0] == s0[1] && s0.skip(1).skip(1)[0] == s0[2] && s0.skip(1).skip(1).skip(1)[0] == s0[3] && s0.skip(1).skip(1).skip(1).skip(1)[0] == s0[4] && s0.skip(1).skip(1).skip(1).skip(1).skip(1)[0] == s0[5] && s0.skip(1).skip(1).skip(1).skip(1).skip(1).skip(1)[0] == s0[6] && s0.skip(1).skip(1).skip(1).skip(1).skip(1).skip(1).skip(1)[0] == s0[7]);
        }
        #[verifier::truncate]
        let value: i64 = (((b0 & 0x01) << 56) | (b1 << 48) | (b2 << 40) | (b3 << 32) | (b4 << 24) | (b5 << 16) | (b6 << 8) | b7) as i64;
        Ok(value)
    } else {
        if remaining(src) < 8 {
            return Err(ReadError::UnexpectedEof);
        }
        let b1 = get_u8(src) as u64;
        let b2 = get_u8(src) as u64;
        let b3 = get_u8(src) as u64;
        let b4 = get_u8(src) as u64;
        let b5 = get_u8(src) as u64;
        let b6 = get_u8(src) as u64;
        let b7 = get_u8(src) as u64;
        let b8 = get_u8(src) as u64;
        proof {
            assert(bytes_view(*src) =~= s0.skip(9));
            assert(s0.skip(1)[0] == s0[1] && s0.skip(1).skip(1)[0] == s0[2] && s0.skip(1).skip(1).skip(1)[0] == s0[3] && s0.skip(1).skip(1).skip(1).skip(1)[0] == s0[4] && s0.skip(1).skip(1).skip(1).skip(1).skip(1)[0] == s0[5] && s0.skip(1).skip(1).skip(1).skip(1).skip(1).skip(1)[0] == s0[6] && s0.skip(1).skip(1).skip(1).skip(1).skip(1).skip(1).skip(1)[0] == s0[7] && s0.skip(1).skip(1).skip(1).skip(1).skip(1).skip(1).skip(1).skip(1)[0] == s0[8]);
        }
        #[verifier::truncate]
        let value: i64 = ((b1 << 56) | (b2 << 48) | (b3 << 40) | (b4 << 32) | (b5 << 24) | (b6 << 16) | (b7 << 8) | b8) as i64;
        Ok(value)
    }
}

} // verus!
