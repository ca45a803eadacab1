//! ITF8 and LTF8: CRAM's self-delimiting variable-length encodings for
//! signed 32-bit and 64-bit integers.
//!
//! The number of leading one bits in the first byte gives the number of
//! bytes that follow it. Both encodings round-trip exactly over their whole
//! domain.

use vstd::prelude::*;

verus! {

/// The ITF8 wire form of a signed 32-bit integer: one to five bytes.
pub open spec fn itf8_bytes(value: i32) -> Seq<u8> {
    let u = value as u32;
    if 0 <= value < 0x80 {
        seq![(u & 0xff) as u8]
    } else if 0 <= value < 0x4000 {
        seq![(0x80u32 | (u >> 8)) as u8, (u & 0xff) as u8]
    } else if 0 <= value < 0x20_0000 {
        seq![
            (0xc0u32 | (u >> 16)) as u8,
            ((u >> 8) & 0xff) as u8,
            (u & 0xff) as u8,
        ]
    } else if 0 <= value < 0x1000_0000 {
        seq![
            (0xe0u32 | (u >> 24)) as u8,
            ((u >> 16) & 0xff) as u8,
            ((u >> 8) & 0xff) as u8,
            (u & 0xff) as u8,
        ]
    } else {
        seq![
            (0xf0u32 | (u >> 28)) as u8,
            ((u >> 20) & 0xff) as u8,
            ((u >> 12) & 0xff) as u8,
            ((u >> 4) & 0xff) as u8,
            (u & 0xff) as u8,
        ]
    }
}

/// Reads one ITF8 value from the front of a byte sequence: the decoded
/// value and the number of bytes it occupied, or `None` if the sequence
/// ends before the encoding does.
pub open spec fn parse_itf8(s: Seq<u8>) -> Option<(i32, int)> {
    if s.len() < 1 {
        None
    } else {
        let b0 = s[0] as u32;
        if b0 & 0x80 == 0 {
            Some((b0 as i32, 1))
        } else if b0 & 0x40 == 0 {
            if s.len() < 2 {
                None
            } else {
                Some(((((b0 & 0x7f) << 8) | (s[1] as u32)) as i32, 2))
            }
        } else if b0 & 0x20 == 0 {
            if s.len() < 3 {
                None
            } else {
                Some(((((b0 & 0x3f) << 16) | ((s[1] as u32) << 8) | (s[2] as u32)) as i32, 3))
            }
        } else if b0 & 0x10 == 0 {
            if s.len() < 4 {
                None
            } else {
                Some((
                    (((b0 & 0x1f) << 24) | ((s[1] as u32) << 16) | ((s[2] as u32) << 8)
                        | (s[3] as u32)) as i32,
                    4,
                ))
            }
        } else {
            if s.len() < 5 {
                None
            } else {
                Some((
                    (((b0 & 0x0f) << 28) | ((s[1] as u32) << 20) | ((s[2] as u32) << 12)
                        | ((s[3] as u32) << 4) | ((s[4] as u32) & 0x0f)) as i32,
                    5,
                ))
            }
        }
    }
}

/// Appends the ITF8 encoding of `value` to `dst`.
pub fn write_itf8(dst: &mut Vec<u8>, value: i32)
    ensures
        final(dst)@ == old(dst)@ + itf8_bytes(value),
{
    #[verifier::truncate]
    let u: u32 = value as u32;

    if 0 <= value && value < 0x80 {
        dst.push((u & 0xff) as u8);
    } else if 0 <= value && value < 0x4000 {
        dst.push((0x80u32 | (u >> 8)) as u8);
        dst.push((u & 0xff) as u8);
    } else if 0 <= value && value < 0x20_0000 {
        dst.push((0xc0u32 | (u >> 16)) as u8);
        dst.push(((u >> 8) & 0xff) as u8);
        dst.push((u & 0xff) as u8);
    } else if 0 <= value && value < 0x1000_0000 {
        dst.push((0xe0u32 | (u >> 24)) as u8);
        dst.push(((u >> 16) & 0xff) as u8);
        dst.push(((u >> 8) & 0xff) as u8);
        dst.push((u & 0xff) as u8);
    } else {
        assert(u >> 28 <= 0xf) by (bit_vector);
        dst.push((0xf0u32 | (u >> 28)) as u8);
        dst.push(((u >> 20) & 0xff) as u8);
        dst.push(((u >> 12) & 0xff) as u8);
        dst.push(((u >> 4) & 0xff) as u8);
        dst.push((u & 0xff) as u8);
    }

    proof {
        assert(dst@ =~= old(dst)@ + itf8_bytes(value));
    }
}

/// Decoding inverts encoding: the ITF8 bytes of any `i32`, followed by
/// anything, parse back to that value and consume exactly the bytes written.
pub proof fn lemma_itf8_round_trip(value: i32, rest: Seq<u8>)
    ensures
        parse_itf8(itf8_bytes(value) + rest) == Some((value, itf8_bytes(value).len() as int)),
{
    let u = value as u32;
    let s = itf8_bytes(value) + rest;
    if 0 <= value < 0x80 {
        assert(({
            let b0 = ((u & 0xff) as u8) as u32;
            b0 & 0x80 == 0 && b0 as i32 == value
        })) by (bit_vector)
            requires
                u == value as u32 && 0 <= value < 0x80,
        ;
    } else if 0 <= value < 0x4000 {
        assert(({
            let b0 = ((0x80u32 | (u >> 8)) as u8) as u32;
            let b1 = ((u & 0xff) as u8) as u32;
            b0 & 0x80 != 0 && b0 & 0x40 == 0 && (((b0 & 0x7f) << 8) | b1) as i32 == value
        })) by (bit_vector)
            requires
                u == value as u32 && 0 <= value < 0x4000,
        ;
    } else if 0 <= value < 0x20_0000 {
        assert(({
            let b0 = ((0xc0u32 | (u >> 16)) as u8) as u32;
            let b1 = (((u >> 8) & 0xff) as u8) as u32;
            let b2 = ((u & 0xff) as u8) as u32;
            b0 & 0x80 != 0 && b0 & 0x40 != 0 && b0 & 0x20 == 0 && (((b0 & 0x3f) << 16) | (b1
                << 8) | b2) as i32 == value
        })) by (bit_vector)
            requires
                u == value as u32 && 0 <= value < 0x20_0000,
        ;
    } else if 0 <= value < 0x1000_0000 {
        assert(({
            let b0 = ((0xe0u32 | (u >> 24)) as u8) as u32;
            let b1 = (((u >> 16) & 0xff) as u8) as u32;
            let b2 = (((u >> 8) & 0xff) as u8) as u32;
            let b3 = ((u & 0xff) as u8) as u32;
            b0 & 0x80 != 0 && b0 & 0x40 != 0 && b0 & 0x20 != 0 && b0 & 0x10 == 0 && (((b0
                & 0x1f) << 24) | (b1 << 16) | (b2 << 8) | b3) as i32 == value
        })) by (bit_vector)
            requires
                u == value as u32 && 0 <= value < 0x1000_0000,
        ;
    } else {
        assert(({
            let b0 = ((0xf0u32 | (u >> 28)) as u8) as u32;
            let b1 = (((u >> 20) & 0xff) as u8) as u32;
            let b2 = (((u >> 12) & 0xff) as u8) as u32;
            let b3 = (((u >> 4) & 0xff) as u8) as u32;
            let b4 = ((u & 0xff) as u8) as u32;
            b0 & 0x80 != 0 && b0 & 0x40 != 0 && b0 & 0x20 != 0 && b0 & 0x10 != 0 && (((b0
                & 0x0f) << 28) | (b1 << 20) | (b2 << 12) | (b3 << 4) | (b4 & 0x0f)) as i32
                == value
        })) by (bit_vector)
            requires
                u == value as u32 && !(0 <= value < 0x1000_0000),
        ;
    }
}

/// The LTF8 wire form of a signed 64-bit integer: one to nine bytes.
pub open spec fn ltf8_bytes(value: i64) -> Seq<u8> {
    let u = value as u64;
    if 0 <= value < 0x80 {
        seq![(u & 0xff) as u8]
    } else if 0 <= value < 0x4000 {
        seq![(0x80u64 | (u >> 8)) as u8, (u & 0xff) as u8]
    } else if 0 <= value < 0x20_0000 {
        seq![(0xc0u64 | (u >> 16)) as u8, ((u >> 8) & 0xff) as u8, (u & 0xff) as u8]
    } else if 0 <= value < 0x1000_0000 {
        seq![
            (0xe0u64 | (u >> 24)) as u8,
            ((u >> 16) & 0xff) as u8,
            ((u >> 8) & 0xff) as u8,
            (u & 0xff) as u8,
        ]
    } else if 0 <= value < 0x8_0000_0000 {
        seq![
            (0xf0u64 | (u >> 32)) as u8,
            ((u >> 24) & 0xff) as u8,
            ((u >> 16) & 0xff) as u8,
            ((u >> 8) & 0xff) as u8,
            (u & 0xff) as u8,
        ]
    } else if 0 <= value < 0x400_0000_0000 {
        seq![
            (0xf8u64 | (u >> 40)) as u8,
            ((u >> 32) & 0xff) as u8,
            ((u >> 24) & 0xff) as u8,
            ((u >> 16) & 0xff) as u8,
            ((u >> 8) & 0xff) as u8,
            (u & 0xff) as u8,
        ]
    } else if 0 <= value < 0x2_0000_0000_0000 {
        seq![
            (0xfcu64 | (u >> 48)) as u8,
            ((u >> 40) & 0xff) as u8,
            ((u >> 32) & 0xff) as u8,
            ((u >> 24) & 0xff) as u8,
            ((u >> 16) & 0xff) as u8,
            ((u >> 8) & 0xff) as u8,
            (u & 0xff) as u8,
        ]
    } else if 0 <= value < 0x100_0000_0000_0000 {
        seq![
            (0xfeu64 | (u >> 56)) as u8,
            ((u >> 48) & 0xff) as u8,
            ((u >> 40) & 0xff) as u8,
            ((u >> 32) & 0xff) as u8,
            ((u >> 24) & 0xff) as u8,
            ((u >> 16) & 0xff) as u8,
            ((u >> 8) & 0xff) as u8,
            (u & 0xff) as u8,
        ]
    } else {
        seq![
            0xffu8,
            ((u >> 56) & 0xff) as u8,
            ((u >> 48) & 0xff) as u8,
            ((u >> 40) & 0xff) as u8,
            ((u >> 32) & 0xff) as u8,
            ((u >> 24) & 0xff) as u8,
            ((u >> 16) & 0xff) as u8,
            ((u >> 8) & 0xff) as u8,
            (u & 0xff) as u8,
        ]
    }
}

/// Reads one LTF8 value from the front of a byte sequence.
pub open spec fn parse_ltf8(s: Seq<u8>) -> Option<(i64, int)> {
    if s.len() < 1 {
        None
    } else {
        let b0 = s[0] as u64;
        if b0 & 0x80 == 0 {
            Some((b0 as i64, 1))
        } else if b0 & 0x40 == 0 {
            if s.len() < 2 {
                None
            } else {
                Some(((((b0 & 0x7f) << 8) | (s[1] as u64)) as i64, 2))
            }
        } else if b0 & 0x20 == 0 {
            if s.len() < 3 {
                None
            } else {
                Some(((((b0 & 0x3f) << 16) | ((s[1] as u64) << 8) | (s[2] as u64)) as i64, 3))
            }
        } else if b0 & 0x10 == 0 {
            if s.len() < 4 {
                None
            } else {
                Some((
                    (((b0 & 0x1f) << 24) | ((s[1] as u64) << 16) | ((s[2] as u64) << 8)
                        | (s[3] as u64)) as i64,
                    4,
                ))
            }
        } else if b0 & 0x08 == 0 {
            if s.len() < 5 {
                None
            } else {
                Some((
                    (((b0 & 0x0f) << 32) | ((s[1] as u64) << 24) | ((s[2] as u64) << 16)
                        | ((s[3] as u64) << 8) | (s[4] as u64)) as i64,
                    5,
                ))
            }
        } else if b0 & 0x04 == 0 {
            if s.len() < 6 {
                None
            } else {
                Some((
                    (((b0 & 0x07) << 40) | ((s[1] as u64) << 32) | ((s[2] as u64) << 24)
                        | ((s[3] as u64) << 16) | ((s[4] as u64) << 8) | (s[5] as u64)) as i64,
                    6,
                ))
            }
        } else if b0 & 0x02 == 0 {
            if s.len() < 7 {
                None
            } else {
                Some((
                    (((b0 & 0x03) << 48) | ((s[1] as u64) << 40) | ((s[2] as u64) << 32)
                        | ((s[3] as u64) << 24) | ((s[4] as u64) << 16) | ((s[5] as u64) << 8)
                        | (s[6] as u64)) as i64,
                    7,
                ))
            }
        } else if b0 & 0x01 == 0 {
            if s.len() < 8 {
                None
            } else {
                Some((
                    (((b0 & 0x01) << 56) | ((s[1] as u64) << 48) | ((s[2] as u64) << 40)
                        | ((s[3] as u64) << 32) | ((s[4] as u64) << 24) | ((s[5] as u64) << 16)
                        | ((s[6] as u64) << 8) | (s[7] as u64)) as i64,
                    8,
                ))
            }
        } else {
            if s.len() < 9 {
                None
            } else {
                Some((
                    (((s[1] as u64) << 56) | ((s[2] as u64) << 48) | ((s[3] as u64) << 40)
                        | ((s[4] as u64) << 32) | ((s[5] as u64) << 24) | ((s[6] as u64) << 16)
                        | ((s[7] as u64) << 8) | (s[8] as u64)) as i64,
                    9,
                ))
            }
        }
    }
}

/// Appends the LTF8 encoding of `value` to `dst`.
pub fn write_ltf8(dst: &mut Vec<u8>, value: i64)
    ensures
        final(dst)@ == old(dst)@ + ltf8_bytes(value),
{
    #[verifier::truncate]
    let u: u64 = value as u64;

    if 0 <= value && value < 0x80 {
        dst.push((u & 0xff) as u8);
    } else if 0 <= value && value < 0x4000 {
        dst.push((0x80u64 | (u >> 8)) as u8);
        dst.push((u & 0xff) as u8);
    } else if 0 <= value && value < 0x20_0000 {
        dst.push((0xc0u64 | (u >> 16)) as u8);
        dst.push(((u >> 8) & 0xff) as u8);
        dst.push((u & 0xff) as u8);
    } else if 0 <= value && value < 0x1000_0000 {
        dst.push((0xe0u64 | (u >> 24)) as u8);
        dst.push(((u >> 16) & 0xff) as u8);
        dst.push(((u >> 8) & 0xff) as u8);
        dst.push((u & 0xff) as u8);
    } else if 0 <= value && value < 0x8_0000_0000 {
        dst.push((0xf0u64 | (u >> 32)) as u8);
        dst.push(((u >> 24) & 0xff) as u8);
        dst.push(((u >> 16) & 0xff) as u8);
        dst.push(((u >> 8) & 0xff) as u8);
        dst.push((u & 0xff) as u8);
    } else if 0 <= value && value < 0x400_0000_0000 {
        dst.push((0xf8u64 | (u >> 40)) as u8);
        dst.push(((u >> 32) & 0xff) as u8);
        dst.push(((u >> 24) & 0xff) as u8);
        dst.push(((u >> 16) & 0xff) as u8);
        dst.push(((u >> 8) & 0xff) as u8);
        dst.push((u & 0xff) as u8);
    } else if 0 <= value && value < 0x2_0000_0000_0000 {
        dst.push((0xfcu64 | (u >> 48)) as u8);
        dst.push(((u >> 40) & 0xff) as u8);
        dst.push(((u >> 32) & 0xff) as u8);
        dst.push(((u >> 24) & 0xff) as u8);
        dst.push(((u >> 16) & 0xff) as u8);
        dst.push(((u >> 8) & 0xff) as u8);
        dst.push((u & 0xff) as u8);
    } else if 0 <= value && value < 0x100_0000_0000_0000 {
        assert(0 <= value < 0x100_0000_0000_0000 && u == value as u64 ==> 0xfeu64 | (u >> 56)
            <= 0xff) by (bit_vector);
        dst.push((0xfeu64 | (u >> 56)) as u8);
        dst.push(((u >> 48) & 0xff) as u8);
        dst.push(((u >> 40) & 0xff) as u8);
        dst.push(((u >> 32) & 0xff) as u8);
        dst.push(((u >> 24) & 0xff) as u8);
        dst.push(((u >> 16) & 0xff) as u8);
        dst.push(((u >> 8) & 0xff) as u8);
        dst.push((u & 0xff) as u8);
    } else {
        dst.push(0xffu8);
        dst.push(((u >> 56) & 0xff) as u8);
        dst.push(((u >> 48) & 0xff) as u8);
        dst.push(((u >> 40) & 0xff) as u8);
        dst.push(((u >> 32) & 0xff) as u8);
        dst.push(((u >> 24) & 0xff) as u8);
        dst.push(((u >> 16) & 0xff) as u8);
        dst.push(((u >> 8) & 0xff) as u8);
        dst.push((u & 0xff) as u8);
    }

    proof {
        assert(dst@ =~= old(dst)@ + ltf8_bytes(value));
    }
}

/// Decoding inverts encoding for LTF8 over all of `i64`.
pub proof fn lemma_ltf8_round_trip(value: i64, rest: Seq<u8>)
    ensures
        parse_ltf8(ltf8_bytes(value) + rest) == Some((value, ltf8_bytes(value).len() as int)),
{
    let u = value as u64;
    if 0 <= value < 0x80 {
        assert(({
            let b0 = ((u & 0xff) as u8) as u64;
            b0 & 0x80 == 0 && b0 as i64 == value
        })) by (bit_vector)
            requires
                u == value as u64 && 0 <= value < 0x80,
        ;
    } else if 0 <= value < 0x4000 {
        assert(({
            let b0 = ((0x80u64 | (u >> 8)) as u8) as u64;
            let b1 = ((u & 0xff) as u8) as u64;
            b0 & 0x80 != 0 && b0 & 0x40 == 0 && (((b0 & 0x7f) << 8) | b1) as i64 == value
        })) by (bit_vector)
            requires
                u == value as u64 && 0 <= value < 0x4000,
        ;
    } else if 0 <= value < 0x20_0000 {
        assert(({
            let b0 = ((0xc0u64 | (u >> 16)) as u8) as u64;
            let b1 = (((u >> 8) & 0xff) as u8) as u64;
            let b2 = ((u & 0xff) as u8) as u64;
            b0 & 0x80 != 0 && b0 & 0x40 != 0 && b0 & 0x20 == 0 && (((b0 & 0x3f) << 16) | (b1
                << 8) | b2) as i64 == value
        })) by (bit_vector)
            requires
                u == value as u64 && 0 <= value < 0x20_0000,
        ;
    } else if 0 <= value < 0x1000_0000 {
        assert(({
            let b0 = ((0xe0u64 | (u >> 24)) as u8) as u64;
            let b1 = (((u >> 16) & 0xff) as u8) as u64;
            let b2 = (((u >> 8) & 0xff) as u8) as u64;
            let b3 = ((u & 0xff) as u8) as u64;
            b0 & 0x80 != 0 && b0 & 0x40 != 0 && b0 & 0x20 != 0 && b0 & 0x10 == 0 && (((b0
                & 0x1f) << 24) | (b1 << 16) | (b2 << 8) | b3) as i64 == value
        })) by (bit_vector)
            requires
                u == value as u64 && 0 <= value < 0x1000_0000,
        ;
    } else if 0 <= value < 0x8_0000_0000 {
        assert(({
            let b0 = ((0xf0u64 | (u >> 32)) as u8) as u64;
            let b1 = (((u >> 24) & 0xff) as u8) as u64;
            let b2 = (((u >> 16) & 0xff) as u8) as u64;
            let b3 = (((u >> 8) & 0xff) as u8) as u64;
            let b4 = ((u & 0xff) as u8) as u64;
            b0 & 0x80 != 0 && b0 & 0x40 != 0 && b0 & 0x20 != 0 && b0 & 0x10 != 0 && b0 & 0x08
                == 0 && (((b0 & 0x0f) << 32) | (b1 << 24) | (b2 << 16) | (b3 << 8) | b4) as i64
                == value
        })) by (bit_vector)
            requires
                u == value as u64 && 0 <= value < 0x8_0000_0000,
        ;
    } else if 0 <= value < 0x400_0000_0000 {
        assert(({
            let b0 = ((0xf8u64 | (u >> 40)) as u8) as u64;
            let b1 = (((u >> 32) & 0xff) as u8) as u64;
            let b2 = (((u >> 24) & 0xff) as u8) as u64;
            let b3 = (((u >> 16) & 0xff) as u8) as u64;
            let b4 = (((u >> 8) & 0xff) as u8) as u64;
            let b5 = ((u & 0xff) as u8) as u64;
            b0 & 0x80 != 0 && b0 & 0x40 != 0 && b0 & 0x20 != 0 && b0 & 0x10 != 0 && b0 & 0x08
                != 0 && b0 & 0x04 == 0 && (((b0 & 0x07) << 40) | (b1 << 32) | (b2 << 24) | (b3
                << 16) | (b4 << 8) | b5) as i64 == value
        })) by (bit_vector)
            requires
                u == value as u64 && 0 <= value < 0x400_0000_0000,
        ;
    } else if 0 <= value < 0x2_0000_0000_0000 {
        assert(({
            let b0 = ((0xfcu64 | (u >> 48)) as u8) as u64;
            let b1 = (((u >> 40) & 0xff) as u8) as u64;
            let b2 = (((u >> 32) & 0xff) as u8) as u64;
            let b3 = (((u >> 24) & 0xff) as u8) as u64;
            let b4 = (((u >> 16) & 0xff) as u8) as u64;
            let b5 = (((u >> 8) & 0xff) as u8) as u64;
            let b6 = ((u & 0xff) as u8) as u64;
            b0 & 0x80 != 0 && b0 & 0x40 != 0 && b0 & 0x20 != 0 && b0 & 0x10 != 0 && b0 & 0x08
                != 0 && b0 & 0x04 != 0 && b0 & 0x02 == 0 && (((b0 & 0x03) << 48) | (b1 << 40)
                | (b2 << 32) | (b3 << 24) | (b4 << 16) | (b5 << 8) | b6) as i64 == value
        })) by (bit_vector)
            requires
                u == value as u64 && 0 <= value < 0x2_0000_0000_0000,
        ;
    } else if 0 <= value < 0x100_0000_0000_0000 {
        assert(({
            let b0 = ((0xfeu64 | (u >> 56)) as u8) as u64;
            let b1 = (((u >> 48) & 0xff) as u8) as u64;
            let b2 = (((u >> 40) & 0xff) as u8) as u64;
            let b3 = (((u >> 32) & 0xff) as u8) as u64;
            let b4 = (((u >> 24) & 0xff) as u8) as u64;
            let b5 = (((u >> 16) & 0xff) as u8) as u64;
            let b6 = (((u >> 8) & 0xff) as u8) as u64;
            let b7 = ((u & 0xff) as u8) as u64;
            b0 & 0x80 != 0 && b0 & 0x40 != 0 && b0 & 0x20 != 0 && b0 & 0x10 != 0 && b0 & 0x08
                != 0 && b0 & 0x04 != 0 && b0 & 0x02 != 0 && b0 & 0x01 == 0 && (((b0 & 0x01)
                << 56) | (b1 << 48) | (b2 << 40) | (b3 << 32) | (b4 << 24) | (b5 << 16) | (b6
                << 8) | b7) as i64 == value
        })) by (bit_vector)
            requires
                u == value as u64 && 0 <= value < 0x100_0000_0000_0000,
        ;
    } else {
        assert(({
            let b1 = (((u >> 56) & 0xff) as u8) as u64;
            let b2 = (((u >> 48) & 0xff) as u8) as u64;
            let b3 = (((u >> 40) & 0xff) as u8) as u64;
            let b4 = (((u >> 32) & 0xff) as u8) as u64;
            let b5 = (((u >> 24) & 0xff) as u8) as u64;
            let b6 = (((u >> 16) & 0xff) as u8) as u64;
            let b7 = (((u >> 8) & 0xff) as u8) as u64;
            let b8 = ((u & 0xff) as u8) as u64;
            ((b1 << 56) | (b2 << 48) | (b3 << 40) | (b4 << 32) | (b5 << 24) | (b6 << 16) | (b7
                << 8) | b8) as i64 == value
        })) by (bit_vector)
            requires
                u == value as u64 && !(0 <= value < 0x100_0000_0000_0000),
        ;
        assert(({
            let b0 = 0xffu8 as u64;
            b0 & 0x80 != 0 && b0 & 0x40 != 0 && b0 & 0x20 != 0 && b0 & 0x10 != 0 && b0 & 0x08
                != 0 && b0 & 0x04 != 0 && b0 & 0x02 != 0 && b0 & 0x01 != 0
        })) by (bit_vector);
    }
}

} // verus!
