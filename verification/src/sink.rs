//! Appending to in-memory byte sinks.

use vstd::prelude::*;

verus! {

/// Relies on `byteorder::WriteBytesExt::write_u8` for `Vec<u8>`: appends the
/// byte; the `io::Write` impl of `Vec` cannot fail.
#[verifier::external_body]
pub fn put_u8(dst: &mut Vec<u8>, value: u8)
    ensures
        final(dst)@ == old(dst)@.push(value),
{
    let _ = byteorder::WriteBytesExt::write_u8(dst, value);
}

} // verus!
