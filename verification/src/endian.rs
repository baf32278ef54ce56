//! Big-endian integers on the wire.
//!
//! The octets of an integer are read and written by the `byteorder` crate;
//! this module says what those calls compute and proves that reading undoes
//! writing.

use byteorder::{BigEndian, ByteOrder};
use vstd::prelude::*;

verus! {

/// The number that `bytes` spell in big-endian order.
pub open spec fn uint_be(bytes: Seq<u8>) -> nat
    decreases bytes.len(),
{
    if bytes.len() == 0 {
        0
    } else {
        uint_be(bytes.drop_last()) * 256 + bytes.last() as nat
    }
}

/// The `width` low octets of `n`, most significant first.
pub open spec fn be_bytes(n: nat, width: nat) -> Seq<u8>
    decreases width,
{
    if width == 0 {
        Seq::empty()
    } else {
        be_bytes(n / 256, (width - 1) as nat).push((n % 256) as u8)
    }
}

/// 256 to the power `width`: the first number that `width` octets cannot hold.
pub open spec fn limit(width: nat) -> nat
    decreases width,
{
    if width == 0 {
        1
    } else {
        256 * limit((width - 1) as nat)
    }
}

pub proof fn lemma_be_bytes_len(n: nat, width: nat)
    ensures
        be_bytes(n, width).len() == width,
    decreases width,
{
    if width > 0 {
        lemma_be_bytes_len(n / 256, (width - 1) as nat);
    }
}

pub proof fn lemma_uint_be_bound(bytes: Seq<u8>)
    ensures
        uint_be(bytes) < limit(bytes.len()),
    decreases bytes.len(),
{
    if bytes.len() > 0 {
        lemma_uint_be_bound(bytes.drop_last());
    }
}

/// Reading what was written gives the number back.
pub proof fn lemma_uint_of_be_bytes(n: nat, width: nat)
    requires
        n < limit(width),
    ensures
        uint_be(be_bytes(n, width)) == n,
    decreases width,
{
    if width > 0 {
        let rest = be_bytes(n / 256, (width - 1) as nat);
        lemma_uint_of_be_bytes(n / 256, (width - 1) as nat);
        assert(be_bytes(n, width).drop_last() == rest);
    }
}

/// The limits of the widths that frames use.
pub proof fn lemma_limits()
    ensures
        limit(1) == 0x100,
        limit(2) == 0x1_0000,
        limit(3) == 0x100_0000,
        limit(4) == 0x1_0000_0000,
{
    reveal_with_fuel(limit, 5);
}

/// `byteorder::BigEndian::read_u16`: the first two octets of `buf`, taken as
/// a big-endian number. The call panics on a shorter slice.
#[verifier::external_body]
pub(crate) fn read_u16(buf: &[u8]) -> (n: u16)
    requires
        buf@.len() >= 2,
    ensures
        n == uint_be(buf@.take(2)),
{
    BigEndian::read_u16(buf)
}

/// `byteorder::BigEndian::read_u32`: the first four octets of `buf`, taken
/// as a big-endian number. The call panics on a shorter slice.
#[verifier::external_body]
pub(crate) fn read_u32(buf: &[u8]) -> (n: u32)
    requires
        buf@.len() >= 4,
    ensures
        n == uint_be(buf@.take(4)),
{
    BigEndian::read_u32(buf)
}

/// `byteorder::BigEndian::read_uint`: the first `nbytes` octets of `buf`,
/// taken as a big-endian number. The call panics unless `nbytes` is between
/// 1 and 8 and `buf` holds that many octets.
#[verifier::external_body]
pub(crate) fn read_uint(buf: &[u8], nbytes: usize) -> (n: u64)
    requires
        1 <= nbytes <= 8,
        nbytes <= buf@.len(),
    ensures
        n == uint_be(buf@.take(nbytes as int)),
{
    BigEndian::read_uint(buf, nbytes)
}

/// `byteorder::BigEndian::write_u16`: overwrites the first two octets of
/// `buf` with `n`, most significant first, and leaves the rest alone. The
/// call panics on a shorter slice.
#[verifier::external_body]
pub(crate) fn write_u16(buf: &mut [u8], n: u16)
    requires
        old(buf)@.len() >= 2,
    ensures
        final(buf)@ == be_bytes(n as nat, 2) + old(buf)@.skip(2),
{
    BigEndian::write_u16(buf, n)
}

/// `byteorder::BigEndian::write_u32`: overwrites the first four octets of
/// `buf` with `n`, most significant first, and leaves the rest alone. The
/// call panics on a shorter slice.
#[verifier::external_body]
pub(crate) fn write_u32(buf: &mut [u8], n: u32)
    requires
        old(buf)@.len() >= 4,
    ensures
        final(buf)@ == be_bytes(n as nat, 4) + old(buf)@.skip(4),
{
    BigEndian::write_u32(buf, n)
}

/// `byteorder::BigEndian::write_uint`: overwrites the first `nbytes` octets
/// of `buf` with `n`, most significant first, and leaves the rest alone. The
/// call panics if `n` does not fit in `nbytes` octets, if `nbytes` is over 8
/// or if `buf` is shorter.
#[verifier::external_body]
pub(crate) fn write_uint(buf: &mut [u8], n: u64, nbytes: usize)
    requires
        1 <= nbytes <= 8,
        n < limit(nbytes as nat),
        nbytes <= old(buf)@.len(),
    ensures
        final(buf)@ == be_bytes(n as nat, nbytes as nat) + old(buf)@.skip(nbytes as int),
{
    BigEndian::write_uint(buf, n, nbytes)
}

} // verus!
