//! Byte buffers of the `bytes` crate.
//!
//! Verus sees nothing inside a buffer. [`bytes_of`] and [`buffer_of`] name what one holds, and the
//! functions here say what each operation does to it.

use bytes::{BufMut, Bytes, BytesMut};
use vstd::prelude::*;
use vstd::utf8::encode_utf8;

verus! {

/// `bytes::Bytes`, whose inside is not seen here.
#[verifier::external_type_specification]
#[verifier::external_body]
pub struct ExBytes(bytes::Bytes);

/// `bytes::BytesMut`, whose inside is not seen here.
#[verifier::external_type_specification]
#[verifier::external_body]
pub struct ExBytesMut(bytes::BytesMut);

/// The bytes that a `Bytes` holds.
pub uninterp spec fn bytes_of(b: bytes::Bytes) -> Seq<u8>;

/// The bytes that a `BytesMut` holds.
pub uninterp spec fn buffer_of(b: bytes::BytesMut) -> Seq<u8>;

/// The longest buffer: no allocation is larger than `isize::MAX` bytes.
pub open spec fn max_len() -> int {
    isize::MAX as int
}

/// `Bytes::clone` gives a second handle on the same bytes.
pub assume_specification[ <bytes::Bytes as Clone>::clone ](b: &bytes::Bytes) -> (r: bytes::Bytes)
    ensures
        bytes_of(r) == bytes_of(*b),
;

/// `Bytes::new` holds nothing.
pub assume_specification[ bytes::Bytes::new ]() -> (r: bytes::Bytes)
    ensures
        bytes_of(r) == Seq::<u8>::empty(),
;

/// `Bytes::copy_from_slice` copies the slice.
pub assume_specification[ bytes::Bytes::copy_from_slice ](data: &[u8]) -> (r: bytes::Bytes)
    ensures
        bytes_of(r) == data@,
;

/// `Bytes::from` of a vector takes over its bytes.
#[verifier::external_body]
pub(crate) fn bytes_from_vec(v: Vec<u8>) -> (r: Bytes)
    ensures
        bytes_of(r) == v@,
{
    Bytes::from(v)
}

/// `Bytes::from` of a string takes over its UTF-8 bytes.
#[verifier::external_body]
pub(crate) fn bytes_from_string(s: String) -> (r: Bytes)
    ensures
        bytes_of(r) == encode_utf8(s@),
{
    Bytes::from(s)
}

/// `Bytes::from` of a static text refers to its UTF-8 bytes.
#[verifier::external_body]
pub(crate) fn bytes_from_static(s: &'static str) -> (r: Bytes)
    ensures
        bytes_of(r) == encode_utf8(s@),
{
    Bytes::from(s)
}

/// `Bytes::deref` lends the bytes as a slice.
#[verifier::external_body]
pub(crate) fn bytes_slice(b: &Bytes) -> (r: &[u8])
    ensures
        r@ == bytes_of(*b),
{
    b
}

/// `BytesMut::new` holds nothing.
pub assume_specification[ bytes::BytesMut::new ]() -> (r: bytes::BytesMut)
    ensures
        buffer_of(r) == Seq::<u8>::empty(),
;

/// `BytesMut::with_capacity` holds nothing; it panics where so much cannot be allocated at all.
pub assume_specification[ bytes::BytesMut::with_capacity ](capacity: usize) -> (r: bytes::BytesMut)
    requires
        capacity <= max_len(),
    ensures
        buffer_of(r) == Seq::<u8>::empty(),
;

/// `BytesMut::freeze` keeps the bytes.
pub assume_specification[ bytes::BytesMut::freeze ](b: bytes::BytesMut) -> (r: bytes::Bytes)
    ensures
        bytes_of(r) == buffer_of(b),
;

/// `BufMut::put_slice` appends the slice; it panics where the buffer would outgrow any allocation.
#[verifier::external_body]
pub(crate) fn put_slice(b: &mut BytesMut, src: &[u8])
    requires
        buffer_of(*old(b)).len() + src@.len() <= max_len(),
    ensures
        buffer_of(*final(b)) == buffer_of(*old(b)) + src@,
{
    b.put_slice(src)
}

/// `BufMut::put_u8` appends one byte; it panics where the buffer would outgrow any allocation.
#[verifier::external_body]
pub(crate) fn put_u8(b: &mut BytesMut, n: u8)
    requires
        buffer_of(*old(b)).len() + 1 <= max_len(),
    ensures
        buffer_of(*final(b)) == buffer_of(*old(b)).push(n),
{
    b.put_u8(n)
}

/// The last `width` digits of a number in base 256, the highest first.
pub open spec fn big_endian(n: nat, width: nat) -> Seq<u8>
    decreases width,
{
    if width == 0 {
        Seq::empty()
    } else {
        big_endian(n / 256, (width - 1) as nat).push((n % 256) as u8)
    }
}

/// The number that a row of bytes writes in base 256, the highest first.
pub open spec fn big_endian_value(s: Seq<u8>) -> nat
    decreases s.len(),
{
    if s.len() == 0 {
        0
    } else {
        big_endian_value(s.drop_last()) * 256 + s.last() as nat
    }
}

/// How many numbers `width` bytes can write.
pub open spec fn power_of_256(width: nat) -> nat
    decreases width,
{
    if width == 0 {
        1
    } else {
        256 * power_of_256((width - 1) as nat)
    }
}

/// A number that fits is read back from its bytes.
pub proof fn lemma_big_endian(n: nat, width: nat)
    requires
        n < power_of_256(width),
    ensures
        big_endian(n, width).len() == width,
        big_endian_value(big_endian(n, width)) == n,
    decreases width,
{
    if width > 0 {
        lemma_big_endian(n / 256, (width - 1) as nat);
        assert(big_endian(n, width).drop_last() =~= big_endian(n / 256, (width - 1) as nat));
    }
}

/// Two bytes write the numbers of 16 bits, eight bytes those of 64 bits.
pub proof fn lemma_power_of_256()
    ensures
        power_of_256(2) == 0x1_0000,
        power_of_256(8) == 0x1_0000_0000_0000_0000,
{
    reveal_with_fuel(power_of_256, 9);
}

/// `BufMut::put_u16` appends the two bytes of the number, the high one first; it panics where the
/// buffer would outgrow any allocation.
#[verifier::external_body]
pub(crate) fn put_u16(b: &mut BytesMut, n: u16)
    requires
        buffer_of(*old(b)).len() + 2 <= max_len(),
    ensures
        buffer_of(*final(b)) == buffer_of(*old(b)) + big_endian(n as nat, 2),
{
    b.put_u16(n)
}

/// `BufMut::put_u64` appends the eight bytes of the number, the highest first; it panics where the
/// buffer would outgrow any allocation.
#[verifier::external_body]
pub(crate) fn put_u64(b: &mut BytesMut, n: u64)
    requires
        buffer_of(*old(b)).len() + 8 <= max_len(),
    ensures
        buffer_of(*final(b)) == buffer_of(*old(b)) + big_endian(n as nat, 8),
{
    b.put_u64(n)
}

} // verus!
