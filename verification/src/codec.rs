//! Fixed-width integer codecs in a chosen byte order.
//!
//! The encodings are defined here as functions on byte sequences. The
//! executable codecs are those of the `byteorder` crate.

use byteorder::{BigEndian, ByteOrder, LittleEndian, NativeEndian};
use vstd::prelude::*;

verus! {

/// The order in which the bytes of a multi-byte integer are stored.
#[derive(Copy, Clone, Debug, PartialEq, Eq, Structural)]
pub enum Endianness {
    /// Least significant byte first.
    Little,
    /// Most significant byte first.
    Big,
}

/// 256 to the power `n`: the number of values that `n` bytes can hold.
pub open spec fn pow256(n: nat) -> nat
    decreases n,
{
    if n == 0 {
        1
    } else {
        256 * pow256((n - 1) as nat)
    }
}

/// The number that `bytes` encode, least significant byte first.
pub open spec fn le_value(bytes: Seq<u8>) -> nat
    decreases bytes.len(),
{
    if bytes.len() == 0 {
        0
    } else {
        bytes[0] as nat + 256 * le_value(bytes.drop_first())
    }
}

/// The number that `bytes` encode, most significant byte first.
pub open spec fn be_value(bytes: Seq<u8>) -> nat
    decreases bytes.len(),
{
    if bytes.len() == 0 {
        0
    } else {
        256 * be_value(bytes.drop_last()) + bytes.last() as nat
    }
}

/// The low `width` bytes of `n`, least significant byte first.
pub open spec fn le_bytes(n: nat, width: nat) -> Seq<u8>
    decreases width,
{
    if width == 0 {
        Seq::empty()
    } else {
        seq![(n % 256) as u8] + le_bytes(n / 256, (width - 1) as nat)
    }
}

/// The low `width` bytes of `n`, most significant byte first.
pub open spec fn be_bytes(n: nat, width: nat) -> Seq<u8>
    decreases width,
{
    if width == 0 {
        Seq::empty()
    } else {
        be_bytes(n / 256, (width - 1) as nat).push((n % 256) as u8)
    }
}

/// The unsigned number that `bytes` encode in the given order.
pub open spec fn decode_uint(order: Endianness, bytes: Seq<u8>) -> nat {
    match order {
        Endianness::Little => le_value(bytes),
        Endianness::Big => be_value(bytes),
    }
}

/// The low `width` bytes of `n` in the given order.
pub open spec fn encode_uint(order: Endianness, n: nat, width: nat) -> Seq<u8> {
    match order {
        Endianness::Little => le_bytes(n, width),
        Endianness::Big => be_bytes(n, width),
    }
}

/// The two's complement reading of the `width`-byte unsigned number `v`.
pub open spec fn to_signed(v: nat, width: nat) -> int {
    if 2 * v >= pow256(width) {
        v - pow256(width)
    } else {
        v as int
    }
}

/// The `width`-byte two's complement representation of `n`, as an unsigned number.
pub open spec fn from_signed(n: int, width: nat) -> nat {
    (n % (pow256(width) as int)) as nat
}

/// The signed number that `bytes` encode in the given order.
pub open spec fn decode_int(order: Endianness, bytes: Seq<u8>) -> int {
    to_signed(decode_uint(order, bytes), bytes.len())
}

/// The `width`-byte two's complement encoding of `n` in the given order.
pub open spec fn encode_int(order: Endianness, n: int, width: nat) -> Seq<u8> {
    encode_uint(order, from_signed(n, width), width)
}

/// `byteorder::LittleEndian::read_uint`: the unsigned number held in the first
/// `nbytes` bytes of `buf`, least significant byte first.
#[verifier::external_body]
fn le_read_uint(buf: &[u8], nbytes: usize) -> (r: u64)
    requires
        1 <= nbytes <= 8,
        nbytes <= buf@.len(),
    ensures
        r == le_value(buf@.subrange(0, nbytes as int)),
{
    LittleEndian::read_uint(buf, nbytes)
}

/// `byteorder::BigEndian::read_uint`: the unsigned number held in the first
/// `nbytes` bytes of `buf`, most significant byte first.
#[verifier::external_body]
fn be_read_uint(buf: &[u8], nbytes: usize) -> (r: u64)
    requires
        1 <= nbytes <= 8,
        nbytes <= buf@.len(),
    ensures
        r == be_value(buf@.subrange(0, nbytes as int)),
{
    BigEndian::read_uint(buf, nbytes)
}

/// `byteorder::LittleEndian::read_int`: the first `nbytes` bytes of `buf`,
/// least significant byte first, read as a two's complement number.
#[verifier::external_body]
fn le_read_int(buf: &[u8], nbytes: usize) -> (r: i64)
    requires
        1 <= nbytes <= 8,
        nbytes <= buf@.len(),
    ensures
        r == to_signed(le_value(buf@.subrange(0, nbytes as int)), nbytes as nat),
{
    LittleEndian::read_int(buf, nbytes)
}

/// `byteorder::BigEndian::read_int`: the first `nbytes` bytes of `buf`, most
/// significant byte first, read as a two's complement number.
#[verifier::external_body]
fn be_read_int(buf: &[u8], nbytes: usize) -> (r: i64)
    requires
        1 <= nbytes <= 8,
        nbytes <= buf@.len(),
    ensures
        r == to_signed(be_value(buf@.subrange(0, nbytes as int)), nbytes as nat),
{
    BigEndian::read_int(buf, nbytes)
}

/// `byteorder::LittleEndian::write_uint`: stores `n` in the first `nbytes`
/// bytes of `buf`, least significant byte first, and leaves the rest of `buf`
/// as it was. The crate panics unless `n` fits in `nbytes` bytes.
#[verifier::external_body]
fn le_write_uint(buf: &mut [u8], n: u64, nbytes: usize)
    requires
        1 <= nbytes <= 8,
        nbytes <= old(buf)@.len(),
        n < pow256(nbytes as nat),
    ensures
        final(buf)@ == le_bytes(n as nat, nbytes as nat) + old(buf)@.subrange(
            nbytes as int,
            old(buf)@.len() as int,
        ),
{
    LittleEndian::write_uint(buf, n, nbytes)
}

/// `byteorder::BigEndian::write_uint`: stores `n` in the first `nbytes` bytes
/// of `buf`, most significant byte first, and leaves the rest of `buf` as it
/// was. The crate panics unless `n` fits in `nbytes` bytes.
#[verifier::external_body]
fn be_write_uint(buf: &mut [u8], n: u64, nbytes: usize)
    requires
        1 <= nbytes <= 8,
        nbytes <= old(buf)@.len(),
        n < pow256(nbytes as nat),
    ensures
        final(buf)@ == be_bytes(n as nat, nbytes as nat) + old(buf)@.subrange(
            nbytes as int,
            old(buf)@.len() as int,
        ),
{
    BigEndian::write_uint(buf, n, nbytes)
}

/// `byteorder::LittleEndian::write_int`: stores the low `nbytes` bytes of the
/// two's complement form of `n` in the first `nbytes` bytes of `buf`, least
/// significant byte first, and leaves the rest of `buf` as it was.
#[verifier::external_body]
fn le_write_int(buf: &mut [u8], n: i64, nbytes: usize)
    requires
        1 <= nbytes <= 8,
        nbytes <= old(buf)@.len(),
    ensures
        final(buf)@ == le_bytes(from_signed(n as int, nbytes as nat), nbytes as nat) + old(
            buf,
        )@.subrange(nbytes as int, old(buf)@.len() as int),
{
    LittleEndian::write_int(buf, n, nbytes)
}

/// `byteorder::BigEndian::write_int`: stores the low `nbytes` bytes of the
/// two's complement form of `n` in the first `nbytes` bytes of `buf`, most
/// significant byte first, and leaves the rest of `buf` as it was.
#[verifier::external_body]
fn be_write_int(buf: &mut [u8], n: i64, nbytes: usize)
    requires
        1 <= nbytes <= 8,
        nbytes <= old(buf)@.len(),
    ensures
        final(buf)@ == be_bytes(from_signed(n as int, nbytes as nat), nbytes as nat) + old(
            buf,
        )@.subrange(nbytes as int, old(buf)@.len() as int),
{
    BigEndian::write_int(buf, n, nbytes)
}

/// `byteorder::NativeEndian::read_u16`: the number held in the first two bytes
/// of `buf`, in the byte order of the machine the code runs on. Which order
/// that is, the contract leaves open.
#[verifier::external_body]
fn native_read_u16(buf: &[u8]) -> (r: u16)
    requires
        2 <= buf@.len(),
    ensures
        r == le_value(buf@.subrange(0, 2)) || r == be_value(buf@.subrange(0, 2)),
{
    NativeEndian::read_u16(buf)
}

/// The powers of 256 up to the eighth, which is one more than `u64::MAX`.
pub proof fn lemma_pow256_values()
    ensures
        pow256(0) == 1,
        pow256(1) == 0x100,
        pow256(2) == 0x1_0000,
        pow256(3) == 0x100_0000,
        pow256(4) == 0x1_0000_0000,
        pow256(5) == 0x100_0000_0000,
        pow256(6) == 0x1_0000_0000_0000,
        pow256(7) == 0x100_0000_0000_0000,
        pow256(8) == 0x1_0000_0000_0000_0000,
{
    reveal_with_fuel(pow256, 10);
}

/// A larger width holds at least as many values.
pub proof fn lemma_pow256_monotonic(a: nat, b: nat)
    requires
        a <= b,
    ensures
        1 <= pow256(a) <= pow256(b),
    decreases b,
{
    if b == 0 {
    } else if a == b {
        lemma_pow256_monotonic((a - 1) as nat, (b - 1) as nat);
    } else {
        lemma_pow256_monotonic(a, (b - 1) as nat);
    }
}

/// An encoding has as many bytes as its width.
pub proof fn lemma_encode_uint_len(order: Endianness, n: nat, width: nat)
    ensures
        encode_uint(order, n, width).len() == width,
    decreases width,
{
    if width > 0 {
        lemma_encode_uint_len(order, n / 256, (width - 1) as nat);
    }
}

/// A signed encoding has as many bytes as its width.
pub proof fn lemma_encode_int_len(order: Endianness, n: int, width: nat)
    ensures
        encode_int(order, n, width).len() == width,
{
    lemma_encode_uint_len(order, from_signed(n, width), width);
}

/// Decoding undoes encoding: a number that fits in `width` bytes is read back
/// from its `width`-byte encoding, in either byte order.
pub proof fn lemma_uint_round_trip(order: Endianness, n: nat, width: nat)
    requires
        n < pow256(width),
    ensures
        encode_uint(order, n, width).len() == width,
        decode_uint(order, encode_uint(order, n, width)) == n,
    decreases width,
{
    lemma_encode_uint_len(order, n, width);
    if width > 0 {
        let rest = (width - 1) as nat;
        lemma_uint_round_trip(order, n / 256, rest);
        match order {
            Endianness::Little => {
                let tail = le_bytes(n / 256, rest);
                assert(le_bytes(n, width).drop_first() =~= tail);
            },
            Endianness::Big => {
                let head = be_bytes(n / 256, rest);
                assert(be_bytes(n, width).drop_last() =~= head);
            },
        }
    }
}

/// The two's complement reading undoes the two's complement representation,
/// for every number in the signed range of `width` bytes.
pub proof fn lemma_signed_round_trip(n: int, width: nat)
    requires
        -(pow256(width) as int) <= 2 * n < pow256(width),
    ensures
        from_signed(n, width) < pow256(width),
        to_signed(from_signed(n, width), width) == n,
{
    lemma_pow256_monotonic(0, width);
    let m = pow256(width) as int;
    if n >= 0 {
        assert(n % m == n) by (nonlinear_arith)
            requires
                0 <= n < m,
        ;
    } else {
        assert(n % m == n + m) by (nonlinear_arith)
            requires
                -m <= n < 0,
        ;
    }
}

/// Decoding undoes encoding for signed numbers: a number in the signed range
/// of `width` bytes is read back from its encoding, in either byte order.
pub proof fn lemma_int_round_trip(order: Endianness, n: int, width: nat)
    requires
        -(pow256(width) as int) <= 2 * n < pow256(width),
    ensures
        encode_int(order, n, width).len() == width,
        decode_int(order, encode_int(order, n, width)) == n,
{
    lemma_signed_round_trip(n, width);
    lemma_uint_round_trip(order, from_signed(n, width), width);
}

impl Endianness {
    /// The byte order that a machine has if it reads the bytes 1, 0 as the
    /// 16-bit number `probe`.
    pub fn from_probe(probe: u16) -> (r: Endianness)
        ensures
            r == if probe == 1 {
                Endianness::Little
            } else {
                Endianness::Big
            },
    {
        if probe == 1 {
            Endianness::Little
        } else {
            Endianness::Big
        }
    }

    /// The byte order of the machine the code runs on.
    pub fn native() -> Endianness {
        let probe: [u8; 2] = [1, 0];
        Endianness::from_probe(native_read_u16(probe.as_slice()))
    }

    /// Reads the unsigned number that the first `nbytes` bytes of `buf` hold.
    pub fn read_uint(self, buf: &[u8], nbytes: usize) -> (r: u64)
        requires
            1 <= nbytes <= 8,
            nbytes <= buf@.len(),
        ensures
            r == decode_uint(self, buf@.subrange(0, nbytes as int)),
    {
        match self {
            Endianness::Little => le_read_uint(buf, nbytes),
            Endianness::Big => be_read_uint(buf, nbytes),
        }
    }

    /// Reads the signed number that the first `nbytes` bytes of `buf` hold.
    pub fn read_int(self, buf: &[u8], nbytes: usize) -> (r: i64)
        requires
            1 <= nbytes <= 8,
            nbytes <= buf@.len(),
        ensures
            r == decode_int(self, buf@.subrange(0, nbytes as int)),
    {
        match self {
            Endianness::Little => le_read_int(buf, nbytes),
            Endianness::Big => be_read_int(buf, nbytes),
        }
    }

    /// Stores `n` in the first `nbytes` bytes of `buf`; the rest of `buf` stays.
    pub fn write_uint(self, buf: &mut [u8], n: u64, nbytes: usize)
        requires
            1 <= nbytes <= 8,
            nbytes <= old(buf)@.len(),
            n < pow256(nbytes as nat),
        ensures
            final(buf)@ == encode_uint(self, n as nat, nbytes as nat) + old(buf)@.subrange(
                nbytes as int,
                old(buf)@.len() as int,
            ),
    {
        match self {
            Endianness::Little => le_write_uint(buf, n, nbytes),
            Endianness::Big => be_write_uint(buf, n, nbytes),
        }
    }

    /// Stores `n`, cut to `nbytes` bytes of two's complement, in the first
    /// `nbytes` bytes of `buf`; the rest of `buf` stays.
    pub fn write_int(self, buf: &mut [u8], n: i64, nbytes: usize)
        requires
            1 <= nbytes <= 8,
            nbytes <= old(buf)@.len(),
        ensures
            final(buf)@ == encode_int(self, n as int, nbytes as nat) + old(buf)@.subrange(
                nbytes as int,
                old(buf)@.len() as int,
            ),
    {
        match self {
            Endianness::Little => le_write_int(buf, n, nbytes),
            Endianness::Big => be_write_int(buf, n, nbytes),
        }
    }
}

} // verus!
