//! Fixed-width big-endian signed integers as byte sequences.

use vstd::prelude::*;

verus! {

/// The number of values that `n` bytes can hold: 256 to the power `n`.
pub open spec fn radix(n: nat) -> int
    decreases n,
{
    if n == 0 {
        1
    } else {
        256 * radix((n - 1) as nat)
    }
}

/// The `n` base-256 digits of `u`, most significant first.
pub open spec fn be_unsigned(u: int, n: nat) -> Seq<u8>
    decreases n,
{
    if n == 0 {
        Seq::empty()
    } else {
        be_unsigned(u / 256, (n - 1) as nat).push((u % 256) as u8)
    }
}

/// The number whose base-256 digits, most significant first, are `b`.
pub open spec fn unsigned_of_be(b: Seq<u8>) -> int
    decreases b.len(),
{
    if b.len() == 0 {
        0
    } else {
        unsigned_of_be(b.drop_last()) * 256 + b.last()
    }
}

/// The `n` bytes of `v` in two's complement, most significant first.
pub open spec fn be_signed(v: int, n: nat) -> Seq<u8> {
    be_unsigned(if v < 0 { v + radix(n) } else { v }, n)
}

/// The number whose two's-complement form, most significant byte first, is `b`.
pub open spec fn signed_of_be(b: Seq<u8>) -> int {
    let u = unsigned_of_be(b);
    if 2 * u < radix(b.len()) {
        u
    } else {
        u - radix(b.len())
    }
}

/// The two bytes of `v`, most significant first, in two's complement.
pub open spec fn be_i16(v: i16) -> Seq<u8> {
    be_signed(v as int, 2)
}

/// The value that two big-endian bytes stand for.
pub open spec fn i16_of_be(b: Seq<u8>) -> i16
    recommends
        b.len() == 2,
{
    signed_of_be(b) as i16
}

/// The four bytes of `v`, most significant first, in two's complement.
pub open spec fn be_i32(v: i32) -> Seq<u8> {
    be_signed(v as int, 4)
}

/// The value that four big-endian bytes stand for.
pub open spec fn i32_of_be(b: Seq<u8>) -> i32
    recommends
        b.len() == 4,
{
    signed_of_be(b) as i32
}

/// The eight bytes of `v`, most significant first, in two's complement.
pub open spec fn be_i64(v: i64) -> Seq<u8> {
    be_signed(v as int, 8)
}

/// The value that eight big-endian bytes stand for.
pub open spec fn i64_of_be(b: Seq<u8>) -> i64
    recommends
        b.len() == 8,
{
    signed_of_be(b) as i64
}

/// `n` reduced to sixteen bits and read as a signed value: what a count that
/// does not fit its field is written as.
pub open spec fn wrap_i16(n: int) -> i16 {
    let m = n % 0x1_0000;
    if m < 0x8000 {
        m as i16
    } else {
        (m - 0x1_0000) as i16
    }
}

/// `n` reduced to thirty-two bits and read as a signed value.
pub open spec fn wrap_i32(n: int) -> i32 {
    let m = n % 0x1_0000_0000;
    if m < 0x8000_0000 {
        m as i32
    } else {
        (m - 0x1_0000_0000) as i32
    }
}

/// The radix of the three field widths in use.
pub proof fn lemma_radix_values()
    ensures
        radix(1) == 0x100,
        radix(2) == 0x1_0000,
        radix(4) == 0x1_0000_0000,
        radix(8) == 0x1_0000_0000_0000_0000,
{
    reveal_with_fuel(radix, 9);
}

/// Reading the digits of a number that fits gives the number back.
pub proof fn lemma_unsigned_round_trip(u: int, n: nat)
    requires
        0 <= u < radix(n),
    ensures
        be_unsigned(u, n).len() == n,
        unsigned_of_be(be_unsigned(u, n)) == u,
    decreases n,
{
    if n > 0 {
        lemma_unsigned_round_trip(u / 256, (n - 1) as nat);
        let hi = be_unsigned(u / 256, (n - 1) as nat);
        assert(be_unsigned(u, n).drop_last() =~= hi);
    }
}

/// Any byte sequence is the digits of the number it stands for.
pub proof fn lemma_unsigned_bytes_round_trip(b: Seq<u8>)
    ensures
        0 <= unsigned_of_be(b) < radix(b.len()),
        be_unsigned(unsigned_of_be(b), b.len()) == b,
    decreases b.len(),
{
    if b.len() > 0 {
        lemma_unsigned_bytes_round_trip(b.drop_last());
        let u = unsigned_of_be(b);
        assert(u / 256 == unsigned_of_be(b.drop_last()));
        assert(u % 256 == b.last());
        assert(be_unsigned(u, b.len()) =~= b);
    } else {
        assert(be_unsigned(0, 0) =~= b);
    }
}

/// Reading the two's-complement bytes of a number that fits gives the number back.
pub proof fn lemma_signed_round_trip(v: int, n: nat)
    requires
        n > 0,
        -radix(n) <= 2 * v < radix(n),
    ensures
        be_signed(v, n).len() == n,
        signed_of_be(be_signed(v, n)) == v,
{
    let u = if v < 0 { v + radix(n) } else { v };
    lemma_unsigned_round_trip(u, n);
}

/// Any byte sequence is the two's-complement form of the number it stands for.
pub proof fn lemma_signed_bytes_round_trip(b: Seq<u8>)
    requires
        b.len() > 0,
    ensures
        -radix(b.len()) <= 2 * signed_of_be(b) < radix(b.len()),
        be_signed(signed_of_be(b), b.len()) == b,
{
    lemma_unsigned_bytes_round_trip(b);
}

/// Decoding the two bytes of a value gives the value back.
pub proof fn lemma_i16_round_trip(v: i16)
    ensures
        be_i16(v).len() == 2,
        i16_of_be(be_i16(v)) == v,
{
    lemma_radix_values();
    lemma_signed_round_trip(v as int, 2);
}

/// Encoding the value of two bytes gives the bytes back.
pub proof fn lemma_i16_bytes_round_trip(b: Seq<u8>)
    requires
        b.len() == 2,
    ensures
        be_i16(i16_of_be(b)) == b,
{
    lemma_radix_values();
    lemma_signed_bytes_round_trip(b);
}

/// Decoding the four bytes of a value gives the value back.
pub proof fn lemma_i32_round_trip(v: i32)
    ensures
        be_i32(v).len() == 4,
        i32_of_be(be_i32(v)) == v,
{
    lemma_radix_values();
    lemma_signed_round_trip(v as int, 4);
}

/// Encoding the value of four bytes gives the bytes back.
pub proof fn lemma_i32_bytes_round_trip(b: Seq<u8>)
    requires
        b.len() == 4,
    ensures
        be_i32(i32_of_be(b)) == b,
{
    lemma_radix_values();
    lemma_signed_bytes_round_trip(b);
}

/// Decoding the eight bytes of a value gives the value back.
pub proof fn lemma_i64_round_trip(v: i64)
    ensures
        be_i64(v).len() == 8,
        i64_of_be(be_i64(v)) == v,
{
    lemma_radix_values();
    lemma_signed_round_trip(v as int, 8);
}

/// Encoding the value of eight bytes gives the bytes back.
pub proof fn lemma_i64_bytes_round_trip(b: Seq<u8>)
    requires
        b.len() == 8,
    ensures
        be_i64(i64_of_be(b)) == b,
{
    lemma_radix_values();
    lemma_signed_bytes_round_trip(b);
}

/// A count that fits its field is written unchanged.
pub proof fn lemma_wrap_in_range(n: int)
    ensures
        0 <= n <= i16::MAX ==> wrap_i16(n) == n,
        0 <= n <= i32::MAX ==> wrap_i32(n) == n,
{
}

/// A larger width holds more values.
pub proof fn lemma_radix_monotonic(m: nat, n: nat)
    requires
        m <= n,
    ensures
        0 < radix(m) <= radix(n),
    decreases n,
{
    if m < n {
        lemma_radix_monotonic(m, (n - 1) as nat);
    } else {
        lemma_radix_positive(m);
    }
}

/// Every width holds at least one value.
pub proof fn lemma_radix_positive(n: nat)
    ensures
        0 < radix(n),
    decreases n,
{
    if n > 0 {
        lemma_radix_positive((n - 1) as nat);
    }
}

} // verus!
