//! Appending primitive fields to an in-memory buffer.

use crate::bytes::{be_i16, be_i32, be_i64, be_unsigned, lemma_radix_values, wrap_i32};
use crate::wire::{blob_bytes, text_bytes};
use vstd::prelude::*;
use vstd::string::*;

verus! {

/// Appends the `n` base-256 digits of `u`, most significant first.
fn write_unsigned(buf: &mut Vec<u8>, u: u64, n: u8)
    ensures
        final(buf)@ == old(buf)@ + be_unsigned(u as int, n as nat),
    decreases n,
{
    if n > 0 {
        write_unsigned(buf, u / 256, n - 1);
        buf.push((u % 256) as u8);
    }
}

/// Appends one raw byte.
pub fn write_u8(buf: &mut Vec<u8>, v: u8)
    ensures
        final(buf)@ == old(buf)@.push(v),
{
    buf.push(v);
}

/// Appends a 16-bit integer, big-endian.
pub fn write_be_i16(buf: &mut Vec<u8>, v: i16)
    ensures
        final(buf)@ == old(buf)@ + be_i16(v),
{
    proof {
        lemma_radix_values();
    }
    let u: u64 = if v < 0 {
        (v as i64 + 0x1_0000) as u64
    } else {
        v as u64
    };
    write_unsigned(buf, u, 2);
}

/// Appends a 32-bit integer, big-endian.
pub fn write_be_i32(buf: &mut Vec<u8>, v: i32)
    ensures
        final(buf)@ == old(buf)@ + be_i32(v),
{
    proof {
        lemma_radix_values();
    }
    let u: u64 = if v < 0 {
        (v as i64 + 0x1_0000_0000) as u64
    } else {
        v as u64
    };
    write_unsigned(buf, u, 4);
}

/// Appends a 64-bit integer, big-endian.
pub fn write_be_i64(buf: &mut Vec<u8>, v: i64)
    ensures
        final(buf)@ == old(buf)@ + be_i64(v),
{
    proof {
        lemma_radix_values();
    }
    let u: u64 = if v < 0 {
        (v as i128 + 0x1_0000_0000_0000_0000) as u64
    } else {
        v as u64
    };
    write_unsigned(buf, u, 8);
}

/// Appends raw bytes.
pub fn write_bytes(buf: &mut Vec<u8>, data: &[u8])
    ensures
        final(buf)@ == old(buf)@ + data@,
{
    let mut i: usize = 0;
    while i < data.len()
        invariant
            i <= data.len(),
            buf@ == old(buf)@ + data@.take(i as int),
        decreases data.len() - i,
    {
        buf.push(data[i]);
        i += 1;
    }
}

/// Appends a text field: the UTF-8 bytes of `s` and a terminating zero byte.
/// A zero byte inside `s` is written as it is and ends the field early for
/// whoever reads it.
pub fn write_string(buf: &mut Vec<u8>, s: &str)
    ensures
        final(buf)@ == old(buf)@ + text_bytes(s@),
{
    write_bytes(buf, s.as_bytes());
    buf.push(0);
}

/// The length `n` as its 32-bit field holds it.
pub(crate) fn length_i32(n: u128) -> (r: i32)
    ensures
        r == wrap_i32(n as int),
{
    let m: u128 = n % 0x1_0000_0000;
    if m < 0x8000_0000 {
        m as i32
    } else {
        (m as i64 - 0x1_0000_0000) as i32
    }
}

/// Appends a nullable blob: its length and its bytes, or the length -1.
pub fn write_blob(buf: &mut Vec<u8>, v: &Option<Vec<u8>>)
    ensures
        final(buf)@ == old(buf)@ + blob_bytes(v.deep_view()),
{
    match v {
        None => {
            write_be_i32(buf, -1);
        },
        Some(data) => {
            assert(data.deep_view() =~= data@);
            write_be_i32(buf, length_i32(data.len() as u128));
            write_bytes(buf, data.as_slice());
        },
    }
}

} // verus!
