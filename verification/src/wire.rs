//! The byte layout of the primitive fields: what each is written as, and what
//! a byte sequence that starts with one is read as.

use crate::bytes::{be_i16, be_i32, i16_of_be, i32_of_be, i64_of_be, wrap_i32};
use crate::error::Error;
use vstd::prelude::*;
use vstd::utf8::*;

verus! {

/// What reading a field off the front of some bytes gives: the value and the
/// bytes that follow it, or the reason why no value is there.
pub type Parsed<T> = Result<(T, Seq<u8>), Error>;

/// One raw byte.
pub open spec fn parse_u8(b: Seq<u8>) -> Parsed<u8> {
    if b.len() < 1 {
        Err(Error::UnexpectedEof)
    } else {
        Ok((b[0], b.skip(1)))
    }
}

/// A big-endian 16-bit integer.
pub open spec fn parse_i16(b: Seq<u8>) -> Parsed<i16> {
    if b.len() < 2 {
        Err(Error::UnexpectedEof)
    } else {
        Ok((i16_of_be(b.take(2)), b.skip(2)))
    }
}

/// A big-endian 32-bit integer.
pub open spec fn parse_i32(b: Seq<u8>) -> Parsed<i32> {
    if b.len() < 4 {
        Err(Error::UnexpectedEof)
    } else {
        Ok((i32_of_be(b.take(4)), b.skip(4)))
    }
}

/// A big-endian 64-bit integer.
pub open spec fn parse_i64(b: Seq<u8>) -> Parsed<i64> {
    if b.len() < 8 {
        Err(Error::UnexpectedEof)
    } else {
        Ok((i64_of_be(b.take(8)), b.skip(8)))
    }
}

/// `n` is the position of the first zero byte of `b`.
pub open spec fn is_terminator(b: Seq<u8>, n: int) -> bool {
    &&& 0 <= n < b.len()
    &&& b[n] == 0
    &&& forall|j: int| 0 <= j < n ==> b[j] != 0
}

/// The position of the first zero byte of `b`, where there is one.
pub open spec fn terminator(b: Seq<u8>) -> int {
    choose|n: int| is_terminator(b, n)
}

/// A text field is written as its UTF-8 bytes and one zero byte.
pub open spec fn text_bytes(s: Seq<char>) -> Seq<u8> {
    encode_utf8(s).push(0u8)
}

/// A text field runs up to the first zero byte and must hold valid UTF-8.
#[verifier::opaque]
pub open spec fn parse_text(b: Seq<u8>) -> Parsed<Seq<char>> {
    if !exists|n: int| is_terminator(b, n) {
        Err(Error::UnexpectedEof)
    } else {
        let n = terminator(b);
        if valid_utf8(b.take(n)) {
            Ok((decode_utf8(b.take(n)), b.skip(n + 1)))
        } else {
            Err(Error::InvalidUtf8)
        }
    }
}

/// A nullable blob is written as its length and its bytes; an absent one as
/// the length -1 and nothing more.
pub open spec fn blob_bytes(v: Option<Seq<u8>>) -> Seq<u8> {
    match v {
        None => be_i32(-1i32),
        Some(d) => be_i32(wrap_i32(d.len() as int)) + d,
    }
}

/// A nullable blob: the length -1 stands for absence, any other negative
/// length is refused.
pub open spec fn parse_blob(b: Seq<u8>) -> Parsed<Option<Seq<u8>>> {
    match parse_i32(b) {
        Err(e) => Err(e),
        Ok((n, rest)) => {
            if n == -1 {
                Ok((None, rest))
            } else if n < 0 {
                Err(Error::InvalidLength)
            } else if rest.len() < n {
                Err(Error::UnexpectedEof)
            } else {
                Ok((Some(rest.take(n as int)), rest.skip(n as int)))
            }
        },
    }
}

/// A frame: the tag where there is one, the length of the body plus the four
/// bytes of the length itself, the body. A length that does not fit
/// thirty-two bits is written reduced to them.
pub open spec fn frame(tag: Option<u8>, body: Seq<u8>) -> Seq<u8> {
    let head = match tag {
        Some(t) => seq![t],
        None => Seq::empty(),
    };
    head + be_i32(wrap_i32(body.len() as int + 4)) + body
}

/// The tag and the body of the frame that `b` starts with, and what of `b`
/// follows the frame: a tag byte, a length that counts its own four bytes
/// and the body, and the body.
pub open spec fn split_frame(b: Seq<u8>) -> Parsed<(u8, Seq<u8>)> {
    match parse_u8(b) {
        Err(e) => Err(e),
        Ok((tag, b1)) => match parse_i32(b1) {
            Err(e) => Err(e),
            Ok((length, b2)) => if length < 4 {
                Err(Error::InvalidLength)
            } else if b2.len() < length - 4 {
                Err(Error::UnexpectedEof)
            } else {
                Ok(((tag, b2.take(length - 4)), b2.skip(length - 4)))
            },
        },
    }
}

/// No character of `s` is the one with code 0, which would end a text field early.
pub open spec fn nul_free(s: Seq<char>) -> bool {
    forall|i: int| 0 <= i < s.len() ==> s[i] as u32 != 0
}

/// No byte of `b` is zero.
pub open spec fn zero_free(b: Seq<u8>) -> bool {
    forall|j: int| 0 <= j < b.len() ==> b[j] != 0
}

/// A blob whose length fits the 32-bit field that announces it, or an absent one.
pub open spec fn blob_fits(v: Option<Seq<u8>>) -> bool {
    v matches Some(d) ==> d.len() <= i32::MAX
}

/// How a 16-bit integer is written, as a function.
pub open spec fn i16_writer() -> spec_fn(i16) -> Seq<u8> {
    |v: i16| be_i16(v)
}

/// How a 32-bit integer is written, as a function.
pub open spec fn i32_writer() -> spec_fn(i32) -> Seq<u8> {
    |v: i32| be_i32(v)
}

/// How a nullable blob is written, as a function.
pub open spec fn blob_writer() -> spec_fn(Option<Seq<u8>>) -> Seq<u8> {
    |v: Option<Seq<u8>>| blob_bytes(v)
}

/// How a 16-bit integer is read, as a function.
pub open spec fn i16_parser() -> spec_fn(Seq<u8>) -> Parsed<i16> {
    |b: Seq<u8>| parse_i16(b)
}

/// How a 32-bit integer is read, as a function.
pub open spec fn i32_parser() -> spec_fn(Seq<u8>) -> Parsed<i32> {
    |b: Seq<u8>| parse_i32(b)
}

/// How a nullable blob is read, as a function.
pub open spec fn blob_parser() -> spec_fn(Seq<u8>) -> Parsed<Option<Seq<u8>>> {
    |b: Seq<u8>| parse_blob(b)
}

/// A sequence has at most one first zero byte.
pub proof fn lemma_terminator_unique(b: Seq<u8>, n: int)
    requires
        is_terminator(b, n),
    ensures
        terminator(b) == n,
{
    let m = terminator(b);
    assert(is_terminator(b, m));
    if m < n {
        assert(b[m] != 0);
    } else if n < m {
        assert(b[n] != 0);
    }
}

/// Reading a text field uses up at least its terminator.
pub proof fn lemma_text_consumes(b: Seq<u8>)
    ensures
        parse_text(b) matches Ok((s, rest)) ==> rest.len() < b.len(),
{
    reveal(parse_text);
    if parse_text(b) is Ok {
        assert(is_terminator(b, terminator(b)));
    }
}

} // verus!
