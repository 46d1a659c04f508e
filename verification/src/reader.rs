//! Reading primitive fields off an in-memory buffer.

use crate::bytes::{lemma_radix_monotonic, lemma_radix_values, radix, unsigned_of_be};
use crate::error::Error;
use crate::wire::{
    is_terminator, lemma_terminator_unique, parse_blob, parse_i16, parse_i32, parse_i64, parse_text,
    parse_u8,
};
use vstd::prelude::*;
use vstd::slice::{slice_subrange, slice_to_vec};
use vstd::utf8::{decode_utf8, valid_utf8};

verus! {

/// `String::from_utf8` of std: it accepts exactly the byte sequences that are
/// valid UTF-8, and the string it then returns holds the characters that
/// those bytes encode.
#[verifier::external_body]
fn string_from_utf8(bytes: Vec<u8>) -> (r: Option<String>)
    ensures
        r is Some <==> valid_utf8(bytes@),
        r matches Some(s) ==> s@ == decode_utf8(bytes@),
{
    match String::from_utf8(bytes) {
        Ok(s) => Some(s),
        Err(_) => None,
    }
}

/// A byte buffer with a read position.
pub struct MemReader {
    buf: Vec<u8>,
    pos: usize,
}

impl MemReader {
    #[verifier::type_invariant]
    spec fn in_bounds(&self) -> bool {
        self.pos <= self.buf.len()
    }

    /// The bytes that have not been read yet.
    pub closed spec fn remaining(&self) -> Seq<u8> {
        self.buf@.skip(self.pos as int)
    }

    /// A reader positioned at the start of `buf`.
    pub fn new(buf: Vec<u8>) -> (r: MemReader)
        ensures
            r.remaining() == buf@,
    {
        MemReader { buf, pos: 0 }
    }

    /// Whether every byte has been read.
    pub fn eof(&self) -> (r: bool)
        ensures
            r == (self.remaining().len() == 0),
    {
        proof {
            use_type_invariant(self);
        }
        self.pos >= self.buf.len()
    }

    /// The number of bytes that have not been read yet.
    pub fn available(&self) -> (r: usize)
        ensures
            r == self.remaining().len(),
    {
        proof {
            use_type_invariant(self);
        }
        self.buf.len() - self.pos
    }

    /// The next `n` bytes, at most eight, as one big-endian unsigned number.
    /// Nothing is read.
    fn peek_unsigned(&self, n: usize) -> (r: Result<u64, Error>)
        requires
            n <= 8,
        ensures
            self.remaining().len() < n ==> r == Err::<u64, Error>(Error::UnexpectedEof),
            self.remaining().len() >= n ==> r is Ok && r->Ok_0 == unsigned_of_be(
                self.remaining().take(n as int),
            ) && r->Ok_0 < radix(n as nat),
    {
        proof {
            use_type_invariant(self);
        }
        if self.buf.len() - self.pos < n {
            return Err(Error::UnexpectedEof);
        }
        let ghost before = self.remaining();
        let start = self.pos;
        let mut acc: u64 = 0;
        let mut i: usize = 0;
        proof {
            lemma_radix_values();
            reveal_with_fuel(radix, 9);
        }
        while i < n
            invariant
                i <= n <= 8,
                start + n <= self.buf.len(),
                before == self.buf@.skip(start as int),
                acc == unsigned_of_be(before.take(i as int)),
                0 <= acc < radix(i as nat),
            decreases n - i,
        {
            let b = self.buf[start + i];
            proof {
                reveal_with_fuel(radix, 9);
                let next = before.take(i + 1);
                assert(next.drop_last() =~= before.take(i as int));
                assert(next.last() == b);
                assert(radix((i + 1) as nat) == 256 * radix(i as nat));
                assert(radix((i + 1) as nat) <= radix(8)) by {
                    lemma_radix_monotonic((i + 1) as nat, 8);
                }
            }
            acc = acc * 256 + b as u64;
            i += 1;
        }
        Ok(acc)
    }

    /// The next four bytes as a big-endian 32-bit integer. Nothing is read.
    fn peek_be_i32(&self) -> (r: Result<i32, Error>)
        ensures
            match parse_i32(self.remaining()) {
                Ok((v, _)) => r == Ok::<i32, Error>(v),
                Err(e) => r == Err::<i32, Error>(e),
            },
    {
        proof {
            lemma_radix_values();
        }
        match self.peek_unsigned(4) {
            Err(e) => Err(e),
            Ok(u) => {
                if u < 0x8000_0000 {
                    Ok(u as i32)
                } else {
                    Ok((u as i64 - 0x1_0000_0000) as i32)
                }
            },
        }
    }

    /// Moves past the next `n` bytes.
    fn advance(&mut self, n: usize)
        requires
            n <= old(self).remaining().len(),
        ensures
            final(self).remaining() == old(self).remaining().skip(n as int),
    {
        proof {
            use_type_invariant(&*self);
        }
        let ghost before = self.remaining();
        self.pos = self.pos + n;
        assert(self.remaining() =~= before.skip(n as int));
    }

    /// Reads one raw byte. A read that fails reads nothing.
    pub fn read_u8(&mut self) -> (r: Result<u8, Error>)
        ensures
            match parse_u8(old(self).remaining()) {
                Ok((v, rest)) => r == Ok::<u8, Error>(v) && final(self).remaining() == rest,
                Err(e) => r == Err::<u8, Error>(e) && final(self).remaining() == old(
                    self,
                ).remaining(),
            },
    {
        proof {
            use_type_invariant(&*self);
        }
        if self.pos >= self.buf.len() {
            return Err(Error::UnexpectedEof);
        }
        let b = self.buf[self.pos];
        self.advance(1);
        Ok(b)
    }

    /// Reads a big-endian 16-bit integer. A read that fails reads nothing.
    pub fn read_be_i16(&mut self) -> (r: Result<i16, Error>)
        ensures
            match parse_i16(old(self).remaining()) {
                Ok((v, rest)) => r == Ok::<i16, Error>(v) && final(self).remaining() == rest,
                Err(e) => r == Err::<i16, Error>(e) && final(self).remaining() == old(
                    self,
                ).remaining(),
            },
    {
        proof {
            lemma_radix_values();
        }
        match self.peek_unsigned(2) {
            Err(e) => Err(e),
            Ok(u) => {
                self.advance(2);
                if u < 0x8000 {
                    Ok(u as i16)
                } else {
                    Ok((u as i64 - 0x1_0000) as i16)
                }
            },
        }
    }

    /// Reads a big-endian 32-bit integer. A read that fails reads nothing.
    pub fn read_be_i32(&mut self) -> (r: Result<i32, Error>)
        ensures
            match parse_i32(old(self).remaining()) {
                Ok((v, rest)) => r == Ok::<i32, Error>(v) && final(self).remaining() == rest,
                Err(e) => r == Err::<i32, Error>(e) && final(self).remaining() == old(
                    self,
                ).remaining(),
            },
    {
        match self.peek_be_i32() {
            Err(e) => Err(e),
            Ok(v) => {
                self.advance(4);
                Ok(v)
            },
        }
    }

    /// Reads a big-endian 64-bit integer. A read that fails reads nothing.
    pub fn read_be_i64(&mut self) -> (r: Result<i64, Error>)
        ensures
            match parse_i64(old(self).remaining()) {
                Ok((v, rest)) => r == Ok::<i64, Error>(v) && final(self).remaining() == rest,
                Err(e) => r == Err::<i64, Error>(e) && final(self).remaining() == old(
                    self,
                ).remaining(),
            },
    {
        proof {
            lemma_radix_values();
        }
        match self.peek_unsigned(8) {
            Err(e) => Err(e),
            Ok(u) => {
                self.advance(8);
                if u < 0x8000_0000_0000_0000 {
                    Ok(u as i64)
                } else {
                    Ok((u as i128 - 0x1_0000_0000_0000_0000) as i64)
                }
            },
        }
    }

    /// Reads the next `n` bytes. A read that fails reads nothing.
    pub fn read_bytes(&mut self, n: usize) -> (r: Result<Vec<u8>, Error>)
        ensures
            old(self).remaining().len() < n ==> r == Err::<Vec<u8>, Error>(Error::UnexpectedEof)
                && final(self).remaining() == old(self).remaining(),
            old(self).remaining().len() >= n ==> r is Ok && r->Ok_0@ == old(
                self,
            ).remaining().take(n as int) && final(self).remaining() == old(self).remaining().skip(
                n as int,
            ),
    {
        proof {
            use_type_invariant(&*self);
        }
        if self.buf.len() - self.pos < n {
            return Err(Error::UnexpectedEof);
        }
        let ghost before = self.remaining();
        let out = slice_to_vec(slice_subrange(self.buf.as_slice(), self.pos, self.pos + n));
        assert(out@ =~= before.take(n as int));
        self.advance(n);
        Ok(out)
    }

    /// Reads a text field: the bytes up to the next zero byte, which must be
    /// valid UTF-8. The zero byte is consumed and is no part of the text. A
    /// read that fails reads nothing.
    pub fn read_string(&mut self) -> (r: Result<String, Error>)
        ensures
            match parse_text(old(self).remaining()) {
                Ok((s, rest)) => r is Ok && r->Ok_0@ == s && final(self).remaining() == rest,
                Err(e) => r == Err::<String, Error>(e) && final(self).remaining() == old(
                    self,
                ).remaining(),
            },
    {
        proof {
            use_type_invariant(&*self);
        }
        reveal(parse_text);
        let ghost before = self.remaining();
        let start = self.pos;
        let mut end = start;
        while end < self.buf.len() && self.buf[end] != 0
            invariant
                start <= end <= self.buf.len(),
                self.pos == start,
                before == self.buf@.skip(start as int),
                forall|j: int| 0 <= j < end - start ==> before[j] != 0,
            decreases self.buf.len() - end,
        {
            end += 1;
        }
        if end >= self.buf.len() {
            assert(!exists|n: int| is_terminator(before, n));
            return Err(Error::UnexpectedEof);
        }
        proof {
            assert(is_terminator(before, end - start));
            lemma_terminator_unique(before, end - start);
        }
        let raw = slice_to_vec(slice_subrange(self.buf.as_slice(), start, end));
        assert(raw@ =~= before.take(end - start));
        match string_from_utf8(raw) {
            Some(s) => {
                self.advance(end - start + 1);
                Ok(s)
            },
            None => Err(Error::InvalidUtf8),
        }
    }

    /// Reads a nullable blob: a 32-bit length and that many bytes, or the
    /// length -1 for an absent value. A read that fails reads nothing.
    pub fn read_blob(&mut self) -> (r: Result<Option<Vec<u8>>, Error>)
        ensures
            match parse_blob(old(self).remaining()) {
                Ok((v, rest)) => r is Ok && r->Ok_0.deep_view() == v && final(self).remaining()
                    == rest,
                Err(e) => r == Err::<Option<Vec<u8>>, Error>(e) && final(self).remaining()
                    == old(self).remaining(),
            },
    {
        let n = match self.peek_be_i32() {
            Ok(n) => n,
            Err(e) => {
                return Err(e);
            },
        };
        if n == -1 {
            self.advance(4);
            return Ok(None);
        }
        if n < 0 {
            return Err(Error::InvalidLength);
        }
        if self.available() - 4 < n as usize {
            return Err(Error::UnexpectedEof);
        }
        self.advance(4);
        match self.read_bytes(n as usize) {
            Ok(data) => Ok(Some(data)),
            Err(e) => Err(e),
        }
    }
}

} // verus!
