//! The laws of the primitive fields.

use crate::bytes::{
    be_i16, be_i32, be_i64, lemma_i16_bytes_round_trip, lemma_i16_round_trip,
    lemma_i32_bytes_round_trip, lemma_i32_round_trip, lemma_i64_bytes_round_trip,
    lemma_i64_round_trip, lemma_wrap_in_range,
};
use crate::error::Error;
use crate::wire::{
    blob_bytes, blob_fits, frame, is_terminator, lemma_terminator_unique, nul_free, parse_blob,
    parse_i16, parse_i32, parse_i64, parse_text, parse_u8, split_frame, terminator, text_bytes,
    zero_free,
};
use vstd::utf8::{
    char_is_scalar, decode_utf8, decode_utf8_encode_utf8, encode_scalar, encode_utf8,
    encode_utf8_decode_utf8, encode_utf8_valid_utf8, has_width_1_encoding, last_continuation_byte,
    leading_byte_width_1, leading_byte_width_2, leading_byte_width_3, leading_byte_width_4,
    second_last_continuation_byte, third_last_continuation_byte,
};
use vstd::prelude::*;

verus! {

/// A byte that was written is read back.
pub proof fn lemma_u8_round_trip(v: u8, t: Seq<u8>)
    ensures
        parse_u8(seq![v] + t) == Ok::<(u8, Seq<u8>), Error>((v, t)),
{
    assert((seq![v] + t).skip(1) =~= t);
}

/// The bytes that a byte was read from are that byte and what was left.
pub proof fn lemma_u8_inverse(s: Seq<u8>)
    ensures
        parse_u8(s) matches Ok((v, r)) ==> s == seq![v] + r,
{
    if s.len() >= 1 {
        assert(s =~= seq![s[0]] + s.skip(1));
    }
}

/// A 16-bit integer that was written is read back.
pub proof fn lemma_i16_field_round_trip(v: i16, t: Seq<u8>)
    ensures
        parse_i16(be_i16(v) + t) == Ok::<(i16, Seq<u8>), Error>((v, t)),
{
    lemma_i16_round_trip(v);
    assert((be_i16(v) + t).take(2) =~= be_i16(v));
    assert((be_i16(v) + t).skip(2) =~= t);
}

/// The bytes that a 16-bit integer was read from are its two bytes and what was left.
pub proof fn lemma_i16_field_inverse(s: Seq<u8>)
    ensures
        parse_i16(s) matches Ok((v, r)) ==> s == be_i16(v) + r,
{
    if s.len() >= 2 {
        lemma_i16_bytes_round_trip(s.take(2));
        assert(s =~= s.take(2) + s.skip(2));
    }
}

/// A 32-bit integer that was written is read back.
pub proof fn lemma_i32_field_round_trip(v: i32, t: Seq<u8>)
    ensures
        parse_i32(be_i32(v) + t) == Ok::<(i32, Seq<u8>), Error>((v, t)),
{
    lemma_i32_round_trip(v);
    assert((be_i32(v) + t).take(4) =~= be_i32(v));
    assert((be_i32(v) + t).skip(4) =~= t);
}

/// The bytes that a 32-bit integer was read from are its four bytes and what was left.
pub proof fn lemma_i32_field_inverse(s: Seq<u8>)
    ensures
        parse_i32(s) matches Ok((v, r)) ==> s == be_i32(v) + r,
{
    if s.len() >= 4 {
        lemma_i32_bytes_round_trip(s.take(4));
        assert(s =~= s.take(4) + s.skip(4));
    }
}

/// A 64-bit integer that was written is read back.
pub proof fn lemma_i64_field_round_trip(v: i64, t: Seq<u8>)
    ensures
        parse_i64(be_i64(v) + t) == Ok::<(i64, Seq<u8>), Error>((v, t)),
{
    lemma_i64_round_trip(v);
    assert((be_i64(v) + t).take(8) =~= be_i64(v));
    assert((be_i64(v) + t).skip(8) =~= t);
}

/// The bytes that a 64-bit integer was read from are its eight bytes and what was left.
pub proof fn lemma_i64_field_inverse(s: Seq<u8>)
    ensures
        parse_i64(s) matches Ok((v, r)) ==> s == be_i64(v) + r,
{
    if s.len() >= 8 {
        lemma_i64_bytes_round_trip(s.take(8));
        assert(s =~= s.take(8) + s.skip(8));
    }
}

/// Of the bytes that encode a scalar only the one byte of the scalar 0 is zero.
proof fn lemma_scalar_byte_values(c: u32)
    by (bit_vector)
    ensures
        has_width_1_encoding(c) ==> (leading_byte_width_1(c) == 0 <==> c == 0),
        leading_byte_width_2(c) != 0,
        leading_byte_width_3(c) != 0,
        leading_byte_width_4(c) != 0,
        last_continuation_byte(c) != 0,
        second_last_continuation_byte(c) != 0,
        third_last_continuation_byte(c) != 0,
{
}

/// The encoding of a character holds a zero byte exactly if the character has code 0.
proof fn lemma_scalar_zero_free(c: char)
    ensures
        zero_free(encode_scalar(c as u32)) <==> c as u32 != 0,
        encode_scalar(c as u32).len() >= 1,
{
    char_is_scalar(c);
    lemma_scalar_byte_values(c as u32);
    let b = encode_scalar(c as u32);
    if c as u32 == 0 {
        assert(b[0] == 0);
    }
}

/// The UTF-8 bytes of a text hold a zero byte exactly if the text holds the
/// character with code 0.
pub proof fn lemma_text_zero_free(s: Seq<char>)
    ensures
        zero_free(encode_utf8(s)) <==> nul_free(s),
    decreases s.len(),
{
    if s.len() > 0 {
        let head = encode_scalar(s[0] as u32);
        let tail = encode_utf8(s.drop_first());
        lemma_scalar_zero_free(s[0]);
        lemma_text_zero_free(s.drop_first());
        assert(encode_utf8(s) == head + tail);
        if nul_free(s) {
            assert(s[0] as u32 != 0);
            assert forall|i: int| 0 <= i < s.drop_first().len() implies s.drop_first()[i] as u32
                != 0 by {
                assert(s.drop_first()[i] == s[i + 1]);
            }
            assert(zero_free(head + tail));
        }
        if zero_free(head + tail) {
            assert forall|j: int| 0 <= j < head.len() implies head[j] != 0 by {
                assert((head + tail)[j] == head[j]);
            }
            assert forall|j: int| 0 <= j < tail.len() implies tail[j] != 0 by {
                assert((head + tail)[head.len() + j] == tail[j]);
            }
            assert forall|i: int| 0 <= i < s.len() implies s[i] as u32 != 0 by {
                if i > 0 {
                    assert(s.drop_first()[i - 1] == s[i]);
                }
            }
        }
    }
}

/// A text without the character of code 0 that was written is read back,
/// without its terminator.
pub proof fn lemma_text_round_trip(s: Seq<char>, t: Seq<u8>)
    requires
        nul_free(s),
    ensures
        parse_text(text_bytes(s) + t) == Ok::<(Seq<char>, Seq<u8>), Error>((s, t)),
{
    reveal(parse_text);
    let raw = encode_utf8(s);
    let b = text_bytes(s) + t;
    let n = raw.len() as int;
    lemma_text_zero_free(s);
    assert(b[n] == 0);
    assert forall|j: int| 0 <= j < n implies b[j] != 0 by {
        assert(b[j] == raw[j]);
    }
    assert(is_terminator(b, n));
    lemma_terminator_unique(b, n);
    assert(b.take(n) =~= raw);
    assert(b.skip(n + 1) =~= t);
    encode_utf8_valid_utf8(s);
    encode_utf8_decode_utf8(s);
}

/// The bytes that a text was read from are its UTF-8 bytes, a zero byte and
/// what was left; and the text holds no character of code 0.
pub proof fn lemma_text_inverse(b: Seq<u8>)
    ensures
        parse_text(b) matches Ok((s, r)) ==> b == text_bytes(s) + r && nul_free(s),
{
    reveal(parse_text);
    if parse_text(b) is Ok {
        let n = terminator(b);
        assert(is_terminator(b, n));
        let raw = b.take(n);
        let s = decode_utf8(raw);
        decode_utf8_encode_utf8(raw);
        assert(b =~= raw.push(0u8) + b.skip(n + 1));
        assert(zero_free(raw)) by {
            assert forall|j: int| 0 <= j < raw.len() implies raw[j] != 0 by {
                assert(raw[j] == b[j]);
            }
        }
        lemma_text_zero_free(s);
    }
}

/// A blob whose length fits its field, or an absent one, that was written
/// is read back.
pub proof fn lemma_blob_round_trip(v: Option<Seq<u8>>, t: Seq<u8>)
    requires
        blob_fits(v),
    ensures
        parse_blob(blob_bytes(v) + t) == Ok::<(Option<Seq<u8>>, Seq<u8>), Error>((v, t)),
{
    match v {
        None => {
            lemma_i32_field_round_trip(-1i32, t);
        },
        Some(d) => {
            let n = d.len() as i32;
            assert(blob_bytes(v) + t =~= be_i32(n) + (d + t));
            lemma_i32_field_round_trip(n, d + t);
            assert((d + t).take(n as int) =~= d);
            assert((d + t).skip(n as int) =~= t);
        },
    }
}

/// The bytes that a blob was read from are its length, its bytes and what
/// was left; those that an absent one was read from are the length -1 and
/// what was left.
pub proof fn lemma_blob_inverse(b: Seq<u8>)
    ensures
        parse_blob(b) matches Ok((v, r)) ==> b == blob_bytes(v) + r && blob_fits(v),
{
    if parse_blob(b) is Ok {
        lemma_i32_field_inverse(b);
        let (n, rest) = parse_i32(b)->Ok_0;
        if n != -1 {
            assert(rest =~= rest.take(n as int) + rest.skip(n as int));
            assert(b =~= be_i32(n) + rest.take(n as int) + rest.skip(n as int));
        }
    }
}

/// A frame that was written is taken apart into its tag and its body: the
/// length field of every frame holds the length of the body plus the four
/// bytes of the field itself, where that fits the field.
pub proof fn lemma_split_frame_round_trip(tag: u8, body: Seq<u8>, t: Seq<u8>)
    requires
        body.len() + 4 <= i32::MAX,
    ensures
        frame(Some(tag), body).len() == 1 + 4 + body.len(),
        parse_i32(frame(Some(tag), body).skip(1)) == Ok::<(i32, Seq<u8>), Error>(
            ((body.len() + 4) as i32, body),
        ),
        split_frame(frame(Some(tag), body) + t) == Ok::<((u8, Seq<u8>), Seq<u8>), Error>(
            ((tag, body), t),
        ),
{
    let length = (body.len() + 4) as i32;
    let whole = frame(Some(tag), body) + t;
    lemma_wrap_in_range(body.len() as int + 4);
    lemma_i32_round_trip(length);
    assert(frame(Some(tag), body).skip(1) =~= be_i32(length) + body);
    lemma_i32_field_round_trip(length, body);
    assert(whole =~= seq![tag] + (be_i32(length) + (body + t)));
    lemma_u8_round_trip(tag, be_i32(length) + (body + t));
    lemma_i32_field_round_trip(length, body + t);
    assert((body + t).take(length - 4) =~= body);
    assert((body + t).skip(length - 4) =~= t);
}

/// The bytes that a frame was taken apart from are the frame of that tag
/// and that body, and what was left; and the body fits the length field.
pub proof fn lemma_split_frame_inverse(s: Seq<u8>)
    ensures
        split_frame(s) matches Ok(((tag, body), r)) ==> s == frame(Some(tag), body) + r
            && body.len() + 4 <= i32::MAX,
{
    if split_frame(s) is Ok {
        lemma_u8_inverse(s);
        let (tag, b1) = parse_u8(s)->Ok_0;
        lemma_i32_field_inverse(b1);
        let (length, b2) = parse_i32(b1)->Ok_0;
        let body = b2.take(length - 4);
        let r = b2.skip(length - 4);
        lemma_wrap_in_range(body.len() as int + 4);
        assert(b2 =~= body + r);
        assert(s =~= frame(Some(tag), body) + r);
    }
}

/// A frame whose last byte is missing is refused for its end: the length
/// field announces more than is there.
pub proof fn lemma_frame_cut_short(tag: u8, body: Seq<u8>)
    requires
        body.len() + 4 <= i32::MAX,
    ensures
        split_frame(frame(Some(tag), body).drop_last()) == Err::<((u8, Seq<u8>), Seq<u8>), Error>(
            Error::UnexpectedEof,
        ),
{
    let length = (body.len() + 4) as i32;
    let cut = frame(Some(tag), body).drop_last();
    lemma_wrap_in_range(body.len() as int + 4);
    lemma_i32_round_trip(length);
    if body.len() == 0 {
        assert(cut =~= seq![tag] + be_i32(length).drop_last());
        lemma_u8_round_trip(tag, be_i32(length).drop_last());
    } else {
        assert(cut =~= seq![tag] + (be_i32(length) + body.drop_last()));
        lemma_u8_round_trip(tag, be_i32(length) + body.drop_last());
        lemma_i32_field_round_trip(length, body.drop_last());
    }
}

/// A frame without a tag starts with its length field, which holds the
/// length of the body plus the four bytes of the field itself.
pub proof fn lemma_untagged_frame(body: Seq<u8>)
    requires
        body.len() + 4 <= i32::MAX,
    ensures
        frame(None, body).len() == 4 + body.len(),
        parse_i32(frame(None, body)) == Ok::<(i32, Seq<u8>), Error>(
            ((body.len() + 4) as i32, body),
        ),
{
    let length = (body.len() + 4) as i32;
    lemma_wrap_in_range(body.len() as int + 4);
    lemma_i32_round_trip(length);
    assert(frame(None, body) =~= be_i32(length) + body);
    lemma_i32_field_round_trip(length, body);
}

} // verus!
