//! The laws of counted repetition, for any field that obeys them itself.

use crate::bytes::{be_i16, be_unsigned, lemma_wrap_in_range, radix};
use crate::error::Error;
use crate::laws::primitive::{
    lemma_blob_inverse, lemma_blob_round_trip, lemma_i16_field_inverse, lemma_i16_field_round_trip,
    lemma_i32_field_inverse, lemma_i32_field_round_trip,
};
use crate::laws::{always, inverts, round_trips};
use crate::repeat::{counted_bytes, lemma_many_bytes_front, many_bytes, parse_counted, parse_many};
use crate::wire::{
    blob_bytes, blob_fits, blob_parser, blob_writer, i16_parser, i16_writer, i32_parser, i32_writer,
    parse_blob, parse_i16, Parsed,
};
use vstd::prelude::*;

verus! {

/// `valid` holds of every value of `vs`.
pub open spec fn all_valid<T>(valid: spec_fn(T) -> bool, vs: Seq<T>) -> bool {
    forall|i: int| 0 <= i < vs.len() ==> valid(#[trigger] vs[i])
}

/// The blobs that fit their length field, as a predicate.
pub open spec fn fitting_blob() -> spec_fn(Option<Seq<u8>>) -> bool {
    |v: Option<Seq<u8>>| blob_fits(v)
}

/// A valid value in front of valid values gives valid values.
pub proof fn lemma_all_valid_front<T>(valid: spec_fn(T) -> bool, v: T, rest: Seq<T>)
    requires
        valid(v),
        all_valid(valid, rest),
    ensures
        all_valid(valid, seq![v] + rest),
{
    let vs = seq![v] + rest;
    assert forall|i: int| 0 <= i < vs.len() implies valid(#[trigger] vs[i]) by {
        if i > 0 {
            assert(vs[i] == rest[i - 1]);
        }
    }
}

/// Values written one after the other are read back in their order.
pub proof fn lemma_many_round_trip<T, E>(
    p: spec_fn(Seq<u8>) -> Result<(T, Seq<u8>), E>,
    e: spec_fn(T) -> Seq<u8>,
    valid: spec_fn(T) -> bool,
    vs: Seq<T>,
    t: Seq<u8>,
)
    requires
        round_trips(p, e, valid),
        all_valid(valid, vs),
    ensures
        parse_many(p, many_bytes(e, vs) + t, vs.len()) == Ok::<(Seq<T>, Seq<u8>), E>((vs, t)),
    decreases vs.len(),
{
    if vs.len() == 0 {
        assert(many_bytes(e, vs) + t =~= t);
        assert(vs =~= Seq::<T>::empty());
    } else {
        let v = vs[0];
        let rest = vs.drop_first();
        assert(vs =~= seq![v] + rest);
        lemma_many_bytes_front(e, v, rest);
        assert(many_bytes(e, vs) + t =~= e(v) + (many_bytes(e, rest) + t));
        assert(valid(v));
        assert(p(e(v) + (many_bytes(e, rest) + t)) == Ok::<(T, Seq<u8>), E>(
            (v, many_bytes(e, rest) + t),
        ));
        assert(all_valid(valid, rest)) by {
            assert forall|i: int| 0 <= i < rest.len() implies valid(#[trigger] rest[i]) by {
                assert(rest[i] == vs[i + 1]);
            }
        }
        lemma_many_round_trip(p, e, valid, rest, t);
    }
}

/// The bytes that values were read from one after the other are the bytes
/// of those values and what was left.
pub proof fn lemma_many_inverse<T, E>(
    p: spec_fn(Seq<u8>) -> Result<(T, Seq<u8>), E>,
    e: spec_fn(T) -> Seq<u8>,
    valid: spec_fn(T) -> bool,
    s: Seq<u8>,
    n: nat,
)
    requires
        inverts(p, e, valid),
    ensures
        parse_many(p, s, n) matches Ok((vs, r)) ==> s == many_bytes(e, vs) + r && vs.len() == n
            && all_valid(valid, vs),
    decreases n,
{
    if n == 0 {
        assert(many_bytes(e, Seq::<T>::empty()) + s =~= s);
    } else if parse_many(p, s, n) is Ok {
        assert(p(s) is Ok);
        let (v, s1) = p(s)->Ok_0;
        lemma_many_inverse(p, e, valid, s1, (n - 1) as nat);
        let (rest, r) = parse_many(p, s1, (n - 1) as nat)->Ok_0;
        let vs = seq![v] + rest;
        lemma_many_bytes_front(e, v, rest);
        assert(s =~= many_bytes(e, vs) + r);
        assert(all_valid(valid, vs)) by {
            assert forall|i: int| 0 <= i < vs.len() implies valid(#[trigger] vs[i]) by {
                if i > 0 {
                    assert(vs[i] == rest[i - 1]);
                }
            }
        }
    }
}

/// A count and that many values, written, are read back, where the count
/// fits its field.
pub proof fn lemma_counted_round_trip<T>(
    p: spec_fn(Seq<u8>) -> Parsed<T>,
    e: spec_fn(T) -> Seq<u8>,
    valid: spec_fn(T) -> bool,
    vs: Seq<T>,
    t: Seq<u8>,
)
    requires
        round_trips(p, e, valid),
        all_valid(valid, vs),
        vs.len() <= i16::MAX,
    ensures
        parse_counted(p, counted_bytes(e, vs) + t) == Ok::<(Seq<T>, Seq<u8>), Error>((vs, t)),
{
    let n = vs.len() as i16;
    lemma_wrap_in_range(vs.len() as int);
    assert(counted_bytes(e, vs) + t =~= be_i16(n) + (many_bytes(e, vs) + t));
    lemma_i16_field_round_trip(n, many_bytes(e, vs) + t);
    lemma_many_round_trip(p, e, valid, vs, t);
}

/// The bytes that a count and that many values were read from are the bytes
/// of the count and of the values, and what was left.
pub proof fn lemma_counted_inverse<T>(
    p: spec_fn(Seq<u8>) -> Parsed<T>,
    e: spec_fn(T) -> Seq<u8>,
    valid: spec_fn(T) -> bool,
    s: Seq<u8>,
)
    requires
        inverts(p, e, valid),
    ensures
        parse_counted(p, s) matches Ok((vs, r)) ==> s == counted_bytes(e, vs) + r && vs.len()
            <= i16::MAX && all_valid(valid, vs),
{
    if parse_counted(p, s) is Ok {
        lemma_i16_field_inverse(s);
        let (n, s1) = parse_i16(s)->Ok_0;
        lemma_many_inverse(p, e, valid, s1, n as nat);
        let (vs, r) = parse_many(p, s1, n as nat)->Ok_0;
        lemma_wrap_in_range(n as int);
        assert(s =~= counted_bytes(e, vs) + r);
    }
}

/// 16-bit integers obey both laws.
pub proof fn lemma_i16_format()
    ensures
        round_trips(i16_parser(), i16_writer(), always()),
        inverts(i16_parser(), i16_writer(), always()),
{
    let p = i16_parser();
    let e = i16_writer();
    assert forall|v: i16, t: Seq<u8>| #[trigger] p(e(v) + t) == Ok::<(i16, Seq<u8>), Error>(
        (v, t),
    ) by {
        lemma_i16_field_round_trip(v, t);
    }
    assert forall|s: Seq<u8>| (#[trigger] p(s)) is Ok implies s == e(p(s)->Ok_0.0) + p(
        s,
    )->Ok_0.1 by {
        lemma_i16_field_inverse(s);
    }
}

/// 32-bit integers obey both laws.
pub proof fn lemma_i32_format()
    ensures
        round_trips(i32_parser(), i32_writer(), always()),
        inverts(i32_parser(), i32_writer(), always()),
{
    let p = i32_parser();
    let e = i32_writer();
    assert forall|v: i32, t: Seq<u8>| #[trigger] p(e(v) + t) == Ok::<(i32, Seq<u8>), Error>(
        (v, t),
    ) by {
        lemma_i32_field_round_trip(v, t);
    }
    assert forall|s: Seq<u8>| (#[trigger] p(s)) is Ok implies s == e(p(s)->Ok_0.0) + p(
        s,
    )->Ok_0.1 by {
        lemma_i32_field_inverse(s);
    }
}

/// Nullable blobs obey both laws, where they fit their length field.
pub proof fn lemma_blob_format()
    ensures
        round_trips(blob_parser(), blob_writer(), fitting_blob()),
        inverts(blob_parser(), blob_writer(), fitting_blob()),
{
    let p = blob_parser();
    let e = blob_writer();
    assert forall|v: Option<Seq<u8>>, t: Seq<u8>| blob_fits(v) implies #[trigger] p(e(v) + t)
        == Ok::<(Option<Seq<u8>>, Seq<u8>), Error>((v, t)) by {
        lemma_blob_round_trip(v, t);
    }
    assert forall|s: Seq<u8>| (#[trigger] p(s)) is Ok implies s == e(p(s)->Ok_0.0) + p(
        s,
    )->Ok_0.1 && blob_fits(p(s)->Ok_0.0) by {
        lemma_blob_inverse(s);
    }
}

/// An absent value is written as the length -1, four bytes of all ones,
/// and no byte more; and it is read back as absent.
pub proof fn lemma_absent_value(t: Seq<u8>)
    ensures
        blob_bytes(None) == seq![0xffu8, 0xffu8, 0xffu8, 0xffu8],
        parse_blob(blob_bytes(None) + t) == Ok::<(Option<Seq<u8>>, Seq<u8>), Error>((None, t)),
{
    reveal_with_fuel(be_unsigned, 5);
    reveal_with_fuel(radix, 5);
    assert(blob_bytes(None) =~= seq![0xffu8, 0xffu8, 0xffu8, 0xffu8]);
    lemma_blob_round_trip(None, t);
}

/// A list of values that was written is read back value for value: what
/// was absent is absent at the same place, and what was present is present
/// with the same bytes.
pub proof fn lemma_value_list_round_trip(values: Seq<Option<Seq<u8>>>, t: Seq<u8>)
    requires
        values.len() <= i16::MAX,
        all_valid(fitting_blob(), values),
    ensures
        parse_counted(blob_parser(), counted_bytes(blob_writer(), values) + t) == Ok::<
            (Seq<Option<Seq<u8>>>, Seq<u8>),
            Error,
        >((values, t)),
{
    lemma_blob_format();
    lemma_counted_round_trip(blob_parser(), blob_writer(), fitting_blob(), values, t);
}

/// Whether `e` is a failure for an unknown tag.
pub open spec fn is_unknown_message(e: Error) -> bool {
    e is UnknownMessage
}

/// Where a field is never refused for an unknown tag, neither are values
/// of it read one after the other.
pub proof fn lemma_many_fails_as_its_field<T>(
    p: spec_fn(Seq<u8>) -> Parsed<T>,
    s: Seq<u8>,
    n: nat,
)
    requires
        forall|b: Seq<u8>| (#[trigger] p(b)) matches Err(e) ==> !is_unknown_message(e),
    ensures
        parse_many(p, s, n) matches Err(e) ==> !is_unknown_message(e),
    decreases n,
{
    if n > 0 && p(s) is Ok {
        lemma_many_fails_as_its_field(p, p(s)->Ok_0.1, (n - 1) as nat);
    }
}

/// A counted list of 16-bit integers, 32-bit integers, blobs or columns is
/// never refused for an unknown tag.
pub proof fn lemma_counted_fails_as_its_field<T>(p: spec_fn(Seq<u8>) -> Parsed<T>, s: Seq<u8>)
    requires
        forall|b: Seq<u8>| (#[trigger] p(b)) matches Err(e) ==> !is_unknown_message(e),
    ensures
        !(parse_counted(p, s) matches Err(Error::UnknownMessage(_))),
{
    if parse_i16(s) is Ok && parse_i16(s)->Ok_0.0 >= 0 {
        lemma_many_fails_as_its_field(p, parse_i16(s)->Ok_0.1, parse_i16(s)->Ok_0.0 as nat);
    }
}

} // verus!
