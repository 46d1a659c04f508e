//! The laws of arrays: an array that was written is read back.

use crate::bytes::{be_i32, lemma_i32_round_trip};
use crate::error::{ConversionError, Error};
use crate::laws::primitive::{lemma_blob_round_trip, lemma_i32_field_round_trip};
use crate::laws::range::reads_back;
use crate::laws::time::{lemma_timestamp_reads_back, wire_instant};
use crate::laws::repeat::{all_valid, lemma_many_round_trip};
use crate::laws::{always, round_trips};
use crate::repeat::many_bytes;
use crate::types::array::{
    array_bytes, array_value, dim_bytes, dim_parser, dim_writer, element_bytes, element_parser,
    element_value, elements_bytes, has_null, lemma_element_count_nonnegative, parse_dim, ArrayView,
    DimensionInfo,
};
use crate::types::time::Timespec;
use crate::types::{RawFromSql, RawToSql};
use vstd::prelude::*;

verus! {

/// The element, where it is present, is read back from what it is written
/// as, which fits the length field.
pub open spec fn element_reads_back<T: RawFromSql + RawToSql>() -> spec_fn(Option<T>) -> bool {
    |v: Option<T>| v matches Some(x) ==> reads_back(x) && x.raw_bytes()->Ok_0.len() <= i32::MAX
}

/// How an element that can be written is written, as a function.
pub open spec fn element_writer<T: RawToSql>() -> spec_fn(Option<T>) -> Seq<u8> {
    |v: Option<T>|
        match element_bytes(v) {
            Ok(b) => b,
            Err(_) => Seq::empty(),
        }
}

/// An element that was written is read back.
pub proof fn lemma_element_round_trip<T: RawFromSql + RawToSql>(v: Option<T>, t: Seq<u8>)
    requires
        element_reads_back::<T>()(v),
    ensures
        element_bytes(v) is Ok,
        element_bytes(v)->Ok_0.len() >= 4,
        element_value::<T>(element_bytes(v)->Ok_0 + t) == Ok::<
            (Option<T>, Seq<u8>),
            ConversionError,
        >((v, t)),
{
    lemma_i32_round_trip(-1i32);
    match v {
        None => {
            lemma_blob_round_trip(None, t);
        },
        Some(x) => {
            let d = x.raw_bytes()->Ok_0;
            lemma_i32_round_trip(d.len() as i32);
            lemma_blob_round_trip(Some(d), t);
        },
    }
}

/// Elements obey the law of reading back, where their scalars do.
pub proof fn lemma_element_format<T: RawFromSql + RawToSql>()
    ensures
        round_trips(element_parser::<T>(), element_writer::<T>(), element_reads_back::<T>()),
{
    let p = element_parser::<T>();
    let e = element_writer::<T>();
    assert forall|v: Option<T>, t: Seq<u8>| element_reads_back::<T>()(v) implies #[trigger] p(
        e(v) + t,
    ) == Ok::<(Option<T>, Seq<u8>), ConversionError>((v, t)) by {
        lemma_element_round_trip(v, t);
    }
}

/// Elements each of which can be written are written one after the other,
/// in four bytes or more each.
pub proof fn lemma_elements_bytes<T: RawFromSql + RawToSql>(vs: Seq<Option<T>>)
    requires
        all_valid(element_reads_back::<T>(), vs),
    ensures
        elements_bytes(vs) == Ok::<Seq<u8>, ConversionError>(many_bytes(element_writer::<T>(), vs)),
        many_bytes(element_writer::<T>(), vs).len() >= 4 * vs.len(),
    decreases vs.len(),
{
    if vs.len() > 0 {
        let before = vs.drop_last();
        assert(all_valid(element_reads_back::<T>(), before)) by {
            assert forall|i: int| 0 <= i < before.len() implies element_reads_back::<T>()(
                #[trigger] before[i],
            ) by {
                assert(before[i] == vs[i]);
            }
        }
        lemma_elements_bytes(before);
        assert(element_reads_back::<T>()(vs[vs.len() - 1]));
        lemma_element_round_trip(vs.last(), Seq::empty());
    }
}

/// A dimension that was written is read back.
pub proof fn lemma_dim_round_trip(d: DimensionInfo, t: Seq<u8>)
    ensures
        parse_dim(dim_bytes(d) + t) == Ok::<(DimensionInfo, Seq<u8>), Error>((d, t)),
{
    assert(dim_bytes(d) + t =~= be_i32(d.len) + (be_i32(d.lower_bound) + t));
    lemma_i32_field_round_trip(d.len, be_i32(d.lower_bound) + t);
    lemma_i32_field_round_trip(d.lower_bound, t);
}

/// Dimensions obey the law of reading back.
pub proof fn lemma_dim_format()
    ensures
        round_trips(dim_parser(), dim_writer(), always()),
{
    let p = dim_parser();
    let e = dim_writer();
    assert forall|v: DimensionInfo, t: Seq<u8>| #[trigger] p(e(v) + t) == Ok::<
        (DimensionInfo, Seq<u8>),
        Error,
    >((v, t)) by {
        lemma_dim_round_trip(v, t);
    }
}

/// An array that was written is read back, whatever follows it: for any
/// scalar type, where the array has as many elements as its dimensions
/// say and its elements are read back.
pub proof fn lemma_array_round_trip<T: RawFromSql + RawToSql>(a: ArrayView<T>, t: Seq<u8>)
    requires
        a.wf(),
        a.dimensions.len() <= i32::MAX,
        all_valid(element_reads_back::<T>(), a.elements),
    ensures
        array_bytes(a) is Ok,
        array_value::<T>(array_bytes(a)->Ok_0 + t) == Ok::<
            (ArrayView<T>, Seq<u8>),
            ConversionError,
        >((a, t)),
{
    lemma_elements_bytes(a.elements);
    let ndim = a.dimensions.len() as i32;
    let flag = if has_null(a.elements) {
        1i32
    } else {
        0i32
    };
    let elements = many_bytes(element_writer::<T>(), a.elements);
    let dims = many_bytes(dim_writer(), a.dimensions);
    let b4 = elements + t;
    let b3 = dims + b4;
    let b2 = be_i32(a.element_type) + b3;
    let b1 = be_i32(flag) + b2;
    assert(array_bytes(a)->Ok_0 + t =~= be_i32(ndim) + b1);
    lemma_i32_field_round_trip(ndim, b1);
    lemma_i32_field_round_trip(flag, b2);
    lemma_i32_field_round_trip(a.element_type, b3);
    lemma_dim_format();
    assert(all_valid(always::<DimensionInfo>(), a.dimensions));
    lemma_many_round_trip(dim_parser(), dim_writer(), always(), a.dimensions, b4);
    lemma_element_count_nonnegative(a.dimensions);
    lemma_element_format::<T>();
    lemma_many_round_trip(
        element_parser::<T>(),
        element_writer::<T>(),
        element_reads_back::<T>(),
        a.elements,
        t,
    );
}

/// An array of instants that was written is read back, where it has as many
/// elements as its dimensions say and those that are present are instants
/// of whole microseconds that the wire can hold.
pub proof fn lemma_timestamp_array_round_trip(a: ArrayView<Timespec>, t: Seq<u8>)
    requires
        a.wf(),
        a.dimensions.len() <= i32::MAX,
        forall|i: int|
            0 <= i < a.elements.len() ==> ((#[trigger] a.elements[i]) matches Some(ts)
                ==> wire_instant(ts)),
    ensures
        array_bytes(a) is Ok,
        array_value::<Timespec>(array_bytes(a)->Ok_0 + t) == Ok::<
            (ArrayView<Timespec>, Seq<u8>),
            ConversionError,
        >((a, t)),
{
    assert forall|i: int| 0 <= i < a.elements.len() implies element_reads_back::<Timespec>()(
        #[trigger] a.elements[i],
    ) by {
        if let Some(ts) = a.elements[i] {
            lemma_timestamp_reads_back(ts);
        }
    }
    lemma_array_round_trip(a, t);
}

} // verus!
