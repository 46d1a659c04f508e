//! The laws of the type conversions: a value that was written is read back.

use crate::bytes::be_i32;
use crate::error::ConversionError;
use crate::laws::primitive::{lemma_i32_field_round_trip, lemma_u8_round_trip};
use crate::laws::time::{lemma_timestamp_reads_back, wire_instant};
use crate::types::range::{
    bound_bytes, flag_set, range_flags, range_value, side_value, BoundSide, Normalizable, Range,
    RangeBound, RANGE_EMPTY, RANGE_LOWER_INCLUSIVE, RANGE_LOWER_UNBOUNDED, RANGE_UPPER_INCLUSIVE,
    RANGE_UPPER_UNBOUNDED,
};
use crate::types::time::Timespec;
use crate::types::{RawFromSql, RawToSql};
use vstd::prelude::*;

verus! {

/// The value can be written, and what it is written as is read back as
/// the value.
pub open spec fn reads_back<T: RawFromSql + RawToSql>(v: T) -> bool {
    v.raw_bytes() matches Ok(d) && T::raw_value(d) == Ok::<T, ConversionError>(v)
}

/// The bound, where there is one, has a value that is read back from what
/// it is written as, which fits the length field, and is in canonical form.
pub open spec fn canonical<T: RawFromSql + RawToSql + Normalizable>(
    bound: Option<RangeBound<T>>,
    side: BoundSide,
) -> bool {
    bound matches Some(b) ==> {
        &&& reads_back(b.value)
        &&& b.value.raw_bytes()->Ok_0.len() <= i32::MAX
        &&& T::normalized(b, side) == b
    }
}

/// A bound that was written is read back, where the flag byte tells its
/// kind, and an unbounded side is read back as unbounded.
proof fn lemma_side_round_trip<T: RawFromSql + RawToSql + Normalizable>(
    bound: Option<RangeBound<T>>,
    flags: u8,
    unbounded: u8,
    inclusive: u8,
    side: BoundSide,
    t: Seq<u8>,
)
    requires
        canonical(bound, side),
        flag_set(flags, unbounded) <==> bound is None,
        bound matches Some(b) ==> (flag_set(flags, inclusive) <==> b.kind is Inclusive),
    ensures
        bound_bytes(bound) is Ok,
        side_value::<T>(bound_bytes(bound)->Ok_0 + t, flags, unbounded, inclusive, side) == Ok::<
            (Option<RangeBound<T>>, Seq<u8>),
            ConversionError,
        >((bound, t)),
{
    match bound {
        None => {
            assert(bound_bytes(bound)->Ok_0 + t =~= t);
        },
        Some(b) => {
            let d = b.value.raw_bytes()->Ok_0;
            let n = d.len() as i32;
            assert(bound_bytes(bound)->Ok_0 + t =~= be_i32(n) + (d + t));
            lemma_i32_field_round_trip(n, d + t);
            assert((d + t).take(n as int) =~= d);
            assert((d + t).skip(n as int) =~= t);
            assert(b == (RangeBound { value: b.value, kind: b.kind }));
        },
    }
}

/// The flag byte of a range says of each side whether it is unbounded and
/// whether its bound is inclusive, and does not say that the range is empty.
proof fn lemma_range_flags<T>(lower: Option<RangeBound<T>>, upper: Option<RangeBound<T>>)
    ensures
        !flag_set(range_flags(lower, upper), RANGE_EMPTY),
        flag_set(range_flags(lower, upper), RANGE_LOWER_UNBOUNDED) <==> lower is None,
        flag_set(range_flags(lower, upper), RANGE_UPPER_UNBOUNDED) <==> upper is None,
        lower matches Some(b) ==> (flag_set(range_flags(lower, upper), RANGE_LOWER_INCLUSIVE)
            <==> b.kind is Inclusive),
        upper matches Some(b) ==> (flag_set(range_flags(lower, upper), RANGE_UPPER_INCLUSIVE)
            <==> b.kind is Inclusive),
{
}

/// A range that was written is read off the front of whatever it is
/// followed by, which is left: for any scalar type, where the values of
/// its bounds are read back and the bounds are in canonical form.
pub proof fn lemma_range_value_round_trip<T: RawFromSql + RawToSql + Normalizable>(
    r: Range<T>,
    t: Seq<u8>,
)
    requires
        r matches Range::Normal(lower, upper) ==> canonical(lower, BoundSide::Lower) && canonical(
            upper,
            BoundSide::Upper,
        ),
    ensures
        r.raw_bytes() is Ok,
        range_value::<T>(r.raw_bytes()->Ok_0 + t) == Ok::<(Range<T>, Seq<u8>), ConversionError>(
            (r, t),
        ),
{
    match r {
        Range::Empty => {
            lemma_u8_round_trip(RANGE_EMPTY, t);
        },
        Range::Normal(lower, upper) => {
            let flags = range_flags(lower, upper);
            lemma_range_flags(lower, upper);
            lemma_side_round_trip(
                upper,
                flags,
                RANGE_UPPER_UNBOUNDED,
                RANGE_UPPER_INCLUSIVE,
                BoundSide::Upper,
                t,
            );
            let upper_bytes = bound_bytes(upper)->Ok_0;
            lemma_side_round_trip(
                lower,
                flags,
                RANGE_LOWER_UNBOUNDED,
                RANGE_LOWER_INCLUSIVE,
                BoundSide::Lower,
                upper_bytes + t,
            );
            let lower_bytes = bound_bytes(lower)->Ok_0;
            assert(r.raw_bytes()->Ok_0 + t =~= seq![flags] + (lower_bytes + (upper_bytes + t)));
            lemma_u8_round_trip(flags, lower_bytes + (upper_bytes + t));
        },
    }
}

/// A range that was written is read back: for any scalar type, where the
/// values of its bounds are read back and the bounds are in canonical
/// form. With one byte more at their end the same bytes are no range.
pub proof fn lemma_range_round_trip<T: RawFromSql + RawToSql + Normalizable>(r: Range<T>, extra: u8)
    requires
        r matches Range::Normal(lower, upper) ==> canonical(lower, BoundSide::Lower) && canonical(
            upper,
            BoundSide::Upper,
        ),
    ensures
        reads_back(r),
        Range::<T>::raw_value(r.raw_bytes()->Ok_0.push(extra)) == Err::<Range<T>, ConversionError>(
            ConversionError::BadData,
        ),
{
    let bytes = r.raw_bytes()->Ok_0;
    lemma_range_value_round_trip(r, Seq::empty());
    assert(bytes + Seq::empty() =~= bytes);
    lemma_range_value_round_trip(r, seq![extra]);
    assert(bytes + seq![extra] =~= bytes.push(extra));
}

/// A range of instants that was written is read back, where its bounds are
/// instants of whole microseconds that the wire can hold.
pub proof fn lemma_timestamp_range_round_trip(r: Range<Timespec>)
    requires
        r matches Range::Normal(lower, upper) ==> (lower matches Some(b) ==> wire_instant(
            b.value,
        )) && (upper matches Some(b) ==> wire_instant(b.value)),
    ensures
        reads_back(r),
{
    if let Range::Normal(lower, upper) = r {
        if let Some(b) = lower {
            lemma_timestamp_reads_back(b.value);
        }
        if let Some(b) = upper {
            lemma_timestamp_reads_back(b.value);
        }
    }
    lemma_range_round_trip(r, 0u8);
}

} // verus!
