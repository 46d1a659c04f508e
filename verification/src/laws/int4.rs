//! The laws of the canonical form of integer ranges.

use crate::bytes::{lemma_i32_bytes_round_trip, lemma_i32_round_trip};
use crate::error::ConversionError;
use crate::laws::range::reads_back;
use crate::types::range::{BoundSide, Normalizable, RangeBound};
use crate::types::{RawFromSql, RawToSql};
use vstd::prelude::*;

verus! {

/// Whether `v` lies in the range that `lower` and `upper` bound, a missing
/// bound leaving its side open.
pub open spec fn holds(
    lower: Option<RangeBound<i32>>,
    upper: Option<RangeBound<i32>>,
    v: i32,
) -> bool {
    &&& lower matches Some(b) ==> if b.kind is Inclusive {
        b.value <= v
    } else {
        b.value < v
    }
    &&& upper matches Some(b) ==> if b.kind is Inclusive {
        v <= b.value
    } else {
        v < b.value
    }
}

/// A range holds the same values before and after its bounds are brought
/// into canonical form, and a bound in canonical form stays as it is.
pub proof fn lemma_normalized_range_is_equal(
    lower: Option<RangeBound<i32>>,
    upper: Option<RangeBound<i32>>,
    v: i32,
)
    ensures
        holds(lower, upper, v) <==> holds(
            normalized_side(lower, BoundSide::Lower),
            normalized_side(upper, BoundSide::Upper),
            v,
        ),
        normalized_side(normalized_side(lower, BoundSide::Lower), BoundSide::Lower)
            == normalized_side(lower, BoundSide::Lower),
        normalized_side(normalized_side(upper, BoundSide::Upper), BoundSide::Upper)
            == normalized_side(upper, BoundSide::Upper),
{
}

/// The canonical form of a bound that may be missing.
pub open spec fn normalized_side(bound: Option<RangeBound<i32>>, side: BoundSide) -> Option<
    RangeBound<i32>,
> {
    match bound {
        Some(b) => Some(i32::normalized(b, side)),
        None => None,
    }
}

/// Equal ranges have equal canonical forms: two ranges that hold the same
/// values, and at least one, and are bounded on the same sides, have the
/// same bounds once these are brought into canonical form, however the
/// ranges were expressed.
pub proof fn lemma_equal_ranges_normalize_equal(
    lower1: Option<RangeBound<i32>>,
    upper1: Option<RangeBound<i32>>,
    lower2: Option<RangeBound<i32>>,
    upper2: Option<RangeBound<i32>>,
    witness: i32,
)
    requires
        forall|v: i32| holds(lower1, upper1, v) <==> holds(lower2, upper2, v),
        holds(lower1, upper1, witness),
        lower1 is Some <==> lower2 is Some,
        upper1 is Some <==> upper2 is Some,
    ensures
        normalized_side(lower1, BoundSide::Lower) == normalized_side(lower2, BoundSide::Lower),
        normalized_side(upper1, BoundSide::Upper) == normalized_side(upper2, BoundSide::Upper),
{
    assert(holds(lower2, upper2, witness));
    if lower1 is Some {
        let a = i32::normalized(lower1->Some_0, BoundSide::Lower);
        let b = i32::normalized(lower2->Some_0, BoundSide::Lower);
        assert(a.kind is Inclusive && a.value <= witness);
        assert(b.kind is Inclusive && b.value <= witness);
        assert(holds(lower1, upper1, a.value));
        assert(holds(lower2, upper2, a.value));
        assert(holds(lower2, upper2, b.value));
        assert(holds(lower1, upper1, b.value));
    }
    if upper1 is Some {
        let a = i32::normalized(upper1->Some_0, BoundSide::Upper);
        let b = i32::normalized(upper2->Some_0, BoundSide::Upper);
        assert(a.kind is Inclusive && witness <= a.value);
        assert(b.kind is Inclusive && witness <= b.value);
        assert(holds(lower1, upper1, a.value));
        assert(holds(lower2, upper2, a.value));
        assert(holds(lower2, upper2, b.value));
        assert(holds(lower1, upper1, b.value));
    }
}

/// An integer is four raw bytes: raw bytes of any other length, shorter or
/// longer, are refused as ill-formed. Every integer is read back from what
/// it is written as, and every four bytes are what the integer that they
/// are read as is written as.
pub proof fn lemma_int4_length(b: Seq<u8>, v: i32)
    ensures
        b.len() != 4 ==> i32::raw_value(b) == Err::<i32, ConversionError>(ConversionError::BadData),
        i32::raw_value(b) matches Ok(x) ==> x.raw_bytes() == Ok::<Seq<u8>, ConversionError>(b),
        reads_back(v),
{
    lemma_i32_round_trip(v);
    if b.len() == 4 {
        lemma_i32_bytes_round_trip(b);
    }
}

} // verus!
