//! 32-bit integers: four bytes on the wire, big-endian. A discrete type:
//! next to every value but the last there is a next one.

use crate::bytes::{be_i32, i32_of_be};
use crate::error::ConversionError;
use crate::reader::MemReader;
use crate::types::range::{BoundSide, BoundType, Normalizable, RangeBound};
use crate::types::{RawFromSql, RawToSql};
use crate::writer::write_be_i32;
use vstd::prelude::*;

verus! {

impl RawFromSql for i32 {
    /// An integer is four bytes, not one more or less.
    open spec fn raw_value(b: Seq<u8>) -> Result<i32, ConversionError> {
        if b.len() == 4 {
            Ok(i32_of_be(b))
        } else {
            Err(ConversionError::BadData)
        }
    }

    /// Raw bytes that are refused are left unread.
    fn raw_from_sql(raw: &mut MemReader) -> (r: Result<i32, ConversionError>)
        ensures
            r is Err ==> final(raw).remaining() == old(raw).remaining(),
    {
        if raw.available() != 4 {
            return Err(ConversionError::BadData);
        }
        assert(raw.remaining().take(4) =~= raw.remaining());
        match raw.read_be_i32() {
            Ok(v) => Ok(v),
            Err(_) => Err(ConversionError::BadData),
        }
    }
}

impl RawToSql for i32 {
    open spec fn raw_bytes(&self) -> Result<Seq<u8>, ConversionError> {
        Ok(be_i32(*self))
    }

    fn raw_to_sql(&self, w: &mut Vec<u8>) -> (r: Result<(), ConversionError>) {
        write_be_i32(w, *self);
        Ok(())
    }
}

impl Normalizable for i32 {
    /// An exclusive bound becomes the inclusive bound one step inside the
    /// range: one up at the lower end, one down at the upper end. An
    /// exclusive bound at the last value of its side has no inclusive
    /// equal and stays as it is.
    open spec fn normalized(bound: RangeBound<i32>, side: BoundSide) -> RangeBound<i32> {
        if bound.kind is Exclusive && side is Lower && bound.value < i32::MAX {
            RangeBound { value: (bound.value + 1) as i32, kind: BoundType::Inclusive }
        } else if bound.kind is Exclusive && side is Upper && bound.value > i32::MIN {
            RangeBound { value: (bound.value - 1) as i32, kind: BoundType::Inclusive }
        } else {
            bound
        }
    }

    fn normalize(bound: RangeBound<i32>, side: BoundSide) -> (r: RangeBound<i32>) {
        match (bound.kind, side) {
            (BoundType::Exclusive, BoundSide::Lower) => if bound.value < i32::MAX {
                RangeBound { value: bound.value + 1, kind: BoundType::Inclusive }
            } else {
                bound
            },
            (BoundType::Exclusive, BoundSide::Upper) => if bound.value > i32::MIN {
                RangeBound { value: bound.value - 1, kind: BoundType::Inclusive }
            } else {
                bound
            },
            _ => bound,
        }
    }
}

} // verus!
