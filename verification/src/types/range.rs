//! Ranges over any scalar type: the data model, and the codec that is
//! derived from the codec of the scalar.

use crate::bytes::be_i32;
use crate::error::ConversionError;
use crate::reader::MemReader;
use crate::types::{from_raw, to_raw, whole, Converted, RawFromSql, RawToSql};
use crate::wire::{parse_i32, parse_u8};
use crate::writer::{write_be_i32, write_bytes, write_u8};
use vstd::prelude::*;

verus! {

/// The bits of the flag byte that a range starts with, at the places that
/// the server gives them: the two that tell an inclusive bound come before
/// the two that tell an unbounded side.
///
/// The range is empty; no bound follows.
pub const RANGE_EMPTY: u8 = 0x01;

/// The lower bound belongs to the range.
pub const RANGE_LOWER_INCLUSIVE: u8 = 0x02;

/// The upper bound belongs to the range.
pub const RANGE_UPPER_INCLUSIVE: u8 = 0x04;

/// The range has no lower bound.
pub const RANGE_LOWER_UNBOUNDED: u8 = 0x08;

/// The range has no upper bound.
pub const RANGE_UPPER_UNBOUNDED: u8 = 0x10;

/// Whether a bound belongs to the range it bounds.
#[derive(Clone, Copy, Debug, PartialEq, Eq, Structural)]
pub enum BoundType {
    Inclusive,
    Exclusive,
}

/// Which end of a range a bound is.
#[derive(Clone, Copy, Debug, PartialEq, Eq, Structural)]
pub enum BoundSide {
    Lower,
    Upper,
}

/// One end of a range: a value, and whether the range holds it.
#[derive(Clone, Copy, Debug, PartialEq, Eq)]
pub struct RangeBound<T> {
    pub value: T,
    pub kind: BoundType,
}

/// A range: empty, or with a lower and an upper bound, each of which may be
/// missing, which leaves the range unbounded on that side.
#[derive(Clone, Copy, Debug, PartialEq, Eq)]
pub enum Range<T> {
    Empty,
    Normal(Option<RangeBound<T>>, Option<RangeBound<T>>),
}

/// A type whose range bounds have a canonical form.
pub trait Normalizable: Sized {
    /// The canonical form of `bound` at the `side` end of a range.
    spec fn normalized(bound: RangeBound<Self>, side: BoundSide) -> RangeBound<Self>;

    /// Brings `bound` into its canonical form, so that equal ranges are
    /// equal values however they were expressed.
    fn normalize(bound: RangeBound<Self>, side: BoundSide) -> (r: RangeBound<Self>)
        ensures
            r == Self::normalized(bound, side),
    ;
}

/// Whether the bit `flag`, a power of two, is set in `flags`.
pub open spec fn flag_set(flags: u8, flag: u8) -> bool {
    (flags / flag) % 2 == 1
}

/// The bits that a bound contributes to the flag byte: the one that says
/// that the side is unbounded, or the one that says that the bound is
/// inclusive, or none.
pub open spec fn bound_flags<T>(bound: Option<RangeBound<T>>, unbounded: u8, inclusive: u8) -> u8 {
    match bound {
        None => unbounded,
        Some(b) => if b.kind is Inclusive {
            inclusive
        } else {
            0
        },
    }
}

/// The flag byte of a range that is not empty.
pub open spec fn range_flags<T>(
    lower: Option<RangeBound<T>>,
    upper: Option<RangeBound<T>>,
) -> u8 {
    (bound_flags(lower, RANGE_LOWER_UNBOUNDED, RANGE_LOWER_INCLUSIVE) + bound_flags(
        upper,
        RANGE_UPPER_UNBOUNDED,
        RANGE_UPPER_INCLUSIVE,
    )) as u8
}

/// What a bound is written as: nothing where the side is unbounded, else
/// the length of the value's bytes and those bytes.
pub open spec fn bound_bytes<T: RawToSql>(bound: Option<RangeBound<T>>) -> Result<
    Seq<u8>,
    ConversionError,
> {
    match bound {
        None => Ok(Seq::empty()),
        Some(b) => match b.value.raw_bytes() {
            Err(e) => Err(e),
            Ok(d) => if d.len() > i32::MAX {
                Err(ConversionError::OutOfRange)
            } else {
                Ok(be_i32(d.len() as i32) + d)
            },
        },
    }
}

/// The bound that the front of `b` holds: a length and that many bytes,
/// which are one value. The bound is brought into its canonical form.
pub open spec fn bound_value<T: RawFromSql + Normalizable>(
    b: Seq<u8>,
    kind: BoundType,
    side: BoundSide,
) -> Converted<RangeBound<T>> {
    match parse_i32(b) {
        Err(_) => Err(ConversionError::BadData),
        Ok((n, rest)) => if n < 0 || rest.len() < n {
            Err(ConversionError::BadData)
        } else {
            match T::raw_value(rest.take(n as int)) {
                Err(e) => Err(e),
                Ok(value) => Ok(
                    (T::normalized(RangeBound { value, kind }, side), rest.skip(n as int)),
                ),
            }
        },
    }
}

/// The bound of one side that the front of `b` holds, if the flag byte
/// `flags` says that the side has one.
pub open spec fn side_value<T: RawFromSql + Normalizable>(
    b: Seq<u8>,
    flags: u8,
    unbounded: u8,
    inclusive: u8,
    side: BoundSide,
) -> Converted<Option<RangeBound<T>>> {
    if flag_set(flags, unbounded) {
        Ok((None, b))
    } else {
        let kind = if flag_set(flags, inclusive) {
            BoundType::Inclusive
        } else {
            BoundType::Exclusive
        };
        match bound_value::<T>(b, kind, side) {
            Err(e) => Err(e),
            Ok((bound, rest)) => Ok((Some(bound), rest)),
        }
    }
}

impl<T: RawToSql> RawToSql for Range<T> {
    /// One flag byte, then the lower bound and the upper bound, each where
    /// the range has it.
    open spec fn raw_bytes(&self) -> Result<Seq<u8>, ConversionError> {
        match *self {
            Range::Empty => Ok(seq![RANGE_EMPTY]),
            Range::Normal(lower, upper) => match bound_bytes(lower) {
                Err(e) => Err(e),
                Ok(lower_bytes) => match bound_bytes(upper) {
                    Err(e) => Err(e),
                    Ok(upper_bytes) => Ok(
                        seq![range_flags(lower, upper)] + lower_bytes + upper_bytes,
                    ),
                },
            },
        }
    }

    fn raw_to_sql(&self, w: &mut Vec<u8>) -> (r: Result<(), ConversionError>) {
        match self {
            Range::Empty => {
                write_u8(w, RANGE_EMPTY);
                assert(w@ =~= old(w)@ + seq![RANGE_EMPTY]);
                Ok(())
            },
            Range::Normal(lower, upper) => {
                let mut flags: u8 = 0;
                let mut body: Vec<u8> = Vec::new();
                match lower {
                    None => {
                        flags = flags + RANGE_LOWER_UNBOUNDED;
                    },
                    Some(bound) => {
                        if let BoundType::Inclusive = bound.kind {
                            flags = flags + RANGE_LOWER_INCLUSIVE;
                        }
                        match write_bound(&bound.value, &mut body) {
                            Err(e) => {
                                return Err(e);
                            },
                            Ok(()) => {},
                        }
                    },
                }
                match upper {
                    None => {
                        flags = flags + RANGE_UPPER_UNBOUNDED;
                    },
                    Some(bound) => {
                        if let BoundType::Inclusive = bound.kind {
                            flags = flags + RANGE_UPPER_INCLUSIVE;
                        }
                        match write_bound(&bound.value, &mut body) {
                            Err(e) => {
                                return Err(e);
                            },
                            Ok(()) => {},
                        }
                    },
                }
                write_u8(w, flags);
                write_bytes(w, body.as_slice());
                assert(w@ =~= old(w)@ + self.raw_bytes()->Ok_0);
                Ok(())
            },
        }
    }
}

/// Appends the length of a value's bytes and those bytes; where the value
/// cannot be written, `w` is left as it was.
fn write_bound<T: RawToSql>(value: &T, w: &mut Vec<u8>) -> (r: Result<(), ConversionError>)
    ensures
        match bound_bytes(Some(RangeBound { value: *value, kind: BoundType::Inclusive })) {
            Ok(b) => r is Ok && final(w)@ == old(w)@ + b,
            Err(e) => r == Err::<(), ConversionError>(e) && final(w)@ == old(w)@,
        },
{
    let data = match to_raw(value) {
        Ok(data) => data,
        Err(e) => {
            return Err(e);
        },
    };
    if data.len() > i32::MAX as usize {
        return Err(ConversionError::OutOfRange);
    }
    write_be_i32(w, data.len() as i32);
    write_bytes(w, data.as_slice());
    assert(w@ =~= old(w)@ + (be_i32(data.len() as i32) + data@));
    Ok(())
}

/// Whether the bit `flag`, a power of two, is set in `flags`.
fn has_flag(flags: u8, flag: u8) -> (r: bool)
    requires
        flag > 0,
    ensures
        r == flag_set(flags, flag),
{
    (flags / flag) % 2 == 1
}

/// Reads the length of a bound, its value, which must use up that length,
/// and normalizes the bound.
fn read_bound<T: RawFromSql + Normalizable>(
    raw: &mut MemReader,
    kind: BoundType,
    side: BoundSide,
) -> (r: Result<RangeBound<T>, ConversionError>)
    ensures
        match bound_value::<T>(old(raw).remaining(), kind, side) {
            Ok((v, rest)) => r == Ok::<RangeBound<T>, ConversionError>(v) && final(raw).remaining()
                == rest,
            Err(e) => r == Err::<RangeBound<T>, ConversionError>(e),
        },
{
    let n = match raw.read_be_i32() {
        Ok(n) => n,
        Err(_) => {
            return Err(ConversionError::BadData);
        },
    };
    if n < 0 {
        return Err(ConversionError::BadData);
    }
    let data = match raw.read_bytes(n as usize) {
        Ok(data) => data,
        Err(_) => {
            return Err(ConversionError::BadData);
        },
    };
    match from_raw::<T>(data.as_slice()) {
        Err(e) => Err(e),
        Ok(value) => Ok(T::normalize(RangeBound { value, kind }, side)),
    }
}

/// Reads the bound of one side, if the flag byte says that the side has one.
fn read_side<T: RawFromSql + Normalizable>(
    raw: &mut MemReader,
    flags: u8,
    unbounded: u8,
    inclusive: u8,
    side: BoundSide,
) -> (r: Result<Option<RangeBound<T>>, ConversionError>)
    requires
        unbounded > 0,
        inclusive > 0,
    ensures
        match side_value::<T>(old(raw).remaining(), flags, unbounded, inclusive, side) {
            Ok((v, rest)) => r == Ok::<Option<RangeBound<T>>, ConversionError>(v) && final(
                raw
            ).remaining() == rest,
            Err(e) => r == Err::<Option<RangeBound<T>>, ConversionError>(e),
        },
{
    if has_flag(flags, unbounded) {
        return Ok(None);
    }
    let kind = if has_flag(flags, inclusive) {
        BoundType::Inclusive
    } else {
        BoundType::Exclusive
    };
    match read_bound::<T>(raw, kind, side) {
        Err(e) => Err(e),
        Ok(bound) => Ok(Some(bound)),
    }
}

/// The range that the front of `b` holds, and what of `b` follows it: one
/// flag byte; where it says that the range is empty, nothing more; else
/// the lower bound and the upper bound, each where the flag byte says that
/// the range has it.
pub open spec fn range_value<T: RawFromSql + Normalizable>(b: Seq<u8>) -> Converted<Range<T>> {
    match parse_u8(b) {
        Err(_) => Err(ConversionError::BadData),
        Ok((flags, b1)) => if flag_set(flags, RANGE_EMPTY) {
            Ok((Range::Empty, b1))
        } else {
            match side_value::<T>(
                b1,
                flags,
                RANGE_LOWER_UNBOUNDED,
                RANGE_LOWER_INCLUSIVE,
                BoundSide::Lower,
            ) {
                Err(e) => Err(e),
                Ok((lower, b2)) => match side_value::<T>(
                    b2,
                    flags,
                    RANGE_UPPER_UNBOUNDED,
                    RANGE_UPPER_INCLUSIVE,
                    BoundSide::Upper,
                ) {
                    Err(e) => Err(e),
                    Ok((upper, rest)) => Ok((Range::Normal(lower, upper), rest)),
                },
            }
        },
    }
}

/// Reads a range off the front of `raw` and leaves what follows it.
fn read_range<T: RawFromSql + Normalizable>(raw: &mut MemReader) -> (r: Result<
    Range<T>,
    ConversionError,
>)
    ensures
        match range_value::<T>(old(raw).remaining()) {
            Ok((v, rest)) => r == Ok::<Range<T>, ConversionError>(v) && final(raw).remaining()
                == rest,
            Err(e) => r == Err::<Range<T>, ConversionError>(e),
        },
{
    let flags = match raw.read_u8() {
        Ok(flags) => flags,
        Err(_) => {
            return Err(ConversionError::BadData);
        },
    };
    if has_flag(flags, RANGE_EMPTY) {
        return Ok(Range::Empty);
    }
    let lower = match read_side::<T>(
        raw,
        flags,
        RANGE_LOWER_UNBOUNDED,
        RANGE_LOWER_INCLUSIVE,
        BoundSide::Lower,
    ) {
        Ok(lower) => lower,
        Err(e) => {
            return Err(e);
        },
    };
    let upper = match read_side::<T>(
        raw,
        flags,
        RANGE_UPPER_UNBOUNDED,
        RANGE_UPPER_INCLUSIVE,
        BoundSide::Upper,
    ) {
        Ok(upper) => upper,
        Err(e) => {
            return Err(e);
        },
    };
    Ok(Range::Normal(lower, upper))
}

impl<T: RawFromSql + Normalizable> RawFromSql for Range<T> {
    /// A range is its flag byte and its bounds, and not one byte more.
    open spec fn raw_value(b: Seq<u8>) -> Result<Range<T>, ConversionError> {
        whole(range_value::<T>(b))
    }

    fn raw_from_sql(raw: &mut MemReader) -> (r: Result<Range<T>, ConversionError>) {
        match read_range::<T>(raw) {
            Err(e) => Err(e),
            Ok(range) => if raw.eof() {
                Ok(range)
            } else {
                Err(ConversionError::BadData)
            },
        }
    }
}

} // verus!
