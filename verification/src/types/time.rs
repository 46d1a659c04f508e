//! Timestamps: microseconds since the start of the year 2000 on the wire,
//! seconds and nanoseconds since the start of 1970 in memory.

use crate::bytes::{be_i64, i64_of_be};
use crate::error::ConversionError;
use crate::reader::MemReader;
use crate::types::range::{BoundSide, Normalizable, RangeBound};
use crate::types::{RawFromSql, RawToSql};
use crate::writer::write_be_i64;
use vstd::prelude::*;

verus! {

pub const USEC_PER_SEC: i64 = 1_000_000;

pub const NSEC_PER_USEC: i64 = 1_000;

pub const NSEC_PER_SEC: i32 = 1_000_000_000;

/// The number of seconds from 1970-01-01 to 2000-01-01.
pub const TIME_SEC_CONVERSION: i64 = 946684800;

/// An instant: whole seconds since 1970-01-01T00:00:00 and the nanoseconds
/// past that second. An instant before 1970 has a negative `sec` and a
/// `nsec` that still counts forward.
#[derive(Clone, Copy, Debug, PartialEq, Eq, Structural)]
pub struct Timespec {
    pub sec: i64,
    pub nsec: i32,
}

impl Timespec {
    /// The nanoseconds are less than one second.
    pub open spec fn wf(&self) -> bool {
        0 <= self.nsec < NSEC_PER_SEC
    }

    /// The instant `nsec` nanoseconds past the second `sec`.
    pub fn new(sec: i64, nsec: i32) -> (r: Timespec)
        requires
            0 <= nsec < NSEC_PER_SEC,
        ensures
            r == (Timespec { sec, nsec }),
            r.wf(),
    {
        Timespec { sec, nsec }
    }
}

/// The instant that the wire value `t` stands for. Division rounds down, so
/// that the microseconds of an instant before 2000 count forward from the
/// second before it.
pub open spec fn timespec_of_wire(t: i64) -> Timespec {
    Timespec {
        sec: (t as int / 1_000_000 + 946684800) as i64,
        nsec: ((t as int % 1_000_000) * 1_000) as i32,
    }
}

/// The wire value of an instant: its microseconds since 2000-01-01. What is
/// less than a microsecond is dropped.
pub open spec fn wire_of_timespec(ts: Timespec) -> int {
    (ts.sec - 946684800) * 1_000_000 + ts.nsec / 1_000
}

impl RawFromSql for Timespec {
    /// A timestamp is eight bytes, not one more or less: a big-endian
    /// count of microseconds.
    open spec fn raw_value(b: Seq<u8>) -> Result<Timespec, ConversionError> {
        if b.len() == 8 {
            Ok(timespec_of_wire(i64_of_be(b)))
        } else {
            Err(ConversionError::BadData)
        }
    }

    /// Raw bytes that are refused are left unread.
    fn raw_from_sql(raw: &mut MemReader) -> (r: Result<Timespec, ConversionError>)
        ensures
            r is Err ==> final(raw).remaining() == old(raw).remaining(),
    {
        if raw.available() != 8 {
            return Err(ConversionError::BadData);
        }
        assert(raw.remaining().take(8) =~= raw.remaining());
        let t = match raw.read_be_i64() {
            Ok(t) => t,
            Err(_) => {
                return Err(ConversionError::BadData);
            },
        };
        let mut sec = t / USEC_PER_SEC + TIME_SEC_CONVERSION;
        let mut usec = t % USEC_PER_SEC;

        if usec < 0 {
            sec = sec - 1;
            usec = USEC_PER_SEC + usec;
        }
        Ok(Timespec::new(sec, (usec * NSEC_PER_USEC) as i32))
    }
}

impl RawToSql for Timespec {
    open spec fn raw_bytes(&self) -> Result<Seq<u8>, ConversionError> {
        if !self.wf() {
            Err(ConversionError::InvalidValue)
        } else if i64::MIN <= wire_of_timespec(*self) <= i64::MAX {
            Ok(be_i64(wire_of_timespec(*self) as i64))
        } else {
            Err(ConversionError::OutOfRange)
        }
    }

    fn raw_to_sql(&self, w: &mut Vec<u8>) -> (r: Result<(), ConversionError>) {
        if self.nsec < 0 || self.nsec >= NSEC_PER_SEC {
            return Err(ConversionError::InvalidValue);
        }
        let t: i128 = (self.sec as i128 - TIME_SEC_CONVERSION as i128) * (USEC_PER_SEC as i128)
            + (self.nsec as i64 / NSEC_PER_USEC) as i128;
        if t < i64::MIN as i128 || t > i64::MAX as i128 {
            return Err(ConversionError::OutOfRange);
        }
        write_be_i64(w, t as i64);
        Ok(())
    }
}

impl Normalizable for Timespec {
    open spec fn normalized(bound: RangeBound<Timespec>, side: BoundSide) -> RangeBound<Timespec> {
        bound
    }

    fn normalize(bound: RangeBound<Timespec>, side: BoundSide) -> (r: RangeBound<Timespec>) {
        bound
    }
}

} // verus!
