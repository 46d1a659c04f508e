//! The laws of timestamps: wire values and instants stand for one another.

use crate::bytes::{be_i64, i64_of_be, lemma_i64_bytes_round_trip, lemma_i64_round_trip};
use crate::error::ConversionError;
use crate::laws::range::reads_back;
use crate::types::time::{timespec_of_wire, wire_of_timespec, Timespec};
use crate::types::{RawFromSql, RawToSql};

use vstd::prelude::*;

verus! {

/// An instant of whole microseconds that the wire can hold.
pub open spec fn wire_instant(ts: Timespec) -> bool {
    &&& ts.wf()
    &&& ts.nsec % 1_000 == 0
    &&& i64::MIN <= wire_of_timespec(ts) <= i64::MAX
}

/// An instant of whole microseconds that the wire can hold is read back
/// from the eight bytes that it is written as.
pub proof fn lemma_timestamp_reads_back(ts: Timespec)
    requires
        wire_instant(ts),
    ensures
        reads_back(ts),
        ts.raw_bytes()->Ok_0.len() == 8,
{
    lemma_i64_round_trip(wire_of_timespec(ts) as i64);
}

/// A timestamp is eight raw bytes: raw bytes of any other length, shorter
/// or longer, are refused as ill-formed, and every eight bytes are the
/// instant that their wire value stands for.
pub proof fn lemma_timestamp_length(b: Seq<u8>)
    ensures
        b.len() != 8 ==> Timespec::raw_value(b) == Err::<Timespec, ConversionError>(
            ConversionError::BadData,
        ),
        b.len() == 8 ==> Timespec::raw_value(b) == Ok::<Timespec, ConversionError>(
            timespec_of_wire(i64_of_be(b)),
        ),
{
}

/// Writing the instant that raw bytes were read as gives the bytes back.
pub proof fn lemma_timestamp_inverse(b: Seq<u8>)
    ensures
        Timespec::raw_value(b) matches Ok(ts) ==> ts.raw_bytes() == Ok::<
            Seq<u8>,
            ConversionError,
        >(b),
{
    if b.len() == 8 {
        lemma_i64_bytes_round_trip(b);
        lemma_wire_round_trip(i64_of_be(b));
    }
}

/// Every wire value is the wire value of the instant it stands for, and
/// that instant is well-formed.
pub proof fn lemma_wire_round_trip(t: i64)
    ensures
        timespec_of_wire(t).wf(),
        wire_of_timespec(timespec_of_wire(t)) == t,
        timespec_of_wire(t).raw_bytes() == Ok::<Seq<u8>, ConversionError>(be_i64(t)),
{
}

/// An instant of whole microseconds that the wire can hold is the instant
/// that its wire value stands for.
pub proof fn lemma_timespec_round_trip(ts: Timespec)
    requires
        ts.wf(),
        ts.nsec % 1_000 == 0,
        i64::MIN <= wire_of_timespec(ts) <= i64::MAX,
    ensures
        timespec_of_wire(wire_of_timespec(ts) as i64) == ts,
{
}

} // verus!
