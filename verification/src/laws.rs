//! What holds between writing and reading: a field that was written is read
//! back as it was, and bytes that were read are the bytes that writing the
//! result gives.

pub mod array;
pub mod command;
pub mod int4;
pub mod primitive;
pub mod range;
pub mod repeat;
pub mod response;
pub mod time;

use vstd::prelude::*;

verus! {

/// Reading what was written gives the value back and leaves what follows:
/// for every valid value `v` and all bytes `t`, `p` reads `v` off
/// `e(v) + t` and leaves `t`.
pub open spec fn round_trips<T, E>(
    p: spec_fn(Seq<u8>) -> Result<(T, Seq<u8>), E>,
    e: spec_fn(T) -> Seq<u8>,
    valid: spec_fn(T) -> bool,
) -> bool {
    forall|v: T, t: Seq<u8>| valid(v) ==> #[trigger] p(e(v) + t) == Ok::<(T, Seq<u8>), E>((v, t))
}

/// Writing what was read gives the bytes back: whenever `p` reads a value
/// `v` off `s` and leaves `r`, `v` is valid and `s` is `e(v) + r`.
pub open spec fn inverts<T, E>(
    p: spec_fn(Seq<u8>) -> Result<(T, Seq<u8>), E>,
    e: spec_fn(T) -> Seq<u8>,
    valid: spec_fn(T) -> bool,
) -> bool {
    forall|s: Seq<u8>|
        (#[trigger] p(s)) is Ok ==> s == e(p(s)->Ok_0.0) + p(s)->Ok_0.1 && valid(p(s)->Ok_0.0)
}

/// The predicate that holds of every value.
pub open spec fn always<T>() -> spec_fn(T) -> bool {
    |v: T| true
}

} // verus!
