//! Counted repetition of a field: `n` values one after the other.

use crate::bytes::{be_i16, wrap_i16};
use crate::error::Error;
use crate::wire::{parse_i16, Parsed};
use vstd::prelude::*;

verus! {

/// A parse result with `done` put in front of the values it holds.
pub open spec fn prepend<T, E>(done: Seq<T>, r: Result<(Seq<T>, Seq<u8>), E>) -> Result<
    (Seq<T>, Seq<u8>),
    E,
> {
    match r {
        Ok((vs, rest)) => Ok((done + vs, rest)),
        Err(e) => Err(e),
    }
}

/// `n` values read one after the other with `p`; the first failure is the
/// failure of the whole.
pub open spec fn parse_many<T, E>(
    p: spec_fn(Seq<u8>) -> Result<(T, Seq<u8>), E>,
    b: Seq<u8>,
    n: nat,
) -> Result<(Seq<T>, Seq<u8>), E>
    decreases n,
{
    if n == 0 {
        Ok((Seq::empty(), b))
    } else {
        match p(b) {
            Err(e) => Err(e),
            Ok((v, rest)) => prepend(seq![v], parse_many(p, rest, (n - 1) as nat)),
        }
    }
}

/// The values of `vs`, each written with `e`, one after the other.
pub open spec fn many_bytes<T>(e: spec_fn(T) -> Seq<u8>, vs: Seq<T>) -> Seq<u8>
    decreases vs.len(),
{
    if vs.len() == 0 {
        Seq::empty()
    } else {
        many_bytes(e, vs.drop_last()) + e(vs.last())
    }
}

/// A 16-bit count and that many values. A count that does not fit sixteen
/// bits is written reduced to them.
pub open spec fn counted_bytes<T>(e: spec_fn(T) -> Seq<u8>, vs: Seq<T>) -> Seq<u8> {
    be_i16(wrap_i16(vs.len() as int)) + many_bytes(e, vs)
}

/// A 16-bit count, which must not be negative, and that many values.
pub open spec fn parse_counted<T>(p: spec_fn(Seq<u8>) -> Parsed<T>, b: Seq<u8>) -> Parsed<Seq<T>> {
    match parse_i16(b) {
        Err(e) => Err(e),
        Ok((n, rest)) => if n < 0 {
            Err(Error::InvalidLength)
        } else {
            parse_many(p, rest, n as nat)
        },
    }
}

/// Putting nothing in front changes nothing.
pub proof fn lemma_prepend_empty<T, E>(r: Result<(Seq<T>, Seq<u8>), E>)
    ensures
        prepend(Seq::empty(), r) == r,
{
    match r {
        Ok((vs, rest)) => {
            assert(Seq::<T>::empty() + vs =~= vs);
        },
        Err(_) => {},
    }
}

/// Putting `done` in front of what has `v` in front puts `done` and `v` in front.
pub proof fn lemma_prepend_push<T, E>(done: Seq<T>, v: T, r: Result<(Seq<T>, Seq<u8>), E>)
    ensures
        prepend(done, prepend(seq![v], r)) == prepend(done.push(v), r),
{
    match r {
        Ok((vs, rest)) => {
            assert(done + (seq![v] + vs) =~= done.push(v) + vs);
        },
        Err(_) => {},
    }
}

/// Writing a sequence with one more value at its end appends that value's bytes.
pub proof fn lemma_many_bytes_push<T>(e: spec_fn(T) -> Seq<u8>, vs: Seq<T>, v: T)
    ensures
        many_bytes(e, vs.push(v)) == many_bytes(e, vs) + e(v),
{
    assert(vs.push(v).drop_last() =~= vs);
}

/// Writing a sequence with one more value at its front puts that value's bytes first.
pub proof fn lemma_many_bytes_front<T>(e: spec_fn(T) -> Seq<u8>, v: T, vs: Seq<T>)
    ensures
        many_bytes(e, seq![v] + vs) == e(v) + many_bytes(e, vs),
    decreases vs.len(),
{
    if vs.len() == 0 {
        assert(seq![v] + vs =~= seq![v]);
        assert(seq![v].drop_last() =~= Seq::<T>::empty());
        assert(many_bytes(e, seq![v]) == many_bytes(e, Seq::<T>::empty()) + e(seq![v].last()));
        assert(many_bytes(e, seq![v]) =~= e(v));
        assert(e(v) + many_bytes(e, vs) =~= e(v));
    } else {
        lemma_many_bytes_front(e, v, vs.drop_last());
        assert((seq![v] + vs).drop_last() =~= seq![v] + vs.drop_last());
        assert((seq![v] + vs).last() == vs.last());
        assert((e(v) + many_bytes(e, vs.drop_last())) + e(vs.last()) =~= e(v) + (many_bytes(
            e,
            vs.drop_last(),
        ) + e(vs.last())));
    }
}

} // verus!
