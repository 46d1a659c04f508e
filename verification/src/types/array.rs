//! Arrays of any number of dimensions over any scalar type: the data model,
//! and the codec that is derived from the codec of the scalar.

use crate::bytes::be_i32;
use crate::error::ConversionError;
use crate::reader::MemReader;
use crate::repeat::{
    lemma_many_bytes_push, lemma_prepend_empty, lemma_prepend_push, many_bytes, parse_many, prepend,
};
use crate::types::{from_raw, to_raw, Converted, RawFromSql, RawToSql};
use crate::wire::{parse_blob, parse_i32, Parsed};
use crate::writer::{write_be_i32, write_bytes};
use vstd::prelude::*;

verus! {

/// One dimension of an array: how many indices it has, and the first of them.
#[derive(Clone, Copy, Debug, PartialEq, Eq, Structural)]
pub struct DimensionInfo {
    pub len: i32,
    pub lower_bound: i32,
}

/// An array: its dimensions, outermost first, and its elements, those of
/// the innermost dimension next to one another. An element may be absent.
#[derive(Clone, Debug, PartialEq, Eq)]
pub struct ArrayBase<T> {
    /// The type identifier of the elements.
    pub element_type: i32,
    pub dimensions: Vec<DimensionInfo>,
    pub elements: Vec<Option<T>>,
}

/// What an `ArrayBase` stands for.
pub struct ArrayView<T> {
    pub element_type: i32,
    pub dimensions: Seq<DimensionInfo>,
    pub elements: Seq<Option<T>>,
}

impl<T> View for ArrayBase<T> {
    type V = ArrayView<T>;

    open spec fn view(&self) -> ArrayView<T> {
        ArrayView {
            element_type: self.element_type,
            dimensions: self.dimensions@,
            elements: self.elements@,
        }
    }
}

/// The product of the lengths of the dimensions.
pub open spec fn element_count(dims: Seq<DimensionInfo>) -> int
    decreases dims.len(),
{
    if dims.len() == 0 {
        1
    } else {
        element_count(dims.drop_last()) * dims.last().len
    }
}

/// The number of elements of an array with the dimensions `dims`: none
/// without dimensions, else the product of their lengths.
pub open spec fn array_len(dims: Seq<DimensionInfo>) -> int {
    if dims.len() == 0 {
        0
    } else {
        element_count(dims)
    }
}

/// No dimension has a negative length.
pub open spec fn dims_valid(dims: Seq<DimensionInfo>) -> bool {
    forall|i: int| 0 <= i < dims.len() ==> (#[trigger] dims[i]).len >= 0
}

impl<T> ArrayView<T> {
    /// The array has as many elements as its dimensions say.
    pub open spec fn wf(self) -> bool {
        &&& dims_valid(self.dimensions)
        &&& self.elements.len() == array_len(self.dimensions)
    }
}

/// The product of lengths none of which is negative is not negative.
pub proof fn lemma_element_count_nonnegative(dims: Seq<DimensionInfo>)
    requires
        dims_valid(dims),
    ensures
        element_count(dims) >= 0,
    decreases dims.len(),
{
    if dims.len() > 0 {
        let before = dims.drop_last();
        assert forall|i: int| 0 <= i < before.len() implies (#[trigger] before[i]).len >= 0 by {
            assert(before[i] == dims[i]);
        }
        lemma_element_count_nonnegative(before);
        let a = element_count(before);
        let b = dims.last().len as int;
        assert(a * b >= 0) by (nonlinear_arith)
            requires
                a >= 0,
                b >= 0,
        ;
    }
}

/// A dimension of length 0 makes the product 0.
pub proof fn lemma_element_count_zero(dims: Seq<DimensionInfo>, k: int)
    requires
        0 <= k < dims.len(),
        dims[k].len == 0,
    ensures
        element_count(dims) == 0,
    decreases dims.len(),
{
    let before = dims.drop_last();
    if k == dims.len() - 1 {
        let a = element_count(before);
        assert(a * 0 == 0) by (nonlinear_arith);
    } else {
        assert(before[k] == dims[k]);
        lemma_element_count_zero(before, k);
        let b = dims.last().len as int;
        assert(0 * b == 0) by (nonlinear_arith);
    }
}

/// Where every length is at least 1, the product of the first lengths is
/// at least 1 and at most the product of all.
pub proof fn lemma_element_count_grows(dims: Seq<DimensionInfo>, i: int)
    requires
        0 <= i <= dims.len(),
        forall|k: int| 0 <= k < dims.len() ==> (#[trigger] dims[k]).len >= 1,
    ensures
        1 <= element_count(dims.take(i)) <= element_count(dims),
    decreases dims.len() - i,
{
    if i == dims.len() {
        assert(dims.take(i) =~= dims);
        lemma_element_count_positive(dims);
    } else {
        lemma_element_count_grows(dims, i + 1);
        assert(dims.take(i + 1).drop_last() =~= dims.take(i));
        assert(dims.take(i + 1).last() == dims[i]);
        lemma_element_count_positive(dims.take(i));
        let a = element_count(dims.take(i));
        let b = dims[i].len as int;
        assert(a <= a * b) by (nonlinear_arith)
            requires
                a >= 1,
                b >= 1,
        ;
    }
}

/// Where every length is at least 1, the product is at least 1.
pub proof fn lemma_element_count_positive(dims: Seq<DimensionInfo>)
    requires
        forall|k: int| 0 <= k < dims.len() ==> (#[trigger] dims[k]).len >= 1,
    ensures
        element_count(dims) >= 1,
    decreases dims.len(),
{
    if dims.len() > 0 {
        let before = dims.drop_last();
        assert forall|k: int| 0 <= k < before.len() implies (#[trigger] before[k]).len >= 1 by {
            assert(before[k] == dims[k]);
        }
        lemma_element_count_positive(before);
        let a = element_count(before);
        let b = dims.last().len as int;
        assert(a * b >= 1) by (nonlinear_arith)
            requires
                a >= 1,
                b >= 1,
        ;
    }
}

/// The number of elements of an array with the dimensions `dims`, where it
/// is at most `limit`.
fn count_elements(dims: &Vec<DimensionInfo>, limit: usize) -> (r: Option<usize>)
    requires
        dims_valid(dims@),
    ensures
        array_len(dims@) <= limit ==> r == Some(array_len(dims@) as usize),
        array_len(dims@) > limit ==> r is None,
        array_len(dims@) >= 0,
{
    proof {
        lemma_element_count_nonnegative(dims@);
    }
    if dims.len() == 0 {
        return Some(0);
    }
    let mut k: usize = 0;
    while k < dims.len()
        invariant
            k <= dims.len(),
            dims_valid(dims@),
            forall|j: int| 0 <= j < k ==> (#[trigger] dims@[j]).len >= 1,
        decreases dims.len() - k,
    {
        if dims[k].len == 0 {
            proof {
                lemma_element_count_zero(dims@, k as int);
            }
            return Some(0);
        }
        k += 1;
    }
    let mut acc: usize = 1;
    let mut i: usize = 0;
    if limit == 0 {
        proof {
            lemma_element_count_positive(dims@);
        }
        return None;
    }
    while i < dims.len()
        invariant
            i <= dims.len(),
            forall|j: int| 0 <= j < dims.len() ==> (#[trigger] dims@[j]).len >= 1,
            acc == element_count(dims@.take(i as int)),
            1 <= acc <= limit,
        decreases dims.len() - i,
    {
        let len = dims[i].len;
        proof {
            assert(dims@.take(i + 1).drop_last() =~= dims@.take(i as int));
            assert(dims@.take(i + 1).last() == dims@[i as int]);
            lemma_element_count_grows(dims@, i + 1);
            let a = acc as int;
            let b = len as int;
            assert(a * b <= 0xffff_ffff_ffff_ffff * 0x7fff_ffff) by (nonlinear_arith)
                requires
                    0 <= a <= 0xffff_ffff_ffff_ffff,
                    0 <= b <= 0x7fff_ffff,
            ;
            assert(a * b >= 1) by (nonlinear_arith)
                requires
                    a >= 1,
                    b >= 1,
            ;
        }
        let next: u128 = (acc as u128) * (len as u128);
        if next > limit as u128 {
            return None;
        }
        acc = next as usize;
        i += 1;
    }
    assert(dims@.take(dims.len() as int) =~= dims@);
    Some(acc)
}

/// What a dimension is written as: its length and its first index.
pub open spec fn dim_bytes(d: DimensionInfo) -> Seq<u8> {
    be_i32(d.len) + be_i32(d.lower_bound)
}

/// How a dimension is written, as a function.
pub open spec fn dim_writer() -> spec_fn(DimensionInfo) -> Seq<u8> {
    |d: DimensionInfo| dim_bytes(d)
}

/// The dimension that the front of `b` holds.
pub open spec fn parse_dim(b: Seq<u8>) -> Parsed<DimensionInfo> {
    match parse_i32(b) {
        Err(e) => Err(e),
        Ok((len, b1)) => match parse_i32(b1) {
            Err(e) => Err(e),
            Ok((lower_bound, rest)) => Ok((DimensionInfo { len, lower_bound }, rest)),
        },
    }
}

/// How a dimension is read, as a function.
pub open spec fn dim_parser() -> spec_fn(Seq<u8>) -> Parsed<DimensionInfo> {
    |b: Seq<u8>| parse_dim(b)
}

/// What an element is written as: a nullable blob that holds the bytes of
/// the scalar, or stands for its absence.
pub open spec fn element_bytes<T: RawToSql>(v: Option<T>) -> Result<Seq<u8>, ConversionError> {
    match v {
        None => Ok(be_i32(-1i32)),
        Some(x) => match x.raw_bytes() {
            Err(e) => Err(e),
            Ok(d) => if d.len() > i32::MAX {
                Err(ConversionError::OutOfRange)
            } else {
                Ok(be_i32(d.len() as i32) + d)
            },
        },
    }
}

/// What elements are written as, one after the other. The first that
/// cannot be written decides the failure.
pub open spec fn elements_bytes<T: RawToSql>(vs: Seq<Option<T>>) -> Result<
    Seq<u8>,
    ConversionError,
>
    decreases vs.len(),
{
    if vs.len() == 0 {
        Ok(Seq::empty())
    } else {
        match elements_bytes(vs.drop_last()) {
            Err(e) => Err(e),
            Ok(before) => match element_bytes(vs.last()) {
                Err(e) => Err(e),
                Ok(last) => Ok(before + last),
            },
        }
    }
}

/// The element that the front of `b` holds: a nullable blob, whose bytes,
/// where it is present, are one scalar.
pub open spec fn element_value<T: RawFromSql>(b: Seq<u8>) -> Converted<Option<T>> {
    match parse_blob(b) {
        Err(_) => Err(ConversionError::BadData),
        Ok((None, rest)) => Ok((None, rest)),
        Ok((Some(d), rest)) => match T::raw_value(d) {
            Err(e) => Err(e),
            Ok(v) => Ok((Some(v), rest)),
        },
    }
}

/// How an element is read, as a function.
pub open spec fn element_parser<T: RawFromSql>() -> spec_fn(Seq<u8>) -> Converted<Option<T>> {
    |b: Seq<u8>| element_value::<T>(b)
}

/// Whether an element is absent.
pub open spec fn has_null<T>(vs: Seq<Option<T>>) -> bool {
    exists|i: int| 0 <= i < vs.len() && (#[trigger] vs[i]) is None
}

/// What an array is written as: the number of dimensions, a flag that is 1
/// where an element is absent, the type identifier of the elements, the
/// dimensions, the elements. An array that has not as many elements as its
/// dimensions say cannot be written.
pub open spec fn array_bytes<T: RawToSql>(a: ArrayView<T>) -> Result<Seq<u8>, ConversionError> {
    if !a.wf() || a.dimensions.len() > i32::MAX {
        Err(ConversionError::InvalidValue)
    } else {
        match elements_bytes(a.elements) {
            Err(e) => Err(e),
            Ok(elements) => Ok(
                be_i32(a.dimensions.len() as i32) + be_i32(
                    if has_null(a.elements) {
                        1i32
                    } else {
                        0i32
                    },
                ) + be_i32(a.element_type) + many_bytes(dim_writer(), a.dimensions) + elements,
            ),
        }
    }
}

/// The array that the front of `b` holds, and what of `b` follows it. The
/// flag is read and not looked at. Every element takes four bytes or more,
/// so an array that announces more elements than a quarter of the bytes
/// that follow is refused.
pub open spec fn array_value<T: RawFromSql>(b: Seq<u8>) -> Converted<ArrayView<T>> {
    match parse_i32(b) {
        Err(_) => Err(ConversionError::BadData),
        Ok((ndim, b1)) => match parse_i32(b1) {
            Err(_) => Err(ConversionError::BadData),
            Ok((_, b2)) => match parse_i32(b2) {
                Err(_) => Err(ConversionError::BadData),
                Ok((element_type, b3)) => if ndim < 0 {
                    Err(ConversionError::BadData)
                } else {
                    match parse_many(dim_parser(), b3, ndim as nat) {
                        Err(_) => Err(ConversionError::BadData),
                        Ok((dimensions, b4)) => if !dims_valid(dimensions) || array_len(dimensions)
                            * 4 > b4.len() {
                            Err(ConversionError::BadData)
                        } else {
                            match parse_many(
                                element_parser::<T>(),
                                b4,
                                array_len(dimensions) as nat,
                            ) {
                                Err(e) => Err(e),
                                Ok((elements, rest)) => Ok(
                                    (ArrayView { element_type, dimensions, elements }, rest),
                                ),
                            }
                        },
                    }
                },
            },
        },
    }
}

/// An element that cannot be written makes the elements that hold it
/// unwritable in the same way, unless an earlier one already does.
proof fn lemma_elements_bytes_prefix<T: RawToSql>(vs: Seq<Option<T>>, i: int)
    requires
        0 <= i <= vs.len(),
    ensures
        elements_bytes(vs.take(i)) matches Err(e) ==> elements_bytes(vs) == Err::<
            Seq<u8>,
            ConversionError,
        >(e),
    decreases vs.len() - i,
{
    if i == vs.len() {
        assert(vs.take(i) =~= vs);
    } else {
        assert(vs.take(i + 1).drop_last() =~= vs.take(i));
        lemma_elements_bytes_prefix(vs, i + 1);
    }
}

/// Reads an `i32` of the array's head.
fn read_head(raw: &mut MemReader) -> (r: Result<i32, ConversionError>)
    ensures
        match parse_i32(old(raw).remaining()) {
            Ok((v, rest)) => r == Ok::<i32, ConversionError>(v) && final(raw).remaining() == rest,
            Err(_) => r == Err::<i32, ConversionError>(ConversionError::BadData),
        },
{
    match raw.read_be_i32() {
        Ok(v) => Ok(v),
        Err(_) => Err(ConversionError::BadData),
    }
}

/// Reads one dimension.
fn read_dim(raw: &mut MemReader) -> (r: Result<DimensionInfo, ConversionError>)
    ensures
        match parse_dim(old(raw).remaining()) {
            Ok((v, rest)) => r == Ok::<DimensionInfo, ConversionError>(v) && final(raw).remaining()
                == rest,
            Err(_) => r == Err::<DimensionInfo, ConversionError>(ConversionError::BadData),
        },
{
    let len = match read_head(raw) {
        Ok(v) => v,
        Err(e) => {
            return Err(e);
        },
    };
    let lower_bound = match read_head(raw) {
        Ok(v) => v,
        Err(e) => {
            return Err(e);
        },
    };
    Ok(DimensionInfo { len, lower_bound })
}

/// Reads one element.
fn read_element<T: RawFromSql>(raw: &mut MemReader) -> (r: Result<Option<T>, ConversionError>)
    ensures
        match element_value::<T>(old(raw).remaining()) {
            Ok((v, rest)) => r == Ok::<Option<T>, ConversionError>(v) && final(raw).remaining()
                == rest,
            Err(e) => r == Err::<Option<T>, ConversionError>(e),
        },
{
    match raw.read_blob() {
        Err(_) => Err(ConversionError::BadData),
        Ok(None) => Ok(None),
        Ok(Some(data)) => {
            assert(data.deep_view() =~= data@);
            match from_raw::<T>(data.as_slice()) {
                Err(e) => Err(e),
                Ok(v) => Ok(Some(v)),
            }
        },
    }
}

/// Reads an array: its head, its dimensions, and as many elements as the
/// dimensions say.
pub fn read_array<T: RawFromSql>(raw: &mut MemReader) -> (r: Result<ArrayBase<T>, ConversionError>)
    ensures
        match array_value::<T>(old(raw).remaining()) {
            Ok((v, rest)) => r is Ok && r->Ok_0@ == v && final(raw).remaining() == rest,
            Err(e) => r == Err::<ArrayBase<T>, ConversionError>(e),
        },
{
    let ndim = match read_head(raw) {
        Ok(v) => v,
        Err(e) => {
            return Err(e);
        },
    };
    let _flags = match read_head(raw) {
        Ok(v) => v,
        Err(e) => {
            return Err(e);
        },
    };
    let element_type = match read_head(raw) {
        Ok(v) => v,
        Err(e) => {
            return Err(e);
        },
    };
    if ndim < 0 {
        return Err(ConversionError::BadData);
    }
    let ghost b3 = raw.remaining();
    let mut dimensions: Vec<DimensionInfo> = Vec::new();
    let mut i: i32 = 0;
    proof {
        lemma_prepend_empty(parse_many(dim_parser(), b3, ndim as nat));
    }
    while i < ndim
        invariant
            0 <= i <= ndim,
            parse_many(dim_parser(), b3, ndim as nat) == prepend(
                dimensions@,
                parse_many(dim_parser(), raw.remaining(), (ndim - i) as nat),
            ),
            array_value::<T>(old(raw).remaining()) == match parse_many(
                dim_parser(),
                b3,
                ndim as nat,
            ) {
                Err(_) => Err::<(ArrayView<T>, Seq<u8>), ConversionError>(ConversionError::BadData),
                Ok((dims, b4)) => if !dims_valid(dims) || array_len(dims) * 4 > b4.len() {
                    Err::<(ArrayView<T>, Seq<u8>), ConversionError>(ConversionError::BadData)
                } else {
                    match parse_many(element_parser::<T>(), b4, array_len(dims) as nat) {
                        Err(e) => Err::<(ArrayView<T>, Seq<u8>), ConversionError>(e),
                        Ok((elements, rest)) => Ok::<(ArrayView<T>, Seq<u8>), ConversionError>(
                            (ArrayView { element_type, dimensions: dims, elements }, rest),
                        ),
                    }
                },
            },
        decreases ndim - i,
    {
        let dim = match read_dim(raw) {
            Ok(v) => v,
            Err(e) => {
                return Err(e);
            },
        };
        proof {
            lemma_prepend_push(
                dimensions@,
                dim,
                parse_many(dim_parser(), raw.remaining(), (ndim - i - 1) as nat),
            );
        }
        dimensions.push(dim);
        i += 1;
    }
    assert(dimensions@ + Seq::empty() =~= dimensions@);
    let mut k: usize = 0;
    while k < dimensions.len()
        invariant
            k <= dimensions.len(),
            forall|j: int| 0 <= j < k ==> (#[trigger] dimensions@[j]).len >= 0,
            !dims_valid(dimensions@) ==> array_value::<T>(old(raw).remaining()) == Err::<
                (ArrayView<T>, Seq<u8>),
                ConversionError,
            >(ConversionError::BadData),
        decreases dimensions.len() - k,
    {
        if dimensions[k].len < 0 {
            return Err(ConversionError::BadData);
        }
        k += 1;
    }
    let count = match count_elements(&dimensions, raw.available() / 4) {
        Some(count) => count,
        None => {
            return Err(ConversionError::BadData);
        },
    };
    let ghost b4 = raw.remaining();
    let mut elements: Vec<Option<T>> = Vec::new();
    let mut n: usize = 0;
    proof {
        lemma_prepend_empty(parse_many(element_parser::<T>(), b4, count as nat));
    }
    while n < count
        invariant
            n <= count,
            parse_many(element_parser::<T>(), b4, count as nat) == prepend(
                elements@,
                parse_many(element_parser::<T>(), raw.remaining(), (count - n) as nat),
            ),
            array_value::<T>(old(raw).remaining()) == match parse_many(
                element_parser::<T>(),
                b4,
                count as nat,
            ) {
                Err(e) => Err::<(ArrayView<T>, Seq<u8>), ConversionError>(e),
                Ok((elements, rest)) => Ok::<(ArrayView<T>, Seq<u8>), ConversionError>(
                    (ArrayView { element_type, dimensions: dimensions@, elements }, rest),
                ),
            },
        decreases count - n,
    {
        let element = match read_element::<T>(raw) {
            Ok(v) => v,
            Err(e) => {
                return Err(e);
            },
        };
        proof {
            lemma_prepend_push(
                elements@,
                element,
                parse_many(element_parser::<T>(), raw.remaining(), (count - n - 1) as nat),
            );
        }
        elements.push(element);
        n += 1;
    }
    assert(elements@ + Seq::empty() =~= elements@);
    Ok(ArrayBase { element_type, dimensions, elements })
}

/// Appends one element as a nullable blob; where it cannot be written,
/// `w` is left as it was.
fn write_element<T: RawToSql>(element: &Option<T>, w: &mut Vec<u8>) -> (r: Result<
    (),
    ConversionError,
>)
    ensures
        match element_bytes(*element) {
            Ok(b) => r is Ok && final(w)@ == old(w)@ + b,
            Err(e) => r == Err::<(), ConversionError>(e) && final(w)@ == old(w)@,
        },
{
    match element {
        None => {
            write_be_i32(w, -1);
            Ok(())
        },
        Some(x) => {
            let data = match to_raw(x) {
                Ok(data) => data,
                Err(e) => {
                    return Err(e);
                },
            };
            if data.len() > i32::MAX as usize {
                return Err(ConversionError::OutOfRange);
            }
            write_be_i32(w, data.len() as i32);
            write_bytes(w, data.as_slice());
            assert(w@ =~= old(w)@ + (be_i32(data.len() as i32) + data@));
            Ok(())
        },
    }
}

/// Whether the array has as many elements as its dimensions say, and not
/// more dimensions than can be counted on the wire.
fn is_well_formed<T>(array: &ArrayBase<T>) -> (r: bool)
    ensures
        r == (array@.wf() && array.dimensions@.len() <= i32::MAX),
{
    if array.dimensions.len() > i32::MAX as usize {
        return false;
    }
    let mut k: usize = 0;
    while k < array.dimensions.len()
        invariant
            k <= array.dimensions.len(),
            forall|j: int| 0 <= j < k ==> (#[trigger] array.dimensions@[j]).len >= 0,
        decreases array.dimensions.len() - k,
    {
        if array.dimensions[k].len < 0 {
            return false;
        }
        k += 1;
    }
    match count_elements(&array.dimensions, array.elements.len()) {
        Some(count) => count == array.elements.len(),
        None => false,
    }
}

/// Appends an array to `w`; where it cannot be written, `w` is left as it was.
pub fn write_array<T: RawToSql>(array: &ArrayBase<T>, w: &mut Vec<u8>) -> (r: Result<
    (),
    ConversionError,
>)
    ensures
        match array_bytes(array@) {
            Ok(b) => r is Ok && final(w)@ == old(w)@ + b,
            Err(e) => r == Err::<(), ConversionError>(e) && final(w)@ == old(w)@,
        },
{
    if !is_well_formed(array) {
        return Err(ConversionError::InvalidValue);
    }
    let ghost all = array.elements@;
    let mut body: Vec<u8> = Vec::new();
    let mut nulls = false;
    let mut i: usize = 0;
    assert(all.take(0) =~= Seq::<Option<T>>::empty());
    while i < array.elements.len()
        invariant
            i <= array.elements.len(),
            all == array.elements@,
            elements_bytes(all.take(i as int)) == Ok::<Seq<u8>, ConversionError>(body@),
            nulls == has_null(all.take(i as int)),
            w@ == old(w)@,
            array@.wf() && array.dimensions@.len() <= i32::MAX,
        decreases array.elements.len() - i,
    {
        proof {
            assert(all.take(i + 1).drop_last() =~= all.take(i as int));
            assert(all.take(i + 1).last() == all[i as int]);
            lemma_elements_bytes_prefix(all, i + 1);
            lemma_has_null_push(all, i as int);
        }
        match write_element(&array.elements[i], &mut body) {
            Ok(()) => {},
            Err(e) => {
                return Err(e);
            },
        }
        if array.elements[i].is_none() {
            nulls = true;
        }
        i += 1;
    }
    assert(all.take(array.elements.len() as int) =~= all);
    let ghost start = w@;
    write_be_i32(w, array.dimensions.len() as i32);
    write_be_i32(w, if nulls { 1 } else { 0 });
    write_be_i32(w, array.element_type);
    let ghost head = w@;
    let mut k: usize = 0;
    assert(w@ =~= head + many_bytes(dim_writer(), array.dimensions@.take(0)));
    while k < array.dimensions.len()
        invariant
            k <= array.dimensions.len(),
            w@ == head + many_bytes(dim_writer(), array.dimensions@.take(k as int)),
        decreases array.dimensions.len() - k,
    {
        proof {
            lemma_many_bytes_push(
                dim_writer(),
                array.dimensions@.take(k as int),
                array.dimensions@[k as int],
            );
            assert(array.dimensions@.take(k as int).push(array.dimensions@[k as int])
                =~= array.dimensions@.take(k + 1));
        }
        let ghost before = w@;
        write_be_i32(w, array.dimensions[k].len);
        write_be_i32(w, array.dimensions[k].lower_bound);
        assert(w@ =~= before + dim_bytes(array.dimensions@[k as int]));
        k += 1;
    }
    assert(array.dimensions@.take(array.dimensions.len() as int) =~= array.dimensions@);
    write_bytes(w, body.as_slice());
    assert(w@ =~= start + array_bytes(array@)->Ok_0);
    Ok(())
}

/// Among the first elements and one more an element is absent exactly if
/// one is among the first or that one is.
proof fn lemma_has_null_push<T>(vs: Seq<Option<T>>, i: int)
    requires
        0 <= i < vs.len(),
    ensures
        has_null(vs.take(i + 1)) == (has_null(vs.take(i)) || vs[i] is None),
{
    let shorter = vs.take(i);
    let longer = vs.take(i + 1);
    if has_null(shorter) {
        let j = choose|j: int| 0 <= j < shorter.len() && (#[trigger] shorter[j]) is None;
        assert(longer[j] is None);
    }
    if vs[i] is None {
        assert(longer[i] is None);
    }
    if has_null(longer) {
        let j = choose|j: int| 0 <= j < longer.len() && (#[trigger] longer[j]) is None;
        if j < i {
            assert(shorter[j] is None);
        }
    }
}

} // verus!
