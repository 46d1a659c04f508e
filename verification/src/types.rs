//! Conversions between the raw bytes of a column value and native values:
//! what every scalar type provides, and what is derived from it for ranges
//! and arrays of the type.

pub mod array;
pub mod int4;
pub mod range;
pub mod time;

use crate::error::ConversionError;
use crate::reader::MemReader;
use crate::types::array::{array_bytes, array_value, read_array, write_array, ArrayBase, ArrayView};
use crate::types::range::Range;
use crate::types::time::Timespec;
use vstd::prelude::*;
use vstd::slice::slice_to_vec;

verus! {

/// What reading a part of a raw value off the front of some bytes gives:
/// the part and the bytes that follow it, or the reason why it is not there.
pub type Converted<T> = Result<(T, Seq<u8>), ConversionError>;

/// A type whose values can be read from raw bytes.
pub trait RawFromSql: Sized {
    /// The value that the raw bytes `b` are, all of them: bytes that hold
    /// a value and then more are no value, and neither are bytes that stop
    /// short of one.
    spec fn raw_value(b: Seq<u8>) -> Result<Self, ConversionError>;

    /// Reads the value that `raw` holds, which must be all that `raw`
    /// holds: where the value is read, nothing is left unread.
    fn raw_from_sql(raw: &mut MemReader) -> (r: Result<Self, ConversionError>)
        ensures
            r == Self::raw_value(old(raw).remaining()),
            r is Ok ==> final(raw).remaining().len() == 0,
    ;
}

/// A type whose values can be written as raw bytes.
pub trait RawToSql {
    /// The bytes that the value is written as, where it can be written.
    spec fn raw_bytes(&self) -> Result<Seq<u8>, ConversionError>;

    /// Appends the value to `w`; where it cannot be written, `w` is left as
    /// it was.
    fn raw_to_sql(&self, w: &mut Vec<u8>) -> (r: Result<(), ConversionError>)
        ensures
            match self.raw_bytes() {
                Ok(b) => r is Ok && final(w)@ == old(w)@ + b,
                Err(e) => r == Err::<(), ConversionError>(e) && final(w)@ == old(w)@,
            },
    ;
}

/// Raw bytes must be used up by what is read from them: bytes left over
/// make them ill-formed.
pub open spec fn whole<T>(r: Converted<T>) -> Result<T, ConversionError> {
    match r {
        Err(e) => Err(e),
        Ok((v, rest)) => if rest.len() == 0 {
            Ok(v)
        } else {
            Err(ConversionError::BadData)
        },
    }
}

/// The native value that the raw bytes `raw` are.
pub fn from_raw<T: RawFromSql>(raw: &[u8]) -> (r: Result<T, ConversionError>)
    ensures
        r == T::raw_value(raw@),
{
    let mut reader = MemReader::new(slice_to_vec(raw));
    T::raw_from_sql(&mut reader)
}

/// The raw bytes that `value` is written as.
pub fn to_raw<T: RawToSql>(value: &T) -> (r: Result<Vec<u8>, ConversionError>)
    ensures
        match value.raw_bytes() {
            Ok(b) => r is Ok && r->Ok_0@ == b,
            Err(e) => r == Err::<Vec<u8>, ConversionError>(e),
        },
{
    let mut out: Vec<u8> = Vec::new();
    match value.raw_to_sql(&mut out) {
        Err(e) => Err(e),
        Ok(()) => Ok(out),
    }
}

/// The type identifiers of the protocol's catalog for which a conversion
/// is registered.
pub const INT4_OID: i32 = 23;

pub const TIMESTAMP_OID: i32 = 1114;

pub const TIMESTAMPTZ_OID: i32 = 1184;

pub const INT4RANGE_OID: i32 = 3904;

pub const TSRANGE_OID: i32 = 3908;

pub const TSTZRANGE_OID: i32 = 3910;

pub const INT4_ARRAY_OID: i32 = 1007;

pub const TIMESTAMP_ARRAY_OID: i32 = 1115;

pub const TIMESTAMPTZ_ARRAY_OID: i32 = 1185;

pub const INT4RANGE_ARRAY_OID: i32 = 3905;

pub const TSRANGE_ARRAY_OID: i32 = 3909;

pub const TSTZRANGE_ARRAY_OID: i32 = 3911;

/// A type of a column value for which a conversion is registered.
#[derive(Clone, Copy, Debug, PartialEq, Eq, Structural)]
pub enum Type {
    Int4,
    Timestamp,
    TimestampTZ,
    Int4Range,
    TsRange,
    TstzRange,
    Int4Array,
    TimestampArray,
    TimestampTZArray,
    Int4RangeArray,
    TsRangeArray,
    TstzRangeArray,
}

impl Type {
    /// The type identifier of the type.
    pub open spec fn oid(self) -> i32 {
        match self {
            Type::Int4 => INT4_OID,
            Type::Timestamp => TIMESTAMP_OID,
            Type::TimestampTZ => TIMESTAMPTZ_OID,
            Type::Int4Range => INT4RANGE_OID,
            Type::TsRange => TSRANGE_OID,
            Type::TstzRange => TSTZRANGE_OID,
            Type::Int4Array => INT4_ARRAY_OID,
            Type::TimestampArray => TIMESTAMP_ARRAY_OID,
            Type::TimestampTZArray => TIMESTAMPTZ_ARRAY_OID,
            Type::Int4RangeArray => INT4RANGE_ARRAY_OID,
            Type::TsRangeArray => TSRANGE_ARRAY_OID,
            Type::TstzRangeArray => TSTZRANGE_ARRAY_OID,
        }
    }

    /// The type identifier of the type.
    pub fn to_oid(&self) -> (r: i32)
        ensures
            r == self.oid(),
    {
        match self {
            Type::Int4 => INT4_OID,
            Type::Timestamp => TIMESTAMP_OID,
            Type::TimestampTZ => TIMESTAMPTZ_OID,
            Type::Int4Range => INT4RANGE_OID,
            Type::TsRange => TSRANGE_OID,
            Type::TstzRange => TSTZRANGE_OID,
            Type::Int4Array => INT4_ARRAY_OID,
            Type::TimestampArray => TIMESTAMP_ARRAY_OID,
            Type::TimestampTZArray => TIMESTAMPTZ_ARRAY_OID,
            Type::Int4RangeArray => INT4RANGE_ARRAY_OID,
            Type::TsRangeArray => TSRANGE_ARRAY_OID,
            Type::TstzRangeArray => TSTZRANGE_ARRAY_OID,
        }
    }

    /// The type with the identifier `oid`, where a conversion is
    /// registered for it.
    pub fn from_oid(oid: i32) -> (r: Option<Type>)
        ensures
            r matches Some(ty) ==> ty.oid() == oid,
            r is None ==> forall|ty: Type| ty.oid() != oid,
    {
        if oid == INT4_OID {
            Some(Type::Int4)
        } else if oid == TIMESTAMP_OID {
            Some(Type::Timestamp)
        } else if oid == TIMESTAMPTZ_OID {
            Some(Type::TimestampTZ)
        } else if oid == INT4RANGE_OID {
            Some(Type::Int4Range)
        } else if oid == TSRANGE_OID {
            Some(Type::TsRange)
        } else if oid == TSTZRANGE_OID {
            Some(Type::TstzRange)
        } else if oid == INT4_ARRAY_OID {
            Some(Type::Int4Array)
        } else if oid == TIMESTAMP_ARRAY_OID {
            Some(Type::TimestampArray)
        } else if oid == TIMESTAMPTZ_ARRAY_OID {
            Some(Type::TimestampTZArray)
        } else if oid == INT4RANGE_ARRAY_OID {
            Some(Type::Int4RangeArray)
        } else if oid == TSRANGE_ARRAY_OID {
            Some(Type::TsRangeArray)
        } else if oid == TSTZRANGE_ARRAY_OID {
            Some(Type::TstzRangeArray)
        } else {
            None
        }
    }

    /// The type of the elements, where the type is one of arrays.
    pub open spec fn element_of(self) -> Option<Type> {
        match self {
            Type::Int4Array => Some(Type::Int4),
            Type::TimestampArray => Some(Type::Timestamp),
            Type::TimestampTZArray => Some(Type::TimestampTZ),
            Type::Int4RangeArray => Some(Type::Int4Range),
            Type::TsRangeArray => Some(Type::TsRange),
            Type::TstzRangeArray => Some(Type::TstzRange),
            _ => None,
        }
    }

    /// The type of the elements, where the type is one of arrays.
    pub fn element(&self) -> (r: Option<Type>)
        ensures
            r == self.element_of(),
    {
        match self {
            Type::Int4Array => Some(Type::Int4),
            Type::TimestampArray => Some(Type::Timestamp),
            Type::TimestampTZArray => Some(Type::TimestampTZ),
            Type::Int4RangeArray => Some(Type::Int4Range),
            Type::TsRangeArray => Some(Type::TsRange),
            Type::TstzRangeArray => Some(Type::TstzRange),
            _ => None,
        }
    }
}

/// A native type that is registered for one or more types of column values.
pub trait Registered {
    /// Whether the native type is registered for `ty`.
    spec fn accepts(ty: Type) -> bool;

    /// Whether the native type is registered for `ty`.
    fn is_registered_for(ty: Type) -> (r: bool)
        ensures
            r == Self::accepts(ty),
    ;
}

impl Registered for i32 {
    open spec fn accepts(ty: Type) -> bool {
        ty is Int4
    }

    fn is_registered_for(ty: Type) -> (r: bool) {
        match ty {
            Type::Int4 => true,
            _ => false,
        }
    }
}

impl Registered for Timespec {
    open spec fn accepts(ty: Type) -> bool {
        ty is Timestamp || ty is TimestampTZ
    }

    fn is_registered_for(ty: Type) -> (r: bool) {
        match ty {
            Type::Timestamp => true,
            Type::TimestampTZ => true,
            _ => false,
        }
    }
}

impl Registered for Range<i32> {
    open spec fn accepts(ty: Type) -> bool {
        ty is Int4Range
    }

    fn is_registered_for(ty: Type) -> (r: bool) {
        match ty {
            Type::Int4Range => true,
            _ => false,
        }
    }
}

impl Registered for Range<Timespec> {
    open spec fn accepts(ty: Type) -> bool {
        ty is TsRange || ty is TstzRange
    }

    fn is_registered_for(ty: Type) -> (r: bool) {
        match ty {
            Type::TsRange => true,
            Type::TstzRange => true,
            _ => false,
        }
    }
}

/// The native value of a column value of type `ty`: the type must be one
/// that the native type is registered for, the value must be present, and
/// its bytes must be one native value.
pub open spec fn sql_value<T: RawFromSql + Registered>(ty: Type, raw: Option<Seq<u8>>) -> Result<
    T,
    ConversionError,
> {
    if !T::accepts(ty) {
        Err(ConversionError::WrongType)
    } else {
        match raw {
            None => Err(ConversionError::UnexpectedNull),
            Some(d) => T::raw_value(d),
        }
    }
}

/// Converts a column value of type `ty` to a native value.
pub fn from_sql<T: RawFromSql + Registered>(ty: Type, raw: &Option<Vec<u8>>) -> (r: Result<
    T,
    ConversionError,
>)
    ensures
        r == sql_value::<T>(ty, raw.deep_view()),
{
    if !T::is_registered_for(ty) {
        return Err(ConversionError::WrongType);
    }
    match raw {
        None => Err(ConversionError::UnexpectedNull),
        Some(d) => {
            assert(d.deep_view() =~= d@);
            from_raw::<T>(d.as_slice())
        },
    }
}

/// Converts a column value of type `ty`, which may be absent, to a native
/// value or to none.
pub fn from_sql_nullable<T: RawFromSql + Registered>(ty: Type, raw: &Option<Vec<u8>>) -> (r:
    Result<Option<T>, ConversionError>)
    ensures
        r == match raw.deep_view() {
            None => if T::accepts(ty) {
                Ok::<Option<T>, ConversionError>(None)
            } else {
                Err::<Option<T>, ConversionError>(ConversionError::WrongType)
            },
            Some(d) => match sql_value::<T>(ty, Some(d)) {
                Ok(v) => Ok::<Option<T>, ConversionError>(Some(v)),
                Err(e) => Err::<Option<T>, ConversionError>(e),
            },
        },
{
    if !T::is_registered_for(ty) {
        return Err(ConversionError::WrongType);
    }
    match raw {
        None => Ok(None),
        Some(_) => match from_sql::<T>(ty, raw) {
            Ok(v) => Ok(Some(v)),
            Err(e) => Err(e),
        },
    }
}

/// Converts a native value to a column value of type `ty`.
pub fn to_sql<T: RawToSql + Registered>(value: &T, ty: Type) -> (r: Result<
    Vec<u8>,
    ConversionError,
>)
    ensures
        !T::accepts(ty) ==> r == Err::<Vec<u8>, ConversionError>(ConversionError::WrongType),
        T::accepts(ty) ==> match value.raw_bytes() {
            Ok(b) => r is Ok && r->Ok_0@ == b,
            Err(e) => r == Err::<Vec<u8>, ConversionError>(e),
        },
{
    if !T::is_registered_for(ty) {
        return Err(ConversionError::WrongType);
    }
    to_raw(value)
}

/// Whether arrays of the native type `T` are registered for `ty`: `ty` is a
/// type of arrays, and `T` is registered for the type of its elements.
pub open spec fn accepts_array<T: Registered>(ty: Type) -> bool {
    ty.element_of() matches Some(element) && T::accepts(element)
}

/// Whether arrays of the native type `T` are registered for `ty`.
fn is_registered_for_array<T: Registered>(ty: Type) -> (r: bool)
    ensures
        r == accepts_array::<T>(ty),
{
    match ty.element() {
        None => false,
        Some(element) => T::is_registered_for(element),
    }
}

/// The array of native values of a column value of type `ty`: the type
/// must be one of arrays whose elements the native type is registered for,
/// the value must be present, and its bytes must hold one array and
/// nothing more.
pub open spec fn array_sql_value<T: RawFromSql + Registered>(
    ty: Type,
    raw: Option<Seq<u8>>,
) -> Result<ArrayView<T>, ConversionError> {
    if !accepts_array::<T>(ty) {
        Err(ConversionError::WrongType)
    } else {
        match raw {
            None => Err(ConversionError::UnexpectedNull),
            Some(d) => whole(array_value::<T>(d)),
        }
    }
}

/// Converts a column value of the array type `ty` to an array of native
/// values.
pub fn array_from_sql<T: RawFromSql + Registered>(ty: Type, raw: &Option<Vec<u8>>) -> (r: Result<
    ArrayBase<T>,
    ConversionError,
>)
    ensures
        match array_sql_value::<T>(ty, raw.deep_view()) {
            Ok(v) => r is Ok && r->Ok_0@ == v,
            Err(e) => r == Err::<ArrayBase<T>, ConversionError>(e),
        },
{
    if !is_registered_for_array::<T>(ty) {
        return Err(ConversionError::WrongType);
    }
    match raw {
        None => Err(ConversionError::UnexpectedNull),
        Some(d) => {
            assert(d.deep_view() =~= d@);
            let mut reader = MemReader::new(slice_to_vec(d.as_slice()));
            match read_array::<T>(&mut reader) {
                Err(e) => Err(e),
                Ok(v) => if reader.eof() {
                    Ok(v)
                } else {
                    Err(ConversionError::BadData)
                },
            }
        },
    }
}

/// Converts an array of native values to a column value of the array type
/// `ty`.
pub fn array_to_sql<T: RawToSql + Registered>(array: &ArrayBase<T>, ty: Type) -> (r: Result<
    Vec<u8>,
    ConversionError,
>)
    ensures
        !accepts_array::<T>(ty) ==> r == Err::<Vec<u8>, ConversionError>(
            ConversionError::WrongType,
        ),
        accepts_array::<T>(ty) ==> match array_bytes(array@) {
            Ok(b) => r is Ok && r->Ok_0@ == b,
            Err(e) => r == Err::<Vec<u8>, ConversionError>(e),
        },
{
    if !is_registered_for_array::<T>(ty) {
        return Err(ConversionError::WrongType);
    }
    let mut out: Vec<u8> = Vec::new();
    match write_array(array, &mut out) {
        Err(e) => Err(e),
        Ok(()) => Ok(out),
    }
}

} // verus!
