use postgres_codec::error::ConversionError;
use postgres_codec::reader::MemReader;
use postgres_codec::types::range::{
    BoundSide, BoundType, Normalizable, Range, RangeBound, RANGE_EMPTY,
};
use postgres_codec::types::time::Timespec;
use postgres_codec::types::array::{read_array, write_array, ArrayBase, DimensionInfo};
use postgres_codec::types::{
    array_from_sql, array_to_sql, from_raw, from_sql, from_sql_nullable, to_raw, to_sql, RawFromSql,
    RawToSql, Type,
};

const Y2K: i64 = 946684800;

#[test]
fn wire_value_zero_is_the_start_of_2000() {
    let ts: Timespec = from_raw(&0i64.to_be_bytes()).unwrap();
    assert_eq!(ts, Timespec { sec: Y2K, nsec: 0 });
}

#[test]
fn one_microsecond_before_2000_counts_forward_from_the_second_before() {
    let ts: Timespec = from_raw(&(-1i64).to_be_bytes()).unwrap();
    assert_eq!(ts, Timespec { sec: Y2K - 1, nsec: 999_999_000 });
}

#[test]
fn timestamps_around_the_epochs() {
    let cases: [(i64, i64, i32); 8] = [
        (1, Y2K, 1_000),
        (999_999, Y2K, 999_999_000),
        (1_000_000, Y2K + 1, 0),
        (-1_000_000, Y2K - 1, 0),
        (-1_000_001, Y2K - 2, 999_999_000),
        (-946_684_800_000_000, 0, 0),
        (-946_684_800_000_001, -1, 999_999_000),
        (1_500_000, Y2K + 1, 500_000_000),
    ];
    for (wire, sec, nsec) in cases {
        let ts: Timespec = from_raw(&wire.to_be_bytes()).unwrap();
        assert_eq!(ts, Timespec { sec, nsec });
        assert_eq!(to_raw(&ts), Ok(wire.to_be_bytes().to_vec()));
    }
}

#[test]
fn extreme_wire_values_decode() {
    let ts: Timespec = from_raw(&i64::MIN.to_be_bytes()).unwrap();
    assert_eq!(ts, Timespec { sec: -9_223_372_036_855 + Y2K, nsec: 224_192_000 });
    assert_eq!(to_raw(&ts), Ok(i64::MIN.to_be_bytes().to_vec()));
    let ts: Timespec = from_raw(&i64::MAX.to_be_bytes()).unwrap();
    assert_eq!(ts, Timespec { sec: 9_223_372_036_854 + Y2K, nsec: 775_807_000 });
    assert_eq!(to_raw(&ts), Ok(i64::MAX.to_be_bytes().to_vec()));
}

#[test]
fn timestamp_drops_what_is_less_than_a_microsecond() {
    assert_eq!(
        to_raw(&Timespec { sec: Y2K, nsec: 1_999 }),
        Ok(1i64.to_be_bytes().to_vec())
    );
}

#[test]
fn timestamp_that_the_wire_cannot_hold_is_refused() {
    assert_eq!(
        to_raw(&Timespec { sec: i64::MAX, nsec: 0 }),
        Err(ConversionError::OutOfRange)
    );
    assert_eq!(
        to_raw(&Timespec { sec: i64::MIN, nsec: 0 }),
        Err(ConversionError::OutOfRange)
    );
    assert_eq!(
        to_raw(&Timespec { sec: 0, nsec: -1 }),
        Err(ConversionError::InvalidValue)
    );
    assert_eq!(
        to_raw(&Timespec { sec: 0, nsec: 1_000_000_000 }),
        Err(ConversionError::InvalidValue)
    );
    assert_eq!(
        to_raw(&Timespec { sec: i64::MAX, nsec: -1 }),
        Err(ConversionError::InvalidValue)
    );
    let mut w = vec![1, 2];
    assert_eq!(
        Timespec { sec: i64::MAX, nsec: 0 }.raw_to_sql(&mut w),
        Err(ConversionError::OutOfRange)
    );
    assert_eq!(w, vec![1, 2]);
}

#[test]
fn timestamp_of_wrong_length_is_refused() {
    assert_eq!(from_raw::<Timespec>(&[0; 7]), Err(ConversionError::BadData));
    assert_eq!(from_raw::<Timespec>(&[0; 9]), Err(ConversionError::BadData));
    assert_eq!(from_raw::<Timespec>(&[]), Err(ConversionError::BadData));
}

#[test]
fn raw_from_sql_reads_eight_bytes_and_no_other_number() {
    let mut reader = MemReader::new(5i64.to_be_bytes().to_vec());
    assert_eq!(
        Timespec::raw_from_sql(&mut reader),
        Ok(Timespec { sec: Y2K, nsec: 5_000 })
    );
    assert!(reader.eof());

    let mut bytes = 5i64.to_be_bytes().to_vec();
    bytes.push(0xaa);
    let mut reader = MemReader::new(bytes);
    assert_eq!(Timespec::raw_from_sql(&mut reader), Err(ConversionError::BadData));

    let mut reader = MemReader::new(vec![0; 16]);
    assert_eq!(Timespec::raw_from_sql(&mut reader), Err(ConversionError::BadData));
    let mut reader = MemReader::new(vec![0; 7]);
    assert_eq!(Timespec::raw_from_sql(&mut reader), Err(ConversionError::BadData));
    let mut reader = MemReader::new(vec![]);
    assert_eq!(Timespec::raw_from_sql(&mut reader), Err(ConversionError::BadData));
}

#[test]
fn integer_raw_from_sql_reads_four_bytes_and_no_other_number() {
    let mut reader = MemReader::new(vec![0, 0, 1, 0]);
    assert_eq!(i32::raw_from_sql(&mut reader), Ok(256));
    assert!(reader.eof());
    let mut reader = MemReader::new(vec![0, 0, 1, 0, 0]);
    assert_eq!(i32::raw_from_sql(&mut reader), Err(ConversionError::BadData));
    let mut reader = MemReader::new(vec![0, 0, 1]);
    assert_eq!(i32::raw_from_sql(&mut reader), Err(ConversionError::BadData));
    let mut reader = MemReader::new(vec![0; 8]);
    assert_eq!(i32::raw_from_sql(&mut reader), Err(ConversionError::BadData));
}

#[test]
fn range_raw_from_sql_reads_a_range_and_not_a_byte_more() {
    let mut bytes = vec![0x12, 0, 0, 0, 4, 0, 0, 0, 7];
    let mut reader = MemReader::new(bytes.clone());
    assert_eq!(
        Range::<i32>::raw_from_sql(&mut reader),
        Ok(Range::Normal(
            Some(RangeBound { value: 7, kind: BoundType::Inclusive }),
            None
        ))
    );
    assert!(reader.eof());
    bytes.push(0);
    let mut reader = MemReader::new(bytes);
    assert_eq!(
        Range::<i32>::raw_from_sql(&mut reader),
        Err(ConversionError::BadData)
    );
    let mut reader = MemReader::new(vec![0x01, 0x01]);
    assert_eq!(
        Range::<Timespec>::raw_from_sql(&mut reader),
        Err(ConversionError::BadData)
    );
}

#[test]
fn timestamp_bounds_are_left_as_they_are() {
    for kind in [BoundType::Inclusive, BoundType::Exclusive] {
        for side in [BoundSide::Lower, BoundSide::Upper] {
            let bound = RangeBound { value: Timespec { sec: 1, nsec: 2 }, kind };
            assert_eq!(Timespec::normalize(bound, side), bound);
        }
    }
}

#[test]
fn exclusive_integer_bounds_step_inside() {
    let lower = RangeBound { value: 5, kind: BoundType::Exclusive };
    assert_eq!(
        i32::normalize(lower, BoundSide::Lower),
        RangeBound { value: 6, kind: BoundType::Inclusive }
    );
    let upper = RangeBound { value: 5, kind: BoundType::Exclusive };
    assert_eq!(
        i32::normalize(upper, BoundSide::Upper),
        RangeBound { value: 4, kind: BoundType::Inclusive }
    );
    let inclusive = RangeBound { value: 5, kind: BoundType::Inclusive };
    assert_eq!(i32::normalize(inclusive, BoundSide::Lower), inclusive);
    assert_eq!(i32::normalize(inclusive, BoundSide::Upper), inclusive);
}

#[test]
fn exclusive_integer_bound_at_the_last_value_stays() {
    let lower = RangeBound { value: i32::MAX, kind: BoundType::Exclusive };
    assert_eq!(i32::normalize(lower, BoundSide::Lower), lower);
    let upper = RangeBound { value: i32::MIN, kind: BoundType::Exclusive };
    assert_eq!(i32::normalize(upper, BoundSide::Upper), upper);
}

#[test]
fn empty_range_is_one_flag_byte() {
    assert_eq!(to_raw(&Range::<Timespec>::Empty), Ok(vec![RANGE_EMPTY]));
    assert_eq!(from_raw::<Range<Timespec>>(&[0x01]), Ok(Range::Empty));
    assert_eq!(from_raw::<Range<i32>>(&[0x01]), Ok(Range::Empty));
}

#[test]
fn unbounded_range_is_one_flag_byte() {
    let range: Range<Timespec> = Range::Normal(None, None);
    assert_eq!(to_raw(&range), Ok(vec![0x18]));
    assert_eq!(from_raw::<Range<Timespec>>(&[0x18]), Ok(range));
}

#[test]
fn range_of_timestamps_holds_flags_and_bounds() {
    let lower = RangeBound { value: Timespec { sec: Y2K, nsec: 0 }, kind: BoundType::Inclusive };
    let upper = RangeBound {
        value: Timespec { sec: Y2K, nsec: 1_000 },
        kind: BoundType::Exclusive,
    };
    let range = Range::Normal(Some(lower), Some(upper));
    let mut expected = vec![0x02];
    expected.extend_from_slice(&[0, 0, 0, 8]);
    expected.extend_from_slice(&0i64.to_be_bytes());
    expected.extend_from_slice(&[0, 0, 0, 8]);
    expected.extend_from_slice(&1i64.to_be_bytes());
    assert_eq!(to_raw(&range), Ok(expected.clone()));
    assert_eq!(from_raw::<Range<Timespec>>(&expected), Ok(range));
}

#[test]
fn range_flags_tell_each_bound() {
    let value = Timespec { sec: Y2K, nsec: 0 };
    let incl = RangeBound { value, kind: BoundType::Inclusive };
    let excl = RangeBound { value, kind: BoundType::Exclusive };
    let cases: [(Option<RangeBound<Timespec>>, Option<RangeBound<Timespec>>, u8); 9] = [
        (None, None, 0x18),
        (None, Some(incl), 0x0c),
        (None, Some(excl), 0x08),
        (Some(incl), None, 0x12),
        (Some(excl), None, 0x10),
        (Some(incl), Some(incl), 0x06),
        (Some(incl), Some(excl), 0x02),
        (Some(excl), Some(incl), 0x04),
        (Some(excl), Some(excl), 0x00),
    ];
    for (lower, upper, flags) in cases {
        let range = Range::Normal(lower, upper);
        let bytes = to_raw(&range).unwrap();
        assert_eq!(bytes[0], flags);
        let bounds = lower.is_some() as usize + upper.is_some() as usize;
        assert_eq!(bytes.len(), 1 + 12 * bounds);
        assert_eq!(from_raw::<Range<Timespec>>(&bytes), Ok(range));
    }
}

#[test]
fn range_of_integers_is_normalized_when_read() {
    let mut bytes = vec![0x00];
    bytes.extend_from_slice(&[0, 0, 0, 4, 0, 0, 0, 1]);
    bytes.extend_from_slice(&[0, 0, 0, 4, 0, 0, 0, 9]);
    assert_eq!(
        from_raw::<Range<i32>>(&bytes),
        Ok(Range::Normal(
            Some(RangeBound { value: 2, kind: BoundType::Inclusive }),
            Some(RangeBound { value: 8, kind: BoundType::Inclusive }),
        ))
    );
    let mut same = vec![0x06];
    same.extend_from_slice(&[0, 0, 0, 4, 0, 0, 0, 2]);
    same.extend_from_slice(&[0, 0, 0, 4, 0, 0, 0, 8]);
    assert_eq!(from_raw::<Range<i32>>(&same), from_raw::<Range<i32>>(&bytes));
}

#[test]
fn ill_formed_range_is_refused() {
    assert_eq!(from_raw::<Range<Timespec>>(&[]), Err(ConversionError::BadData));
    assert_eq!(from_raw::<Range<Timespec>>(&[0x01, 0]), Err(ConversionError::BadData));
    assert_eq!(from_raw::<Range<Timespec>>(&[0x10]), Err(ConversionError::BadData));
    assert_eq!(
        from_raw::<Range<Timespec>>(&[0x10, 0, 0, 0, 7, 0, 0, 0, 0, 0, 0, 0]),
        Err(ConversionError::BadData)
    );
    assert_eq!(
        from_raw::<Range<Timespec>>(&[0x10, 0, 0, 0, 9, 0, 0, 0, 0, 0, 0, 0, 0, 0]),
        Err(ConversionError::BadData)
    );
    assert_eq!(
        from_raw::<Range<Timespec>>(&[0x10, 0xff, 0xff, 0xff, 0xff]),
        Err(ConversionError::BadData)
    );
    assert_eq!(
        from_raw::<Range<Timespec>>(&[0x10, 0, 0, 0, 8, 0, 0, 0, 0]),
        Err(ConversionError::BadData)
    );
}

#[test]
fn range_with_a_bound_that_cannot_be_written_is_refused() {
    let bad = RangeBound { value: Timespec { sec: i64::MAX, nsec: 0 }, kind: BoundType::Inclusive };
    let good = RangeBound { value: Timespec { sec: 0, nsec: 0 }, kind: BoundType::Inclusive };
    let mut w = vec![9];
    assert_eq!(
        Range::Normal(Some(good), Some(bad)).raw_to_sql(&mut w),
        Err(ConversionError::OutOfRange)
    );
    assert_eq!(w, vec![9]);
}

#[test]
fn integers_are_four_bytes() {
    assert_eq!(to_raw(&0x0102_0304i32), Ok(vec![1, 2, 3, 4]));
    assert_eq!(from_raw::<i32>(&[0xff, 0xff, 0xff, 0xfe]), Ok(-2));
    assert_eq!(from_raw::<i32>(&[0, 0, 1]), Err(ConversionError::BadData));
    assert_eq!(from_raw::<i32>(&[0, 0, 0, 1, 0]), Err(ConversionError::BadData));
}

#[test]
fn type_identifiers_are_those_of_the_catalog() {
    assert_eq!(Type::Int4.to_oid(), 23);
    assert_eq!(Type::Timestamp.to_oid(), 1114);
    assert_eq!(Type::TimestampTZ.to_oid(), 1184);
    assert_eq!(Type::Int4Range.to_oid(), 3904);
    assert_eq!(Type::TsRange.to_oid(), 3908);
    assert_eq!(Type::TstzRange.to_oid(), 3910);
    for ty in [
        Type::Int4,
        Type::Timestamp,
        Type::TimestampTZ,
        Type::Int4Range,
        Type::TsRange,
        Type::TstzRange,
        Type::Int4Array,
        Type::TimestampArray,
        Type::TimestampTZArray,
        Type::Int4RangeArray,
        Type::TsRangeArray,
        Type::TstzRangeArray,
    ] {
        assert_eq!(Type::from_oid(ty.to_oid()), Some(ty));
    }
    assert_eq!(Type::from_oid(0), None);
    assert_eq!(Type::from_oid(25), None);
}

#[test]
fn both_timestamp_types_share_one_conversion() {
    let raw = Some(1i64.to_be_bytes().to_vec());
    let expected = Timespec { sec: Y2K, nsec: 1_000 };
    assert_eq!(from_sql::<Timespec>(Type::Timestamp, &raw), Ok(expected));
    assert_eq!(from_sql::<Timespec>(Type::TimestampTZ, &raw), Ok(expected));
    assert_eq!(to_sql(&expected, Type::Timestamp), Ok(1i64.to_be_bytes().to_vec()));
    assert_eq!(to_sql(&expected, Type::TimestampTZ), Ok(1i64.to_be_bytes().to_vec()));
    let range = Some(vec![0x18]);
    assert_eq!(
        from_sql::<Range<Timespec>>(Type::TsRange, &range),
        Ok(Range::Normal(None, None))
    );
    assert_eq!(
        from_sql::<Range<Timespec>>(Type::TstzRange, &range),
        Ok(Range::Normal(None, None))
    );
}

#[test]
fn conversion_for_another_type_is_refused() {
    let raw = Some(1i64.to_be_bytes().to_vec());
    assert_eq!(
        from_sql::<Timespec>(Type::Int4, &raw),
        Err(ConversionError::WrongType)
    );
    assert_eq!(
        from_sql::<Timespec>(Type::TsRange, &raw),
        Err(ConversionError::WrongType)
    );
    assert_eq!(
        from_sql::<Range<Timespec>>(Type::Timestamp, &raw),
        Err(ConversionError::WrongType)
    );
    assert_eq!(
        from_sql::<i32>(Type::Timestamp, &Some(vec![0, 0, 0, 1])),
        Err(ConversionError::WrongType)
    );
    assert_eq!(
        to_sql(&Timespec { sec: 0, nsec: 0 }, Type::Int4),
        Err(ConversionError::WrongType)
    );
    assert_eq!(
        from_sql_nullable::<Timespec>(Type::Int4, &None),
        Err(ConversionError::WrongType)
    );
}

#[test]
fn absent_value_is_refused_or_none() {
    assert_eq!(
        from_sql::<Timespec>(Type::Timestamp, &None),
        Err(ConversionError::UnexpectedNull)
    );
    assert_eq!(from_sql_nullable::<Timespec>(Type::Timestamp, &None), Ok(None));
    assert_eq!(
        from_sql_nullable::<i32>(Type::Int4, &Some(vec![0, 0, 0, 7])),
        Ok(Some(7))
    );
    assert_eq!(
        from_sql_nullable::<i32>(Type::Int4, &Some(vec![0, 0, 7])),
        Err(ConversionError::BadData)
    );
}

#[test]
fn new_timespec_holds_its_parts() {
    let ts = Timespec::new(-5, 999_999_999);
    assert_eq!(ts.sec, -5);
    assert_eq!(ts.nsec, 999_999_999);
}

fn array_head(ndim: i32, flag: i32, element_type: i32, dims: &[(i32, i32)]) -> Vec<u8> {
    let mut out = Vec::new();
    out.extend_from_slice(&ndim.to_be_bytes());
    out.extend_from_slice(&flag.to_be_bytes());
    out.extend_from_slice(&element_type.to_be_bytes());
    for (len, lower) in dims {
        out.extend_from_slice(&len.to_be_bytes());
        out.extend_from_slice(&lower.to_be_bytes());
    }
    out
}

#[test]
fn array_of_integers_holds_head_dimensions_and_elements() {
    let array = ArrayBase {
        element_type: 23,
        dimensions: vec![DimensionInfo { len: 3, lower_bound: 1 }],
        elements: vec![Some(7), None, Some(-1)],
    };
    let mut expected = array_head(1, 1, 23, &[(3, 1)]);
    expected.extend_from_slice(&[0, 0, 0, 4, 0, 0, 0, 7]);
    expected.extend_from_slice(&[0xff, 0xff, 0xff, 0xff]);
    expected.extend_from_slice(&[0, 0, 0, 4, 0xff, 0xff, 0xff, 0xff]);
    let mut w = Vec::new();
    assert_eq!(write_array(&array, &mut w), Ok(()));
    assert_eq!(w, expected);
    let mut reader = MemReader::new(expected);
    assert_eq!(read_array::<i32>(&mut reader), Ok(array));
    assert!(reader.eof());
}

#[test]
fn array_without_absent_elements_has_flag_zero() {
    let array = ArrayBase {
        element_type: 23,
        dimensions: vec![DimensionInfo { len: 1, lower_bound: 0 }],
        elements: vec![Some(1)],
    };
    let mut w = Vec::new();
    assert_eq!(write_array(&array, &mut w), Ok(()));
    assert_eq!(&w[4..8], &[0, 0, 0, 0]);
}

#[test]
fn array_of_two_dimensions() {
    let array = ArrayBase {
        element_type: 1114,
        dimensions: vec![
            DimensionInfo { len: 2, lower_bound: 1 },
            DimensionInfo { len: 3, lower_bound: -1 },
        ],
        elements: vec![
            Some(Timespec { sec: Y2K, nsec: 0 }),
            Some(Timespec { sec: Y2K, nsec: 1_000 }),
            None,
            Some(Timespec { sec: Y2K - 1, nsec: 999_999_000 }),
            None,
            Some(Timespec { sec: Y2K + 1, nsec: 0 }),
        ],
    };
    let bytes = array_to_sql(&array, Type::TimestampArray).unwrap();
    assert_eq!(bytes.len(), 12 + 2 * 8 + 4 * 12 + 2 * 4);
    assert_eq!(&bytes[..12], &[0, 0, 0, 2, 0, 0, 0, 1, 0, 0, 0x04, 0x5a]);
    assert_eq!(
        array_from_sql::<Timespec>(Type::TimestampTZArray, &Some(bytes)),
        Ok(array)
    );
}

#[test]
fn array_without_dimensions_is_empty() {
    let array: ArrayBase<i32> = ArrayBase {
        element_type: 23,
        dimensions: vec![],
        elements: vec![],
    };
    let bytes = array_to_sql(&array, Type::Int4Array).unwrap();
    assert_eq!(bytes, array_head(0, 0, 23, &[]));
    assert_eq!(array_from_sql::<i32>(Type::Int4Array, &Some(bytes)), Ok(array));
}

#[test]
fn array_with_a_dimension_of_length_zero_is_empty() {
    let array: ArrayBase<i32> = ArrayBase {
        element_type: 23,
        dimensions: vec![
            DimensionInfo { len: i32::MAX, lower_bound: 1 },
            DimensionInfo { len: i32::MAX, lower_bound: 1 },
            DimensionInfo { len: i32::MAX, lower_bound: 1 },
            DimensionInfo { len: 0, lower_bound: 1 },
        ],
        elements: vec![],
    };
    let bytes = array_to_sql(&array, Type::Int4Array).unwrap();
    assert_eq!(array_from_sql::<i32>(Type::Int4Array, &Some(bytes)), Ok(array));
}

#[test]
fn array_of_ranges() {
    let range = Range::Normal(
        Some(RangeBound { value: 1, kind: BoundType::Inclusive }),
        None,
    );
    let array = ArrayBase {
        element_type: 3904,
        dimensions: vec![DimensionInfo { len: 2, lower_bound: 1 }],
        elements: vec![Some(range), Some(Range::Empty)],
    };
    let mut expected = array_head(1, 0, 3904, &[(2, 1)]);
    expected.extend_from_slice(&[0, 0, 0, 9, 0x12, 0, 0, 0, 4, 0, 0, 0, 1]);
    expected.extend_from_slice(&[0, 0, 0, 1, 0x01]);
    assert_eq!(array_to_sql(&array, Type::Int4RangeArray), Ok(expected.clone()));
    assert_eq!(
        array_from_sql::<Range<i32>>(Type::Int4RangeArray, &Some(expected)),
        Ok(array)
    );
}

#[test]
fn array_whose_elements_do_not_match_its_dimensions_is_refused() {
    let mut w = vec![5];
    let array = ArrayBase {
        element_type: 23,
        dimensions: vec![DimensionInfo { len: 2, lower_bound: 1 }],
        elements: vec![Some(1)],
    };
    assert_eq!(write_array(&array, &mut w), Err(ConversionError::InvalidValue));
    let array = ArrayBase {
        element_type: 23,
        dimensions: vec![],
        elements: vec![Some(1)],
    };
    assert_eq!(write_array(&array, &mut w), Err(ConversionError::InvalidValue));
    let array = ArrayBase {
        element_type: 23,
        dimensions: vec![DimensionInfo { len: -1, lower_bound: 1 }],
        elements: vec![Some(1)],
    };
    assert_eq!(write_array(&array, &mut w), Err(ConversionError::InvalidValue));
    let array = ArrayBase {
        element_type: 23,
        dimensions: vec![
            DimensionInfo { len: i32::MAX, lower_bound: 1 },
            DimensionInfo { len: i32::MAX, lower_bound: 1 },
            DimensionInfo { len: i32::MAX, lower_bound: 1 },
        ],
        elements: vec![Some(1)],
    };
    assert_eq!(write_array(&array, &mut w), Err(ConversionError::InvalidValue));
    assert_eq!(w, vec![5]);
}

#[test]
fn array_with_an_element_that_cannot_be_written_is_refused() {
    let array = ArrayBase {
        element_type: 1114,
        dimensions: vec![DimensionInfo { len: 2, lower_bound: 1 }],
        elements: vec![
            Some(Timespec { sec: 0, nsec: 0 }),
            Some(Timespec { sec: i64::MAX, nsec: 0 }),
        ],
    };
    let mut w = vec![5];
    assert_eq!(write_array(&array, &mut w), Err(ConversionError::OutOfRange));
    assert_eq!(w, vec![5]);
}

#[test]
fn ill_formed_array_is_refused() {
    let read = |bytes: Vec<u8>| read_array::<i32>(&mut MemReader::new(bytes));
    assert_eq!(read(vec![]), Err(ConversionError::BadData));
    assert_eq!(read(array_head(-1, 0, 23, &[])), Err(ConversionError::BadData));
    assert_eq!(read(array_head(1, 0, 23, &[])), Err(ConversionError::BadData));
    assert_eq!(read(array_head(1, 0, 23, &[(-1, 1)])), Err(ConversionError::BadData));
    assert_eq!(read(array_head(1, 0, 23, &[(1, 1)])), Err(ConversionError::BadData));
    assert_eq!(
        read(array_head(2, 0, 23, &[(i32::MAX, 1), (i32::MAX, 1)])),
        Err(ConversionError::BadData)
    );
    let mut bytes = array_head(1, 0, 23, &[(1, 1)]);
    bytes.extend_from_slice(&[0, 0, 0, 3, 0, 0, 1]);
    assert_eq!(read(bytes), Err(ConversionError::BadData));
    let mut bytes = array_head(1, 0, 23, &[(1, 1)]);
    bytes.extend_from_slice(&[0xff, 0xff, 0xff, 0xfe]);
    assert_eq!(read(bytes), Err(ConversionError::BadData));
    let mut bytes = array_head(1, 0, 23, &[(1, 1)]);
    bytes.extend_from_slice(&[0xff, 0xff, 0xff, 0xff, 0]);
    assert_eq!(
        array_from_sql::<i32>(Type::Int4Array, &Some(bytes)),
        Err(ConversionError::BadData)
    );
}

#[test]
fn array_flag_is_not_looked_at() {
    let mut bytes = array_head(1, 77, 23, &[(1, 5)]);
    bytes.extend_from_slice(&[0, 0, 0, 4, 0, 0, 0, 9]);
    assert_eq!(
        read_array::<i32>(&mut MemReader::new(bytes)),
        Ok(ArrayBase {
            element_type: 23,
            dimensions: vec![DimensionInfo { len: 1, lower_bound: 5 }],
            elements: vec![Some(9)],
        })
    );
}

#[test]
fn arrays_are_registered_by_the_type_of_their_elements() {
    let array: ArrayBase<Timespec> = ArrayBase {
        element_type: 1114,
        dimensions: vec![],
        elements: vec![],
    };
    assert!(array_to_sql(&array, Type::TimestampArray).is_ok());
    assert!(array_to_sql(&array, Type::TimestampTZArray).is_ok());
    assert_eq!(array_to_sql(&array, Type::Timestamp), Err(ConversionError::WrongType));
    assert_eq!(array_to_sql(&array, Type::Int4Array), Err(ConversionError::WrongType));
    assert_eq!(array_to_sql(&array, Type::TsRangeArray), Err(ConversionError::WrongType));
    assert_eq!(
        array_from_sql::<Timespec>(Type::Int4Array, &Some(vec![])),
        Err(ConversionError::WrongType)
    );
    assert_eq!(
        array_from_sql::<Timespec>(Type::TimestampArray, &None),
        Err(ConversionError::UnexpectedNull)
    );
    let ranges: ArrayBase<Range<Timespec>> = ArrayBase {
        element_type: 3908,
        dimensions: vec![],
        elements: vec![],
    };
    assert!(array_to_sql(&ranges, Type::TsRangeArray).is_ok());
    assert!(array_to_sql(&ranges, Type::TstzRangeArray).is_ok());
    assert_eq!(Type::TsRangeArray.element(), Some(Type::TsRange));
    assert_eq!(Type::Timestamp.element(), None);
    assert_eq!(Type::from_oid(1115), Some(Type::TimestampArray));
    assert_eq!(Type::from_oid(1185), Some(Type::TimestampTZArray));
    assert_eq!(Type::from_oid(3909), Some(Type::TsRangeArray));
    assert_eq!(Type::from_oid(3911), Some(Type::TstzRangeArray));
    assert_eq!(Type::from_oid(1007), Some(Type::Int4Array));
    assert_eq!(Type::from_oid(3905), Some(Type::Int4RangeArray));
}
