use lakesoul_io::column::{buffer_capacities, ColumnData, DataType, Field, IndexType, MergedArrayData, ScalarValue};
use lakesoul_io::error::EngineError;

fn fill_value_for_primitive(array_data: &mut MergedArrayData, dt: &DataType, item: i32) {
    let value = match *dt {
        DataType::UInt8 => ScalarValue::UInt8(item as u8),
        DataType::UInt16 => ScalarValue::UInt16(item as u16),
        DataType::UInt32 => ScalarValue::UInt32(item as u32),
        DataType::UInt64 => ScalarValue::UInt64(item as u64),
        DataType::Int8 => ScalarValue::Int8(item as i8),
        DataType::Int16 => ScalarValue::Int16(item as i16),
        DataType::Int32 => ScalarValue::Int32(item),
        DataType::Int64 => ScalarValue::Int64(item as i64),
        _ => panic!("Unsupported DataType: {:?}", dt),
    };
    array_data.push_non_null_item(value).unwrap();
}

fn primitive_push(field_name: &str, dt: DataType, nullable: bool) -> ColumnData {
    let field = Field::new(field_name.to_string(), dt, nullable);
    let mut array_data = MergedArrayData::new(&field, 5);
    if nullable {
        for i in 0..5 {
            if i % 2 == 0 {
                fill_value_for_primitive(&mut array_data, &dt, i);
            } else {
                array_data.push_null().unwrap();
            }
        }
    } else {
        for i in 0..5 {
            fill_value_for_primitive(&mut array_data, &dt, i);
        }
    }
    let ad = array_data.freeze();
    assert_eq!(ad.null_count, if nullable { 2 } else { 0 });
    assert_eq!(ad.len, 5);
    ad
}

#[test]
fn test_primitive_data_type() {
    primitive_push("int32", DataType::Int32, true);
    primitive_push("int64", DataType::Int64, false);
    primitive_push("uint16", DataType::UInt16, false);
}

#[test]
fn nullable_int32_buffers_are_little_endian_with_zeroed_null_slots() {
    let ad = primitive_push("int32", DataType::Int32, true);
    assert_eq!(ad.null_buffer, Some(vec![0b0001_0101]));
    assert_eq!(ad.buffers.len(), 1);
    assert_eq!(
        ad.buffers[0],
        vec![0, 0, 0, 0, 0, 0, 0, 0, 2, 0, 0, 0, 0, 0, 0, 0, 4, 0, 0, 0]
    );
}

#[test]
fn non_nullable_column_has_no_null_bitmap() {
    let ad = primitive_push("uint16", DataType::UInt16, false);
    assert_eq!(ad.null_buffer, None);
    assert_eq!(ad.buffers[0], vec![0, 0, 1, 0, 2, 0, 3, 0, 4, 0]);
}

#[test]
fn push_null_on_non_nullable_column_is_refused_and_changes_nothing() {
    let field = Field::new("id".to_string(), DataType::Int64, false);
    let mut b = MergedArrayData::new(&field, 4);
    b.push_non_null_item(ScalarValue::Int64(7)).unwrap();
    assert_eq!(b.push_null(), Err(EngineError::InvariantViolation));
    assert_eq!(b.len(), 1);
    assert_eq!(b.null_count(), 0);
    let ad = b.freeze();
    assert_eq!(ad.len, 1);
    assert_eq!(ad.buffers[0], vec![7, 0, 0, 0, 0, 0, 0, 0]);
}

#[test]
fn freeze_counts_every_push_and_every_null() {
    let field = Field::new("v".to_string(), DataType::Int8, true);
    let mut b = MergedArrayData::new(&field, 2);
    let calls = [Some(1i8), None, None, Some(-1), None, Some(3), Some(4), None, Some(5), None];
    for c in calls.iter() {
        match c {
            Some(v) => b.push_non_null_item(ScalarValue::Int8(*v)).unwrap(),
            None => b.push_null().unwrap(),
        }
    }
    let ad = b.freeze();
    assert_eq!(ad.len, 10);
    assert_eq!(ad.null_count, 5);
    assert_eq!(ad.buffers[0], vec![1, 0, 0, 255, 0, 3, 4, 0, 5, 0]);
    assert_eq!(ad.null_buffer, Some(vec![0b0110_1001, 0b0000_0001]));
}

#[test]
fn value_of_another_type_is_refused() {
    let field = Field::new("v".to_string(), DataType::Int32, true);
    let mut b = MergedArrayData::new(&field, 2);
    assert_eq!(
        b.push_non_null_item(ScalarValue::Int64(1)),
        Err(EngineError::InvariantViolation)
    );
    assert_eq!(b.len(), 0);
}

#[test]
fn boolean_column_is_bit_packed() {
    let field = Field::new("flag".to_string(), DataType::Boolean, true);
    let mut b = MergedArrayData::new(&field, 9);
    for i in 0..9 {
        if i == 4 {
            b.push_null().unwrap();
        } else {
            b.push_non_null_item(ScalarValue::Boolean(i % 3 == 0)).unwrap();
        }
    }
    let ad = b.freeze();
    assert_eq!(ad.len, 9);
    assert_eq!(ad.null_count, 1);
    assert_eq!(ad.buffers[0], vec![0b0100_1001, 0]);
    assert_eq!(ad.null_buffer, Some(vec![0b1110_1111, 1]));
}

#[test]
fn utf8_column_starts_with_a_zero_offset_and_keeps_two_buffers() {
    let field = Field::new("s".to_string(), DataType::Utf8, true);
    let mut b = MergedArrayData::new(&field, 3);
    b.push_null().unwrap();
    assert_eq!(
        b.push_non_null_item(ScalarValue::Int32(1)),
        Err(EngineError::InvariantViolation)
    );
    let ad = b.freeze();
    assert_eq!(ad.buffers.len(), 2);
    assert_eq!(ad.buffers[0], vec![0; 8]);
    assert_eq!(ad.buffers[1], Vec::<u8>::new());
}

#[test]
fn large_list_offsets_are_eight_bytes() {
    let field = Field::new("l".to_string(), DataType::LargeList, true);
    let mut b = MergedArrayData::new(&field, 1);
    b.push_null().unwrap();
    let ad = b.freeze();
    assert_eq!(ad.buffers.len(), 1);
    assert_eq!(ad.buffers[0], vec![0; 16]);
}

#[test]
fn dense_union_keeps_type_ids_and_offsets() {
    let field = Field::new("u".to_string(), DataType::DenseUnion, true);
    let mut b = MergedArrayData::new(&field, 2);
    b.push_null().unwrap();
    b.push_null().unwrap();
    let ad = b.freeze();
    assert_eq!(ad.buffers.len(), 2);
    assert_eq!(ad.buffers[0], vec![0, 0]);
    assert_eq!(ad.buffers[1], vec![0; 8]);
}

#[test]
fn struct_and_null_columns_keep_no_buffers() {
    for dt in [DataType::Struct, DataType::Null, DataType::FixedSizeList] {
        let field = Field::new("x".to_string(), dt, true);
        let mut b = MergedArrayData::new(&field, 2);
        b.push_null().unwrap();
        let ad = b.freeze();
        assert_eq!(ad.buffers.len(), 0);
        assert_eq!(ad.null_count, 1);
    }
}

#[test]
fn fixed_width_slots_follow_the_layout_table() {
    let cases = [
        (DataType::Decimal128, 16usize),
        (DataType::Decimal256, 32),
        (DataType::FixedSizeBinary(5), 5),
        (DataType::Dictionary(IndexType::Int16), 2),
        (DataType::IntervalMonthDayNano, 16),
        (DataType::Float16, 2),
        (DataType::Timestamp, 8),
        (DataType::SparseUnion, 1),
    ];
    for (dt, width) in cases {
        let field = Field::new("x".to_string(), dt, true);
        let mut b = MergedArrayData::new(&field, 1);
        b.push_null().unwrap();
        let ad = b.freeze();
        assert_eq!(ad.buffers.len(), 1);
        assert_eq!(ad.buffers[0], vec![0; width]);
    }
}

#[test]
fn buffer_capacities_follow_the_layout_table() {
    assert_eq!(buffer_capacities(DataType::Boolean, 17), (3, 0));
    assert_eq!(buffer_capacities(DataType::Int64, 10), (80, 0));
    assert_eq!(buffer_capacities(DataType::Utf8, 10), (44, 10));
    assert_eq!(buffer_capacities(DataType::LargeBinary, 10), (88, 10));
    assert_eq!(buffer_capacities(DataType::List, 10), (44, 0));
    assert_eq!(buffer_capacities(DataType::DenseUnion, 10), (10, 40));
    assert_eq!(buffer_capacities(DataType::Struct, 10), (0, 0));
}
