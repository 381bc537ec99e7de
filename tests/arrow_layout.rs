use arrow_buffer::Buffer;
use arrow_data::ArrayDataBuilder;
use arrow_schema::DataType as ArrowType;
use lakesoul_io::column::{ColumnData, DataType, Field, MergedArrayData, ScalarValue};

fn validate(column: ColumnData, dt: ArrowType) -> arrow_data::ArrayData {
    let buffers: Vec<Buffer> = column.buffers.into_iter().map(Buffer::from_vec).collect();
    ArrayDataBuilder::new(dt)
        .len(column.len)
        .null_count(column.null_count)
        .buffers(buffers)
        .null_bit_buffer(column.null_buffer.map(Buffer::from_vec))
        .build()
        .unwrap()
}

#[test]
fn frozen_int_column_passes_arrow_validation_with_same_cells() {
    let mut b = MergedArrayData::new(&Field::new("v".to_string(), DataType::Int32, true), 4);
    b.push_non_null_item(ScalarValue::Int32(-5)).unwrap();
    b.push_null().unwrap();
    b.push_non_null_item(ScalarValue::Int32(7)).unwrap();
    let data = validate(b.freeze(), ArrowType::Int32);
    assert_eq!(data.len(), 3);
    assert_eq!(data.null_count(), 1);
    assert!(data.is_valid(0));
    assert!(data.is_null(1));
    assert!(data.is_valid(2));
    let values: &[i32] = data.buffer(0);
    assert_eq!(values[0], -5);
    assert_eq!(values[2], 7);
}

#[test]
fn frozen_boolean_column_passes_arrow_validation() {
    let mut b = MergedArrayData::new(&Field::new("f".to_string(), DataType::Boolean, false), 3);
    b.push_non_null_item(ScalarValue::Boolean(true)).unwrap();
    b.push_non_null_item(ScalarValue::Boolean(false)).unwrap();
    b.push_non_null_item(ScalarValue::Boolean(true)).unwrap();
    let data = validate(b.freeze(), ArrowType::Boolean);
    assert_eq!(data.len(), 3);
    assert_eq!(data.null_count(), 0);
    assert_eq!(data.buffers()[0].as_slice()[0], 0b101);
}

#[test]
fn frozen_null_string_columns_pass_arrow_validation() {
    for (dt, at) in [(DataType::Utf8, ArrowType::Utf8), (DataType::LargeBinary, ArrowType::LargeBinary)] {
        let mut b = MergedArrayData::new(&Field::new("s".to_string(), dt, true), 2);
        b.push_null().unwrap();
        b.push_null().unwrap();
        let data = validate(b.freeze(), at);
        assert_eq!(data.len(), 2);
        assert_eq!(data.null_count(), 2);
    }
}
