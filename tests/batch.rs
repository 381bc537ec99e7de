use lakesoul_io::batch::{assemble_batch, assemble_batches, MergeRowBuilder};
use lakesoul_io::merge::{merge_sources, RowRef};
use lakesoul_io::column::{DataType, Field, ScalarValue};
use lakesoul_io::error::EngineError;

fn fields() -> Vec<Field> {
    vec![
        Field::new("id".to_string(), DataType::Int64, false),
        Field::new("score".to_string(), DataType::Int32, true),
    ]
}

#[test]
fn rows_fill_every_column_and_freeze_together() {
    let mut b = MergeRowBuilder::new(&fields(), 4);
    b.append_row(&vec![Some(ScalarValue::Int64(1)), None]).unwrap();
    b.append_row(&vec![Some(ScalarValue::Int64(2)), Some(ScalarValue::Int32(9))])
        .unwrap();
    let cols = b.freeze().unwrap();
    assert_eq!(cols.len(), 2);
    assert_eq!(cols[0].len, 2);
    assert_eq!(cols[1].len, 2);
    assert_eq!(cols[1].null_count, 1);
    assert_eq!(cols[1].buffers[0], vec![0, 0, 0, 0, 9, 0, 0, 0]);
}

#[test]
fn a_refused_row_appends_nothing() {
    let mut b = MergeRowBuilder::new(&fields(), 4);
    assert_eq!(
        b.append_row(&vec![None, Some(ScalarValue::Int32(1))]),
        Err(EngineError::InvariantViolation)
    );
    assert_eq!(
        b.append_row(&vec![Some(ScalarValue::Int64(1))]),
        Err(EngineError::InvariantViolation)
    );
    let cols = b.freeze().unwrap();
    assert_eq!(cols[0].len, 0);
    assert_eq!(cols[1].len, 0);
}

#[test]
fn unequal_column_lengths_fail_the_freeze() {
    let mut b = MergeRowBuilder::new(&fields(), 4);
    b.push_cell(0, Some(ScalarValue::Int64(1))).unwrap();
    assert_eq!(b.push_cell(2, None), Err(EngineError::InvariantViolation));
    assert_eq!(b.freeze().err(), Some(EngineError::InvariantViolation));
}

#[test]
fn merged_rows_are_read_from_their_winning_source() {
    let older_keys = vec![1u64, 2, 3];
    let newer_keys = vec![2u64, 4];
    let older_rows = vec![
        vec![Some(ScalarValue::Int64(1)), Some(ScalarValue::Int32(10))],
        vec![Some(ScalarValue::Int64(2)), Some(ScalarValue::Int32(20))],
        vec![Some(ScalarValue::Int64(3)), Some(ScalarValue::Int32(30))],
    ];
    let newer_rows = vec![
        vec![Some(ScalarValue::Int64(2)), None],
        vec![Some(ScalarValue::Int64(4)), Some(ScalarValue::Int32(40))],
    ];
    let selection = merge_sources(&vec![older_keys, newer_keys]).unwrap();
    let cols = assemble_batch(&fields(), &vec![older_rows, newer_rows], &selection).unwrap();
    assert_eq!(cols[0].len, 4);
    assert_eq!(
        cols[0].buffers[0],
        vec![1, 0, 0, 0, 0, 0, 0, 0, 2, 0, 0, 0, 0, 0, 0, 0, 3, 0, 0, 0, 0, 0, 0, 0, 4, 0, 0, 0, 0, 0, 0, 0]
    );
    assert_eq!(cols[1].null_count, 1);
    assert_eq!(cols[1].null_buffer, Some(vec![0b0000_1101]));
    assert_eq!(cols[1].buffers[0], vec![10, 0, 0, 0, 0, 0, 0, 0, 30, 0, 0, 0, 40, 0, 0, 0]);
}

#[test]
fn a_chosen_row_missing_from_its_source_is_refused() {
    let rows = vec![vec![vec![Some(ScalarValue::Int64(1)), None]]];
    let bad = vec![RowRef { key: 1, source: 0, row: 1 }];
    assert_eq!(
        assemble_batch(&fields(), &rows, &bad).err(),
        Some(EngineError::InvariantViolation)
    );
    let unknown_source = vec![RowRef { key: 1, source: 3, row: 0 }];
    assert_eq!(
        assemble_batch(&fields(), &rows, &unknown_source).err(),
        Some(EngineError::InvariantViolation)
    );
}

#[test]
fn rows_are_cut_into_batches_of_the_configured_size() {
    let rows: Vec<Vec<Option<ScalarValue>>> = (0..5)
        .map(|i| vec![Some(ScalarValue::Int64(i)), Some(ScalarValue::Int32(i as i32 * 10))])
        .collect();
    let selection: Vec<RowRef> =
        (0..5).map(|i| RowRef { key: i as u64, source: 0, row: i }).collect();
    let batches = assemble_batches(&fields(), &vec![rows], &selection, 2).unwrap();
    assert_eq!(batches.len(), 3);
    assert_eq!(batches[0][0].len, 2);
    assert_eq!(batches[1][0].len, 2);
    assert_eq!(batches[2][0].len, 1);
    assert_eq!(batches[2][1].buffers[0], vec![40, 0, 0, 0]);
    assert_eq!(batches[1][0].buffers[0][0], 2);
}

#[test]
fn a_bad_row_in_a_later_batch_fails_the_whole_assembly() {
    let rows = vec![
        vec![Some(ScalarValue::Int64(0)), None],
        vec![None, None],
    ];
    let selection = vec![RowRef { key: 0, source: 0, row: 0 }, RowRef { key: 1, source: 0, row: 1 }];
    assert_eq!(
        assemble_batches(&fields(), &vec![rows], &selection, 1).err(),
        Some(EngineError::InvariantViolation)
    );
}
