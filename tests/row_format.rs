use datafusion_row::{
    bench_write_batch, check_columns, check_schema, write_batch, write_batch_unchecked, write_row,
    Column, ColumnValues, DataType, Field, RecordBatch, RowError, RowLayout, RowWriter, Schema,
};

fn field(data_type: DataType, nullable: bool) -> Field {
    Field { data_type, nullable }
}

fn encode_one(schema: &Schema, columns: &Vec<Column>, row: usize) -> Vec<u8> {
    let mut writer = RowWriter::new(schema);
    write_row(&mut writer, row, schema, columns);
    writer.get_row().to_vec()
}

#[test]
fn scenario_bool_int32_nullable_int64() {
    let schema = Schema {
        fields: vec![
            field(DataType::Boolean, false),
            field(DataType::Int32, false),
            field(DataType::Int64, true),
        ],
    };
    let columns = vec![
        Column::non_null(ColumnValues::Boolean(vec![true])),
        Column::non_null(ColumnValues::Int32(vec![42])),
        Column::new(ColumnValues::Int64(vec![7]), Some(vec![false])).unwrap(),
    ];
    let mut writer = RowWriter::new(&schema);
    let width = write_row(&mut writer, 0, &schema, &columns);
    // one bitmap byte, then 1 + 4 + 8 value bytes, rounded up to 16
    assert_eq!(width, 16);
    let row = writer.get_row();
    assert_eq!(row.len(), 16);
    assert_eq!(row[0], 0b011);
    assert_eq!(row[1], 0x01);
    assert_eq!(&row[2..6], &[0x2A, 0, 0, 0]);
    assert_eq!(&row[6..14], &[0u8; 8]);
    assert_eq!(&row[14..16], &[0u8; 2]);
}

#[test]
fn scenario_three_int32_rows() {
    let schema = Schema { fields: vec![field(DataType::Int32, false)] };
    let batch =
        RecordBatch::try_new(vec![Column::non_null(ColumnValues::Int32(vec![1, 2, 3]))]).unwrap();
    // each row is one 4-byte value padded to an 8-byte word
    let mut output = vec![0u8; 3 * 8];
    let offsets = write_batch_unchecked(&mut output, 0, &batch, 0, &schema);
    assert_eq!(offsets, vec![0, 8, 16]);
    assert_eq!(
        output,
        vec![1, 0, 0, 0, 0, 0, 0, 0, 2, 0, 0, 0, 0, 0, 0, 0, 3, 0, 0, 0, 0, 0, 0, 0]
    );
}

#[test]
fn three_rows_do_not_fit_in_twelve_bytes() {
    let schema = Schema { fields: vec![field(DataType::Int32, false)] };
    let batch =
        RecordBatch::try_new(vec![Column::non_null(ColumnValues::Int32(vec![1, 2, 3]))]).unwrap();
    let mut output = vec![0xEEu8; 12];
    let r = write_batch(&mut output, 0, &batch, 0, &schema);
    assert_eq!(r, Err(RowError::OutputTooSmall));
    assert_eq!(output, vec![0xEEu8; 12]);
}

#[test]
fn output_too_small_by_one_byte() {
    let schema = Schema { fields: vec![field(DataType::Int64, true)] };
    let batch = RecordBatch::try_new(vec![Column::non_null(ColumnValues::Int64(vec![5, 6]))])
        .unwrap();
    // bitmap byte + 8 value bytes, rounded up to 16 per row
    let mut output = vec![9u8; 2 + 2 * 16 - 1];
    assert_eq!(write_batch(&mut output, 2, &batch, 0, &schema), Err(RowError::OutputTooSmall));
    assert_eq!(output, vec![9u8; 33]);
    let mut output = vec![9u8; 2 + 2 * 16];
    assert_eq!(write_batch(&mut output, 2, &batch, 0, &schema), Ok(vec![2, 18]));
    assert_eq!(&output[0..2], &[9, 9]);
}

#[test]
fn encoding_is_deterministic() {
    let schema = Schema {
        fields: vec![field(DataType::UInt16, true), field(DataType::Decimal128(10, 2), true)],
    };
    let columns = vec![
        Column::new(ColumnValues::UInt16(vec![300, 4]), Some(vec![true, false])).unwrap(),
        Column::non_null(ColumnValues::Decimal128(vec![-12345, 99])),
    ];
    let first = encode_one(&schema, &columns, 0);
    let second = encode_one(&schema, &columns, 0);
    assert_eq!(first, second);
    let mut writer = RowWriter::new(&schema);
    write_row(&mut writer, 1, &schema, &columns);
    writer.reset();
    write_row(&mut writer, 0, &schema, &columns);
    assert_eq!(writer.get_row().to_vec(), first);
}

#[test]
fn every_row_has_the_fixed_width() {
    let schema = Schema {
        fields: vec![
            field(DataType::Int8, true),
            field(DataType::Float64, true),
            field(DataType::Date32, true),
        ],
    };
    let columns = vec![
        Column::new(ColumnValues::Int8(vec![1, 2, 3]), Some(vec![true, false, true])).unwrap(),
        Column::new(ColumnValues::Float64(vec![0, 1, 2]), Some(vec![false, false, true])).unwrap(),
        Column::new(ColumnValues::Date32(vec![0, 0, 0]), Some(vec![true, true, false])).unwrap(),
    ];
    let layout = RowLayout::new(&schema);
    // bitmap 1 + 1 + 8 + 4 = 14, rounded up to 16
    assert_eq!(layout.fixed_part_width(), 16);
    let batch = RecordBatch::try_new(columns).unwrap();
    let widths = bench_write_batch(&[vec![batch]], &schema).unwrap();
    assert_eq!(widths, vec![16, 16, 16]);
}

#[test]
fn null_bits_and_zero_slots() {
    let schema = Schema {
        fields: vec![
            field(DataType::Int32, true),
            field(DataType::Int32, true),
            field(DataType::UInt64, true),
        ],
    };
    let columns = vec![
        Column::new(ColumnValues::Int32(vec![-1, 5]), Some(vec![false, true])).unwrap(),
        Column::new(ColumnValues::Int32(vec![7, -2]), Some(vec![true, false])).unwrap(),
        Column::non_null(ColumnValues::UInt64(vec![u64::MAX, 1])),
    ];
    let row0 = encode_one(&schema, &columns, 0);
    assert_eq!(row0[0], 0b110);
    assert_eq!(&row0[1..5], &[0, 0, 0, 0]);
    assert_eq!(&row0[5..9], &[7, 0, 0, 0]);
    assert_eq!(&row0[9..17], &[0xFF; 8]);
    let row1 = encode_one(&schema, &columns, 1);
    assert_eq!(row1[0], 0b101);
    assert_eq!(&row1[1..5], &[5, 0, 0, 0]);
    assert_eq!(&row1[5..9], &[0, 0, 0, 0]);
    assert_eq!(&row1[9..17], &[1, 0, 0, 0, 0, 0, 0, 0]);
}

#[test]
fn bitmap_spans_several_bytes() {
    let mut fields = Vec::new();
    let mut columns = Vec::new();
    let mut expected_bits = [0u8; 2];
    for i in 0..10usize {
        fields.push(field(DataType::UInt8, true));
        let present = i % 3 != 0;
        if present {
            expected_bits[i / 8] |= 1 << (i % 8);
        }
        columns.push(Column::new(ColumnValues::UInt8(vec![i as u8 + 1]), Some(vec![present])).unwrap());
    }
    let schema = Schema { fields };
    let row = encode_one(&schema, &columns, 0);
    assert_eq!(row.len(), 16);
    assert_eq!(&row[0..2], &expected_bits);
    for i in 0..10usize {
        let expected = if i % 3 != 0 { i as u8 + 1 } else { 0 };
        assert_eq!(row[2 + i], expected);
    }
}

#[test]
fn null_free_path_matches_nullable_path() {
    let free = Schema {
        fields: vec![field(DataType::Int16, false), field(DataType::Date64, false)],
    };
    let nullable = Schema {
        fields: vec![field(DataType::Int16, true), field(DataType::Date64, false)],
    };
    let columns = vec![
        Column::non_null(ColumnValues::Int16(vec![-3])),
        Column::non_null(ColumnValues::Date64(vec![1_600_000_000_000])),
    ];
    let a = encode_one(&free, &columns, 0);
    let b = encode_one(&nullable, &columns, 0);
    // no bitmap: values at 0 and 2; with a bitmap: at 1 and 3
    assert_eq!(a.len(), 16);
    assert_eq!(b.len(), 16);
    assert_eq!(b[0], 0b11);
    assert_eq!(&a[0..10], &b[1..11]);
    assert_eq!(&a[0..2], &(-3i16).to_le_bytes());
    assert_eq!(&a[2..10], &1_600_000_000_000i64.to_le_bytes());
}

#[test]
fn batch_offsets_match_single_rows() {
    let schema = Schema {
        fields: vec![field(DataType::UInt32, true), field(DataType::Boolean, false)],
    };
    let columns = vec![
        Column::new(ColumnValues::UInt32(vec![10, 20, 30, 40]), Some(vec![true, false, true, true]))
            .unwrap(),
        Column::non_null(ColumnValues::Boolean(vec![true, false, false, true])),
    ];
    let singles: Vec<Vec<u8>> = (0..4).map(|r| encode_one(&schema, &columns, r)).collect();
    let batch = RecordBatch::try_new(columns).unwrap();
    let width = 8;
    let mut output = vec![0xAAu8; 5 + 3 * width + 4];
    let offsets = write_batch_unchecked(&mut output, 5, &batch, 1, &schema);
    assert_eq!(offsets, vec![5, 13, 21]);
    for (j, &off) in offsets.iter().enumerate() {
        assert_eq!(&output[off..off + width], singles[j + 1].as_slice());
    }
    assert_eq!(&output[0..5], &[0xAA; 5]);
    assert_eq!(&output[29..33], &[0xAA; 4]);
}

#[test]
fn start_row_past_the_end_writes_nothing() {
    let schema = Schema { fields: vec![field(DataType::Int32, false)] };
    let batch = RecordBatch::try_new(vec![Column::non_null(ColumnValues::Int32(vec![1]))]).unwrap();
    let mut output = vec![4u8; 3];
    let offsets = write_batch_unchecked(&mut output, 10, &batch, 1, &schema);
    assert!(offsets.is_empty());
    assert_eq!(output, vec![4u8; 3]);
}

fn single_field_bytes(data_type: DataType, values: ColumnValues) -> Vec<u8> {
    let schema = Schema { fields: vec![field(data_type, false)] };
    let columns = vec![Column::non_null(values)];
    encode_one(&schema, &columns, 0)
}

#[test]
fn type_coverage_little_endian_bytes() {
    let cases: Vec<(DataType, ColumnValues, Vec<u8>)> = vec![
        (DataType::Boolean, ColumnValues::Boolean(vec![true]), vec![1]),
        (DataType::Int8, ColumnValues::Int8(vec![-2]), (-2i8).to_le_bytes().to_vec()),
        (DataType::Int16, ColumnValues::Int16(vec![-300]), (-300i16).to_le_bytes().to_vec()),
        (DataType::Int32, ColumnValues::Int32(vec![-70000]), (-70000i32).to_le_bytes().to_vec()),
        (DataType::Int64, ColumnValues::Int64(vec![i64::MIN]), i64::MIN.to_le_bytes().to_vec()),
        (DataType::UInt8, ColumnValues::UInt8(vec![200]), vec![200]),
        (DataType::UInt16, ColumnValues::UInt16(vec![0xBEEF]), vec![0xEF, 0xBE]),
        (DataType::UInt32, ColumnValues::UInt32(vec![0x0102_0304]), vec![4, 3, 2, 1]),
        (DataType::UInt64, ColumnValues::UInt64(vec![u64::MAX - 1]), (u64::MAX - 1).to_le_bytes().to_vec()),
        (DataType::Float32, ColumnValues::Float32(vec![1.5f32.to_bits()]), 1.5f32.to_le_bytes().to_vec()),
        (DataType::Float64, ColumnValues::Float64(vec![(-0.25f64).to_bits()]), (-0.25f64).to_le_bytes().to_vec()),
        (DataType::Date32, ColumnValues::Date32(vec![19000]), 19000i32.to_le_bytes().to_vec()),
        (DataType::Date64, ColumnValues::Date64(vec![-86_400_000]), (-86_400_000i64).to_le_bytes().to_vec()),
        (
            DataType::Decimal128(38, 10),
            ColumnValues::Decimal128(vec![-170141183460469231731687303715884105728]),
            i128::MIN.to_le_bytes().to_vec(),
        ),
    ];
    for (data_type, values, expected) in cases {
        let row = single_field_bytes(data_type, values);
        assert_eq!(&row[0..expected.len()], expected.as_slice(), "{:?}", data_type);
        assert!(row[expected.len()..].iter().all(|&b| b == 0));
        assert_eq!(row.len() % 8, 0);
    }
}

#[test]
fn decimal_value_bytes() {
    let row = single_field_bytes(DataType::Decimal128(5, 2), ColumnValues::Decimal128(vec![12345]));
    assert_eq!(row.len(), 16);
    assert_eq!(&row[0..2], &[0x39, 0x30]);
    assert!(row[2..].iter().all(|&b| b == 0));
}

#[test]
fn reset_zeroes_the_buffer() {
    let schema = Schema { fields: vec![field(DataType::Int64, true)] };
    let columns = vec![Column::non_null(ColumnValues::Int64(vec![-1]))];
    let mut writer = RowWriter::new(&schema);
    write_row(&mut writer, 0, &schema, &columns);
    assert_eq!(writer.get_row()[1], 0xFF);
    writer.reset();
    assert_eq!(writer.get_row(), &[0u8; 16]);
}

#[test]
fn null_bit_setters() {
    let schema = Schema { fields: vec![field(DataType::Int8, true), field(DataType::Int8, true)] };
    let mut writer = RowWriter::new(&schema);
    writer.set_non_null_at(1);
    assert_eq!(writer.get_row()[0], 0b10);
    writer.set_non_null_at(0);
    writer.set_null_at(1);
    assert_eq!(writer.get_row()[0], 0b01);
}

#[test]
fn planned_layout_offsets() {
    let schema = Schema {
        fields: vec![
            field(DataType::Boolean, false),
            field(DataType::Decimal128(20, 3), false),
            field(DataType::UInt16, false),
        ],
    };
    let layout = RowLayout::new(&schema);
    assert!(layout.null_free);
    assert_eq!(layout.null_width, 0);
    assert_eq!(layout.field_offsets, vec![0, 1, 17]);
    assert_eq!(layout.fixed_part_width(), 24);
}

#[test]
fn unsupported_type_is_reported() {
    let schema = Schema {
        fields: vec![field(DataType::Int8, false), field(DataType::Utf8, false), field(DataType::Null, true)],
    };
    assert_eq!(check_schema(&schema), Err(RowError::UnsupportedType { field: 1 }));
    let batch = RecordBatch::try_new(vec![]).unwrap();
    assert_eq!(
        bench_write_batch(&[vec![batch]], &schema),
        Err(RowError::UnsupportedType { field: 1 })
    );
}

#[test]
fn too_many_fields_is_reported() {
    let schema = Schema { fields: vec![field(DataType::Int8, false); 0x0100_0001] };
    assert_eq!(check_schema(&schema), Err(RowError::TooManyFields));
}

#[test]
fn type_mismatch_is_reported() {
    let schema = Schema {
        fields: vec![field(DataType::Int32, false), field(DataType::Date32, false)],
    };
    let columns = vec![
        Column::non_null(ColumnValues::Int32(vec![1])),
        Column::non_null(ColumnValues::Int32(vec![2])),
    ];
    assert_eq!(check_columns(&schema, &columns), Err(RowError::TypeMismatch { field: 1 }));
    let good = RecordBatch::try_new(vec![
        Column::non_null(ColumnValues::Int32(vec![1, 2])),
        Column::non_null(ColumnValues::Date32(vec![3, 4])),
    ])
    .unwrap();
    let bad = RecordBatch::try_new(columns).unwrap();
    let mut output = vec![0u8; 64];
    assert_eq!(
        write_batch(&mut output, 0, &bad, 0, &schema),
        Err(RowError::TypeMismatch { field: 1 })
    );
    assert_eq!(
        bench_write_batch(&[vec![good], vec![bad]], &schema),
        Err(RowError::TypeMismatch { field: 1 })
    );
}

#[test]
fn column_count_mismatch_is_reported() {
    let schema = Schema { fields: vec![field(DataType::Int32, false)] };
    let batch = RecordBatch::try_new(vec![
        Column::non_null(ColumnValues::Int32(vec![1])),
        Column::non_null(ColumnValues::Int32(vec![2])),
    ])
    .unwrap();
    let mut output = vec![0u8; 64];
    assert_eq!(
        write_batch(&mut output, 0, &batch, 0, &schema),
        Err(RowError::ColumnCountMismatch)
    );
}

#[test]
fn length_mismatch_is_reported() {
    assert_eq!(
        Column::new(ColumnValues::Int8(vec![1, 2]), Some(vec![true])).unwrap_err(),
        RowError::LengthMismatch
    );
    let r = RecordBatch::try_new(vec![
        Column::non_null(ColumnValues::Int8(vec![1, 2])),
        Column::non_null(ColumnValues::Int8(vec![1])),
    ]);
    assert_eq!(r.unwrap_err(), RowError::LengthMismatch);
}

#[test]
fn bench_counts_rows_of_all_batches() {
    let schema = Schema { fields: vec![field(DataType::UInt8, true)] };
    let make = |n: usize| {
        RecordBatch::try_new(vec![Column::non_null(ColumnValues::UInt8(vec![0; n]))]).unwrap()
    };
    let widths = bench_write_batch(&[vec![make(2), make(0)], vec![], vec![make(3)]], &schema).unwrap();
    assert_eq!(widths, vec![8; 5]);
    assert_eq!(bench_write_batch(&[], &schema).unwrap(), Vec::<usize>::new());
}
