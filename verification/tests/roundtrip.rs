use arrow::array::{
    Array, Float32Array, Float64Array, Int32Array, ListArray, RecordBatch, StringArray,
    StructArray, UInt64Array,
};
use bevy_parquet::batch::record_batch;
use bevy_parquet::cell::Cell;
use bevy_parquet::column::Column;
use bevy_parquet::types::ColumnType;
use bevy_parquet::value::{ScalarKind, ScalarValue};
use bevy_parquet::ParquetConfig;
use bytes::Bytes;
use parquet::arrow::arrow_reader::ParquetRecordBatchReaderBuilder;
use parquet::arrow::ArrowWriter;

fn written_and_read(batch: &RecordBatch) -> RecordBatch {
    let properties = ParquetConfig::default().writer_properties;
    let mut writer = ArrowWriter::try_new(Vec::new(), batch.schema(), Some(properties)).unwrap();
    writer.write(batch).unwrap();
    let bytes = writer.into_inner().unwrap();
    let reader = ParquetRecordBatchReaderBuilder::try_new(Bytes::from(bytes)).unwrap();
    assert_eq!(reader.metadata().num_row_groups(), 1);
    let batches: Vec<RecordBatch> = reader.build().unwrap().map(|b| b.unwrap()).collect();
    assert_eq!(batches.len(), 1);
    batches.into_iter().next().unwrap()
}

#[test]
fn scalars_come_back_from_a_file_as_they_went_in() {
    let ints: Vec<i32> = vec![100, -50, i32::MAX, 0];
    let longs: Vec<u64> = vec![0, 1, u64::MAX, 7];
    let singles: Vec<f32> = vec![1.5, -0.0, f32::MIN_POSITIVE, 1e30];
    let doubles: Vec<f64> = vec![0.1, 2.5e-300, -1.0, f64::MAX];
    let texts = vec!["Health { output: 100 }", "", "größe", "[1, 2]"];
    let columns = vec![
        Column {
            ty: ColumnType::Scalar(ScalarKind::Int32),
            cells: ints.iter().map(|v| Cell::Scalar(ScalarValue::Int32(*v))).collect(),
        },
        Column {
            ty: ColumnType::Scalar(ScalarKind::UInt64),
            cells: longs.iter().map(|v| Cell::Scalar(ScalarValue::UInt64(*v))).collect(),
        },
        Column {
            ty: ColumnType::Scalar(ScalarKind::Float32),
            cells: singles
                .iter()
                .map(|v| Cell::Scalar(ScalarValue::Float32(v.to_bits())))
                .collect(),
        },
        Column {
            ty: ColumnType::Scalar(ScalarKind::Float64),
            cells: doubles
                .iter()
                .map(|v| Cell::Scalar(ScalarValue::Float64(v.to_bits())))
                .collect(),
        },
        Column {
            ty: ColumnType::Utf8,
            cells: texts.iter().map(|v| Cell::Text(v.to_string())).collect(),
        },
    ];
    let names: Vec<String> = ["i", "l", "s", "d", "t"].iter().map(|n| n.to_string()).collect();
    let batch = record_batch(&names, &columns).unwrap().inner;
    let read = written_and_read(&batch);
    assert_eq!((read.num_rows(), read.num_columns()), (4, 5));
    assert_eq!(read.schema().fields().len(), 5);
    assert_eq!(read.column(0).as_any().downcast_ref::<Int32Array>().unwrap().values(), &ints[..]);
    assert_eq!(
        read.column(1).as_any().downcast_ref::<UInt64Array>().unwrap().values(),
        &longs[..]
    );
    let back = read.column(2).as_any().downcast_ref::<Float32Array>().unwrap();
    let bits: Vec<u32> = back.values().iter().map(|v| v.to_bits()).collect();
    assert_eq!(bits, singles.iter().map(|v| v.to_bits()).collect::<Vec<_>>());
    let back = read.column(3).as_any().downcast_ref::<Float64Array>().unwrap();
    let bits: Vec<u64> = back.values().iter().map(|v| v.to_bits()).collect();
    assert_eq!(bits, doubles.iter().map(|v| v.to_bits()).collect::<Vec<_>>());
    let back = read.column(4).as_any().downcast_ref::<StringArray>().unwrap();
    assert_eq!((0..4).map(|i| back.value(i)).collect::<Vec<_>>(), texts);
}

#[test]
fn vectors_and_lists_come_back_from_a_file() {
    let int = |v| Cell::Scalar(ScalarValue::Int32(v));
    let columns = vec![
        Column {
            ty: ColumnType::Vector3 { x: "x".into(), y: "y".into(), z: "z".into() },
            cells: vec![
                Cell::Vector3(1.0f32.to_bits(), 2.0f32.to_bits(), 3.0f32.to_bits()),
                Cell::Vector3(4.0f32.to_bits(), 5.0f32.to_bits(), 6.0f32.to_bits()),
            ],
        },
        Column {
            ty: ColumnType::List(Box::new(ColumnType::Scalar(ScalarKind::Int32))),
            cells: vec![Cell::List(vec![int(1), int(2), int(3)]), Cell::List(Vec::new())],
        },
    ];
    let names = vec!["Position".to_string(), "Scores".to_string()];
    let batch = record_batch(&names, &columns).unwrap().inner;
    let read = written_and_read(&batch);
    assert_eq!((read.num_rows(), read.num_columns()), (2, 2));
    let positions = read.column(0).as_any().downcast_ref::<StructArray>().unwrap();
    let zs = positions.column(2).as_any().downcast_ref::<Float32Array>().unwrap();
    assert_eq!(zs.values(), &[3.0f32, 6.0]);
    let scores = read.column(1).as_any().downcast_ref::<ListArray>().unwrap();
    let first = scores.value(0);
    assert_eq!(first.as_any().downcast_ref::<Int32Array>().unwrap().values(), &[1, 2, 3]);
    assert_eq!(scores.value(1).len(), 0);
}
