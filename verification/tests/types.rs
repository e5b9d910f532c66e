use bevy_parquet::cell::{cell_for, Cell};
use bevy_parquet::types::{column_type, ColumnType, FieldDescriptor, TypeDescriptor};
use bevy_parquet::value::{find_output, render, FieldValue, ScalarKind, ScalarValue, ValueView};

fn field(name: &str, ty: TypeDescriptor) -> FieldDescriptor {
    FieldDescriptor { name: name.to_string(), ty }
}

fn float32() -> TypeDescriptor {
    TypeDescriptor::Scalar(ScalarKind::Float32)
}

fn scalar(value: ScalarValue, text: &str) -> ValueView {
    ValueView::Plain { scalar: Some(value), text: text.to_string() }
}

fn plain(text: &str) -> ValueView {
    ValueView::Plain { scalar: None, text: text.to_string() }
}

fn structure(fields: Vec<(&str, ValueView)>, text: &str) -> ValueView {
    ValueView::Struct {
        fields: fields
            .into_iter()
            .map(|(name, value)| FieldValue { name: name.to_string(), value })
            .collect(),
        text: text.to_string(),
    }
}

fn list(items: Vec<ValueView>, text: &str) -> ValueView {
    ValueView::List { items, text: text.to_string() }
}

#[test]
fn a_scalar_keeps_its_width() {
    for kind in [
        ScalarKind::Bool,
        ScalarKind::Int32,
        ScalarKind::Int64,
        ScalarKind::UInt32,
        ScalarKind::UInt64,
        ScalarKind::Float32,
        ScalarKind::Float64,
    ] {
        assert_eq!(column_type(&TypeDescriptor::Scalar(kind)), ColumnType::Scalar(kind));
    }
}

#[test]
fn a_struct_of_three_floats_is_a_vector() {
    let d = TypeDescriptor::Struct {
        fields: vec![field("x", float32()), field("y", float32()), field("z", float32())],
    };
    assert_eq!(
        column_type(&d),
        ColumnType::Vector3 { x: "x".to_string(), y: "y".to_string(), z: "z".to_string() }
    );
}

#[test]
fn a_struct_of_two_or_four_floats_is_no_vector() {
    let two = TypeDescriptor::Struct { fields: vec![field("x", float32()), field("y", float32())] };
    assert_eq!(column_type(&two), ColumnType::Utf8);
    let four = TypeDescriptor::Struct {
        fields: vec![
            field("x", float32()),
            field("y", float32()),
            field("z", float32()),
            field("w", float32()),
        ],
    };
    assert_eq!(column_type(&four), ColumnType::Utf8);
    let mixed = TypeDescriptor::Struct {
        fields: vec![
            field("x", float32()),
            field("y", TypeDescriptor::Scalar(ScalarKind::Float64)),
            field("z", float32()),
        ],
    };
    assert_eq!(column_type(&mixed), ColumnType::Utf8);
}

#[test]
fn a_struct_stands_for_its_output_field() {
    let d = TypeDescriptor::Struct {
        fields: vec![
            field("label", TypeDescriptor::Other),
            field("output", TypeDescriptor::Scalar(ScalarKind::Int32)),
        ],
    };
    assert_eq!(column_type(&d), ColumnType::Scalar(ScalarKind::Int32));
    let nested = TypeDescriptor::Struct { fields: vec![field("output", d)] };
    assert_eq!(column_type(&nested), ColumnType::Scalar(ScalarKind::Int32));
}

#[test]
fn a_struct_without_output_is_a_string() {
    let d = TypeDescriptor::Struct {
        fields: vec![field("outputs", TypeDescriptor::Scalar(ScalarKind::Int32))],
    };
    assert_eq!(column_type(&d), ColumnType::Utf8);
    assert_eq!(column_type(&TypeDescriptor::Struct { fields: Vec::new() }), ColumnType::Utf8);
}

#[test]
fn enums_and_unresolved_types_are_strings() {
    assert_eq!(column_type(&TypeDescriptor::Enum), ColumnType::Utf8);
    assert_eq!(column_type(&TypeDescriptor::Unresolved), ColumnType::Utf8);
    assert_eq!(column_type(&TypeDescriptor::Other), ColumnType::Utf8);
}

#[test]
fn lists_and_arrays_wrap_the_type_of_their_items() {
    let l = TypeDescriptor::List { item: Box::new(TypeDescriptor::Scalar(ScalarKind::UInt64)) };
    assert_eq!(
        column_type(&l),
        ColumnType::List(Box::new(ColumnType::Scalar(ScalarKind::UInt64)))
    );
    let a = TypeDescriptor::Array { item: Box::new(TypeDescriptor::Enum), len: 4 };
    assert_eq!(column_type(&a), ColumnType::FixedSizeList(Box::new(ColumnType::Utf8), 4));
    let nested = TypeDescriptor::List { item: Box::new(l) };
    assert_eq!(
        column_type(&nested),
        ColumnType::List(
            Box::new(ColumnType::List(Box::new(ColumnType::Scalar(ScalarKind::UInt64))))
        )
    );
}

#[test]
fn a_column_type_can_be_copied() {
    let t = ColumnType::List(Box::new(ColumnType::Vector3 {
        x: "a".to_string(),
        y: "b".to_string(),
        z: "c".to_string(),
    }));
    assert_eq!(t.duplicate(), t);
}

#[test]
fn a_scalar_value_knows_its_kind() {
    assert_eq!(ScalarValue::Bool(true).kind(), ScalarKind::Bool);
    assert_eq!(ScalarValue::Int32(-1).kind(), ScalarKind::Int32);
    assert_eq!(ScalarValue::Int64(-1).kind(), ScalarKind::Int64);
    assert_eq!(ScalarValue::UInt32(1).kind(), ScalarKind::UInt32);
    assert_eq!(ScalarValue::UInt64(1).kind(), ScalarKind::UInt64);
    assert_eq!(ScalarValue::Float32(0).kind(), ScalarKind::Float32);
    assert_eq!(ScalarValue::Float64(0).kind(), ScalarKind::Float64);
}

#[test]
fn a_struct_renders_as_its_output_field() {
    let v = structure(
        vec![("label", plain("\"hp\"")), ("output", scalar(ScalarValue::Int32(100), "100"))],
        "Health { label: \"hp\", output: 100 }",
    );
    assert_eq!(render(&v), "100");
}

#[test]
fn a_struct_without_output_renders_whole() {
    let v = structure(vec![("x", plain("1.0"))], "Position { x: 1.0 }");
    assert_eq!(render(&v), "Position { x: 1.0 }");
}

#[test]
fn the_first_output_field_is_found() {
    let v = structure(vec![("a", plain("1")), ("output", plain("2")), ("output", plain("3"))], "S");
    match &v {
        ValueView::Struct { fields, .. } => assert_eq!(find_output(fields), Some(1)),
        _ => unreachable!(),
    }
    assert_eq!(render(&v), "2");
    assert_eq!(find_output(&Vec::new()), None);
}

#[test]
fn a_plain_value_renders_as_its_text() {
    assert_eq!(render(&plain("\"abc\"")), "\"abc\"");
    assert_eq!(render(&scalar(ScalarValue::Bool(true), "true")), "true");
    assert_eq!(render(&ValueView::Other { text: "Some(1)".to_string() }), "Some(1)");
}

#[test]
fn a_tuple_renders_as_its_first_field() {
    let v = ValueView::Tuple { first: Box::new(plain("7")), text: "Wrapper(7, 8)".to_string() };
    assert_eq!(render(&v), "7");
}

#[test]
fn a_list_renders_its_items_in_brackets() {
    let v = list(vec![plain("1"), plain("2"), plain("3")], "[1, 2, 3]");
    assert_eq!(render(&v), "[1, 2, 3]");
    assert_eq!(render(&list(vec![plain("1")], "ignored")), "[1]");
    assert_eq!(render(&list(Vec::new(), "ignored")), "[]");
}

#[test]
fn a_list_renders_its_items_whole() {
    let item = structure(vec![("output", plain("1"))], "S { output: 1 }");
    assert_eq!(render(&list(vec![item], "")), "[S { output: 1 }]");
}

#[test]
fn the_text_of_a_value_is_its_rendering_as_a_whole() {
    assert_eq!(structure(Vec::new(), "Unit").text(), "Unit");
    assert_eq!(list(Vec::new(), "[]").text(), "[]");
    assert_eq!(plain("x").text(), "x");
}

#[test]
fn a_string_column_takes_any_value() {
    let v = structure(vec![("output", scalar(ScalarValue::Int32(5), "5"))], "S");
    assert_eq!(cell_for(&ColumnType::Utf8, &v), Some(Cell::Text("5".to_string())));
    assert_eq!(
        cell_for(&ColumnType::Utf8, &ValueView::Other { text: "A".to_string() }),
        Some(Cell::Text("A".to_string()))
    );
}

#[test]
fn a_scalar_column_takes_scalars_of_its_kind() {
    let ty = ColumnType::Scalar(ScalarKind::Int32);
    assert_eq!(
        cell_for(&ty, &scalar(ScalarValue::Int32(-3), "-3")),
        Some(Cell::Scalar(ScalarValue::Int32(-3)))
    );
    assert_eq!(cell_for(&ty, &scalar(ScalarValue::Int64(-3), "-3")), None);
    assert_eq!(cell_for(&ty, &plain("-3")), None);
    assert_eq!(cell_for(&ty, &ValueView::Other { text: "-3".to_string() }), None);
    assert_eq!(cell_for(&ty, &list(Vec::new(), "")), None);
}

#[test]
fn a_scalar_column_reads_through_output_fields() {
    let ty = ColumnType::Scalar(ScalarKind::UInt64);
    let inner = structure(vec![("output", scalar(ScalarValue::UInt64(9), "9"))], "I");
    let outer = structure(vec![("other", plain("x")), ("output", inner)], "O");
    assert_eq!(cell_for(&ty, &outer), Some(Cell::Scalar(ScalarValue::UInt64(9))));
    assert_eq!(cell_for(&ty, &structure(vec![("other", plain("x"))], "O")), None);
}

#[test]
fn a_vector_column_takes_three_floats() {
    let ty = ColumnType::Vector3 { x: "x".to_string(), y: "y".to_string(), z: "z".to_string() };
    let v = structure(
        vec![
            ("x", scalar(ScalarValue::Float32(1.0f32.to_bits()), "1.0")),
            ("y", scalar(ScalarValue::Float32(2.0f32.to_bits()), "2.0")),
            ("z", scalar(ScalarValue::Float32(3.0f32.to_bits()), "3.0")),
        ],
        "Vec3(1.0, 2.0, 3.0)",
    );
    assert_eq!(
        cell_for(&ty, &v),
        Some(Cell::Vector3(1.0f32.to_bits(), 2.0f32.to_bits(), 3.0f32.to_bits()))
    );
    let wrapped = structure(vec![("output", v)], "W");
    assert_eq!(
        cell_for(&ty, &wrapped),
        Some(Cell::Vector3(1.0f32.to_bits(), 2.0f32.to_bits(), 3.0f32.to_bits()))
    );
    let short = structure(vec![("x", scalar(ScalarValue::Float32(0), "0.0"))], "S");
    assert_eq!(cell_for(&ty, &short), None);
}

#[test]
fn a_list_column_takes_lists_of_fitting_items() {
    let ty = ColumnType::List(Box::new(ColumnType::Scalar(ScalarKind::Int32)));
    let v = list(vec![scalar(ScalarValue::Int32(1), "1"), scalar(ScalarValue::Int32(2), "2")], "");
    assert_eq!(
        cell_for(&ty, &v),
        Some(Cell::List(vec![
            Cell::Scalar(ScalarValue::Int32(1)),
            Cell::Scalar(ScalarValue::Int32(2))
        ]))
    );
    assert_eq!(cell_for(&ty, &list(Vec::new(), "")), Some(Cell::List(Vec::new())));
    let bad = list(vec![scalar(ScalarValue::Int32(1), "1"), plain("x")], "");
    assert_eq!(cell_for(&ty, &bad), None);
    assert_eq!(cell_for(&ty, &scalar(ScalarValue::Int32(1), "1")), None);
}

#[test]
fn a_list_of_strings_renders_each_item() {
    let ty = ColumnType::List(Box::new(ColumnType::Utf8));
    let v = list(vec![plain("a"), list(vec![plain("b")], "")], "");
    assert_eq!(
        cell_for(&ty, &v),
        Some(Cell::List(vec![Cell::Text("a".to_string()), Cell::Text("[b]".to_string())]))
    );
}

#[test]
fn a_fixed_size_list_column_asks_for_its_length() {
    let ty = ColumnType::FixedSizeList(Box::new(ColumnType::Scalar(ScalarKind::Bool)), 2);
    let two = list(
        vec![scalar(ScalarValue::Bool(true), "true"), scalar(ScalarValue::Bool(false), "false")],
        "",
    );
    assert_eq!(
        cell_for(&ty, &two),
        Some(Cell::List(vec![
            Cell::Scalar(ScalarValue::Bool(true)),
            Cell::Scalar(ScalarValue::Bool(false))
        ]))
    );
    let one = list(vec![scalar(ScalarValue::Bool(true), "true")], "");
    assert_eq!(cell_for(&ty, &one), None);
}
