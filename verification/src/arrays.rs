//! Arrow arrays and record batches built from columns.
//!
//! The arrays are those of the `arrow` crate. What an array holds is named
//! by `array_cells` and `array_type`; the functions that hand data to
//! `arrow` state their results over these two names, and everything else is
//! proved from what they state.

use vstd::prelude::*;
use vstd::string::*;
use vstd::utf8::encode_utf8;
use arrow::array::{
    make_array, Array, ArrayData, BooleanArray, FixedSizeListArray, Int32Array, Int64Array,
    ListArray, PrimitiveArray, RecordBatch, StringArray, StructArray, UInt32Array, UInt64Array,
};
use arrow::buffer::{Buffer, OffsetBuffer};
use arrow::datatypes::{Float32Type, Float64Type};
use arrow::error::ArrowError;
use std::sync::Arc;
use crate::cell::CellView;
use crate::schema::FieldView;
use crate::text::texts;
use crate::types::ColumnType;
use crate::value::{ScalarKind, ScalarValue};

verus! {

/// `arrow::array::ArrayData`: one array of any type. It is carried from the
/// function that makes it to the one that takes it; nothing is read off it.
#[verifier::external_type_specification]
#[verifier::external_body]
pub struct ExArrayData(ArrayData);

/// A `RecordBatch` of `arrow`: columns of one length under a schema. The
/// batch is in `inner`, for whoever writes it out; nothing here reads it.
#[verifier::external_body]
pub struct Batch {
    pub inner: RecordBatch,
}

/// `arrow::error::ArrowError`: why a call into `arrow` failed.
#[verifier::external_type_specification]
#[verifier::external_body]
pub struct ExArrowError(ArrowError);

/// The rows of an array, each read as a cell: a string as `Text`, a number
/// or a boolean as `Scalar` (a float by its bit pattern), a struct of three
/// 32-bit floats as `Vector3`, a list as `List` of the rows it spans.
pub uninterp spec fn array_cells(a: ArrayData) -> Seq<CellView>;

/// The data type of an array, written as a column type: of a list type
/// it keeps the type of the items, of a struct type the names of the fields.
pub uninterp spec fn array_type(a: ArrayData) -> ColumnType;

/// The columns of a record batch, each as the rows of its array.
pub uninterp spec fn batch_columns(b: Batch) -> Seq<Seq<CellView>>;

/// The fields of the schema of a record batch.
pub uninterp spec fn batch_fields(b: Batch) -> Seq<FieldView>;

/// The largest number of bytes or items that an array with 32-bit offsets
/// can span.
pub open spec fn offset_limit() -> int {
    0x7fff_ffff
}

/// The cells of a sequence of strings.
pub open spec fn text_cells(values: Seq<String>) -> Seq<CellView> {
    values.map_values(|s: String| CellView::Text(s@))
}

/// The number of bytes that a sequence of texts takes in UTF-8.
pub open spec fn byte_total(parts: Seq<Seq<char>>) -> nat
    decreases parts.len(),
{
    if parts.len() == 0 {
        0
    } else {
        byte_total(parts.drop_last()) + encode_utf8(parts.last()).len()
    }
}

/// The cells of a sequence of booleans.
pub open spec fn bool_cells(values: Seq<bool>) -> Seq<CellView> {
    values.map_values(|v: bool| CellView::Scalar(ScalarValue::Bool(v)))
}

/// The cells of a sequence of signed 32-bit integers.
pub open spec fn int32_cells(values: Seq<i32>) -> Seq<CellView> {
    values.map_values(|v: i32| CellView::Scalar(ScalarValue::Int32(v)))
}

/// The cells of a sequence of signed 64-bit integers.
pub open spec fn int64_cells(values: Seq<i64>) -> Seq<CellView> {
    values.map_values(|v: i64| CellView::Scalar(ScalarValue::Int64(v)))
}

/// The cells of a sequence of unsigned 32-bit integers.
pub open spec fn uint32_cells(values: Seq<u32>) -> Seq<CellView> {
    values.map_values(|v: u32| CellView::Scalar(ScalarValue::UInt32(v)))
}

/// The cells of a sequence of unsigned 64-bit integers.
pub open spec fn uint64_cells(values: Seq<u64>) -> Seq<CellView> {
    values.map_values(|v: u64| CellView::Scalar(ScalarValue::UInt64(v)))
}

/// The cells of 32-bit floats given by their bit patterns.
pub open spec fn float32_cells(bits: Seq<u32>) -> Seq<CellView> {
    bits.map_values(|b: u32| CellView::Scalar(ScalarValue::Float32(b)))
}

/// The cells of 64-bit floats given by their bit patterns.
pub open spec fn float64_cells(bits: Seq<u64>) -> Seq<CellView> {
    bits.map_values(|b: u64| CellView::Scalar(ScalarValue::Float64(b)))
}

/// The cells of vectors given by the bit patterns of their three parts.
pub open spec fn vector3_cells(xs: Seq<u32>, ys: Seq<u32>, zs: Seq<u32>) -> Seq<CellView> {
    Seq::new(xs.len(), |i: int| CellView::Vector3(xs[i], ys[i], zs[i]))
}

/// The sum of a sequence of lengths.
pub open spec fn total(lengths: Seq<usize>) -> nat
    decreases lengths.len(),
{
    if lengths.len() == 0 {
        0
    } else {
        total(lengths.drop_last()) + lengths.last() as nat
    }
}

/// The rows of a list array: `flat` cut into consecutive runs of the given
/// lengths, each run a list. The runs are taken off the end: the last list
/// holds the last `lengths.last()` items, the one before it the items
/// before these, and so on. Where the lengths add up to the length of
/// `flat`, the first list starts at the first item.
pub open spec fn grouped(lengths: Seq<usize>, flat: Seq<CellView>) -> Seq<CellView>
    decreases lengths.len(),
{
    if lengths.len() == 0 {
        Seq::empty()
    } else {
        let cut = flat.len() - lengths.last();
        grouped(lengths.drop_last(), flat.take(cut)).push(CellView::List(flat.skip(cut)))
    }
}

/// `StringArray::from` on a vector of strings, then `into_data`: a string
/// array with one row for each string, in order. The call panics where the
/// strings take more bytes than a 32-bit offset can count.
#[verifier::external_body]
pub(crate) fn utf8_array(values: &Vec<String>) -> (r: ArrayData)
    requires
        byte_total(texts(values@)) <= offset_limit(),
    ensures
        array_cells(r) == text_cells(values@),
        array_type(r) == ColumnType::Utf8,
{
    StringArray::from(values.clone()).into_data()
}

/// `BooleanArray::from` on a vector of booleans, then `into_data`.
#[verifier::external_body]
pub(crate) fn bool_array(values: &Vec<bool>) -> (r: ArrayData)
    ensures
        array_cells(r) == bool_cells(values@),
        array_type(r) == ColumnType::Scalar(ScalarKind::Bool),
{
    BooleanArray::from(values.clone()).into_data()
}

/// `Int32Array::from` on a vector of values, then `into_data`.
#[verifier::external_body]
pub(crate) fn int32_array(values: &Vec<i32>) -> (r: ArrayData)
    ensures
        array_cells(r) == int32_cells(values@),
        array_type(r) == ColumnType::Scalar(ScalarKind::Int32),
{
    Int32Array::from(values.clone()).into_data()
}

/// `Int64Array::from` on a vector of values, then `into_data`.
#[verifier::external_body]
pub(crate) fn int64_array(values: &Vec<i64>) -> (r: ArrayData)
    ensures
        array_cells(r) == int64_cells(values@),
        array_type(r) == ColumnType::Scalar(ScalarKind::Int64),
{
    Int64Array::from(values.clone()).into_data()
}

/// `UInt32Array::from` on a vector of values, then `into_data`.
#[verifier::external_body]
pub(crate) fn uint32_array(values: &Vec<u32>) -> (r: ArrayData)
    ensures
        array_cells(r) == uint32_cells(values@),
        array_type(r) == ColumnType::Scalar(ScalarKind::UInt32),
{
    UInt32Array::from(values.clone()).into_data()
}

/// `UInt64Array::from` on a vector of values, then `into_data`.
#[verifier::external_body]
pub(crate) fn uint64_array(values: &Vec<u64>) -> (r: ArrayData)
    ensures
        array_cells(r) == uint64_cells(values@),
        array_type(r) == ColumnType::Scalar(ScalarKind::UInt64),
{
    UInt64Array::from(values.clone()).into_data()
}

/// `PrimitiveArray::new` for 32-bit floats over a buffer that holds the bit
/// patterns, then `into_data`: the array of the floats with these bits.
#[verifier::external_body]
pub(crate) fn float32_array(bits: &Vec<u32>) -> (r: ArrayData)
    ensures
        array_cells(r) == float32_cells(bits@),
        array_type(r) == ColumnType::Scalar(ScalarKind::Float32),
{
    PrimitiveArray::<Float32Type>::new(Buffer::from_vec(bits.clone()).into(), None).into_data()
}

/// `PrimitiveArray::new` for 64-bit floats over a buffer that holds the bit
/// patterns, then `into_data`: the array of the floats with these bits.
#[verifier::external_body]
pub(crate) fn float64_array(bits: &Vec<u64>) -> (r: ArrayData)
    ensures
        array_cells(r) == float64_cells(bits@),
        array_type(r) == ColumnType::Scalar(ScalarKind::Float64),
{
    PrimitiveArray::<Float64Type>::new(Buffer::from_vec(bits.clone()).into(), None).into_data()
}

/// The bit pattern of a cell that is a 32-bit float, else zero.
pub open spec fn float32_of(c: CellView) -> u32 {
    match c {
        CellView::Scalar(ScalarValue::Float32(b)) => b,
        _ => 0,
    }
}

/// The rows of a struct array of three 32-bit float arrays.
pub open spec fn struct3_cells(xs: Seq<CellView>, ys: Seq<CellView>, zs: Seq<CellView>) -> Seq<
    CellView,
> {
    Seq::new(
        xs.len(),
        |i: int| CellView::Vector3(float32_of(xs[i]), float32_of(ys[i]), float32_of(zs[i])),
    )
}

/// The fields of a batch made of `names` and `columns`: each field has the
/// name at its place, the type of the array at its place, and is nullable.
pub open spec fn fields_of(names: Seq<String>, columns: Seq<ArrayData>) -> Seq<FieldView> {
    Seq::new(
        columns.len(),
        |i: int| FieldView { name: names[i]@, data_type: array_type(columns[i]), nullable: true },
    )
}

/// The rows of each of `columns`.
pub open spec fn columns_of(columns: Seq<ArrayData>) -> Seq<Seq<CellView>> {
    columns.map_values(|a: ArrayData| array_cells(a))
}

/// There is a column, and all of `columns` have as many rows as the first.
pub open spec fn can_batch(columns: Seq<ArrayData>) -> bool {
    &&& columns.len() > 0
    &&& forall|i: int|
        0 <= i < columns.len() ==> array_cells(#[trigger] columns[i]).len() == array_cells(
            columns[0],
        ).len()
}

/// `StructArray::new` on three fields, named by `x`, `y` and `z`, nullable and
/// of the arrays' type, and on the three arrays made with `make_array`, then
/// `into_data`: row by row the three floats. The call panics where the
/// arrays differ in length.
#[verifier::external_body]
pub(crate) fn vector3_array(
    x: &String,
    y: &String,
    z: &String,
    xs: ArrayData,
    ys: ArrayData,
    zs: ArrayData,
) -> (r: ArrayData)
    requires
        array_type(xs) == ColumnType::Scalar(ScalarKind::Float32),
        array_type(ys) == ColumnType::Scalar(ScalarKind::Float32),
        array_type(zs) == ColumnType::Scalar(ScalarKind::Float32),
        array_cells(xs).len() == array_cells(ys).len(),
        array_cells(xs).len() == array_cells(zs).len(),
    ensures
        array_cells(r) == struct3_cells(array_cells(xs), array_cells(ys), array_cells(zs)),
        array_type(r) == (ColumnType::Vector3 { x: *x, y: *y, z: *z }),
{
    let fields = vec![
        arrow::datatypes::Field::new(x.as_str(), xs.data_type().clone(), true),
        arrow::datatypes::Field::new(y.as_str(), ys.data_type().clone(), true),
        arrow::datatypes::Field::new(z.as_str(), zs.data_type().clone(), true),
    ];
    let arrays = vec![make_array(xs), make_array(ys), make_array(zs)];
    StructArray::new(fields.into(), arrays, None).into_data()
}

/// `ListArray::new` on a nullable field `item` of the items' type, the
/// offsets that `OffsetBuffer::from_lengths` makes of `lengths`, and the
/// items made into an array with `make_array`, then `into_data`: row `i`
/// holds the next `lengths[i]` items. The calls panic where the lengths add
/// up to more than a 32-bit offset can count, or to more than there are
/// items.
#[verifier::external_body]
pub(crate) fn list_array(lengths: &Vec<usize>, items: ArrayData) -> (r: ArrayData)
    requires
        total(lengths@) == array_cells(items).len(),
        total(lengths@) <= offset_limit(),
    ensures
        array_cells(r) == grouped(lengths@, array_cells(items)),
        array_type(r) == ColumnType::List(Box::new(array_type(items))),
{
    let field = arrow::datatypes::Field::new("item", items.data_type().clone(), true);
    let offsets = OffsetBuffer::from_lengths(lengths.iter().copied());
    ListArray::new(Arc::new(field), offsets, make_array(items), None).into_data()
}

/// `FixedSizeListArray::try_new_with_length` on a nullable field `item` of
/// the items' type, `size`, the items made into an array with `make_array`,
/// and as many rows as `lengths` has entries, then `into_data`: row `i`
/// holds the next `size` items. The call fails where `size` does not fit 32
/// bits or the items are not `size` times the rows.
#[verifier::external_body]
pub(crate) fn fixed_list_array(size: usize, lengths: &Vec<usize>, items: ArrayData) -> (r:
    ArrayData)
    requires
        size <= offset_limit(),
        forall|i: int| 0 <= i < lengths@.len() ==> lengths@[i] == size,
        total(lengths@) == array_cells(items).len(),
    ensures
        array_cells(r) == grouped(lengths@, array_cells(items)),
        array_type(r) == ColumnType::FixedSizeList(Box::new(array_type(items)), size),
{
    let field = arrow::datatypes::Field::new("item", items.data_type().clone(), true);
    let values = make_array(items);
    let rows = lengths.len();
    FixedSizeListArray::try_new_with_length(Arc::new(field), size as i32, values, None, rows)
        .unwrap()
        .into_data()
}

/// `RecordBatch::try_from_iter_with_nullable` on the names and the columns,
/// each column made into an array with `make_array` and marked nullable. It
/// fails where there is no column and where the columns differ in length,
/// and nowhere else; the batch holds the columns in order under a schema of
/// their names and types.
#[verifier::external_body]
pub(crate) fn try_batch(names: &Vec<String>, columns: Vec<ArrayData>) -> (r: Result<
    Batch,
    ArrowError,
>)
    requires
        names@.len() == columns@.len(),
    ensures
        r.is_ok() == can_batch(columns@),
        r.is_ok() ==> batch_columns(r.unwrap()) == columns_of(columns@),
        r.is_ok() ==> batch_fields(r.unwrap()) == fields_of(names@, columns@),
{
    RecordBatch::try_from_iter_with_nullable(
        names.iter().zip(columns).map(|(n, c)| (n.as_str(), make_array(c), true)),
    ).map(|inner| Batch { inner })
}

/// `ArrowError::to_string`: the text of an error of `arrow`.
#[verifier::external_body]
pub(crate) fn arrow_error_text(e: &ArrowError) -> (r: String) {
    e.to_string()
}

} // verus!
