//! From the columns of a cluster to one record batch.

use vstd::prelude::*;
use vstd::string::*;
use arrow::array::ArrayData;
use crate::arrays::{
    arrow_error_text, array_cells, array_type, batch_columns, batch_fields, bool_array,
    bool_cells, byte_total, can_batch, columns_of, fields_of, fixed_list_array, float32_array,
    float32_cells, float64_array, float64_cells, grouped, int32_array, int32_cells, int64_array,
    int64_cells, list_array, offset_limit, struct3_cells, text_cells, total, try_batch,
    uint32_array, uint32_cells, uint64_array, uint64_cells, utf8_array, vector3_array,
    vector3_cells, Batch,
};
use crate::cell::{cell_views, conforms, Cell, CellView};
use crate::column::Column;
use crate::schema::FieldView;
use crate::error::ParquetError;
use crate::text::texts;
use crate::types::ColumnType;
use crate::value::{ScalarKind, ScalarValue};

verus! {

/// The contents of a sequence of borrowed cells.
pub open spec fn views(cells: Seq<&Cell>) -> Seq<CellView> {
    cells.map_values(|c: &Cell| (*c)@)
}

/// Every cell has the shape that `ty` asks for.
pub open spec fn all_conform(cells: Seq<CellView>, ty: ColumnType) -> bool {
    forall|i: int| 0 <= i < cells.len() ==> conforms(#[trigger] cells[i], ty)
}

/// The text of a cell that is a string, else the empty text.
pub open spec fn text_of(c: CellView) -> Seq<char> {
    match c {
        CellView::Text(s) => s,
        _ => Seq::empty(),
    }
}

/// The texts of a sequence of cells.
pub open spec fn cell_texts(cells: Seq<CellView>) -> Seq<Seq<char>> {
    cells.map_values(|c: CellView| text_of(c))
}

/// The items of a cell that is a list, else none.
pub open spec fn items_of(c: CellView) -> Seq<CellView> {
    match c {
        CellView::List(items) => items,
        _ => Seq::empty(),
    }
}

/// The items of the lists among `cells`, one list after the other.
pub open spec fn flattened(cells: Seq<CellView>) -> Seq<CellView>
    decreases cells.len(),
{
    if cells.len() == 0 {
        Seq::empty()
    } else {
        flattened(cells.drop_last()) + items_of(cells.last())
    }
}

/// Whether a column of type `ty` can be held in arrays with 32-bit
/// offsets: its strings take no more bytes, and its lists no more items,
/// than such an offset can count, at every depth.
pub open spec fn fits(ty: ColumnType, cells: Seq<CellView>) -> bool
    decreases ty,
{
    match ty {
        ColumnType::Utf8 => byte_total(cell_texts(cells)) <= offset_limit(),
        ColumnType::List(item) => flattened(cells).len() <= offset_limit() && fits(
            *item,
            flattened(cells),
        ),
        ColumnType::FixedSizeList(item, size) => size <= offset_limit() && fits(
            *item,
            flattened(cells),
        ),
        _ => true,
    }
}

/// The byte total of a longer sequence is no smaller.
proof fn lemma_byte_total_grows(parts: Seq<Seq<char>>, n: int)
    requires
        0 <= n <= parts.len(),
    ensures
        byte_total(parts.take(n)) <= byte_total(parts),
    decreases parts.len() - n,
{
    if n < parts.len() {
        lemma_byte_total_grows(parts, n + 1);
        assert(parts.take(n + 1).drop_last() =~= parts.take(n));
    } else {
        assert(parts.take(n) =~= parts);
    }
}

/// Whether the strings take no more bytes than a 32-bit offset can count.
fn bytes_fit(values: &Vec<String>) -> (r: bool)
    ensures
        r == (byte_total(texts(values@)) <= offset_limit()),
{
    let mut sum: usize = 0;
    let mut i: usize = 0;
    proof {
        assert(texts(values@).take(0) =~= Seq::<Seq<char>>::empty());
    }
    while i < values.len()
        invariant
            i <= values.len(),
            sum == byte_total(texts(values@).take(i as int)),
            sum <= offset_limit(),
        decreases values.len() - i,
    {
        proof {
            assert(texts(values@).take(i + 1).drop_last() =~= texts(values@).take(i as int));
            assert(texts(values@).take(i + 1).last() == values@[i as int]@);
        }
        let n = values[i].as_str().as_bytes().len();
        if n > 0x7fff_ffff || sum > 0x7fff_ffff - n {
            proof {
                lemma_byte_total_grows(texts(values@), i + 1);
            }
            return false;
        }
        sum = sum + n;
        i = i + 1;
    }
    proof {
        assert(texts(values@).take(values.len() as int) =~= texts(values@));
    }
    true
}

/// The strings of a column of strings, or `None` where a cell is no string.
fn text_values(cells: &Vec<&Cell>) -> (r: Option<Vec<String>>)
    ensures
        match r {
            Some(v) => text_cells(v@) == views(cells@) && texts(v@) == cell_texts(views(cells@)),
            None => !all_conform(views(cells@), ColumnType::Utf8),
        },
{
    let mut out: Vec<String> = Vec::new();
    let mut i: usize = 0;
    while i < cells.len()
        invariant
            i <= cells.len(),
            out.len() == i,
            forall|k: int| 0 <= k < i ==> (*cells@[k])@ == CellView::Text(#[trigger] out@[k]@),
        decreases cells.len() - i,
    {
        match cells[i] {
            Cell::Text(s) => {
                out.push(s.clone());
            },
            _ => {
                proof {
                    assert(!conforms(views(cells@)[i as int], ColumnType::Utf8));
                }
                return None;
            },
        }
        i = i + 1;
    }
    proof {
        assert(text_cells(out@) =~= views(cells@));
        assert(texts(out@) =~= cell_texts(views(cells@)));
    }
    Some(out)
}

/// The values of a column of booleans, or `None` where a cell is none.
fn bool_values(cells: &Vec<&Cell>) -> (r: Option<Vec<bool>>)
    ensures
        match r {
            Some(v) => bool_cells(v@) == views(cells@),
            None => !all_conform(views(cells@), ColumnType::Scalar(ScalarKind::Bool)),
        },
{
    let mut out: Vec<bool> = Vec::new();
    let mut i: usize = 0;
    while i < cells.len()
        invariant
            i <= cells.len(),
            out.len() == i,
            forall|k: int|
                0 <= k < i ==> (*cells@[k])@ == CellView::Scalar(
                    ScalarValue::Bool(#[trigger] out@[k]),
                ),
        decreases cells.len() - i,
    {
        match cells[i] {
            Cell::Scalar(ScalarValue::Bool(v)) => {
                out.push(*v);
            },
            _ => {
                proof {
                    assert(!conforms(
                        views(cells@)[i as int],
                        ColumnType::Scalar(ScalarKind::Bool),
                    ));
                }
                return None;
            },
        }
        i = i + 1;
    }
    proof {
        assert(bool_cells(out@) =~= views(cells@));
    }
    Some(out)
}

/// The values of a column of signed 32-bit integers, or `None` where a cell
/// is none.
fn int32_values(cells: &Vec<&Cell>) -> (r: Option<Vec<i32>>)
    ensures
        match r {
            Some(v) => int32_cells(v@) == views(cells@),
            None => !all_conform(views(cells@), ColumnType::Scalar(ScalarKind::Int32)),
        },
{
    let mut out: Vec<i32> = Vec::new();
    let mut i: usize = 0;
    while i < cells.len()
        invariant
            i <= cells.len(),
            out.len() == i,
            forall|k: int|
                0 <= k < i ==> (*cells@[k])@ == CellView::Scalar(
                    ScalarValue::Int32(#[trigger] out@[k]),
                ),
        decreases cells.len() - i,
    {
        match cells[i] {
            Cell::Scalar(ScalarValue::Int32(v)) => {
                out.push(*v);
            },
            _ => {
                proof {
                    assert(!conforms(
                        views(cells@)[i as int],
                        ColumnType::Scalar(ScalarKind::Int32),
                    ));
                }
                return None;
            },
        }
        i = i + 1;
    }
    proof {
        assert(int32_cells(out@) =~= views(cells@));
    }
    Some(out)
}

/// The values of a column of signed 64-bit integers, or `None` where a cell
/// is none.
fn int64_values(cells: &Vec<&Cell>) -> (r: Option<Vec<i64>>)
    ensures
        match r {
            Some(v) => int64_cells(v@) == views(cells@),
            None => !all_conform(views(cells@), ColumnType::Scalar(ScalarKind::Int64)),
        },
{
    let mut out: Vec<i64> = Vec::new();
    let mut i: usize = 0;
    while i < cells.len()
        invariant
            i <= cells.len(),
            out.len() == i,
            forall|k: int|
                0 <= k < i ==> (*cells@[k])@ == CellView::Scalar(
                    ScalarValue::Int64(#[trigger] out@[k]),
                ),
        decreases cells.len() - i,
    {
        match cells[i] {
            Cell::Scalar(ScalarValue::Int64(v)) => {
                out.push(*v);
            },
            _ => {
                proof {
                    assert(!conforms(
                        views(cells@)[i as int],
                        ColumnType::Scalar(ScalarKind::Int64),
                    ));
                }
                return None;
            },
        }
        i = i + 1;
    }
    proof {
        assert(int64_cells(out@) =~= views(cells@));
    }
    Some(out)
}

/// The values of a column of unsigned 32-bit integers, or `None` where a
/// cell is none.
fn uint32_values(cells: &Vec<&Cell>) -> (r: Option<Vec<u32>>)
    ensures
        match r {
            Some(v) => uint32_cells(v@) == views(cells@),
            None => !all_conform(views(cells@), ColumnType::Scalar(ScalarKind::UInt32)),
        },
{
    let mut out: Vec<u32> = Vec::new();
    let mut i: usize = 0;
    while i < cells.len()
        invariant
            i <= cells.len(),
            out.len() == i,
            forall|k: int|
                0 <= k < i ==> (*cells@[k])@ == CellView::Scalar(
                    ScalarValue::UInt32(#[trigger] out@[k]),
                ),
        decreases cells.len() - i,
    {
        match cells[i] {
            Cell::Scalar(ScalarValue::UInt32(v)) => {
                out.push(*v);
            },
            _ => {
                proof {
                    assert(!conforms(
                        views(cells@)[i as int],
                        ColumnType::Scalar(ScalarKind::UInt32),
                    ));
                }
                return None;
            },
        }
        i = i + 1;
    }
    proof {
        assert(uint32_cells(out@) =~= views(cells@));
    }
    Some(out)
}

/// The values of a column of unsigned 64-bit integers, or `None` where a
/// cell is none.
fn uint64_values(cells: &Vec<&Cell>) -> (r: Option<Vec<u64>>)
    ensures
        match r {
            Some(v) => uint64_cells(v@) == views(cells@),
            None => !all_conform(views(cells@), ColumnType::Scalar(ScalarKind::UInt64)),
        },
{
    let mut out: Vec<u64> = Vec::new();
    let mut i: usize = 0;
    while i < cells.len()
        invariant
            i <= cells.len(),
            out.len() == i,
            forall|k: int|
                0 <= k < i ==> (*cells@[k])@ == CellView::Scalar(
                    ScalarValue::UInt64(#[trigger] out@[k]),
                ),
        decreases cells.len() - i,
    {
        match cells[i] {
            Cell::Scalar(ScalarValue::UInt64(v)) => {
                out.push(*v);
            },
            _ => {
                proof {
                    assert(!conforms(
                        views(cells@)[i as int],
                        ColumnType::Scalar(ScalarKind::UInt64),
                    ));
                }
                return None;
            },
        }
        i = i + 1;
    }
    proof {
        assert(uint64_cells(out@) =~= views(cells@));
    }
    Some(out)
}

/// The bit patterns of a column of 32-bit floats, or `None` where a cell is
/// none.
fn float32_values(cells: &Vec<&Cell>) -> (r: Option<Vec<u32>>)
    ensures
        match r {
            Some(v) => float32_cells(v@) == views(cells@),
            None => !all_conform(views(cells@), ColumnType::Scalar(ScalarKind::Float32)),
        },
{
    let mut out: Vec<u32> = Vec::new();
    let mut i: usize = 0;
    while i < cells.len()
        invariant
            i <= cells.len(),
            out.len() == i,
            forall|k: int|
                0 <= k < i ==> (*cells@[k])@ == CellView::Scalar(
                    ScalarValue::Float32(#[trigger] out@[k]),
                ),
        decreases cells.len() - i,
    {
        match cells[i] {
            Cell::Scalar(ScalarValue::Float32(v)) => {
                out.push(*v);
            },
            _ => {
                proof {
                    assert(!conforms(
                        views(cells@)[i as int],
                        ColumnType::Scalar(ScalarKind::Float32),
                    ));
                }
                return None;
            },
        }
        i = i + 1;
    }
    proof {
        assert(float32_cells(out@) =~= views(cells@));
    }
    Some(out)
}

/// The bit patterns of a column of 64-bit floats, or `None` where a cell is
/// none.
fn float64_values(cells: &Vec<&Cell>) -> (r: Option<Vec<u64>>)
    ensures
        match r {
            Some(v) => float64_cells(v@) == views(cells@),
            None => !all_conform(views(cells@), ColumnType::Scalar(ScalarKind::Float64)),
        },
{
    let mut out: Vec<u64> = Vec::new();
    let mut i: usize = 0;
    while i < cells.len()
        invariant
            i <= cells.len(),
            out.len() == i,
            forall|k: int|
                0 <= k < i ==> (*cells@[k])@ == CellView::Scalar(
                    ScalarValue::Float64(#[trigger] out@[k]),
                ),
        decreases cells.len() - i,
    {
        match cells[i] {
            Cell::Scalar(ScalarValue::Float64(v)) => {
                out.push(*v);
            },
            _ => {
                proof {
                    assert(!conforms(
                        views(cells@)[i as int],
                        ColumnType::Scalar(ScalarKind::Float64),
                    ));
                }
                return None;
            },
        }
        i = i + 1;
    }
    proof {
        assert(float64_cells(out@) =~= views(cells@));
    }
    Some(out)
}

/// The three parts of a column of vectors, or `None` where a cell is no
/// vector.
fn vector3_values(cells: &Vec<&Cell>) -> (r: Option<(Vec<u32>, Vec<u32>, Vec<u32>)>)
    ensures
        match r {
            Some(v) => vector3_cells(v.0@, v.1@, v.2@) == views(cells@) && v.0@.len()
                == cells@.len() && v.1@.len() == cells@.len() && v.2@.len() == cells@.len(),
            None => exists|i: int| 0 <= i < cells@.len() && !(views(cells@)[i] is Vector3),
        },
{
    let mut xs: Vec<u32> = Vec::new();
    let mut ys: Vec<u32> = Vec::new();
    let mut zs: Vec<u32> = Vec::new();
    let mut i: usize = 0;
    while i < cells.len()
        invariant
            i <= cells.len(),
            xs.len() == i,
            ys.len() == i,
            zs.len() == i,
            forall|k: int|
                0 <= k < i ==> (*cells@[k])@ == CellView::Vector3(
                    #[trigger] xs@[k],
                    ys@[k],
                    zs@[k],
                ),
        decreases cells.len() - i,
    {
        match cells[i] {
            Cell::Vector3(a, b, c) => {
                xs.push(*a);
                ys.push(*b);
                zs.push(*c);
            },
            _ => {
                proof {
                    assert(!(views(cells@)[i as int] is Vector3));
                }
                return None;
            },
        }
        i = i + 1;
    }
    proof {
        assert(vector3_cells(xs@, ys@, zs@) =~= views(cells@));
    }
    Some((xs, ys, zs))
}

/// Every item of every list among `cells` has the shape that `item` asks
/// for.
pub open spec fn rows_conform(cells: Seq<CellView>, item: ColumnType) -> bool {
    forall|i: int, k: int|
        0 <= i < cells.len() && 0 <= k < items_of(cells[i]).len() ==> conforms(
            #[trigger] items_of(cells[i])[k],
            item,
        )
}

/// The items of all lists conform exactly where the items of each do.
proof fn lemma_flattened_conform(cells: Seq<CellView>, item: ColumnType)
    ensures
        rows_conform(cells, item) <==> all_conform(flattened(cells), item),
    decreases cells.len(),
{
    if cells.len() > 0 {
        let front = cells.drop_last();
        let tail = items_of(cells.last());
        lemma_flattened_conform(front, item);
        let flat = flattened(cells);
        let before = flattened(front);
        if rows_conform(cells, item) {
            assert forall|i: int, k: int|
                0 <= i < front.len() && 0 <= k < items_of(front[i]).len() implies conforms(
                #[trigger] items_of(front[i])[k],
                item,
            ) by {
                assert(front[i] == cells[i]);
            }
            assert forall|j: int| 0 <= j < flat.len() implies conforms(
                #[trigger] flat[j],
                item,
            ) by {
                if j < before.len() {
                    assert(flat[j] == before[j]);
                } else {
                    assert(flat[j] == items_of(cells[cells.len() - 1])[j - before.len()]);
                }
            }
        }
        if all_conform(flat, item) {
            assert forall|j: int| 0 <= j < before.len() implies conforms(
                #[trigger] before[j],
                item,
            ) by {
                assert(flat[j] == before[j]);
            }
            assert forall|i: int, k: int|
                0 <= i < cells.len() && 0 <= k < items_of(cells[i]).len() implies conforms(
                #[trigger] items_of(cells[i])[k],
                item,
            ) by {
                if i < front.len() {
                    assert(front[i] == cells[i]);
                } else {
                    assert(flat[before.len() + k] == tail[k]);
                }
            }
        }
    }
}

/// The lengths and the items of a column of lists, or `None` where a cell
/// is no list.
fn flatten<'a>(cells: &Vec<&'a Cell>) -> (r: Option<(Vec<usize>, Vec<&'a Cell>)>)
    ensures
        match r {
            Some(p) => {
                &&& p.0@.len() == cells@.len()
                &&& forall|i: int|
                    0 <= i < cells@.len() ==> (#[trigger] views(cells@)[i]) is List && p.0@[i]
                        == items_of(views(cells@)[i]).len()
                &&& views(p.1@) == flattened(views(cells@))
                &&& total(p.0@) == p.1@.len()
                &&& grouped(p.0@, views(p.1@)) == views(cells@)
            },
            None => exists|i: int| 0 <= i < cells@.len() && !(views(cells@)[i] is List),
        },
{
    let ghost all = views(cells@);
    let mut lengths: Vec<usize> = Vec::new();
    let mut flat: Vec<&'a Cell> = Vec::new();
    let mut i: usize = 0;
    proof {
        assert(all.take(0) =~= Seq::<CellView>::empty());
        assert(views(flat@) =~= Seq::<CellView>::empty());
    }
    while i < cells.len()
        invariant
            i <= cells.len(),
            all == views(cells@),
            lengths.len() == i,
            forall|k: int|
                0 <= k < i ==> (#[trigger] all[k]) is List && lengths@[k] == items_of(all[k]).len(),
            views(flat@) == flattened(all.take(i as int)),
            total(lengths@) == flat@.len(),
            grouped(lengths@, views(flat@)) == all.take(i as int),
        decreases cells.len() - i,
    {
        match cells[i] {
            Cell::List(items) => {
                let ghost row = items_of(all[i as int]);
                let ghost flat_before = flat@;
                let ghost lengths_before = lengths@;
                let mut k: usize = 0;
                proof {
                    let whole_cell = *cells@[i as int];
                    assert(all[i as int] == whole_cell@);
                    assert(whole_cell == Cell::List(*items));
                    crate::cell::lemma_list_view(*items);
                    assert(row.len() == items@.len());
                    assert(row.take(0) =~= Seq::<CellView>::empty());
                    assert(views(flat@) + row.take(0) =~= views(flat@));
                }
                while k < items.len()
                    invariant
                        k <= items.len(),
                        row.len() == items.len(),
                        forall|j: int| 0 <= j < items@.len() ==> row[j] == (#[trigger] items@[j])@,
                        views(flat@) == views(flat_before) + row.take(k as int),
                        flat@.len() == flat_before.len() + k,
                    decreases items.len() - k,
                {
                    let ghost now = flat@;
                    flat.push(&items[k]);
                    proof {
                        assert(views(flat@) =~= views(now).push(row[k as int]));
                        assert(views(flat_before) + row.take(k + 1) =~= (views(flat_before)
                            + row.take(k as int)).push(row[k as int]));
                    }
                    k = k + 1;
                }
                lengths.push(items.len());
                proof {
                    assert(row.take(items.len() as int) =~= row);
                    assert(all.take(i + 1).drop_last() =~= all.take(i as int));
                    assert(all.take(i + 1).last() == all[i as int]);
                    assert(lengths@.drop_last() =~= lengths_before);
                    let whole = views(flat@);
                    let cut = whole.len() - items.len();
                    assert(whole.take(cut) =~= views(flat_before));
                    assert(whole.skip(cut) =~= row);
                    assert(all[i as int] == CellView::List(row));
                    assert(all.take(i + 1) =~= all.take(i as int).push(all[i as int]));
                }
            },
            _ => {
                proof {
                    assert(!(all[i as int] is List));
                }
                return None;
            },
        }
        i = i + 1;
    }
    proof {
        assert(all.take(cells.len() as int) =~= all);
    }
    Some((lengths, flat))
}

/// Whether every length is `size`.
fn all_equal(lengths: &Vec<usize>, size: usize) -> (r: bool)
    ensures
        r == forall|i: int| 0 <= i < lengths@.len() ==> lengths@[i] == size,
{
    let mut i: usize = 0;
    while i < lengths.len()
        invariant
            i <= lengths.len(),
            forall|k: int| 0 <= k < i ==> lengths@[k] == size,
        decreases lengths.len() - i,
    {
        if lengths[i] != size {
            return false;
        }
        i = i + 1;
    }
    true
}

/// The error of a cell that does not have the shape of its column.
fn shape_error() -> (e: ParquetError)
    ensures
        e matches ParquetError::ParquetWrite(m) && m@ == shape_error_text(),
{
    ParquetError::ParquetWrite(String::from_str("a cell does not match the type of its column"))
}

/// The error of a column that 32-bit offsets cannot span.
fn size_error() -> (e: ParquetError)
    ensures
        e matches ParquetError::ParquetWrite(m) && m@ == size_error_text(),
{
    ParquetError::ParquetWrite(String::from_str("a column is too large for 32-bit offsets"))
}

/// What a write error says of a cell that does not have the shape of its
/// column.
pub open spec fn shape_error_text() -> Seq<char> {
    "a cell does not match the type of its column"@
}

/// What a write error says of a column that 32-bit offsets cannot span.
pub open spec fn size_error_text() -> Seq<char> {
    "a column is too large for 32-bit offsets"@
}

/// Builds the array of a column of type `ty` from its cells. Fails, with a
/// write error, exactly where a cell does not have the shape that `ty` asks
/// for or the column is too large for 32-bit offsets.
pub fn cells_array(ty: &ColumnType, cells: &Vec<&Cell>) -> (r: Result<ArrayData, ParquetError>)
    ensures
        match r {
            Ok(a) => {
                &&& all_conform(views(cells@), *ty)
                &&& fits(*ty, views(cells@))
                &&& array_cells(a) == views(cells@)
                &&& array_type(a) == *ty
            },
            Err(e) => e is ParquetWrite && !(all_conform(views(cells@), *ty) && fits(
                *ty,
                views(cells@),
            )),
        },
    decreases ty,
{
    let ghost all = views(cells@);
    match ty {
        ColumnType::Utf8 => match text_values(cells) {
            Some(values) => {
                if !bytes_fit(&values) {
                    return Err(size_error());
                }
                Ok(utf8_array(&values))
            },
            None => Err(shape_error()),
        },
        ColumnType::Scalar(ScalarKind::Bool) => match bool_values(cells) {
            Some(values) => Ok(bool_array(&values)),
            None => Err(shape_error()),
        },
        ColumnType::Scalar(ScalarKind::Int32) => match int32_values(cells) {
            Some(values) => Ok(int32_array(&values)),
            None => Err(shape_error()),
        },
        ColumnType::Scalar(ScalarKind::Int64) => match int64_values(cells) {
            Some(values) => Ok(int64_array(&values)),
            None => Err(shape_error()),
        },
        ColumnType::Scalar(ScalarKind::UInt32) => match uint32_values(cells) {
            Some(values) => Ok(uint32_array(&values)),
            None => Err(shape_error()),
        },
        ColumnType::Scalar(ScalarKind::UInt64) => match uint64_values(cells) {
            Some(values) => Ok(uint64_array(&values)),
            None => Err(shape_error()),
        },
        ColumnType::Scalar(ScalarKind::Float32) => match float32_values(cells) {
            Some(values) => Ok(float32_array(&values)),
            None => Err(shape_error()),
        },
        ColumnType::Scalar(ScalarKind::Float64) => match float64_values(cells) {
            Some(values) => Ok(float64_array(&values)),
            None => Err(shape_error()),
        },
        ColumnType::Vector3 { x, y, z } => match vector3_values(cells) {
            Some(parts) => {
                let xs = float32_array(&parts.0);
                let ys = float32_array(&parts.1);
                let zs = float32_array(&parts.2);
                proof {
                    assert(struct3_cells(array_cells(xs), array_cells(ys), array_cells(zs))
                        =~= vector3_cells(parts.0@, parts.1@, parts.2@));
                }
                Ok(vector3_array(x, y, z, xs, ys, zs))
            },
            None => {
                proof {
                    let i = choose|i: int| 0 <= i < cells@.len() && !(all[i] is Vector3);
                    assert(!conforms(all[i], *ty));
                }
                Err(shape_error())
            },
        },
        ColumnType::List(item) => match flatten(cells) {
            Some(parts) => {
                proof {
                    lemma_flattened_conform(all, **item);
                    lemma_rows(all, *ty, **item, 0);
                }
                if parts.1.len() > 0x7fff_ffff {
                    return Err(size_error());
                }
                match cells_array(item, &parts.1) {
                    Ok(items) => Ok(list_array(&parts.0, items)),
                    Err(e) => Err(e),
                }
            },
            None => {
                proof {
                    let i = choose|i: int| 0 <= i < cells@.len() && !(all[i] is List);
                    assert(!conforms(all[i], *ty));
                }
                Err(shape_error())
            },
        },
        ColumnType::FixedSizeList(item, size) => match flatten(cells) {
            Some(parts) => {
                proof {
                    lemma_flattened_conform(all, **item);
                    lemma_rows(all, *ty, **item, *size);
                }
                if !all_equal(&parts.0, *size) {
                    proof {
                        let i = choose|i: int| 0 <= i < parts.0@.len() && parts.0@[i] != *size;
                        assert(all[i] is List);
                        assert(!conforms(all[i], *ty));
                    }
                    return Err(shape_error());
                }
                if *size > 0x7fff_ffff {
                    return Err(size_error());
                }
                match cells_array(item, &parts.1) {
                    Ok(items) => Ok(fixed_list_array(*size, &parts.0, items)),
                    Err(e) => Err(e),
                }
            },
            None => {
                proof {
                    let i = choose|i: int| 0 <= i < cells@.len() && !(all[i] is List);
                    assert(!conforms(all[i], *ty));
                }
                Err(shape_error())
            },
        },
    }
}

/// For cells that are all lists, the cells conform to a list type exactly
/// where the items of each conform to the item type and, for a list of
/// fixed size, each list has that size.
proof fn lemma_rows(cells: Seq<CellView>, ty: ColumnType, item: ColumnType, fixed: usize)
    requires
        forall|i: int| 0 <= i < cells.len() ==> (#[trigger] cells[i]) is List,
        ty == ColumnType::List(Box::new(item)) || ty == ColumnType::FixedSizeList(
            Box::new(item),
            fixed,
        ),
    ensures
        ty is List ==> (all_conform(cells, ty) <==> rows_conform(cells, item)),
        ty matches ColumnType::FixedSizeList(_, size) ==> (all_conform(cells, ty) <==> rows_conform(
            cells,
            item,
        ) && forall|i: int| 0 <= i < cells.len() ==> items_of(#[trigger] cells[i]).len() == size),
{
    if all_conform(cells, ty) {
        assert forall|i: int, k: int|
            0 <= i < cells.len() && 0 <= k < items_of(cells[i]).len() implies conforms(
            #[trigger] items_of(cells[i])[k],
            item,
        ) by {
            assert(conforms(cells[i], ty));
        }
        if let ColumnType::FixedSizeList(_, size) = ty {
            assert forall|i: int| 0 <= i < cells.len() implies items_of(#[trigger] cells[i]).len()
                == size by {
                assert(conforms(cells[i], ty));
            }
        }
    }
    if rows_conform(cells, item) {
        if ty is List {
            assert forall|i: int| 0 <= i < cells.len() implies conforms(
                #[trigger] cells[i],
                ty,
            ) by {
                assert(cells[i] is List);
                assert forall|k: int| 0 <= k < items_of(cells[i]).len() implies conforms(
                    #[trigger] items_of(cells[i])[k],
                    item,
                ) by {}
            }
        }
        if let ColumnType::FixedSizeList(_, size) = ty {
            if forall|i: int| 0 <= i < cells.len() ==> items_of(#[trigger] cells[i]).len() == size {
                assert forall|i: int| 0 <= i < cells.len() implies conforms(
                    #[trigger] cells[i],
                    ty,
                ) by {
                    assert(cells[i] is List);
                    assert(items_of(cells[i]).len() == size);
                    assert forall|k: int| 0 <= k < items_of(cells[i]).len() implies conforms(
                        #[trigger] items_of(cells[i])[k],
                        item,
                    ) by {}
                }
            }
        }
    }
}

/// Builds the array of a column. Fails, with a write error, exactly where a
/// cell does not have the shape that the column's type asks for or the
/// column is too large for 32-bit offsets.
pub fn column_array(column: &Column) -> (r: Result<ArrayData, ParquetError>)
    ensures
        match r {
            Ok(a) => {
                &&& column.well_typed()
                &&& fits(column.ty, cell_views(column.cells@))
                &&& array_cells(a) == cell_views(column.cells@)
                &&& array_type(a) == column.ty
            },
            Err(e) => e is ParquetWrite && !(column.well_typed() && fits(
                column.ty,
                cell_views(column.cells@),
            )),
        },
{
    let mut borrowed: Vec<&Cell> = Vec::new();
    let mut i: usize = 0;
    while i < column.cells.len()
        invariant
            i <= column.cells.len(),
            borrowed.len() == i,
            forall|k: int| 0 <= k < i ==> *(#[trigger] borrowed@[k]) == column.cells@[k],
        decreases column.cells.len() - i,
    {
        borrowed.push(&column.cells[i]);
        i = i + 1;
    }
    proof {
        assert(views(borrowed@) =~= cell_views(column.cells@));
        assert(column.well_typed() <==> all_conform(views(borrowed@), column.ty)) by {
            if column.well_typed() {
                assert forall|k: int| 0 <= k < views(borrowed@).len() implies conforms(
                    #[trigger] views(borrowed@)[k],
                    column.ty,
                ) by {
                    assert(conforms(column.cells@[k]@, column.ty));
                }
            }
            if all_conform(views(borrowed@), column.ty) {
                assert forall|k: int| 0 <= k < column.cells@.len() implies conforms(
                    #[trigger] column.cells@[k]@,
                    column.ty,
                ) by {
                    assert(conforms(views(borrowed@)[k], column.ty));
                }
            }
        }
    }
    cells_array(&column.ty, &borrowed)
}

/// The rows of each of `columns`.
pub open spec fn column_rows(columns: Seq<Column>) -> Seq<Seq<CellView>> {
    columns.map_values(|c: Column| cell_views(c.cells@))
}

/// The fields that `names` and `columns` give: each has the name at its
/// place, the type of the column at its place, and is nullable.
pub open spec fn column_fields(names: Seq<String>, columns: Seq<Column>) -> Seq<FieldView> {
    Seq::new(
        columns.len(),
        |i: int| FieldView { name: names[i]@, data_type: columns[i].ty, nullable: true },
    )
}

/// Whether `names` and `columns` make a batch: there is a name for each
/// column and at least one column, the cells of each column have the shape
/// of its type, the columns are not too large for 32-bit offsets, and all
/// have as many cells as the first.
pub open spec fn batchable(names: Seq<String>, columns: Seq<Column>) -> bool {
    &&& names.len() == columns.len()
    &&& columns.len() > 0
    &&& forall|i: int|
        0 <= i < columns.len() ==> {
            &&& (#[trigger] columns[i]).well_typed()
            &&& fits(columns[i].ty, cell_views(columns[i].cells@))
            &&& columns[i].cells@.len() == columns[0].cells@.len()
        }
}

/// Assembles one record batch from the columns of a cluster and their
/// names. Fails, with a write error, exactly where names and columns do not
/// make a batch.
pub fn record_batch(names: &Vec<String>, columns: &Vec<Column>) -> (r: Result<Batch, ParquetError>)
    ensures
        match r {
            Ok(b) => {
                &&& batchable(names@, columns@)
                &&& batch_columns(b) == column_rows(columns@)
                &&& batch_fields(b) == column_fields(names@, columns@)
            },
            Err(e) => e is ParquetWrite && !batchable(names@, columns@),
        },
{
    if names.len() != columns.len() {
        return Err(
            ParquetError::ParquetWrite(
                String::from_str("number of columns must match number of names"),
            ),
        );
    }
    let mut arrays: Vec<ArrayData> = Vec::new();
    let mut i: usize = 0;
    while i < columns.len()
        invariant
            i <= columns.len(),
            arrays.len() == i,
            forall|k: int|
                0 <= k < i ==> {
                    &&& (#[trigger] columns@[k]).well_typed()
                    &&& fits(columns@[k].ty, cell_views(columns@[k].cells@))
                    &&& array_cells(arrays@[k]) == cell_views(columns@[k].cells@)
                    &&& array_type(arrays@[k]) == columns@[k].ty
                },
        decreases columns.len() - i,
    {
        match column_array(&columns[i]) {
            Ok(a) => {
                arrays.push(a);
            },
            Err(e) => {
                return Err(e);
            },
        }
        i = i + 1;
    }
    proof {
        assert(columns_of(arrays@) =~= column_rows(columns@));
        assert(fields_of(names@, arrays@) =~= column_fields(names@, columns@));
        assert(can_batch(arrays@) <==> batchable(names@, columns@)) by {
            if can_batch(arrays@) {
                assert forall|k: int| 0 <= k < columns@.len() implies {
                    (#[trigger] columns@[k]).cells@.len() == columns@[0].cells@.len()
                } by {
                    assert(array_cells(arrays@[k]).len() == array_cells(arrays@[0]).len());
                }
            }
            if batchable(names@, columns@) {
                assert forall|k: int| 0 <= k < arrays@.len() implies array_cells(
                    #[trigger] arrays@[k],
                ).len() == array_cells(arrays@[0]).len() by {
                    assert(columns@[k].cells@.len() == columns@[0].cells@.len());
                }
            }
        }
    }
    match try_batch(names, arrays) {
        Ok(b) => Ok(b),
        Err(e) => Err(ParquetError::ParquetWrite(arrow_error_text(&e))),
    }
}

} // verus!
