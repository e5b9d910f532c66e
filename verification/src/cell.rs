//! Typed cells: what one value contributes to a column of a given type.

use vstd::prelude::*;
use vstd::string::*;
use crate::types::ColumnType;
use crate::value::{
    find_output, output_position, render, rendered, FieldValue, ScalarValue, ValueView,
};

verus! {

/// One cell of a column.
#[derive(Debug, PartialEq, Eq)]
pub enum Cell {
    /// A fixed-width scalar.
    Scalar(ScalarValue),
    /// A string.
    Text(String),
    /// Three 32-bit floats, by their bit patterns.
    Vector3(u32, u32, u32),
    /// A list of cells.
    List(Vec<Cell>),
}

/// The mathematical content of a cell.
pub enum CellView {
    Scalar(ScalarValue),
    Text(Seq<char>),
    Vector3(u32, u32, u32),
    List(Seq<CellView>),
}

impl Cell {
    /// The mathematical content of this cell.
    pub open spec fn content(self) -> CellView
        decreases self,
    {
        match self {
            Cell::Scalar(s) => CellView::Scalar(s),
            Cell::Text(s) => CellView::Text(s@),
            Cell::Vector3(a, b, c) => CellView::Vector3(a, b, c),
            Cell::List(items) => CellView::List(
                Seq::new(
                    items@.len(),
                    |i: int|
                        if 0 <= i < items@.len() {
                            items@[i].content()
                        } else {
                            CellView::Text(Seq::empty())
                        },
                ),
            ),
        }
    }
}

impl View for Cell {
    type V = CellView;

    open spec fn view(&self) -> CellView {
        self.content()
    }
}

/// The content of a list cell is the list of the contents of its items.
pub proof fn lemma_list_view(items: Vec<Cell>)
    ensures
        Cell::List(items)@ == CellView::List(cell_views(items@)),
{
    assert(Cell::List(items)@->List_0 =~= cell_views(items@));
}

/// The contents of a sequence of cells.
pub open spec fn cell_views(cells: Seq<Cell>) -> Seq<CellView> {
    cells.map_values(|c: Cell| c@)
}

/// Whether a cell has the shape that a column type asks for.
pub open spec fn conforms(c: CellView, ty: ColumnType) -> bool
    decreases c,
{
    match c {
        CellView::Scalar(s) => ty == ColumnType::Scalar(s.kind()),
        CellView::Text(_) => ty is Utf8,
        CellView::Vector3(_, _, _) => ty is Vector3,
        CellView::List(items) => match ty {
            ColumnType::List(item) => forall|i: int|
                0 <= i < items.len() ==> conforms(#[trigger] items[i], *item),
            ColumnType::FixedSizeList(item, len) => items.len() == len && forall|i: int|
                0 <= i < items.len() ==> conforms(#[trigger] items[i], *item),
            _ => false,
        },
    }
}

/// The bit pattern of a value that is a 32-bit float scalar.
pub open spec fn float32_bits(v: ValueView) -> Option<u32> {
    match v {
        ValueView::Plain { scalar: Some(ScalarValue::Float32(bits)), .. } => Some(bits),
        _ => None,
    }
}

/// The three bit patterns of a struct value of exactly three 32-bit floats.
pub open spec fn vector3_of(fields: Seq<FieldValue>) -> Option<(u32, u32, u32)> {
    if fields.len() == 3 && float32_bits(fields[0].value) is Some && float32_bits(
        fields[1].value,
    ) is Some && float32_bits(fields[2].value) is Some {
        Some(
            (
                float32_bits(fields[0].value)->0,
                float32_bits(fields[1].value)->0,
                float32_bits(fields[2].value)->0,
            ),
        )
    } else {
        None
    }
}

/// The cell that a value gives to a column of type `ty`, or `None` where the
/// value does not have the shape that `ty` asks for.
///
/// A string column takes the rendered text of any value. For every other
/// type a struct stands for its `output` field, as it does in
/// `column_type_of`, unless the column is a vector and the struct holds its
/// three floats.
pub open spec fn cell_of(ty: ColumnType, v: ValueView) -> Option<CellView>
    decreases v,
{
    if ty is Utf8 {
        Some(CellView::Text(rendered(v)))
    } else {
        match v {
            ValueView::Struct { fields, .. } => {
                if ty is Vector3 && vector3_of(fields@) is Some {
                    let t = vector3_of(fields@)->0;
                    Some(CellView::Vector3(t.0, t.1, t.2))
                } else {
                    match output_position(fields@) {
                        Some(i) => if 0 <= i < fields@.len() {
                            cell_of(ty, fields@[i].value)
                        } else {
                            None
                        },
                        None => None,
                    }
                }
            },
            ValueView::Plain { scalar: Some(s), .. } => if ty == ColumnType::Scalar(s.kind()) {
                Some(CellView::Scalar(s))
            } else {
                None
            },
            ValueView::List { items, .. } => match ty {
                ColumnType::List(item) => if forall|i: int|
                    0 <= i < items@.len() ==> cell_of(*item, items@[i]) is Some {
                    Some(
                        CellView::List(
                            Seq::new(
                                items@.len(),
                                |i: int|
                                    if 0 <= i < items@.len() {
                                        cell_of(*item, items@[i])->0
                                    } else {
                                        CellView::Text(Seq::empty())
                                    },
                            ),
                        ),
                    )
                } else {
                    None
                },
                ColumnType::FixedSizeList(item, len) => if items@.len() == len && forall|i: int|
                    0 <= i < items@.len() ==> cell_of(*item, items@[i]) is Some {
                    Some(
                        CellView::List(
                            Seq::new(
                                items@.len(),
                                |i: int|
                                    if 0 <= i < items@.len() {
                                        cell_of(*item, items@[i])->0
                                    } else {
                                        CellView::Text(Seq::empty())
                                    },
                            ),
                        ),
                    )
                } else {
                    None
                },
                _ => None,
            },
            _ => None,
        }
    }
}

/// The content of an optional cell.
pub open spec fn cell_option_view(c: Option<Cell>) -> Option<CellView> {
    match c {
        Some(c) => Some(c@),
        None => None,
    }
}

/// Every cell that `cell_of` gives has the shape that the column type asks
/// for: the columns cannot drift from the schema.
pub proof fn lemma_cell_conforms(ty: ColumnType, v: ValueView)
    ensures
        cell_of(ty, v) matches Some(c) ==> conforms(c, ty),
    decreases v,
{
    if ty is Utf8 {
    } else {
        match v {
            ValueView::Struct { fields, .. } => {
                if ty is Vector3 && vector3_of(fields@) is Some {
                } else {
                    match output_position(fields@) {
                        Some(i) => if 0 <= i < fields@.len() {
                            lemma_cell_conforms(ty, fields@[i].value);
                        },
                        None => {},
                    }
                }
            },
            ValueView::List { items, .. } => match ty {
                ColumnType::List(item) => {
                    if let Some(CellView::List(cells)) = cell_of(ty, v) {
                        assert forall|i: int| 0 <= i < cells.len() implies conforms(
                            #[trigger] cells[i],
                            *item,
                        ) by {
                            lemma_cell_conforms(*item, items@[i]);
                        }
                    }
                },
                ColumnType::FixedSizeList(item, len) => {
                    if let Some(CellView::List(cells)) = cell_of(ty, v) {
                        assert forall|i: int| 0 <= i < cells.len() implies conforms(
                            #[trigger] cells[i],
                            *item,
                        ) by {
                            lemma_cell_conforms(*item, items@[i]);
                        }
                    }
                },
                _ => {},
            },
            _ => {},
        }
    }
}

/// The bit pattern of a value that is a 32-bit float scalar.
fn read_float32(v: &ValueView) -> (r: Option<u32>)
    ensures
        r == float32_bits(*v),
{
    match v {
        ValueView::Plain { scalar: Some(ScalarValue::Float32(bits)), .. } => Some(*bits),
        _ => None,
    }
}

/// The three bit patterns of a struct value of exactly three 32-bit floats.
fn read_vector3(fields: &Vec<FieldValue>) -> (r: Option<(u32, u32, u32)>)
    ensures
        r == vector3_of(fields@),
{
    if fields.len() != 3 {
        return None;
    }
    match (
        read_float32(&fields[0].value),
        read_float32(&fields[1].value),
        read_float32(&fields[2].value),
    ) {
        (Some(a), Some(b), Some(c)) => Some((a, b, c)),
        _ => None,
    }
}

/// The cells of the items of a list value, or `None` where one of them does
/// not have the shape that `item` asks for.
fn list_cells(item: &ColumnType, items: &Vec<ValueView>, Ghost(whole): Ghost<ValueView>) -> (r:
    Option<Vec<Cell>>)
    requires
        whole matches ValueView::List { items: its, .. } && its == *items,
    ensures
        r is Some <==> forall|i: int| 0 <= i < items@.len() ==> cell_of(*item, items@[i]) is Some,
        r matches Some(cells) ==> cells@.len() == items@.len() && forall|i: int|
            0 <= i < items@.len() ==> (#[trigger] cells@[i])@ == cell_of(*item, items@[i])->0,
    decreases whole, 0nat,
{
    let mut cells: Vec<Cell> = Vec::new();
    let mut i: usize = 0;
    while i < items.len()
        invariant
            i <= items.len(),
            cells.len() == i,
            whole matches ValueView::List { items: its, .. } && its == *items,
            forall|k: int| 0 <= k < i ==> cell_of(*item, items@[k]) is Some,
            forall|k: int| 0 <= k < i ==> (#[trigger] cells@[k])@ == cell_of(*item, items@[k])->0,
        decreases items.len() - i,
    {
        match cell_for(item, &items[i]) {
            Some(c) => {
                cells.push(c);
            },
            None => {
                return None;
            },
        }
        i = i + 1;
    }
    Some(cells)
}

/// Builds the cell that a value gives to a column of type `ty`.
pub fn cell_for(ty: &ColumnType, v: &ValueView) -> (r: Option<Cell>)
    ensures
        cell_option_view(r) == cell_of(*ty, *v),
    decreases *v, 1nat,
{
    if let ColumnType::Utf8 = ty {
        return Some(Cell::Text(render(v)));
    }
    match v {
        ValueView::Struct { fields, .. } => {
            if let ColumnType::Vector3 { .. } = ty {
                if let Some(t) = read_vector3(fields) {
                    return Some(Cell::Vector3(t.0, t.1, t.2));
                }
            }
            match find_output(fields) {
                Some(i) => cell_for(ty, &fields[i].value),
                None => None,
            }
        },
        ValueView::Plain { scalar: Some(s), .. } => {
            match ty {
                ColumnType::Scalar(k) => if s.kind() == *k {
                    Some(Cell::Scalar(*s))
                } else {
                    None
                },
                _ => None,
            }
        },
        ValueView::List { items, .. } => match ty {
            ColumnType::List(item) => match list_cells(item, items, Ghost(*v)) {
                Some(cells) => {
                    let c = Cell::List(cells);
                    proof {
                        assert(c@->List_0 =~= cell_of(*ty, *v)->0->List_0);
                    }
                    Some(c)
                },
                None => None,
            },
            ColumnType::FixedSizeList(item, len) => {
                if items.len() != *len {
                    return None;
                }
                match list_cells(item, items, Ghost(*v)) {
                    Some(cells) => {
                        let c = Cell::List(cells);
                        proof {
                            assert(c@->List_0 =~= cell_of(*ty, *v)->0->List_0);
                        }
                        Some(c)
                    },
                    None => None,
                }
            },
            _ => None,
        },
        _ => None,
    }
}

} // verus!
