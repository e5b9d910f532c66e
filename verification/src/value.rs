//! Reflected attribute values, as a closed set of shapes, and their text form.

use vstd::prelude::*;
use vstd::string::*;
use crate::text::{first_position, join, joined, lemma_first_position, lemma_no_position, texts};

verus! {

/// The fixed-width scalar kinds that have a columnar type of their own.
#[derive(Clone, Copy, Debug, PartialEq, Eq, Structural)]
pub enum ScalarKind {
    Bool,
    Int32,
    Int64,
    UInt32,
    UInt64,
    Float32,
    Float64,
}

/// One fixed-width scalar. A float is held by its bit pattern.
#[derive(Clone, Copy, Debug, PartialEq, Eq, Structural)]
pub enum ScalarValue {
    Bool(bool),
    Int32(i32),
    Int64(i64),
    UInt32(u32),
    UInt64(u64),
    Float32(u32),
    Float64(u64),
}

impl ScalarValue {
    /// The kind of this scalar.
    pub open spec fn spec_kind(self) -> ScalarKind {
        match self {
            ScalarValue::Bool(_) => ScalarKind::Bool,
            ScalarValue::Int32(_) => ScalarKind::Int32,
            ScalarValue::Int64(_) => ScalarKind::Int64,
            ScalarValue::UInt32(_) => ScalarKind::UInt32,
            ScalarValue::UInt64(_) => ScalarKind::UInt64,
            ScalarValue::Float32(_) => ScalarKind::Float32,
            ScalarValue::Float64(_) => ScalarKind::Float64,
        }
    }

    /// The kind of this scalar.
    #[verifier::when_used_as_spec(spec_kind)]
    pub fn kind(self) -> (k: ScalarKind)
        ensures
            k == self.spec_kind(),
    {
        match self {
            ScalarValue::Bool(_) => ScalarKind::Bool,
            ScalarValue::Int32(_) => ScalarKind::Int32,
            ScalarValue::Int64(_) => ScalarKind::Int64,
            ScalarValue::UInt32(_) => ScalarKind::UInt32,
            ScalarValue::UInt64(_) => ScalarKind::UInt64,
            ScalarValue::Float32(_) => ScalarKind::Float32,
            ScalarValue::Float64(_) => ScalarKind::Float64,
        }
    }
}

/// A named field of a reflected struct value.
#[derive(Debug)]
pub struct FieldValue {
    pub name: String,
    pub value: ValueView,
}

/// A reflected value. Every shape carries `text`, the debug rendering of the
/// whole value as the reflection subsystem printed it.
#[derive(Debug)]
pub enum ValueView {
    /// A struct with named fields.
    Struct { fields: Vec<FieldValue>, text: String },
    /// A plain value; `scalar` is set when it is one of the fixed-width scalars.
    Plain { scalar: Option<ScalarValue>, text: String },
    /// A tuple or tuple struct, of which only the first field is read.
    Tuple { first: Box<ValueView>, text: String },
    /// A list or an array.
    List { items: Vec<ValueView>, text: String },
    /// Any other shape.
    Other { text: String },
}

/// The name of the field whose value stands for its struct.
pub open spec fn output_name() -> Seq<char> {
    "output"@
}

/// The names of a struct value's fields.
pub open spec fn field_names(fields: Seq<FieldValue>) -> Seq<Seq<char>> {
    fields.map_values(|f: FieldValue| f.name@)
}

/// The position of the first field called `output`, if there is one.
pub open spec fn output_position(fields: Seq<FieldValue>) -> Option<int> {
    first_position(field_names(fields), output_name())
}

/// Finds the first field called `output`.
pub fn find_output(fields: &Vec<FieldValue>) -> (r: Option<usize>)
    ensures
        match r {
            Some(i) => output_position(fields@) == Some(i as int),
            None => output_position(fields@) is None,
        },
{
    let wanted = String::from_str("output");
    let mut i: usize = 0;
    while i < fields.len()
        invariant
            i <= fields.len(),
            wanted@ == output_name(),
            forall|j: int| 0 <= j < i ==> #[trigger] field_names(fields@)[j] != output_name(),
        decreases fields.len() - i,
    {
        if fields[i].name == wanted {
            proof {
                lemma_first_position(field_names(fields@), output_name(), i as int);
            }
            return Some(i);
        }
        i = i + 1;
    }
    proof {
        lemma_no_position(field_names(fields@), output_name());
    }
    None
}

impl ValueView {
    /// The debug rendering of the whole value.
    pub open spec fn spec_text(self) -> Seq<char> {
        match self {
            ValueView::Struct { text, .. } => text@,
            ValueView::Plain { text, .. } => text@,
            ValueView::Tuple { text, .. } => text@,
            ValueView::List { text, .. } => text@,
            ValueView::Other { text } => text@,
        }
    }

    /// The debug rendering of the whole value.
    pub fn text(&self) -> (r: &String)
        ensures
            r@ == self.spec_text(),
    {
        match self {
            ValueView::Struct { text, .. } => text,
            ValueView::Plain { text, .. } => text,
            ValueView::Tuple { text, .. } => text,
            ValueView::List { text, .. } => text,
            ValueView::Other { text } => text,
        }
    }
}

/// The debug renderings of a sequence of values.
pub open spec fn item_texts(items: Seq<ValueView>) -> Seq<Seq<char>> {
    items.map_values(|v: ValueView| v.spec_text())
}

/// `parts` separated by a comma and a space, inside square brackets.
pub open spec fn bracketed(parts: Seq<Seq<char>>) -> Seq<char> {
    "["@ + joined(parts, ", "@) + "]"@
}

/// The text that stands for a value in a string column:
/// a struct gives the rendering of its `output` field, or of itself where it
/// has none; a tuple gives that of its first field; a list gives the
/// renderings of its items in brackets; anything else gives its own.
pub open spec fn rendered(v: ValueView) -> Seq<char> {
    match v {
        ValueView::Struct { fields, text } => match output_position(fields@) {
            Some(i) => fields@[i].value.spec_text(),
            None => text@,
        },
        ValueView::Plain { text, .. } => text@,
        ValueView::Tuple { first, .. } => first.spec_text(),
        ValueView::List { items, .. } => bracketed(item_texts(items@)),
        ValueView::Other { text } => text@,
    }
}

/// Renders a value for a string column.
pub fn render(v: &ValueView) -> (r: String)
    ensures
        r@ == rendered(*v),
{
    match v {
        ValueView::Struct { fields, text } => match find_output(fields) {
            Some(i) => fields[i].value.text().clone(),
            None => text.clone(),
        },
        ValueView::Plain { text, .. } => text.clone(),
        ValueView::Tuple { first, .. } => first.text().clone(),
        ValueView::List { items, .. } => {
            let mut parts: Vec<String> = Vec::new();
            let mut i: usize = 0;
            while i < items.len()
                invariant
                    i <= items.len(),
                    parts.len() == i,
                    texts(parts@) == item_texts(items@).take(i as int),
                decreases items.len() - i,
            {
                let ghost before = parts@;
                let part = items[i].text().clone();
                parts.push(part);
                proof {
                    assert forall|k: int| 0 <= k < i + 1 implies texts(parts@)[k] == item_texts(
                        items@,
                    ).take(i + 1)[k] by {
                        if k < i {
                            assert(texts(before)[k] == item_texts(items@).take(i as int)[k]);
                        }
                    }
                    assert(texts(parts@) =~= item_texts(items@).take(i + 1));
                }
                i = i + 1;
            }
            proof {
                assert(item_texts(items@).take(items.len() as int) == item_texts(items@));
            }
            let mut out = String::from_str("[");
            out.append(join(&parts, ", ").as_str());
            out.append("]");
            out
        },
        ValueView::Other { text } => text.clone(),
    }
}

} // verus!
