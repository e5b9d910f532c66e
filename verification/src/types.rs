//! Type descriptors of attributes and the columnar types they map to.
//!
//! `column_type_of` is the one mapping from a descriptor's kind to a columnar
//! type; the schema and the columns are both built from it.

use vstd::prelude::*;
use vstd::string::*;
use crate::text::{first_position, lemma_first_position, lemma_no_position};
use crate::value::{output_name, ScalarKind};

verus! {

/// A named field of a struct descriptor.
#[derive(Debug, PartialEq, Eq)]
pub struct FieldDescriptor {
    pub name: String,
    pub ty: TypeDescriptor,
}

/// What the type registry knows of a type: its kind, with the nested fields
/// or item type.
#[derive(Debug, PartialEq, Eq)]
pub enum TypeDescriptor {
    /// A fixed-width numeric scalar or a boolean.
    Scalar(ScalarKind),
    /// A struct with named fields.
    Struct { fields: Vec<FieldDescriptor> },
    /// An enum.
    Enum,
    /// A growable list of items of one type.
    List { item: Box<TypeDescriptor> },
    /// An array of `len` items of one type.
    Array { item: Box<TypeDescriptor>, len: usize },
    /// A type that the registry does not hold or cannot resolve.
    Unresolved,
    /// Any other kind.
    Other,
}

/// The storage type of one column.
#[derive(Debug, PartialEq, Eq)]
pub enum ColumnType {
    /// A fixed-width scalar.
    Scalar(ScalarKind),
    /// A string.
    Utf8,
    /// A struct of three 32-bit float fields, with their names.
    Vector3 { x: String, y: String, z: String },
    /// A list of items of one type.
    List(Box<ColumnType>),
    /// A list of a fixed number of items of one type.
    FixedSizeList(Box<ColumnType>, usize),
}

/// The names of a struct descriptor's fields.
pub open spec fn descriptor_names(fields: Seq<FieldDescriptor>) -> Seq<Seq<char>> {
    fields.map_values(|f: FieldDescriptor| f.name@)
}

/// The position of the first field called `output`, if there is one.
pub open spec fn output_descriptor(fields: Seq<FieldDescriptor>) -> Option<int> {
    first_position(descriptor_names(fields), output_name())
}

/// A struct of exactly three 32-bit float fields.
pub open spec fn is_vector3(fields: Seq<FieldDescriptor>) -> bool {
    &&& fields.len() == 3
    &&& fields[0].ty == TypeDescriptor::Scalar(ScalarKind::Float32)
    &&& fields[1].ty == TypeDescriptor::Scalar(ScalarKind::Float32)
    &&& fields[2].ty == TypeDescriptor::Scalar(ScalarKind::Float32)
}

/// The columnar type of a descriptor. Every descriptor has one:
/// a scalar keeps its width; a struct of three floats is a vector; another
/// struct stands for its `output` field, or is a string where it has none;
/// a list or array wraps the type of its items; everything else is a string.
pub open spec fn column_type_of(d: TypeDescriptor) -> ColumnType
    decreases d,
{
    match d {
        TypeDescriptor::Scalar(k) => ColumnType::Scalar(k),
        TypeDescriptor::Struct { fields } => if is_vector3(fields@) {
            ColumnType::Vector3 { x: fields@[0].name, y: fields@[1].name, z: fields@[2].name }
        } else {
            match output_descriptor(fields@) {
                Some(i) => if 0 <= i < fields@.len() {
                    column_type_of(fields@[i].ty)
                } else {
                    ColumnType::Utf8
                },
                None => ColumnType::Utf8,
            }
        },
        TypeDescriptor::Enum => ColumnType::Utf8,
        TypeDescriptor::List { item } => ColumnType::List(Box::new(column_type_of(*item))),
        TypeDescriptor::Array { item, len } => ColumnType::FixedSizeList(
            Box::new(column_type_of(*item)),
            len,
        ),
        TypeDescriptor::Unresolved => ColumnType::Utf8,
        TypeDescriptor::Other => ColumnType::Utf8,
    }
}

/// Whether a descriptor is the 32-bit float scalar.
fn is_float32(d: &TypeDescriptor) -> (r: bool)
    ensures
        r == (*d == TypeDescriptor::Scalar(ScalarKind::Float32)),
{
    match d {
        TypeDescriptor::Scalar(ScalarKind::Float32) => true,
        _ => false,
    }
}

/// Finds the first field called `output`.
fn find_output_descriptor(fields: &Vec<FieldDescriptor>) -> (r: Option<usize>)
    ensures
        match r {
            Some(i) => output_descriptor(fields@) == Some(i as int) && i < fields.len(),
            None => output_descriptor(fields@) is None,
        },
{
    let wanted = String::from_str("output");
    let mut i: usize = 0;
    while i < fields.len()
        invariant
            i <= fields.len(),
            wanted@ == output_name(),
            forall|j: int| 0 <= j < i ==> #[trigger] descriptor_names(fields@)[j] != output_name(),
        decreases fields.len() - i,
    {
        if fields[i].name == wanted {
            proof {
                lemma_first_position(descriptor_names(fields@), output_name(), i as int);
            }
            return Some(i);
        }
        i = i + 1;
    }
    proof {
        lemma_no_position(descriptor_names(fields@), output_name());
    }
    None
}

impl ColumnType {
    /// A copy of this type.
    pub fn duplicate(&self) -> (r: ColumnType)
        ensures
            r == *self,
        decreases self,
    {
        match self {
            ColumnType::Scalar(k) => ColumnType::Scalar(*k),
            ColumnType::Utf8 => ColumnType::Utf8,
            ColumnType::Vector3 { x, y, z } => ColumnType::Vector3 {
                x: x.clone(),
                y: y.clone(),
                z: z.clone(),
            },
            ColumnType::List(item) => ColumnType::List(Box::new(item.duplicate())),
            ColumnType::FixedSizeList(item, len) => ColumnType::FixedSizeList(
                Box::new(item.duplicate()),
                *len,
            ),
        }
    }
}

/// Maps a descriptor to its columnar type.
pub fn column_type(d: &TypeDescriptor) -> (r: ColumnType)
    ensures
        r == column_type_of(*d),
    decreases d,
{
    match d {
        TypeDescriptor::Scalar(k) => ColumnType::Scalar(*k),
        TypeDescriptor::Struct { fields } => {
            if fields.len() == 3 && is_float32(&fields[0].ty) && is_float32(&fields[1].ty)
                && is_float32(&fields[2].ty) {
                ColumnType::Vector3 {
                    x: fields[0].name.clone(),
                    y: fields[1].name.clone(),
                    z: fields[2].name.clone(),
                }
            } else {
                match find_output_descriptor(fields) {
                    Some(i) => column_type(&fields[i].ty),
                    None => ColumnType::Utf8,
                }
            }
        },
        TypeDescriptor::Enum => ColumnType::Utf8,
        TypeDescriptor::List { item } => ColumnType::List(Box::new(column_type(item))),
        TypeDescriptor::Array { item, len } => ColumnType::FixedSizeList(
            Box::new(column_type(item)),
            *len,
        ),
        TypeDescriptor::Unresolved => ColumnType::Utf8,
        TypeDescriptor::Other => ColumnType::Utf8,
    }
}

} // verus!
