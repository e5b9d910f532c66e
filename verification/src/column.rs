//! The column materializer: from the values of one attribute to its column.

use vstd::prelude::*;
use vstd::string::*;
use crate::cell::{
    cell_for, cell_of, cell_option_view, cell_views, conforms, lemma_cell_conforms, Cell, CellView,
};
use crate::error::ParquetError;
use crate::names::{is_marker, is_marker_name};
use crate::text::{decimal, decimal_of};
use crate::store::{component_of, Attribute, ComponentValue, EntityRecord, WorldSnapshot};
use crate::types::{column_type, column_type_of, ColumnType};
use crate::value::ValueView;

verus! {

/// The values of one attribute, one cell for each entity that gave one.
#[derive(Debug, PartialEq, Eq)]
pub struct Column {
    pub ty: ColumnType,
    pub cells: Vec<Cell>,
}

impl Column {
    /// Every cell has the shape that the column's type asks for.
    pub open spec fn well_typed(self) -> bool {
        forall|i: int| 0 <= i < self.cells@.len() ==> conforms(#[trigger] self.cells@[i]@, self.ty)
    }

    /// The number of cells.
    pub fn len(&self) -> (n: usize)
        ensures
            n == self.cells@.len(),
    {
        self.cells.len()
    }
}

/// The columnar type of an attribute: that of its registered descriptor, or
/// a string where the store or the registry does not resolve the type.
pub open spec fn attribute_type_of(world: WorldSnapshot, attribute: Attribute) -> ColumnType {
    match world.spec_info(attribute.id) {
        Some(info) => match info.type_id {
            Some(t) => match world.spec_registration(t) {
                Some(registration) => column_type_of(registration.descriptor),
                None => ColumnType::Utf8,
            },
            None => ColumnType::Utf8,
        },
        None => ColumnType::Utf8,
    }
}

/// Resolves the columnar type of an attribute.
pub fn attribute_type(world: &WorldSnapshot, attribute: &Attribute) -> (r: ColumnType)
    ensures
        r == attribute_type_of(*world, *attribute),
{
    match world.info(attribute.id) {
        Some(info) => match info.type_id {
            Some(t) => match world.registration(t) {
                Some(registration) => column_type(&registration.descriptor),
                None => ColumnType::Utf8,
            },
            None => ColumnType::Utf8,
        },
        None => ColumnType::Utf8,
    }
}

/// The reflected value of an attribute on an entity, or the reason why there
/// is none. The lookups are made in this order: the attribute's entry in
/// the store, its type id, the type's registration, the registration's
/// reflect capability, the value on the entity.
pub open spec fn reflection_of(world: WorldSnapshot, entity: EntityRecord, attribute: Attribute)
    -> Result<ValueView, Seq<char>> {
    match world.spec_info(attribute.id) {
        None => Err("Failed to get component info for "@ + attribute.name@),
        Some(info) => match info.type_id {
            None => Err("Missing type ID for component "@ + attribute.name@),
            Some(t) => match world.spec_registration(t) {
                None => Err("Type ID not found in registry for component "@ + attribute.name@),
                Some(registration) => if !registration.reflectable {
                    Err("No ReflectComponent data for "@ + attribute.name@)
                } else {
                    match component_of(entity.components@, attribute.id) {
                        Some(ComponentValue { value: Some(v), .. }) => Ok(v),
                        _ => Err(
                            "Failed to reflect on its entity the component "@ + attribute.name@,
                        ),
                    }
                },
            },
        },
    }
}

/// A serialization error whose text is `prefix` followed by `name`.
fn lookup_failure(prefix: &str, name: &String) -> (e: ParquetError)
    ensures
        e matches ParquetError::Serialization(m) && m@ == prefix@ + name@,
{
    ParquetError::Serialization(String::from_str(prefix).concat(name.as_str()))
}

/// Reflects an attribute off an entity.
pub fn reflect<'a>(world: &WorldSnapshot, entity: &'a EntityRecord, attribute: &Attribute) -> (r:
    Result<&'a ValueView, ParquetError>)
    ensures
        match r {
            Ok(v) => reflection_of(*world, *entity, *attribute) == Ok::<ValueView, Seq<char>>(*v),
            Err(e) => e matches ParquetError::Serialization(m) && reflection_of(
                *world,
                *entity,
                *attribute,
            ) == Err::<ValueView, Seq<char>>(m@),
        },
{
    let info = match world.info(attribute.id) {
        Some(info) => info,
        None => {
            return Err(lookup_failure("Failed to get component info for ", &attribute.name));
        },
    };
    let type_id = match info.type_id {
        Some(t) => t,
        None => {
            return Err(lookup_failure("Missing type ID for component ", &attribute.name));
        },
    };
    let registration = match world.registration(type_id) {
        Some(registration) => registration,
        None => {
            return Err(
                lookup_failure("Type ID not found in registry for component ", &attribute.name),
            );
        },
    };
    if !registration.reflectable {
        return Err(lookup_failure("No ReflectComponent data for ", &attribute.name));
    }
    match entity.component(attribute.id) {
        Some(component) => match &component.value {
            Some(v) => Ok(v),
            None => Err(
                lookup_failure("Failed to reflect on its entity the component ", &attribute.name),
            ),
        },
        None => Err(
            lookup_failure("Failed to reflect on its entity the component ", &attribute.name),
        ),
    }
}

/// The cell that the entity at `position` gives to the column of an
/// attribute, or `None` where the entity is not in the store, the attribute
/// cannot be reflected off it, or the value does not fit the column's type.
pub open spec fn cell_at(world: WorldSnapshot, position: usize, attribute: Attribute) -> Option<
    CellView,
> {
    if position < world.entities@.len() {
        match reflection_of(world, world.entities@[position as int], attribute) {
            Ok(v) => cell_of(attribute_type_of(world, attribute), v),
            Err(_) => None,
        }
    } else {
        None
    }
}

/// The cells of an attribute over `entities`, in their order, the entities
/// that give none being passed over.
pub open spec fn column_cells(world: WorldSnapshot, entities: Seq<usize>, attribute: Attribute)
    -> Seq<CellView>
    decreases entities.len(),
{
    if entities.len() == 0 {
        Seq::empty()
    } else {
        let before = column_cells(world, entities.drop_last(), attribute);
        match cell_at(world, entities.last(), attribute) {
            Some(c) => before.push(c),
            None => before,
        }
    }
}

/// The column of an attribute over `entities`: a marker attribute has no
/// cells at all.
pub open spec fn column_of(world: WorldSnapshot, entities: Seq<usize>, attribute: Attribute)
    -> Seq<CellView> {
    if is_marker_name(attribute.name@) {
        Seq::empty()
    } else {
        column_cells(world, entities, attribute)
    }
}

/// No entity of `entities` fails to give the column of `attribute` a cell.
pub open spec fn none_fails(world: WorldSnapshot, entities: Seq<usize>, attribute: Attribute)
    -> bool {
    forall|i: int|
        0 <= i < entities.len() ==> cell_at(world, #[trigger] entities[i], attribute) is Some
}

/// A column never has more cells than there are entities; it has one for
/// each where no entity fails, and fewer where one does.
pub proof fn lemma_column_length(world: WorldSnapshot, entities: Seq<usize>, attribute: Attribute)
    ensures
        column_cells(world, entities, attribute).len() <= entities.len(),
        none_fails(world, entities, attribute) <==> column_cells(world, entities, attribute).len()
            == entities.len(),
    decreases entities.len(),
{
    if entities.len() > 0 {
        let front = entities.drop_last();
        lemma_column_length(world, front, attribute);
        if none_fails(world, entities, attribute) {
            assert forall|i: int| 0 <= i < front.len() implies cell_at(
                world,
                #[trigger] front[i],
                attribute,
            ) is Some by {
                assert(front[i] == entities[i]);
            }
            assert(cell_at(world, entities[entities.len() - 1], attribute) is Some);
        }
        if column_cells(world, entities, attribute).len() == entities.len() {
            assert(cell_at(world, entities.last(), attribute) is Some);
            assert(none_fails(world, front, attribute));
            assert forall|i: int| 0 <= i < entities.len() implies cell_at(
                world,
                #[trigger] entities[i],
                attribute,
            ) is Some by {
                if i < front.len() {
                    assert(front[i] == entities[i]);
                }
            }
        }
    }
}

/// The cell that the entity at `position` gives to the column of an
/// attribute whose type is `ty`.
fn entity_cell(
    world: &WorldSnapshot,
    position: usize,
    attribute: &Attribute,
    ty: &ColumnType,
) -> (r: Option<Cell>)
    requires
        *ty == attribute_type_of(*world, *attribute),
    ensures
        cell_option_view(r) == cell_at(*world, position, *attribute),
        r matches Some(c) ==> conforms(c@, *ty),
{
    if position >= world.entities.len() {
        return None;
    }
    match reflect(world, &world.entities[position], attribute) {
        Ok(v) => {
            proof {
                lemma_cell_conforms(*ty, *v);
            }
            cell_for(ty, v)
        },
        Err(_) => None,
    }
}

/// Builds the column of one attribute over the given entities, in their
/// order. An entity that is not in the store, off which the attribute cannot
/// be reflected, or whose value does not fit the column's type, gives no
/// cell; a marker attribute gives none at all.
pub fn component_to_arrow_array(
    world: &WorldSnapshot,
    entities: &Vec<usize>,
    component_info: &Attribute,
) -> (r: Result<Column, ParquetError>)
    ensures
        r matches Ok(column) && column.ty == attribute_type_of(*world, *component_info)
            && cell_views(column.cells@) == column_of(*world, entities@, *component_info)
            && column.well_typed(),
{
    let ty = attribute_type(world, component_info);
    let mut cells: Vec<Cell> = Vec::new();
    if is_marker(component_info.name.as_str()) {
        proof {
            assert(cell_views(cells@) =~= Seq::<CellView>::empty());
        }
        return Ok(Column { ty, cells });
    }
    let mut i: usize = 0;
    proof {
        assert(cell_views(cells@) =~= Seq::<CellView>::empty());
        assert(entities@.take(0) =~= Seq::<usize>::empty());
    }
    while i < entities.len()
        invariant
            i <= entities.len(),
            ty == attribute_type_of(*world, *component_info),
            cell_views(cells@) == column_cells(*world, entities@.take(i as int), *component_info),
            forall|k: int| 0 <= k < cells@.len() ==> conforms(#[trigger] cells@[k]@, ty),
        decreases entities.len() - i,
    {
        proof {
            assert(entities@.take(i + 1).drop_last() =~= entities@.take(i as int));
            assert(entities@.take(i + 1).last() == entities@[i as int]);
        }
        let ghost before = cells@;
        match entity_cell(world, entities[i], component_info, &ty) {
            Some(c) => {
                cells.push(c);
                proof {
                    assert(cell_views(cells@) =~= cell_views(before).push(c@));
                }
            },
            None => {},
        }
        i = i + 1;
    }
    proof {
        assert(entities@.take(entities.len() as int) =~= entities@);
    }
    Ok(Column { ty, cells })
}

/// The column of the identifiers of entities, each written in decimal.
pub open spec fn identifier_cells(entities: Seq<u64>) -> Seq<CellView> {
    entities.map_values(|e: u64| CellView::Text(decimal_of(e as nat)))
}

/// Builds a string column of the identifiers of entities, each written in
/// decimal, in their order.
pub fn create_uuid_array(entities: &Vec<u64>) -> (r: Column)
    ensures
        r.ty == ColumnType::Utf8,
        cell_views(r.cells@) == identifier_cells(entities@),
        r.well_typed(),
{
    let mut cells: Vec<Cell> = Vec::new();
    let mut i: usize = 0;
    while i < entities.len()
        invariant
            i <= entities.len(),
            cells.len() == i,
            forall|k: int|
                0 <= k < i ==> (#[trigger] cells@[k])@ == CellView::Text(
                    decimal_of(entities@[k] as nat),
                ),
        decreases entities.len() - i,
    {
        cells.push(Cell::Text(decimal(entities[i])));
        i = i + 1;
    }
    proof {
        assert(cell_views(cells@) =~= identifier_cells(entities@));
    }
    Column { ty: ColumnType::Utf8, cells }
}

} // verus!
