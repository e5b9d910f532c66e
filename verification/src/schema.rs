//! The schema builder: one field for each attribute of a cluster that is
//! not a marker.

use vstd::prelude::*;
use vstd::string::*;
use crate::column::{attribute_type, attribute_type_of};
use crate::error::ParquetError;
use crate::names::{is_marker, is_marker_name, short_name, short_name_of};
use crate::store::{Attribute, WorldSnapshot};
use crate::types::ColumnType;

verus! {

/// One field of a schema.
#[derive(Debug, PartialEq, Eq)]
pub struct Field {
    /// The attribute's name without its namespace.
    pub name: String,
    pub data_type: ColumnType,
    pub nullable: bool,
}

/// The mathematical content of a field.
pub struct FieldView {
    pub name: Seq<char>,
    pub data_type: ColumnType,
    pub nullable: bool,
}

impl View for Field {
    type V = FieldView;

    open spec fn view(&self) -> FieldView {
        FieldView { name: self.name@, data_type: self.data_type, nullable: self.nullable }
    }
}

/// The fields of one file, in the order of its columns.
#[derive(Debug, PartialEq, Eq)]
pub struct Schema {
    pub fields: Vec<Field>,
}

/// The contents of a sequence of fields.
pub open spec fn field_views(fields: Seq<Field>) -> Seq<FieldView> {
    fields.map_values(|f: Field| f@)
}

/// The attributes of a cluster that are exported: all but the markers, in
/// the cluster's order.
pub open spec fn data_attributes(cluster: Seq<Attribute>) -> Seq<Attribute>
    decreases cluster.len(),
{
    if cluster.len() == 0 {
        Seq::empty()
    } else {
        let before = data_attributes(cluster.drop_last());
        if is_marker_name(cluster.last().name@) {
            before
        } else {
            before.push(cluster.last())
        }
    }
}

/// The number of marker attributes in a cluster.
pub open spec fn marker_count(cluster: Seq<Attribute>) -> nat
    decreases cluster.len(),
{
    if cluster.len() == 0 {
        0
    } else {
        marker_count(cluster.drop_last()) + if is_marker_name(cluster.last().name@) {
            1nat
        } else {
            0nat
        }
    }
}

/// The exported attributes are the cluster's attributes without its
/// markers: as many as the cluster has, less the markers, and none of them
/// a marker.
pub proof fn lemma_data_attributes(cluster: Seq<Attribute>)
    ensures
        data_attributes(cluster).len() == cluster.len() - marker_count(cluster),
        forall|i: int|
            0 <= i < data_attributes(cluster).len() ==> !is_marker_name(
                (#[trigger] data_attributes(cluster)[i]).name@,
            ) && cluster.contains(data_attributes(cluster)[i]),
        marker_count(cluster) <= cluster.len(),
    decreases cluster.len(),
{
    if cluster.len() > 0 {
        let front = cluster.drop_last();
        lemma_data_attributes(front);
        let before = data_attributes(front);
        let all = data_attributes(cluster);
        assert forall|i: int| 0 <= i < all.len() implies !is_marker_name((#[trigger] all[i]).name@)
            && cluster.contains(all[i]) by {
            if i < before.len() {
                assert(all[i] == before[i]);
                assert(front.contains(before[i]));
                let q = choose|q: int| 0 <= q < front.len() && front[q] == before[i];
                assert(cluster[q] == before[i]);
            } else {
                assert(cluster[cluster.len() - 1] == all[i]);
            }
        }
    }
}

/// The field of an exported attribute: its short name, its columnar type,
/// nullable.
pub open spec fn field_of(world: WorldSnapshot, attribute: Attribute) -> FieldView {
    FieldView {
        name: short_name_of(attribute.name@),
        data_type: attribute_type_of(world, attribute),
        nullable: true,
    }
}

/// The fields of a cluster's schema.
pub open spec fn schema_fields_of(world: WorldSnapshot, cluster: Seq<Attribute>) -> Seq<FieldView> {
    data_attributes(cluster).map_values(|a: Attribute| field_of(world, a))
}

/// The store does not know the attribute at all.
pub open spec fn unknown_to_store(world: WorldSnapshot, attribute: Attribute) -> bool {
    world.spec_info(attribute.id) is None
}

/// `i` is the position of the first exported attribute that the store does
/// not know.
pub open spec fn first_unknown_at(world: WorldSnapshot, attributes: Seq<Attribute>, i: int)
    -> bool {
    &&& 0 <= i < attributes.len()
    &&& unknown_to_store(world, attributes[i])
    &&& forall|j: int| 0 <= j < i ==> !unknown_to_store(world, #[trigger] attributes[j])
}

/// The schema of a cluster has one field for each attribute that is not a
/// marker.
pub proof fn lemma_schema_field_count(world: WorldSnapshot, cluster: Seq<Attribute>)
    ensures
        schema_fields_of(world, cluster).len() == cluster.len() - marker_count(cluster),
{
    lemma_data_attributes(cluster);
}

/// The attributes of a cluster that are exported.
pub fn exported_attributes(cluster: &Vec<Attribute>) -> (r: Vec<Attribute>)
    ensures
        r@ == data_attributes(cluster@),
{
    let mut out: Vec<Attribute> = Vec::new();
    let mut i: usize = 0;
    proof {
        assert(cluster@.take(0) =~= Seq::<Attribute>::empty());
    }
    while i < cluster.len()
        invariant
            i <= cluster.len(),
            out@ == data_attributes(cluster@.take(i as int)),
        decreases cluster.len() - i,
    {
        proof {
            assert(cluster@.take(i + 1).drop_last() =~= cluster@.take(i as int));
            assert(cluster@.take(i + 1).last() == cluster@[i as int]);
        }
        if !is_marker(cluster[i].name.as_str()) {
            out.push(cluster[i].duplicate());
        }
        i = i + 1;
    }
    proof {
        assert(cluster@.take(cluster.len() as int) =~= cluster@);
    }
    out
}

/// Builds the schema of a cluster: one field for each attribute that is not
/// a marker, in the cluster's order. Fails only where the store does not
/// know such an attribute at all, with the name of the first one; a type
/// that the registry does not resolve gives a string field.
pub fn create_arrow_schema(components: &Vec<Attribute>, world: &WorldSnapshot) -> (r: Result<
    Schema,
    ParquetError,
>)
    ensures
        match r {
            Ok(schema) => {
                &&& forall|i: int|
                    0 <= i < data_attributes(components@).len() ==> !unknown_to_store(
                        *world,
                        #[trigger] data_attributes(components@)[i],
                    )
                &&& field_views(schema.fields@) == schema_fields_of(*world, components@)
            },
            Err(e) => exists|i: int|
                {
                    &&& first_unknown_at(*world, data_attributes(components@), i)
                    &&& e matches ParquetError::Serialization(m)
                    &&& m@ == "Failed to get component info for "@ + data_attributes(
                        components@,
                    )[i].name@
                },
        },
{
    let exported = exported_attributes(components);
    let mut fields: Vec<Field> = Vec::new();
    let mut i: usize = 0;
    while i < exported.len()
        invariant
            i <= exported.len(),
            exported@ == data_attributes(components@),
            fields.len() == i,
            forall|j: int| 0 <= j < i ==> !unknown_to_store(*world, #[trigger] exported@[j]),
            forall|j: int|
                0 <= j < i ==> (#[trigger] fields@[j])@ == field_of(*world, exported@[j]),
        decreases exported.len() - i,
    {
        if world.info(exported[i].id).is_none() {
            let text = String::from_str("Failed to get component info for ").concat(
                exported[i].name.as_str(),
            );
            proof {
                assert(first_unknown_at(*world, data_attributes(components@), i as int));
            }
            return Err(ParquetError::Serialization(text));
        }
        let field = Field {
            name: short_name(exported[i].name.as_str()),
            data_type: attribute_type(world, &exported[i]),
            nullable: true,
        };
        fields.push(field);
        i = i + 1;
    }
    proof {
        assert(field_views(fields@) =~= schema_fields_of(*world, components@));
    }
    Ok(Schema { fields })
}

} // verus!
