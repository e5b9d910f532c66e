//! The export: from a snapshot of the store to one record batch for each
//! cluster that holds a marker attribute.

use vstd::prelude::*;
use vstd::string::*;
use crate::arrays::{batch_columns, batch_fields, Batch};
use crate::batch::{batchable, column_fields, column_rows, fits, record_batch};
use crate::cell::{cell_views, CellView};
use crate::cluster::{
    clusters_of, detect_component_clusters, duplicate_all, key_lists, signatures_of,
};
use crate::column::{
    attribute_type_of, column_cells, component_to_arrow_array, lemma_column_length, none_fails,
    Column,
};
use crate::config::ParquetConfig;
use crate::error::ParquetError;
use crate::names::{
    destination, destination_of, file_name, file_name_of, is_marker, is_marker_name,
    DEFAULT_NAME_BUDGET,
};
use crate::schema::{
    create_arrow_schema, data_attributes, exported_attributes, field_views, first_unknown_at,
    lemma_data_attributes, marker_count, schema_fields_of, unknown_to_store, Schema,
};
use crate::state::ParquetState;
use crate::store::{carries, keys, Attribute, AttributeKey, EntityRecord, WorldSnapshot};

verus! {

/// What is written for one cluster: where, under which schema, and the
/// batch of its columns.
pub struct ClusterFile {
    pub path: String,
    pub schema: Schema,
    pub batch: Batch,
}

/// Whether a cluster holds a marker attribute.
pub open spec fn has_marker(cluster: Seq<AttributeKey>) -> bool {
    exists|i: int| 0 <= i < cluster.len() && is_marker_name(#[trigger] cluster[i].0)
}

/// The clusters that are exported: those that hold a marker attribute, in
/// their order.
pub open spec fn surviving(clusters: Seq<Seq<AttributeKey>>) -> Seq<Seq<AttributeKey>>
    decreases clusters.len(),
{
    if clusters.len() == 0 {
        Seq::empty()
    } else {
        let before = surviving(clusters.drop_last());
        if has_marker(clusters.last()) {
            before.push(clusters.last())
        } else {
            before
        }
    }
}

/// Every exported cluster holds a marker attribute and is one of the
/// clusters given: a cluster without a marker is never exported.
pub proof fn lemma_surviving(clusters: Seq<Seq<AttributeKey>>)
    ensures
        surviving(clusters).len() <= clusters.len(),
        forall|k: int|
            0 <= k < surviving(clusters).len() ==> has_marker(#[trigger] surviving(clusters)[k])
                && clusters.contains(surviving(clusters)[k]),
    decreases clusters.len(),
{
    if clusters.len() > 0 {
        let front = clusters.drop_last();
        lemma_surviving(front);
        let before = surviving(front);
        let all = surviving(clusters);
        assert forall|k: int| 0 <= k < all.len() implies has_marker(#[trigger] all[k])
            && clusters.contains(all[k]) by {
            if k < before.len() {
                assert(all[k] == before[k]);
                assert(front.contains(before[k]));
                let q = choose|q: int| 0 <= q < front.len() && front[q] == before[k];
                assert(clusters[q] == before[k]);
            } else {
                assert(clusters[clusters.len() - 1] == all[k]);
            }
        }
    }
}

/// Whether an entity carries every one of `attributes`.
pub open spec fn possesses(entity: EntityRecord, attributes: Seq<Attribute>) -> bool {
    forall|i: int| 0 <= i < attributes.len() ==> carries(entity, (#[trigger] attributes[i]).id)
}

/// The positions, among the first `n` entities, of those that carry every
/// one of `attributes`, in rising order.
pub open spec fn qualifying_upto(world: WorldSnapshot, attributes: Seq<Attribute>, n: int) -> Seq<
    usize,
>
    decreases n,
{
    if n <= 0 {
        Seq::empty()
    } else {
        let before = qualifying_upto(world, attributes, n - 1);
        if possesses(world.entities@[n - 1], attributes) {
            before.push((n - 1) as usize)
        } else {
            before
        }
    }
}

/// The entities that a cluster's file holds: those that carry every
/// attribute of the cluster that is not a marker.
pub open spec fn qualifying(world: WorldSnapshot, cluster: Seq<Attribute>) -> Seq<usize> {
    qualifying_upto(world, data_attributes(cluster), world.entities@.len() as int)
}

/// The columns of a cluster: for each attribute that is not a marker, its
/// cells over the qualifying entities.
pub open spec fn cluster_columns(world: WorldSnapshot, cluster: Seq<Attribute>) -> Seq<
    Seq<CellView>,
> {
    data_attributes(cluster).map_values(
        |a: Attribute| column_cells(world, qualifying(world, cluster), a),
    )
}

/// The store does not know one of the cluster's attributes that are not
/// markers.
pub open spec fn has_unknown(world: WorldSnapshot, cluster: Seq<Attribute>) -> bool {
    exists|i: int|
        0 <= i < data_attributes(cluster).len() && unknown_to_store(
            world,
            #[trigger] data_attributes(cluster)[i],
        )
}

/// The columns of a cluster make a batch: there is at least one, none is
/// too large for 32-bit offsets, and all have as many cells as the first.
pub open spec fn makes_batch(world: WorldSnapshot, cluster: Seq<Attribute>) -> bool {
    &&& cluster_columns(world, cluster).len() > 0
    &&& forall|i: int|
        0 <= i < cluster_columns(world, cluster).len() ==> {
            &&& fits(
                attribute_type_of(world, data_attributes(cluster)[i]),
                #[trigger] cluster_columns(world, cluster)[i],
            )
            &&& cluster_columns(world, cluster)[i].len() == cluster_columns(world, cluster)[0].len()
        }
}

/// `file` is what the export writes for `cluster`, and the export of
/// `cluster` succeeds: the store knows every attribute that is not a marker,
/// their columns make a batch, the destination is made of the output path
/// and the cluster's file name, the schema has one field for each of these
/// attributes, and the batch holds their columns under the same fields.
pub open spec fn written(
    world: WorldSnapshot,
    config: ParquetConfig,
    cluster: Seq<Attribute>,
    file: ClusterFile,
) -> bool {
    &&& !has_unknown(world, cluster)
    &&& makes_batch(world, cluster)
    &&& file.path@ == destination_of(
        config.output_path@,
        file_name_of(cluster, config.file_name, DEFAULT_NAME_BUDGET as nat),
    )
    &&& field_views(file.schema.fields@) == schema_fields_of(world, cluster)
    &&& batch_fields(file.batch) == schema_fields_of(world, cluster)
    &&& batch_columns(file.batch) == cluster_columns(world, cluster)
}

/// `e` is the error with which the export of `cluster` fails: a
/// serialization error that names the first attribute that the store does
/// not know, or else, where it knows them all, a write error where the
/// columns do not make a batch.
pub open spec fn fails_with(world: WorldSnapshot, cluster: Seq<Attribute>, e: ParquetError)
    -> bool {
    if has_unknown(world, cluster) {
        exists|i: int|
            {
                &&& first_unknown_at(world, data_attributes(cluster), i)
                &&& e matches ParquetError::Serialization(m)
                &&& m@ == "Failed to get component info for "@ + data_attributes(cluster)[i].name@
            }
    } else {
        e is ParquetWrite && !makes_batch(world, cluster)
    }
}

/// Whether a cluster holds a marker attribute.
pub fn holds_marker(cluster: &Vec<Attribute>) -> (r: bool)
    ensures
        r == has_marker(keys(cluster@)),
{
    let mut i: usize = 0;
    while i < cluster.len()
        invariant
            i <= cluster.len(),
            forall|j: int| 0 <= j < i ==> !is_marker_name(#[trigger] keys(cluster@)[j].0),
        decreases cluster.len() - i,
    {
        if is_marker(cluster[i].name.as_str()) {
            proof {
                assert(is_marker_name(keys(cluster@)[i as int].0));
            }
            return true;
        }
        i = i + 1;
    }
    false
}

/// The clusters that are exported: those that hold a marker attribute.
pub fn surviving_clusters(clusters: &Vec<Vec<Attribute>>) -> (r: Vec<Vec<Attribute>>)
    ensures
        key_lists(r@) == surviving(key_lists(clusters@)),
{
    let mut out: Vec<Vec<Attribute>> = Vec::new();
    let mut i: usize = 0;
    proof {
        assert(key_lists(clusters@).take(0) =~= Seq::<Seq<AttributeKey>>::empty());
        assert(key_lists(out@) =~= Seq::<Seq<AttributeKey>>::empty());
    }
    while i < clusters.len()
        invariant
            i <= clusters.len(),
            key_lists(out@) == surviving(key_lists(clusters@).take(i as int)),
        decreases clusters.len() - i,
    {
        proof {
            assert(key_lists(clusters@).take(i + 1).drop_last() =~= key_lists(clusters@).take(
                i as int,
            ));
            assert(key_lists(clusters@).take(i + 1).last() == keys(clusters@[i as int]@));
        }
        if holds_marker(&clusters[i]) {
            let ghost before = out@;
            let copy = duplicate_all(&clusters[i]);
            out.push(copy);
            proof {
                assert(key_lists(out@) =~= key_lists(before).push(keys(clusters@[i as int]@)));
            }
        }
        i = i + 1;
    }
    proof {
        assert(key_lists(clusters@).take(clusters.len() as int) =~= key_lists(clusters@));
    }
    out
}

/// Whether an entity carries every one of `attributes`.
pub fn possesses_all(entity: &EntityRecord, attributes: &Vec<Attribute>) -> (r: bool)
    ensures
        r == possesses(*entity, attributes@),
{
    let mut i: usize = 0;
    while i < attributes.len()
        invariant
            i <= attributes.len(),
            forall|j: int| 0 <= j < i ==> carries(*entity, (#[trigger] attributes@[j]).id),
        decreases attributes.len() - i,
    {
        if !entity.has(attributes[i].id) {
            return false;
        }
        i = i + 1;
    }
    true
}

/// The entities that a cluster's file holds, by position, in the order of
/// the store.
pub fn qualifying_entities(world: &WorldSnapshot, cluster: &Vec<Attribute>) -> (r: Vec<usize>)
    ensures
        r@ == qualifying(*world, cluster@),
{
    let exported = exported_attributes(cluster);
    let mut out: Vec<usize> = Vec::new();
    let mut i: usize = 0;
    while i < world.entities.len()
        invariant
            i <= world.entities.len(),
            exported@ == data_attributes(cluster@),
            out@ == qualifying_upto(*world, exported@, i as int),
        decreases world.entities.len() - i,
    {
        if possesses_all(&world.entities[i], &exported) {
            out.push(i);
        }
        i = i + 1;
    }
    out
}

/// The names of the fields of a schema.
fn field_names(schema: &Schema) -> (r: Vec<String>)
    ensures
        r@.len() == schema.fields@.len(),
        forall|i: int| 0 <= i < r@.len() ==> (#[trigger] r@[i])@ == schema.fields@[i].name@,
{
    let mut out: Vec<String> = Vec::new();
    let mut i: usize = 0;
    while i < schema.fields.len()
        invariant
            i <= schema.fields.len(),
            out.len() == i,
            forall|k: int| 0 <= k < i ==> (#[trigger] out@[k])@ == schema.fields@[k].name@,
        decreases schema.fields.len() - i,
    {
        out.push(schema.fields[i].name.clone());
        i = i + 1;
    }
    out
}

/// Exports one cluster: builds its schema, the columns of its attributes
/// that are not markers over the qualifying entities, and the batch of
/// these columns. Fails with a serialization error exactly where the store
/// does not know one of these attributes, and else with a write error
/// exactly where the columns do not make a batch.
pub fn serialize_cluster(world: &WorldSnapshot, config: &ParquetConfig, cluster: &Vec<Attribute>)
    -> (r: Result<ClusterFile, ParquetError>)
    ensures
        match r {
            Ok(file) => written(*world, *config, cluster@, file),
            Err(e) => fails_with(*world, cluster@, e),
        },
{
    let schema = match create_arrow_schema(cluster, world) {
        Ok(schema) => schema,
        Err(e) => {
            return Err(e);
        },
    };
    let exported = exported_attributes(cluster);
    let entities = qualifying_entities(world, cluster);
    let mut columns: Vec<Column> = Vec::new();
    let mut i: usize = 0;
    while i < exported.len()
        invariant
            i <= exported.len(),
            exported@ == data_attributes(cluster@),
            entities@ == qualifying(*world, cluster@),
            columns.len() == i,
            forall|k: int|
                0 <= k < i ==> {
                    &&& (#[trigger] columns@[k]).well_typed()
                    &&& columns@[k].ty == attribute_type_of(*world, exported@[k])
                    &&& cell_views(columns@[k].cells@) == column_cells(
                        *world,
                        entities@,
                        exported@[k],
                    )
                },
        decreases exported.len() - i,
    {
        proof {
            lemma_data_attributes(cluster@);
        }
        match component_to_arrow_array(world, &entities, &exported[i]) {
            Ok(column) => {
                columns.push(column);
            },
            Err(e) => {
                return Err(e);
            },
        }
        i = i + 1;
    }
    let names = field_names(&schema);
    let path_name = file_name(cluster, &config.file_name, DEFAULT_NAME_BUDGET);
    let path = destination(config.output_path.as_str(), path_name.as_str());
    proof {
        let wanted = cluster_columns(*world, cluster@);
        assert(field_views(schema.fields@).len() == schema.fields@.len());
        assert(schema_fields_of(*world, cluster@).len() == exported@.len());
        assert(column_rows(columns@) =~= wanted);
        assert(column_fields(names@, columns@) =~= schema_fields_of(*world, cluster@)) by {
            assert forall|k: int| 0 <= k < columns@.len() implies column_fields(
                names@,
                columns@,
            )[k] == schema_fields_of(*world, cluster@)[k] by {
                assert(field_views(schema.fields@)[k] == schema.fields@[k]@);
            }
        }
        assert(batchable(names@, columns@) <==> makes_batch(*world, cluster@)) by {
            if batchable(names@, columns@) {
                assert forall|k: int| 0 <= k < wanted.len() implies fits(
                    attribute_type_of(*world, data_attributes(cluster@)[k]),
                    #[trigger] wanted[k],
                ) && wanted[k].len() == wanted[0].len() by {
                    assert(columns@[k].well_typed());
                    assert(column_rows(columns@)[k] == cell_views(columns@[k].cells@));
                    assert(column_rows(columns@)[0] == cell_views(columns@[0].cells@));
                }
            }
            if makes_batch(*world, cluster@) {
                assert forall|k: int| 0 <= k < columns@.len() implies {
                    &&& (#[trigger] columns@[k]).well_typed()
                    &&& fits(columns@[k].ty, cell_views(columns@[k].cells@))
                    &&& columns@[k].cells@.len() == columns@[0].cells@.len()
                } by {
                    assert(wanted[k] == cell_views(columns@[k].cells@));
                    assert(wanted[0] == cell_views(columns@[0].cells@));
                }
            }
        }
    }
    match record_batch(&names, &columns) {
        Ok(batch) => Ok(ClusterFile { path, schema, batch }),
        Err(e) => Err(e),
    }
}

/// The clusters that an export works on: the configured ones, or else the
/// detected ones.
pub open spec fn chosen_clusters(world: WorldSnapshot, config: ParquetConfig) -> Seq<
    Seq<AttributeKey>,
> {
    match config.component_clusters {
        Some(manual) => key_lists(manual@),
        None => clusters_of(signatures_of(world, world.entities@)),
    }
}

/// The clusters that an export writes: the configured ones, or else the
/// detected ones, without those that hold no marker attribute.
pub fn select_clusters(world: &WorldSnapshot, config: &ParquetConfig) -> (r: Vec<Vec<Attribute>>)
    ensures
        key_lists(r@) == surviving(chosen_clusters(*world, *config)),
{
    match &config.component_clusters {
        Some(manual) => surviving_clusters(manual),
        None => {
            let detected = detect_component_clusters(world);
            surviving_clusters(&detected)
        },
    }
}

/// Exports clusters in order and stops at the first that fails: the files of
/// the clusters before it are returned together with its error.
pub fn serialize_clusters(
    world: &WorldSnapshot,
    config: &ParquetConfig,
    clusters: &Vec<Vec<Attribute>>,
) -> (r: (Vec<ClusterFile>, Result<(), ParquetError>))
    ensures
        r.0@.len() <= clusters@.len(),
        forall|k: int|
            0 <= k < r.0@.len() ==> written(*world, *config, clusters@[k]@, #[trigger] r.0@[k]),
        match r.1 {
            Ok(_) => r.0@.len() == clusters@.len(),
            Err(e) => r.0@.len() < clusters@.len() && fails_with(
                *world,
                clusters@[r.0@.len() as int]@,
                e,
            ),
        },
{
    let mut files: Vec<ClusterFile> = Vec::new();
    let mut i: usize = 0;
    while i < clusters.len()
        invariant
            i <= clusters.len(),
            files.len() == i,
            forall|k: int|
                0 <= k < i ==> written(*world, *config, clusters@[k]@, #[trigger] files@[k]),
        decreases clusters.len() - i,
    {
        match serialize_cluster(world, config, &clusters[i]) {
            Ok(file) => {
                files.push(file);
            },
            Err(e) => {
                return (files, Err(e));
            },
        }
        i = i + 1;
    }
    (files, Ok(()))
}

/// Exports a snapshot of the store. The clusters are the configured ones,
/// or else the detected ones; those without a marker attribute are dropped,
/// and the others are recorded in the state and exported in order. The
/// export stops at the first cluster that fails: the files of the clusters
/// before it are returned together with its error.
pub fn serialize_world(world: &WorldSnapshot, config: &ParquetConfig, state: &mut ParquetState)
    -> (r: (Vec<ClusterFile>, Result<(), ParquetError>))
    ensures
        key_lists(final(state).component_clusters@) == surviving(chosen_clusters(*world, *config)),
        final(state).type_to_column == old(state).type_to_column,
        r.0@.len() <= final(state).component_clusters@.len(),
        forall|k: int|
            0 <= k < r.0@.len() ==> written(
                *world,
                *config,
                final(state).component_clusters@[k]@,
                #[trigger] r.0@[k],
            ),
        match r.1 {
            Ok(_) => r.0@.len() == final(state).component_clusters@.len(),
            Err(e) => r.0@.len() < final(state).component_clusters@.len() && fails_with(
                *world,
                final(state).component_clusters@[r.0@.len() as int]@,
                e,
            ),
        },
{
    let clusters = select_clusters(world, config);
    let outcome = serialize_clusters(world, config, &clusters);
    state.component_clusters = clusters;
    outcome
}

/// The batch that is written for a cluster has one column and one field for
/// each attribute of the cluster that is not a marker, all its columns have
/// as many rows, and a column whose attribute fails on none of the
/// qualifying entities has one row for each of them.
pub proof fn lemma_written_shape(
    world: WorldSnapshot,
    config: ParquetConfig,
    cluster: Seq<Attribute>,
    file: ClusterFile,
)
    requires
        written(world, config, cluster, file),
    ensures
        batch_columns(file.batch).len() == cluster.len() - marker_count(cluster),
        batch_fields(file.batch).len() == cluster.len() - marker_count(cluster),
        forall|i: int|
            0 <= i < batch_columns(file.batch).len() ==> (#[trigger] batch_columns(
                file.batch,
            )[i]).len() == batch_columns(file.batch)[0].len(),
        forall|i: int|
            0 <= i < batch_columns(file.batch).len() && none_fails(
                world,
                qualifying(world, cluster),
                data_attributes(cluster)[i],
            ) ==> (#[trigger] batch_columns(file.batch)[i]).len() == qualifying(
                world,
                cluster,
            ).len(),
{
    lemma_data_attributes(cluster);
    let columns = cluster_columns(world, cluster);
    assert forall|i: int|
        0 <= i < columns.len() && none_fails(
            world,
            qualifying(world, cluster),
            data_attributes(cluster)[i],
        ) implies (#[trigger] columns[i]).len() == qualifying(world, cluster).len() by {
        lemma_column_length(world, qualifying(world, cluster), data_attributes(cluster)[i]);
    }
}

/// The qualifying entities are entities of the store, in rising order, and
/// each carries every attribute of the cluster that is not a marker.
pub proof fn lemma_qualifying(world: WorldSnapshot, attributes: Seq<Attribute>, n: int)
    requires
        0 <= n <= world.entities@.len(),
    ensures
        qualifying_upto(world, attributes, n).len() <= n,
        forall|k: int|
            0 <= k < qualifying_upto(world, attributes, n).len() ==> {
                let p = #[trigger] qualifying_upto(world, attributes, n)[k];
                p < n && possesses(world.entities@[p as int], attributes)
            },
        forall|p: int|
            0 <= p < n && possesses(#[trigger] world.entities@[p], attributes)
                ==> qualifying_upto(world, attributes, n).contains(p as usize),
    decreases n,
{
    if n > 0 {
        assert(world.entities.len() == world.entities@.len());
        lemma_qualifying(world, attributes, n - 1);
        let before = qualifying_upto(world, attributes, n - 1);
        let all = qualifying_upto(world, attributes, n);
        assert forall|k: int| 0 <= k < all.len() implies {
            let p = #[trigger] all[k];
            p < n && possesses(world.entities@[p as int], attributes)
        } by {
            if k < before.len() {
                assert(all[k] == before[k]);
            }
        }
        assert forall|p: int|
            0 <= p < n && possesses(#[trigger] world.entities@[p], attributes) implies all.contains(
            p as usize,
        ) by {
            if p < n - 1 {
                assert(before.contains(p as usize));
                let k = choose|k: int| 0 <= k < before.len() && before[k] == p as usize;
                assert(all[k] == p as usize);
            } else {
                assert(all[all.len() - 1] == p as usize);
            }
        }
    }
}

} // verus!
