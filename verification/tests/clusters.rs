use bevy_parquet::cluster::{cluster_signatures, detect_component_clusters, narrow, signature};
use bevy_parquet::store::{
    Attribute, AttributeInfo, ComponentValue, EntityRecord, TypeRegistration, WorldSnapshot,
};
use bevy_parquet::types::TypeDescriptor;

fn attribute(id: usize) -> Attribute {
    Attribute { name: format!("game::A{}", id), id }
}

fn signature_of_ids(ids: std::ops::Range<usize>) -> Vec<Attribute> {
    ids.map(attribute).collect()
}

fn ids(cluster: &Vec<Attribute>) -> Vec<usize> {
    cluster.iter().map(|a| a.id).collect()
}

fn world(known: usize, total: usize, entities: Vec<Vec<usize>>) -> WorldSnapshot {
    WorldSnapshot {
        attributes: (0..total)
            .map(|i| AttributeInfo { name: format!("game::A{}", i), type_id: Some(i as u64) })
            .collect(),
        registry: (0..known)
            .map(|i| TypeRegistration {
                type_id: i as u64,
                descriptor: TypeDescriptor::Other,
                reflectable: true,
            })
            .collect(),
        entities: entities
            .into_iter()
            .enumerate()
            .map(|(n, ids)| EntityRecord {
                id: n as u64,
                components: ids.into_iter().map(|id| ComponentValue { id, value: None }).collect(),
            })
            .collect(),
    }
}

#[test]
fn similarity_of_exactly_four_fifths_does_not_merge() {
    let clusters = cluster_signatures(&vec![signature_of_ids(0..5), signature_of_ids(0..4)]);
    assert_eq!(clusters.len(), 2);
    assert_eq!(ids(&clusters[0]), vec![0, 1, 2, 3, 4]);
    assert_eq!(ids(&clusters[1]), vec![0, 1, 2, 3]);
}

#[test]
fn similarity_of_eighty_one_hundredths_merges() {
    let clusters = cluster_signatures(&vec![signature_of_ids(0..100), signature_of_ids(0..81)]);
    assert_eq!(clusters.len(), 1);
    assert_eq!(ids(&clusters[0]), (0..81).collect::<Vec<_>>());
}

#[test]
fn similarity_of_five_sixths_merges_and_narrows() {
    let clusters = cluster_signatures(&vec![signature_of_ids(0..6), signature_of_ids(1..6)]);
    assert_eq!(clusters.len(), 1);
    assert_eq!(ids(&clusters[0]), vec![1, 2, 3, 4, 5]);
}

#[test]
fn identical_signatures_share_one_cluster() {
    let clusters = cluster_signatures(&vec![
        signature_of_ids(0..3),
        signature_of_ids(0..3),
        signature_of_ids(0..3),
    ]);
    assert_eq!(clusters.len(), 1);
    assert_eq!(ids(&clusters[0]), vec![0, 1, 2]);
}

#[test]
fn unrelated_signatures_keep_their_own_clusters() {
    let clusters = cluster_signatures(&vec![signature_of_ids(0..2), signature_of_ids(5..7)]);
    assert_eq!(clusters.len(), 2);
    assert_eq!(ids(&clusters[0]), vec![0, 1]);
    assert_eq!(ids(&clusters[1]), vec![5, 6]);
}

#[test]
fn later_entities_meet_the_narrowed_seed() {
    // The seed of ten attributes is narrowed to nine by the second entity;
    // the third, of eight of the nine, then reaches 8 / 9 and merges, though
    // against the first signature it has only 8 / 10.
    let clusters = cluster_signatures(&vec![
        signature_of_ids(0..10),
        signature_of_ids(0..9),
        signature_of_ids(0..8),
    ]);
    assert_eq!(clusters.len(), 1);
    assert_eq!(ids(&clusters[0]), (0..8).collect::<Vec<_>>());
}

#[test]
fn the_order_of_the_entities_decides() {
    let clusters = cluster_signatures(&vec![
        signature_of_ids(0..10),
        signature_of_ids(0..8),
        signature_of_ids(0..9),
    ]);
    assert_eq!(clusters.len(), 2);
    assert_eq!(ids(&clusters[0]), (0..9).collect::<Vec<_>>());
    assert_eq!(ids(&clusters[1]), (0..8).collect::<Vec<_>>());
}

#[test]
fn an_empty_signature_gives_no_cluster() {
    let clusters = cluster_signatures(&vec![Vec::new(), signature_of_ids(0..1)]);
    assert_eq!(clusters.len(), 1);
    assert_eq!(ids(&clusters[0]), vec![0]);
}

#[test]
fn no_entities_give_no_clusters() {
    assert!(cluster_signatures(&Vec::new()).is_empty());
}

#[test]
fn narrow_keeps_the_order_of_the_seed() {
    let seed = vec![attribute(3), attribute(1), attribute(2)];
    let other = vec![attribute(2), attribute(3), attribute(7)];
    assert_eq!(ids(&narrow(&seed, &other)), vec![3, 2]);
}

#[test]
fn narrow_tells_apart_names_under_one_id() {
    let seed = vec![Attribute { name: "a::X".to_string(), id: 1 }];
    let other = vec![Attribute { name: "b::X".to_string(), id: 1 }];
    assert!(narrow(&seed, &other).is_empty());
}

#[test]
fn a_signature_holds_only_known_types_and_each_once() {
    let w = world(2, 4, vec![vec![3, 1, 0, 1, 9]]);
    let s = signature(&w, &w.entities[0]);
    assert_eq!(ids(&s), vec![1, 0]);
    assert_eq!(s[0].name, "game::A1");
}

#[test]
fn an_attribute_without_a_type_id_is_not_clustered() {
    let mut w = world(2, 2, vec![vec![0, 1]]);
    w.attributes[1].type_id = None;
    assert_eq!(ids(&signature(&w, &w.entities[0])), vec![0]);
}

#[test]
fn detection_leaves_out_entities_without_known_attributes() {
    let w = world(2, 4, vec![vec![2, 3], vec![0, 1], vec![], vec![1, 0, 3]]);
    let clusters = detect_component_clusters(&w);
    assert_eq!(clusters.len(), 1);
    assert_eq!(ids(&clusters[0]), vec![0, 1]);
}

#[test]
fn detection_follows_the_order_of_the_store() {
    let w = world(8, 8, vec![vec![0, 1], vec![4, 5, 6], vec![1, 0], vec![6, 5, 4]]);
    let clusters = detect_component_clusters(&w);
    assert_eq!(clusters.len(), 2);
    assert_eq!(ids(&clusters[0]), vec![0, 1]);
    assert_eq!(ids(&clusters[1]), vec![4, 5, 6]);
}
