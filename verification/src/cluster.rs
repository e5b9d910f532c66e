//! The cluster detector: one greedy pass that groups entities by the
//! attributes they share.

use vstd::prelude::*;
use vstd::string::*;
use crate::store::{keys, Attribute, AttributeKey, ComponentValue, EntityRecord, WorldSnapshot};

verus! {

/// The attributes of `seed` that `other` holds too, in the order of `seed`.
pub open spec fn narrowed(seed: Seq<AttributeKey>, other: Seq<AttributeKey>) -> Seq<AttributeKey>
    decreases seed.len(),
{
    if seed.len() == 0 {
        Seq::empty()
    } else {
        let before = narrowed(seed.drop_last(), other);
        if other.contains(seed.last()) {
            before.push(seed.last())
        } else {
            before
        }
    }
}

/// Whether two signatures are alike enough to share a cluster: the
/// attributes they share are strictly more than four fifths of the
/// attributes that either has.
pub open spec fn similar(seed: Seq<AttributeKey>, other: Seq<AttributeKey>) -> bool {
    let shared = narrowed(seed, other).len();
    5 * shared > 4 * (seed.len() + other.len() - shared)
}

/// The scan that follows the choice of a seed, from entity `j` on: each
/// entity that is still free and similar to the seed as it then stands is
/// taken, and narrows the seed to what the two share. Gives the seed and the
/// flags of the taken entities at the end of the scan.
pub open spec fn scan_from(
    signatures: Seq<Seq<AttributeKey>>,
    seed: Seq<AttributeKey>,
    taken: Seq<bool>,
    j: int,
) -> (Seq<AttributeKey>, Seq<bool>)
    decreases signatures.len() - j,
{
    if j < 0 || j >= signatures.len() {
        (seed, taken)
    } else if !taken[j] && similar(seed, signatures[j]) {
        scan_from(signatures, narrowed(seed, signatures[j]), taken.update(j, true), j + 1)
    } else {
        scan_from(signatures, seed, taken, j + 1)
    }
}

/// The clusters that the pass emits from entity `i` on: each entity that is
/// still free seeds a cluster with its signature, the scan of the entities
/// after it narrows the seed, and the seed is emitted unless it is empty.
pub open spec fn clusters_from(signatures: Seq<Seq<AttributeKey>>, taken: Seq<bool>, i: int)
    -> Seq<Seq<AttributeKey>>
    decreases signatures.len() - i,
{
    if i < 0 || i >= signatures.len() {
        Seq::empty()
    } else if taken[i] {
        clusters_from(signatures, taken, i + 1)
    } else {
        let scan = scan_from(signatures, signatures[i], taken.update(i, true), i + 1);
        let rest = clusters_from(signatures, scan.1, i + 1);
        if scan.0.len() > 0 {
            seq![scan.0] + rest
        } else {
            rest
        }
    }
}

/// The flags of a store in which no entity is taken yet.
pub open spec fn all_free(n: nat) -> Seq<bool> {
    Seq::new(n, |i: int| false)
}

/// The clusters of a sequence of signatures, in the order in which the pass
/// emits them.
pub open spec fn clusters_of(signatures: Seq<Seq<AttributeKey>>) -> Seq<Seq<AttributeKey>> {
    clusters_from(signatures, all_free(signatures.len()), 0)
}

/// The contents of a sequence of signatures.
pub open spec fn key_lists(signatures: Seq<Vec<Attribute>>) -> Seq<Seq<AttributeKey>> {
    signatures.map_values(|s: Vec<Attribute>| keys(s@))
}

/// What is shared is part of the seed.
pub proof fn lemma_narrowed_len(seed: Seq<AttributeKey>, other: Seq<AttributeKey>)
    ensures
        narrowed(seed, other).len() <= seed.len(),
        forall|k: AttributeKey| #[trigger]
            narrowed(seed, other).contains(k) <==> seed.contains(k) && other.contains(k),
        seed.no_duplicates() ==> narrowed(seed, other).no_duplicates(),
    decreases seed.len(),
{
    if seed.len() > 0 {
        let front = seed.drop_last();
        lemma_narrowed_len(front, other);
        let before = narrowed(front, other);
        let result = narrowed(seed, other);
        assert forall|k: AttributeKey| #[trigger]
            result.contains(k) <==> seed.contains(k) && other.contains(k) by {
            if result.contains(k) {
                let p = choose|p: int| 0 <= p < result.len() && result[p] == k;
                if p < before.len() {
                    assert(before.contains(k));
                    assert(front.contains(k));
                    let q = choose|q: int| 0 <= q < front.len() && front[q] == k;
                    assert(seed[q] == k);
                } else {
                    assert(k == seed.last());
                    assert(seed[seed.len() - 1] == k);
                }
            }
            if seed.contains(k) && other.contains(k) {
                let q = choose|q: int| 0 <= q < seed.len() && seed[q] == k;
                if q < front.len() {
                    assert(front[q] == k);
                    assert(front.contains(k));
                    assert(before.contains(k));
                    let p = choose|p: int| 0 <= p < before.len() && before[p] == k;
                    assert(result[p] == k);
                } else {
                    assert(result[result.len() - 1] == k);
                }
            }
        }
        if seed.no_duplicates() {
            assert(front.no_duplicates());
            if other.contains(seed.last()) {
                assert forall|a: int, b: int|
                    0 <= a < result.len() && 0 <= b < result.len() && a != b implies result[a]
                    != result[b] by {
                    if a == before.len() || b == before.len() {
                        let o = if a == before.len() {
                            b
                        } else {
                            a
                        };
                        if before[o] == seed.last() {
                            assert(before.contains(seed.last()));
                            assert(front.contains(seed.last()));
                            let q = choose|q: int| 0 <= q < front.len() && front[q] == seed.last();
                            assert(seed[q] == seed[seed.len() - 1]);
                        }
                    }
                }
            }
        }
    }
}

/// For signatures in which nothing stands twice, `similar` is the Jaccard
/// similarity of the two sets being strictly above four fifths: five times
/// the size of the intersection exceeds four times the size of the union.
pub proof fn lemma_similar_is_jaccard(seed: Seq<AttributeKey>, other: Seq<AttributeKey>)
    requires
        seed.no_duplicates(),
        other.no_duplicates(),
    ensures
        narrowed(seed, other).to_set() == seed.to_set().intersect(other.to_set()),
        narrowed(seed, other).len() == seed.to_set().intersect(other.to_set()).len(),
        seed.len() + other.len() - narrowed(seed, other).len() == seed.to_set().union(
            other.to_set(),
        ).len(),
        similar(seed, other) <==> 5 * seed.to_set().intersect(other.to_set()).len() > 4
            * seed.to_set().union(other.to_set()).len(),
{
    lemma_narrowed_len(seed, other);
    let shared = narrowed(seed, other);
    assert(shared.to_set() =~= seed.to_set().intersect(other.to_set()));
    shared.unique_seq_to_set();
    seed.unique_seq_to_set();
    other.unique_seq_to_set();
    vstd::set_lib::lemma_set_intersect_union_lens(seed.to_set(), other.to_set());
}

/// A signature that is not empty is similar to itself, and narrowing by
/// itself leaves it as it is.
pub proof fn lemma_similar_to_itself(s: Seq<AttributeKey>)
    ensures
        narrowed(s, s) == s,
        s.len() > 0 ==> similar(s, s),
    decreases s.len(),
{
    lemma_narrowed_whole(s, s);
}

/// Narrowing by a signature that holds all of the seed changes nothing.
proof fn lemma_narrowed_whole(seed: Seq<AttributeKey>, other: Seq<AttributeKey>)
    requires
        forall|i: int| 0 <= i < seed.len() ==> other.contains(#[trigger] seed[i]),
    ensures
        narrowed(seed, other) == seed,
    decreases seed.len(),
{
    if seed.len() > 0 {
        let front = seed.drop_last();
        assert forall|i: int| 0 <= i < front.len() implies other.contains(#[trigger] front[i]) by {
            assert(front[i] == seed[i]);
        }
        lemma_narrowed_whole(front, other);
        assert(other.contains(seed[seed.len() - 1]));
        assert(front.push(seed.last()) =~= seed);
    } else {
        assert(narrowed(seed, other) =~= seed);
    }
}

/// A scan keeps the number of flags, keeps every flag that is set, and only
/// narrows the seed.
pub proof fn lemma_scan_keeps(
    signatures: Seq<Seq<AttributeKey>>,
    seed: Seq<AttributeKey>,
    taken: Seq<bool>,
    j: int,
)
    requires
        taken.len() == signatures.len(),
    ensures
        scan_from(signatures, seed, taken, j).1.len() == taken.len(),
        forall|k: int|
            0 <= k < taken.len() && taken[k] ==> #[trigger] scan_from(
                signatures,
                seed,
                taken,
                j,
            ).1[k],
        forall|k: int|
            0 <= k < taken.len() && k < j ==> #[trigger] scan_from(signatures, seed, taken, j).1[k]
                == taken[k],
        scan_from(signatures, seed, taken, j).0.len() <= seed.len(),
    decreases signatures.len() - j,
{
    if j < 0 || j >= signatures.len() {
    } else if !taken[j] && similar(seed, signatures[j]) {
        lemma_narrowed_len(seed, signatures[j]);
        lemma_scan_keeps(signatures, narrowed(seed, signatures[j]), taken.update(j, true), j + 1);
    } else {
        lemma_scan_keeps(signatures, seed, taken, j + 1);
    }
}

/// Two signatures hold the same attributes, whatever their order.
pub open spec fn same_attributes(a: Seq<AttributeKey>, b: Seq<AttributeKey>) -> bool {
    forall|k: AttributeKey| a.contains(k) <==> b.contains(k)
}

/// Signatures that hold the same attributes, each once, are similar, and
/// narrowing one by the other leaves it as it is.
pub proof fn lemma_same_attributes_similar(a: Seq<AttributeKey>, b: Seq<AttributeKey>)
    requires
        same_attributes(a, b),
        a.no_duplicates(),
        b.no_duplicates(),
        a.len() > 0,
    ensures
        narrowed(a, b) == a,
        similar(a, b),
{
    assert forall|i: int| 0 <= i < a.len() implies b.contains(#[trigger] a[i]) by {
        assert(a.contains(a[i]));
    }
    lemma_narrowed_whole(a, b);
    assert(a.to_set() =~= b.to_set()) by {
        assert forall|k: AttributeKey| a.to_set().contains(k) <==> b.to_set().contains(k) by {
            assert(a.contains(k) <==> b.contains(k));
        }
    }
    a.unique_seq_to_set();
    b.unique_seq_to_set();
}

/// An entity that is free when the scan reaches it, and whose signature
/// holds the attributes of the seed as it then stands, is taken by that scan
/// and leaves the seed as it is: entities with the same signature land in
/// the same cluster, unless the seed was narrowed before the scan came to
/// the later one.
pub proof fn lemma_scan_takes_equal(
    signatures: Seq<Seq<AttributeKey>>,
    seed: Seq<AttributeKey>,
    taken: Seq<bool>,
    j: int,
)
    requires
        taken.len() == signatures.len(),
        0 <= j < signatures.len(),
        !taken[j],
        same_attributes(seed, signatures[j]),
        seed.no_duplicates(),
        signatures[j].no_duplicates(),
        seed.len() > 0,
    ensures
        scan_from(signatures, seed, taken, j) == scan_from(
            signatures,
            seed,
            taken.update(j, true),
            j + 1,
        ),
        scan_from(signatures, seed, taken, j).1[j],
{
    lemma_same_attributes_similar(seed, signatures[j]);
    lemma_scan_keeps(signatures, seed, taken.update(j, true), j + 1);
}

/// Over entities that all have the signature `s`, a scan seeded with `s`
/// takes every entity from `j` on and ends with `s`.
proof fn lemma_scan_identical(
    signatures: Seq<Seq<AttributeKey>>,
    s: Seq<AttributeKey>,
    taken: Seq<bool>,
    j: int,
)
    requires
        taken.len() == signatures.len(),
        0 <= j <= signatures.len(),
        s.len() > 0,
        forall|k: int| 0 <= k < signatures.len() ==> #[trigger] signatures[k] == s,
    ensures
        scan_from(signatures, s, taken, j).0 == s,
        forall|k: int|
            j <= k < signatures.len() ==> #[trigger] scan_from(signatures, s, taken, j).1[k],
    decreases signatures.len() - j,
{
    if j < signatures.len() {
        if !taken[j] {
            lemma_similar_to_itself(s);
            lemma_scan_identical(signatures, s, taken.update(j, true), j + 1);
            lemma_scan_keeps(signatures, s, taken.update(j, true), j + 1);
        } else {
            lemma_scan_identical(signatures, s, taken, j + 1);
            lemma_scan_keeps(signatures, s, taken, j + 1);
        }
    }
}

/// From an entity on from which all are taken, nothing more is emitted.
proof fn lemma_clusters_all_taken(signatures: Seq<Seq<AttributeKey>>, taken: Seq<bool>, i: int)
    requires
        taken.len() == signatures.len(),
        forall|k: int| i <= k < signatures.len() ==> #[trigger] taken[k],
    ensures
        clusters_from(signatures, taken, i) == Seq::<Seq<AttributeKey>>::empty(),
    decreases signatures.len() - i,
{
    if 0 <= i < signatures.len() {
        assert(taken[i]);
        lemma_clusters_all_taken(signatures, taken, i + 1);
    }
}

/// Entities that all have the same signature, which is not empty, form
/// exactly one cluster, and it is that signature.
pub proof fn lemma_identical_signatures_one_cluster(
    signatures: Seq<Seq<AttributeKey>>,
    s: Seq<AttributeKey>,
)
    requires
        signatures.len() > 0,
        s.len() > 0,
        forall|k: int| 0 <= k < signatures.len() ==> #[trigger] signatures[k] == s,
    ensures
        clusters_of(signatures) == seq![s],
{
    let free = all_free(signatures.len());
    let first = free.update(0, true);
    lemma_scan_identical(signatures, s, first, 1);
    lemma_scan_keeps(signatures, s, first, 1);
    let scan = scan_from(signatures, signatures[0], first, 1);
    lemma_clusters_all_taken(signatures, scan.1, 1);
    assert(seq![s] + Seq::<Seq<AttributeKey>>::empty() =~= seq![s]);
}

/// Every attribute of `cluster` stands in `signature`.
pub open spec fn part_of(cluster: Seq<AttributeKey>, signature: Seq<AttributeKey>) -> bool {
    forall|k: AttributeKey| #[trigger] cluster.contains(k) ==> signature.contains(k)
}

/// What a scan ends with is part of the seed it started with.
pub proof fn lemma_scan_narrows(
    signatures: Seq<Seq<AttributeKey>>,
    seed: Seq<AttributeKey>,
    taken: Seq<bool>,
    j: int,
)
    ensures
        part_of(scan_from(signatures, seed, taken, j).0, seed),
        seed.no_duplicates() ==> scan_from(signatures, seed, taken, j).0.no_duplicates(),
    decreases signatures.len() - j,
{
    if j < 0 || j >= signatures.len() {
    } else if !taken[j] && similar(seed, signatures[j]) {
        let less = narrowed(seed, signatures[j]);
        lemma_narrowed_len(seed, signatures[j]);
        lemma_scan_narrows(signatures, less, taken.update(j, true), j + 1);
        let end = scan_from(signatures, seed, taken, j).0;
        assert forall|k: AttributeKey| #[trigger] end.contains(k) implies seed.contains(k) by {
            assert(less.contains(k));
        }
    } else {
        lemma_scan_narrows(signatures, seed, taken, j + 1);
    }
}

/// `cluster` is not empty and is part of the signature of one of the
/// entities from `i` on.
pub open spec fn grown_from(
    signatures: Seq<Seq<AttributeKey>>,
    cluster: Seq<AttributeKey>,
    i: int,
) -> bool {
    &&& cluster.len() > 0
    &&& exists|e: int| i <= e < signatures.len() && part_of(cluster, #[trigger] signatures[e])
}

/// The pass emits at most one cluster for each entity, and every cluster
/// that it emits is not empty and is part of the signature of the entity
/// that seeded it.
pub proof fn lemma_clusters_grown(signatures: Seq<Seq<AttributeKey>>, taken: Seq<bool>, i: int)
    requires
        taken.len() == signatures.len(),
        0 <= i,
    ensures
        i <= signatures.len() ==> clusters_from(signatures, taken, i).len() <= signatures.len() - i,
        i > signatures.len() ==> clusters_from(signatures, taken, i).len() == 0,
        forall|c: int|
            0 <= c < clusters_from(signatures, taken, i).len() ==> grown_from(
                signatures,
                #[trigger] clusters_from(signatures, taken, i)[c],
                i,
            ),
    decreases signatures.len() - i,
{
    if i < signatures.len() {
        if taken[i] {
            lemma_clusters_grown(signatures, taken, i + 1);
            let rest = clusters_from(signatures, taken, i + 1);
            assert forall|c: int| 0 <= c < rest.len() implies grown_from(
                signatures,
                #[trigger] rest[c],
                i,
            ) by {
                lemma_grown_earlier(signatures, rest[c], i + 1, i);
            }
        } else {
            let scan = scan_from(signatures, signatures[i], taken.update(i, true), i + 1);
            lemma_scan_keeps(signatures, signatures[i], taken.update(i, true), i + 1);
            lemma_scan_narrows(signatures, signatures[i], taken.update(i, true), i + 1);
            lemma_clusters_grown(signatures, scan.1, i + 1);
            let rest = clusters_from(signatures, scan.1, i + 1);
            let all = clusters_from(signatures, taken, i);
            assert forall|c: int| 0 <= c < all.len() implies grown_from(
                signatures,
                #[trigger] all[c],
                i,
            ) by {
                if scan.0.len() > 0 && c == 0 {
                    assert(all[c] == scan.0);
                    assert(part_of(scan.0, signatures[i]));
                } else {
                    let r = if scan.0.len() > 0 {
                        c - 1
                    } else {
                        c
                    };
                    assert(all[c] == rest[r]);
                    lemma_grown_earlier(signatures, rest[r], i + 1, i);
                }
            }
        }
    }
}

/// What has grown from a later entity on has grown from an earlier one on.
proof fn lemma_grown_earlier(
    signatures: Seq<Seq<AttributeKey>>,
    cluster: Seq<AttributeKey>,
    later: int,
    earlier: int,
)
    requires
        earlier <= later,
        grown_from(signatures, cluster, later),
    ensures
        grown_from(signatures, cluster, earlier),
{
    let e = choose|e: int|
        later <= e < signatures.len() && part_of(cluster, #[trigger] signatures[e]);
    assert(earlier <= e < signatures.len() && part_of(cluster, signatures[e]));
}

/// Whether `wanted` stands in `attributes`.
pub fn holds(attributes: &Vec<Attribute>, wanted: &Attribute) -> (r: bool)
    ensures
        r == keys(attributes@).contains(wanted@),
{
    let mut i: usize = 0;
    while i < attributes.len()
        invariant
            i <= attributes.len(),
            forall|j: int| 0 <= j < i ==> #[trigger] keys(attributes@)[j] != wanted@,
        decreases attributes.len() - i,
    {
        if attributes[i].same(wanted) {
            proof {
                assert(keys(attributes@)[i as int] == wanted@);
            }
            return true;
        }
        i = i + 1;
    }
    false
}

/// The attributes of `seed` that `other` holds too, in the order of `seed`.
pub fn narrow(seed: &Vec<Attribute>, other: &Vec<Attribute>) -> (r: Vec<Attribute>)
    ensures
        keys(r@) == narrowed(keys(seed@), keys(other@)),
{
    let mut out: Vec<Attribute> = Vec::new();
    let mut i: usize = 0;
    proof {
        assert(keys(seed@).take(0) =~= Seq::<AttributeKey>::empty());
        assert(keys(out@) =~= Seq::<AttributeKey>::empty());
    }
    while i < seed.len()
        invariant
            i <= seed.len(),
            keys(out@) == narrowed(keys(seed@).take(i as int), keys(other@)),
        decreases seed.len() - i,
    {
        proof {
            assert(keys(seed@).take(i + 1).drop_last() =~= keys(seed@).take(i as int));
            assert(keys(seed@).take(i + 1).last() == seed@[i as int]@);
        }
        if holds(other, &seed[i]) {
            let ghost before = out@;
            out.push(seed[i].duplicate());
            proof {
                assert(keys(out@) =~= keys(before).push(seed@[i as int]@));
            }
        }
        i = i + 1;
    }
    proof {
        assert(keys(seed@).take(seed.len() as int) =~= keys(seed@));
    }
    out
}

/// Whether `shared` attributes in common make two signatures of `a` and `b`
/// attributes similar.
fn exceeds_threshold(shared: usize, a: usize, b: usize) -> (r: bool)
    requires
        shared <= a,
    ensures
        r == (5 * shared > 4 * (a + b - shared)),
{
    let s: u128 = shared as u128;
    let either: u128 = (a as u128) + (b as u128) - s;
    5 * s > 4 * either
}

/// A copy of a signature.
pub fn duplicate_all(attributes: &Vec<Attribute>) -> (r: Vec<Attribute>)
    ensures
        r@ == attributes@,
{
    let mut out: Vec<Attribute> = Vec::new();
    let mut i: usize = 0;
    while i < attributes.len()
        invariant
            i <= attributes.len(),
            out@ == attributes@.take(i as int),
        decreases attributes.len() - i,
    {
        out.push(attributes[i].duplicate());
        proof {
            assert(out@ =~= attributes@.take(i + 1));
        }
        i = i + 1;
    }
    proof {
        assert(attributes@.take(attributes.len() as int) =~= attributes@);
    }
    out
}

/// Groups signatures into clusters in one greedy pass, in the order given.
/// The pass depends on that order: a seed is narrowed while its scan runs,
/// and later entities are compared with the narrowed seed.
pub fn cluster_signatures(signatures: &Vec<Vec<Attribute>>) -> (r: Vec<Vec<Attribute>>)
    ensures
        key_lists(r@) == clusters_of(key_lists(signatures@)),
{
    let n = signatures.len();
    let ghost all = key_lists(signatures@);
    let mut taken: Vec<bool> = Vec::new();
    let mut k: usize = 0;
    while k < n
        invariant
            k <= n,
            taken@ == all_free(k as nat),
        decreases n - k,
    {
        taken.push(false);
        proof {
            assert(taken@ =~= all_free((k + 1) as nat));
        }
        k = k + 1;
    }
    let mut out: Vec<Vec<Attribute>> = Vec::new();
    let mut i: usize = 0;
    proof {
        assert(key_lists(out@) =~= Seq::<Seq<AttributeKey>>::empty());
        assert(key_lists(out@) + clusters_from(all, taken@, 0) =~= clusters_from(all, taken@, 0));
    }
    while i < n
        invariant
            i <= n,
            n == signatures.len(),
            all == key_lists(signatures@),
            taken.len() == n,
            clusters_of(all) == key_lists(out@) + clusters_from(all, taken@, i as int),
        decreases n - i,
    {
        if !taken[i] {
            let ghost at_seed = taken@;
            taken.set(i, true);
            let mut seed = duplicate_all(&signatures[i]);
            let mut j: usize = i + 1;
            while j < n
                invariant
                    i < j <= n,
                    n == signatures.len(),
                    all == key_lists(signatures@),
                    taken.len() == n,
                    scan_from(all, all[i as int], at_seed.update(i as int, true), i + 1)
                        == scan_from(all, keys(seed@), taken@, j as int),
                decreases n - j,
            {
                if !taken[j] {
                    let shared = narrow(&seed, &signatures[j]);
                    proof {
                        lemma_narrowed_len(keys(seed@), keys(signatures@[j as int]@));
                    }
                    if exceeds_threshold(shared.len(), seed.len(), signatures[j].len()) {
                        seed = shared;
                        taken.set(j, true);
                    }
                }
                j = j + 1;
            }
            if seed.len() > 0 {
                let ghost before = out@;
                out.push(seed);
                proof {
                    let scan = scan_from(all, all[i as int], at_seed.update(i as int, true), i + 1);
                    let rest = clusters_from(all, scan.1, i + 1);
                    assert(key_lists(out@) =~= key_lists(before) + seq![scan.0]);
                    assert(key_lists(before) + (seq![scan.0] + rest) =~= (key_lists(before) + seq![
                        scan.0,
                    ]) + rest);
                }
            }
        }
        i = i + 1;
    }
    proof {
        assert(key_lists(out@) + Seq::<Seq<AttributeKey>>::empty() =~= key_lists(out@));
    }
    out
}

/// The reference under which clustering sees the attribute `id`: its name
/// and id, where the store knows the attribute and its type is one of the
/// registered ones.
pub open spec fn allowed_key(world: WorldSnapshot, id: usize) -> Option<AttributeKey> {
    match world.spec_info(id) {
        Some(info) => if world.spec_is_known(info.type_id) {
            Some((info.name@, id))
        } else {
            None
        },
        None => None,
    }
}

/// The signature of an entity: the allowed attributes among its components,
/// in their order, each once.
pub open spec fn signature_keys(world: WorldSnapshot, components: Seq<ComponentValue>) -> Seq<
    AttributeKey,
>
    decreases components.len(),
{
    if components.len() == 0 {
        Seq::empty()
    } else {
        let before = signature_keys(world, components.drop_last());
        match allowed_key(world, components.last().id) {
            Some(k) => if before.contains(k) {
                before
            } else {
                before.push(k)
            },
            None => before,
        }
    }
}

/// The signatures of the entities that have at least one allowed attribute,
/// in the order of the entities.
pub open spec fn signatures_of(world: WorldSnapshot, entities: Seq<EntityRecord>) -> Seq<
    Seq<AttributeKey>,
>
    decreases entities.len(),
{
    if entities.len() == 0 {
        Seq::empty()
    } else {
        let before = signatures_of(world, entities.drop_last());
        let signature = signature_keys(world, entities.last().components@);
        if signature.len() > 0 {
            before.push(signature)
        } else {
            before
        }
    }
}

/// Nothing stands twice in a signature.
pub proof fn lemma_signature_distinct(world: WorldSnapshot, components: Seq<ComponentValue>)
    ensures
        signature_keys(world, components).no_duplicates(),
    decreases components.len(),
{
    if components.len() > 0 {
        lemma_signature_distinct(world, components.drop_last());
    }
}

/// No signature that clustering sees is empty, and nothing stands twice in
/// one.
pub proof fn lemma_signatures_valid(world: WorldSnapshot, entities: Seq<EntityRecord>)
    ensures
        forall|i: int|
            0 <= i < signatures_of(world, entities).len() ==> (#[trigger] signatures_of(
                world,
                entities,
            )[i]).len() > 0 && signatures_of(world, entities)[i].no_duplicates(),
    decreases entities.len(),
{
    if entities.len() > 0 {
        lemma_signatures_valid(world, entities.drop_last());
        lemma_signature_distinct(world, entities.last().components@);
        let before = signatures_of(world, entities.drop_last());
        let all = signatures_of(world, entities);
        assert forall|i: int| 0 <= i < all.len() implies (#[trigger] all[i]).len() > 0
            && all[i].no_duplicates() by {
            if i < before.len() {
                assert(all[i] == before[i]);
            }
        }
    }
}

/// The signature of an entity.
pub fn signature(world: &WorldSnapshot, entity: &EntityRecord) -> (r: Vec<Attribute>)
    ensures
        keys(r@) == signature_keys(*world, entity.components@),
{
    let mut out: Vec<Attribute> = Vec::new();
    let mut i: usize = 0;
    proof {
        assert(entity.components@.take(0) =~= Seq::<ComponentValue>::empty());
        assert(keys(out@) =~= Seq::<AttributeKey>::empty());
    }
    while i < entity.components.len()
        invariant
            i <= entity.components.len(),
            keys(out@) == signature_keys(*world, entity.components@.take(i as int)),
        decreases entity.components.len() - i,
    {
        proof {
            assert(entity.components@.take(i + 1).drop_last() =~= entity.components@.take(
                i as int,
            ));
            assert(entity.components@.take(i + 1).last() == entity.components@[i as int]);
        }
        let id = entity.components[i].id;
        match world.info(id) {
            Some(info) => {
                if world.is_known(info.type_id) {
                    let candidate = Attribute { name: info.name.clone(), id };
                    if !holds(&out, &candidate) {
                        let ghost before = out@;
                        out.push(candidate);
                        proof {
                            assert(keys(out@) =~= keys(before).push(candidate@));
                        }
                    }
                }
            },
            None => {},
        }
        i = i + 1;
    }
    proof {
        assert(entity.components@.take(entity.components.len() as int) =~= entity.components@);
    }
    out
}

/// Detects the clusters of a store: the signatures of its entities, those
/// without an allowed attribute left out, grouped in one greedy pass in the
/// order of the entities.
pub fn detect_component_clusters(world: &WorldSnapshot) -> (r: Vec<Vec<Attribute>>)
    ensures
        key_lists(r@) == clusters_of(signatures_of(*world, world.entities@)),
{
    let mut signatures: Vec<Vec<Attribute>> = Vec::new();
    let mut i: usize = 0;
    proof {
        assert(world.entities@.take(0) =~= Seq::<EntityRecord>::empty());
        assert(key_lists(signatures@) =~= Seq::<Seq<AttributeKey>>::empty());
    }
    while i < world.entities.len()
        invariant
            i <= world.entities.len(),
            key_lists(signatures@) == signatures_of(*world, world.entities@.take(i as int)),
        decreases world.entities.len() - i,
    {
        proof {
            assert(world.entities@.take(i + 1).drop_last() =~= world.entities@.take(i as int));
            assert(world.entities@.take(i + 1).last() == world.entities@[i as int]);
        }
        let s = signature(world, &world.entities[i]);
        if s.len() > 0 {
            let ghost before = signatures@;
            let ghost content = keys(s@);
            signatures.push(s);
            proof {
                assert(key_lists(signatures@) =~= key_lists(before).push(content));
            }
        }
        i = i + 1;
    }
    proof {
        assert(world.entities@.take(world.entities.len() as int) =~= world.entities@);
    }
    cluster_signatures(&signatures)
}

} // verus!
