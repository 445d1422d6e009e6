use cognitive_memory::vectors::{
    rank, score_place, uuid_from_digest, uuid_to_ulid, InMemoryVectorStore,
    VectorRecord, COLLECTION_NAME,
};

fn fake_vector(seed: u32, dim: usize) -> Vec<f32> {
    (0..dim)
        .map(|i| ((seed * (i as u32 + 3)) % 7) as f32 / 7.0)
        .collect()
}

fn cosine_similarity(a: &[f32], b: &[f32]) -> f32 {
    let mut dot = 0.0;
    let mut na = 0.0;
    let mut nb = 0.0;
    for i in 0..a.len() {
        dot += a[i] * b[i];
        na += a[i] * a[i];
        nb += b[i] * b[i];
    }
    let denom = na.sqrt() * nb.sqrt();
    dot / if denom != 0.0 { denom } else { 1.0 }
}

fn bits(v: &[f32]) -> Vec<u32> {
    v.iter().map(|x| x.to_bits()).collect()
}

fn scores(store: &InMemoryVectorStore, query: &[f32]) -> Vec<u32> {
    let mut r = Vec::new();
    let mut i = 0;
    while let Some(p) = store.point(i) {
        let v: Vec<f32> = p.vector.iter().map(|b| f32::from_bits(*b)).collect();
        r.push(cosine_similarity(query, &v).to_bits());
        i += 1;
    }
    r
}

fn point(id: &str, vector: &[f32], model: &str) -> VectorRecord {
    VectorRecord { memory_id: id.to_string(), vector: bits(vector), model: model.to_string() }
}

#[test]
fn strips_mem_prefix_deterministically() {
    let id = "mem_123e4567-e89b-42d3-a456-426614174000";
    assert_eq!(uuid_to_ulid(id), "123e4567-e89b-42d3-a456-426614174000");
    assert_eq!(uuid_to_ulid(id), uuid_to_ulid(id));
}

#[test]
fn non_uuid_ids_get_a_deterministic_uuid_shaped_hash() {
    let out = uuid_to_ulid("weird-id");
    assert!(uuid::Uuid::parse_str(&out).is_ok(), "not uuid-shaped: {out}");
    assert_eq!(out, uuid_to_ulid("weird-id"));
}

#[test]
fn hashed_ids_are_md5_digests() {
    assert_eq!(uuid_to_ulid("weird-id"), "5f557c2e-0745-415d-a415-ea51f2ece7f6");
    // the whole id is hashed, prefix included
    assert_eq!(uuid_to_ulid("mem_x"), "7974b1d4-6e87-c531-ab77-b06a9ed3cc1c");
    assert_eq!(uuid_to_ulid("mem_\u{e9}"), "73ccf503-e5af-3a76-866d-59ddf0c73b27");
    assert_eq!(uuid_to_ulid(""), "d41d8cd9-8f00-b204-e980-0998ecf8427e");
}

#[test]
fn every_form_of_a_uuid_is_read() {
    let plain = "123e4567-e89b-42d3-a456-426614174000";
    assert_eq!(uuid_to_ulid("123E4567-E89B-42D3-A456-426614174000"), plain);
    assert_eq!(uuid_to_ulid("mem_123e4567e89b42d3a456426614174000"), plain);
    assert_eq!(uuid_to_ulid("{123e4567-e89b-42d3-a456-426614174000}"), plain);
    assert_eq!(uuid_to_ulid("urn:uuid:123e4567-e89b-42d3-a456-426614174000"), plain);
    assert_eq!(uuid_to_ulid("URN:UUID:123e4567-e89b-42d3-a456-426614174000"), plain);
    // one prefix only, and only complete UUIDs
    assert_ne!(uuid_to_ulid("mem_mem_123e4567-e89b-42d3-a456-426614174000"), plain);
    assert_ne!(uuid_to_ulid("{123e4567e89b42d3a456426614174000}"), plain);
    assert_ne!(uuid_to_ulid("123e4567-e89b-42d3-a456-42661417400"), plain);
    assert_ne!(uuid_to_ulid("123e4567-e89b-42d3-a456_426614174000"), plain);
}

#[test]
fn point_ids_are_stable_and_distinct() {
    let a = cognitive_memory::graph::new_id();
    let b = cognitive_memory::graph::new_id();
    assert_eq!(format!("mem_{}", uuid_to_ulid(&a)), a);
    assert_ne!(uuid_to_ulid(&a), uuid_to_ulid(&b));
    let p = uuid_to_ulid("weird-id");
    assert_eq!(uuid_to_ulid(&p), p);
}

#[test]
fn prefixed_and_bare_uuids_share_a_point() {
    for form in ["{123e4567-e89b-42d3-a456-426614174000}", "123E4567E89B42D3A456426614174000"] {
        assert_eq!(uuid_to_ulid(form), "123e4567-e89b-42d3-a456-426614174000");
        assert_eq!(uuid_to_ulid(&format!("mem_{form}")), uuid_to_ulid(form));
    }
    assert_ne!(
        uuid_to_ulid("mem_123e4567-e89b-42d3-a456-426614174000"),
        uuid_to_ulid("mem_123e4567-e89b-42d3-a456-426614174001")
    );
}

#[test]
fn digests_are_grouped() {
    let digest: Vec<u8> = (0..16).map(|i| i * 17).collect();
    assert_eq!(uuid_from_digest(&digest), "00112233-4455-6677-8899-aabbccddeeff");
}

#[test]
fn points_in_memory_are_written_found_and_deleted() {
    let mut store = InMemoryVectorStore::default();
    for (id, seed) in [
        ("mem_00000000-0000-4000-8000-000000000001", 1),
        ("mem_00000000-0000-4000-8000-000000000002", 1),
        ("mem_00000000-0000-4000-8000-000000000003", 5),
    ] {
        store.upsert(&point(id, &fake_vector(seed, 4), "m1"));
    }

    assert_eq!(store.count(), 3);

    let hits = store.search(&scores(&store, &fake_vector(1, 4)), 2);
    assert_eq!(hits.len(), 2);
    // exact-match vectors score highest
    assert!(hits[0].memory_id.ends_with("0001") || hits[0].memory_id.ends_with("0002"));
    assert!(f32::from_bits(hits[0].score) > 0.99);

    store.delete("mem_00000000-0000-4000-8000-000000000001");
    assert_eq!(store.count(), 2);
}

#[test]
fn nothing_is_found_in_an_empty_index() {
    let store = InMemoryVectorStore::new();
    let hits = store.search(&scores(&store, &fake_vector(1, 4)), 5);
    assert!(hits.is_empty());
}

#[test]
fn upserting_replaces_the_point_of_a_memory() {
    let mut store = InMemoryVectorStore::new();
    store.upsert(&point("a", &[1.0], "m1"));
    store.upsert(&point("b", &[2.0], "m1"));
    store.upsert(&point("a", &[3.0], "m2"));
    assert_eq!(store.count(), 2);
    assert_eq!(store.point(0).unwrap().vector, bits(&[3.0]));
    assert_eq!(store.point(0).unwrap().model, "m2");
    assert_eq!(store.point(1).unwrap().memory_id, "b");
    assert!(store.point(2).is_none());
    store.upsert(&point("a", &[3.0], "m2"));
    assert_eq!(store.count(), 2);
}

#[test]
fn deleting_leaves_other_points() {
    let mut store = InMemoryVectorStore::new();
    store.upsert(&point("a", &[1.0], "m1"));
    store.upsert(&point("b", &[2.0], "m1"));
    store.delete("c");
    assert_eq!(store.count(), 2);
    store.delete("a");
    assert_eq!(store.count(), 1);
    assert_eq!(store.point(0).unwrap().memory_id, "b");
    store.delete_all();
    assert_eq!(store.count(), 0);
}

#[test]
fn search_ranks_by_score_and_then_by_age() {
    let mut store = InMemoryVectorStore::new();
    for id in ["a", "b", "c", "d"] {
        store.upsert(&point(id, &[1.0], "m"));
    }
    let given = bits(&[0.5, -0.25, 0.5, 0.75]);
    let ids: Vec<String> = store.search(&given, 10).into_iter().map(|h| h.memory_id).collect();
    assert_eq!(ids, vec!["d", "a", "c", "b"]);
    let top: Vec<u32> = store.search(&given, 2).into_iter().map(|h| h.score).collect();
    assert_eq!(top, bits(&[0.75, 0.5]));
    assert_eq!(store.search(&given, 0).len(), 0);
}

#[test]
fn scores_that_are_no_numbers_lose_no_point() {
    let mut store = InMemoryVectorStore::new();
    for id in ["a", "b", "c"] {
        store.upsert(&point(id, &[1.0], "m"));
    }
    let mut ids: Vec<String> = store
        .search(&bits(&[0.5, f32::NAN, 0.75]), 3)
        .into_iter()
        .map(|h| h.memory_id)
        .collect();
    ids.sort();
    assert_eq!(ids, vec!["a", "b", "c"]);
}

#[test]
fn scores_compare_as_numbers() {
    let ordered = [
        f32::NEG_INFINITY,
        -2.0,
        -1.0,
        -f32::MIN_POSITIVE,
        0.0,
        f32::MIN_POSITIVE,
        0.5,
        1.0,
        f32::INFINITY,
    ];
    for i in 0..ordered.len() {
        for j in 0..ordered.len() {
            let left = score_place(ordered[i].to_bits());
            let right = score_place(ordered[j].to_bits());
            assert_eq!(ordered[i] < ordered[j], left < right);
            assert_eq!(ordered[i] == ordered[j], left == right);
        }
    }
    assert_eq!(score_place((-0.0f32).to_bits()), score_place(0.0f32.to_bits()));
}

#[test]
fn ranking_lists_every_point_once() {
    assert_eq!(rank(&bits(&[1.0, 3.0, 2.0, 3.0])), vec![1, 3, 2, 0]);
    assert_eq!(rank(&Vec::new()), Vec::<usize>::new());
}

#[test]
fn models_are_listed_once_in_order() {
    let mut store = InMemoryVectorStore::new();
    for (id, model) in [("a", "zeta"), ("b", "alpha"), ("c", "zeta"), ("d", "Beta")] {
        store.upsert(&point(id, &[1.0], model));
    }
    assert_eq!(store.models(), vec!["Beta", "alpha", "zeta"]);
    assert_eq!(InMemoryVectorStore::new().models(), Vec::<String>::new());
}

#[test]
fn the_collection_has_a_name() {
    assert_eq!(COLLECTION_NAME, "memories");
}
