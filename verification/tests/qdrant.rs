use cognitive_memory::qdrant::{
    payload_string, Known, Page, PageOffset, PayloadValue, PointPayload, Preparation, QdrantError,
    QdrantVectorStore, ScanStep, ScoredPoint,
};
use cognitive_memory::vectors::VectorRecord;

fn payload(fields: &[(&str, &str)]) -> PointPayload {
    PointPayload {
        fields: fields
            .iter()
            .map(|(k, v)| (k.to_string(), PayloadValue::Text(v.to_string())))
            .collect(),
    }
}

#[test]
fn init_is_idempotent() {
    let mut store = QdrantVectorStore::new(Some(4));
    assert_eq!(store.init(Known::Nothing), Ok(Preparation::Probe));
    assert_eq!(store.init(Known::Exists(false)), Ok(Preparation::Create { size: 4 }));
    assert_eq!(store.init(Known::Created), Ok(Preparation::Ready));
    // the second call must not fail
    assert_eq!(store.init(Known::Nothing), Ok(Preparation::Probe));
    assert_eq!(store.init(Known::Exists(true)), Ok(Preparation::Ready));
}

#[test]
fn a_collection_needs_dimensions() {
    let mut store = QdrantVectorStore::new(None);
    assert_eq!(store.init(Known::Exists(true)), Ok(Preparation::Ready));
    let mut store = QdrantVectorStore::new(None);
    let err = store.init(Known::Exists(false)).unwrap_err();
    assert_eq!(err, QdrantError::DimensionsUnknown);
    assert_eq!(
        err.message(),
        "cannot create qdrant collection: embedding dimensions unknown \
         (embed one memory first or set embeddings.dimensions in config)"
    );
    // it is not ready after that
    assert_eq!(store.ensure_collection(8, Known::Nothing), Preparation::Probe);
}

#[test]
fn the_first_vector_decides_the_dimensions_unless_they_are_set() {
    for (set, size) in [(None, 384), (Some(4), 4)] {
        let mut store = QdrantVectorStore::new(set);
        assert_eq!(store.ensure_collection(384, Known::Nothing), Preparation::Probe);
        assert_eq!(
            store.ensure_collection(384, Known::Exists(false)),
            Preparation::Create { size }
        );
        assert_eq!(store.ensure_collection(384, Known::Created), Preparation::Ready);
        // from now on nothing is asked
        assert_eq!(store.ensure_collection(2, Known::Nothing), Preparation::Ready);
    }
}

#[test]
fn a_lost_collection_is_made_again_after_emptying() {
    let mut store = QdrantVectorStore::new(None);
    assert_eq!(store.ensure_collection(8, Known::Exists(true)), Preparation::Ready);
    // without a collection there is nothing to delete
    assert!(!store.delete_all(false));
    assert_eq!(store.ensure_collection(8, Known::Nothing), Preparation::Probe);
    assert_eq!(store.ensure_collection(8, Known::Exists(false)), Preparation::Create { size: 8 });
    assert_eq!(store.ensure_collection(8, Known::Created), Preparation::Ready);
    assert!(store.delete_all(true));
    assert_eq!(store.ensure_collection(8, Known::Nothing), Preparation::Ready);
}

#[test]
fn an_existing_collection_is_not_created() {
    let mut store = QdrantVectorStore::new(None);
    assert_eq!(store.ensure_collection(384, Known::Nothing), Preparation::Probe);
    assert_eq!(store.ensure_collection(384, Known::Exists(true)), Preparation::Ready);
    assert_eq!(store.ensure_collection(384, Known::Nothing), Preparation::Ready);
}

#[test]
fn points_carry_memory_and_model() {
    let p = QdrantVectorStore::upsert(&VectorRecord {
        memory_id: "mem_123e4567-e89b-42d3-a456-426614174000".to_string(),
        vector: vec![1, 2, 3],
        model: "m1".to_string(),
    });
    assert_eq!(p.id, "123e4567-e89b-42d3-a456-426614174000");
    assert_eq!(p.vector, vec![1, 2, 3]);
    assert_eq!(
        p.payload,
        vec![
            (
                "memoryId".to_string(),
                "mem_123e4567-e89b-42d3-a456-426614174000".to_string()
            ),
            ("model".to_string(), "m1".to_string()),
        ]
    );
    assert_eq!(QdrantVectorStore::delete("mem_123e4567-e89b-42d3-a456-426614174000"), p.id);
}

#[test]
fn without_a_collection_there_is_nothing_to_ask() {
    assert_eq!(QdrantVectorStore::query_limit(false, 5), None);
    assert_eq!(QdrantVectorStore::query_limit(true, 5), Some(5));
}

#[test]
fn hits_are_points_that_name_a_memory() {
    let found = vec![
        ScoredPoint { payload: payload(&[("model", "m"), ("memoryId", "mem_a")]), score: 7 },
        ScoredPoint { payload: payload(&[("memoryId", "")]), score: 6 },
        ScoredPoint { payload: payload(&[("model", "m")]), score: 5 },
        ScoredPoint {
            payload: PointPayload { fields: vec![("memoryId".to_string(), PayloadValue::Other)] },
            score: 4,
        },
        ScoredPoint { payload: payload(&[("memoryId", "mem_b")]), score: 3 },
    ];
    let hits = QdrantVectorStore::search(&found);
    let seen: Vec<(&str, u32)> = hits.iter().map(|h| (h.memory_id.as_str(), h.score)).collect();
    assert_eq!(seen, vec![("mem_a", 7), ("mem_b", 3)]);
}

#[test]
fn payload_fields_are_texts_or_nothing() {
    let p = PointPayload {
        fields: vec![
            ("a".to_string(), PayloadValue::Other),
            ("b".to_string(), PayloadValue::Text("x".to_string())),
        ],
    };
    assert_eq!(payload_string(&p, "a"), None);
    assert_eq!(payload_string(&p, "b"), Some("x".to_string()));
    assert_eq!(payload_string(&p, "c"), None);
}

#[test]
fn counts_default_to_none() {
    assert_eq!(QdrantVectorStore::count(Some(12)), 12);
    assert_eq!(QdrantVectorStore::count(None), 0);
}

#[test]
fn models_of_every_page_are_listed_once_in_order() {
    let scan = QdrantVectorStore::models();
    assert_eq!(scan.next(), ScanStep::Scroll { offset: None, limit: 1000 });
    let scan = scan.page(Page {
        payloads: vec![payload(&[("model", "z")]), payload(&[("memoryId", "mem_a")])],
        next: Some(PageOffset::Uuid("u1".to_string())),
    });
    assert_eq!(
        scan.next(),
        ScanStep::Scroll { offset: Some(PageOffset::Uuid("u1".to_string())), limit: 1000 }
    );
    let scan = scan.page(Page { payloads: Vec::new(), next: Some(PageOffset::Number(7)) });
    assert_eq!(
        scan.next(),
        ScanStep::Scroll { offset: Some(PageOffset::Number(7)), limit: 1000 }
    );
    let scan = scan.page(Page {
        payloads: vec![payload(&[("model", "a")]), payload(&[("model", "z")])],
        next: None,
    });
    assert_eq!(scan.next(), ScanStep::Done(vec!["a".to_string(), "z".to_string()]));
}

#[test]
fn an_empty_index_has_no_models() {
    let scan = QdrantVectorStore::models().page(Page { payloads: Vec::new(), next: None });
    assert_eq!(scan.next(), ScanStep::Done(Vec::new()));
}
