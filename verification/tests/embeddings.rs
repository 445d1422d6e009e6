use cognitive_memory::embeddings::{
    bucket_of, count_windows, create_embedding_provider, quote, tally, trim_end_slashes, EmbeddingBackend,
    EmbeddingError, EmbeddingsConfig, EmbeddingsProviderKind, HashEmbeddings, LocalEmbeddings,
    OpenAICompatibleEmbeddings, FULL_BUCKET,
};

fn as_singles(v: Vec<u64>) -> Vec<f32> {
    v.into_iter().map(|b| f64::from_bits(b) as f32).collect()
}

#[test]
fn openai_compatible_posts_to_embeddings_with_model_and_bearer_header() {
    let provider = OpenAICompatibleEmbeddings::new("http://127.0.0.1:4000", "sk-test", "emb-1");
    let request = provider.request("hello");
    assert_eq!(request.url, "http://127.0.0.1:4000/embeddings");
    assert_eq!(request.model, "emb-1");
    assert_eq!(request.input, "hello");
    assert_eq!(request.authorization.as_deref(), Some("Bearer sk-test"));

    let vector =
        OpenAICompatibleEmbeddings::answered(b"{\"data\":[{\"embedding\":[0.1,0.2]}]}").unwrap();
    assert_eq!(as_singles(vector), vec![0.1, 0.2]);
    assert_eq!(provider.model(), "emb-1");
    let result = provider
        .received(200, Ok(b"{\"data\":[{\"embedding\":[0.1,0.2]}]}".to_vec()))
        .unwrap();
    assert_eq!(as_singles(result.vector), vec![0.1, 0.2]);
    assert_eq!(result.model, "emb-1");
}

#[test]
fn no_apikey_means_no_authorization_header() {
    let provider = OpenAICompatibleEmbeddings::new("http://127.0.0.1:4000", "", "emb-1");
    assert!(provider.request("hello").authorization.is_none());
    let vector =
        OpenAICompatibleEmbeddings::answered(b"{\"data\":[{\"embedding\":[1.0]}]}").unwrap();
    assert_eq!(as_singles(vector), vec![1.0]);
}

#[test]
fn endpoint_error_surfaces_status_and_body() {
    let provider = OpenAICompatibleEmbeddings::new("http://127.0.0.1:4000", "", "emb-1");
    let err = provider
        .received(501, Ok(b"{\"error\":\"no embeddings support\"}".to_vec()))
        .unwrap_err()
        .message();
    assert!(err.contains("501"), "missing status: {err}");
    assert!(err.contains("no embeddings support"), "missing body: {err}");
    assert_eq!(
        err,
        "embedding endpoint error 501 for model \"emb-1\": {\"error\":\"no embeddings support\"}"
    );
}

#[test]
fn create_embedding_provider_selects_openai_compatible_when_configured() {
    let p = create_embedding_provider(
        &EmbeddingsConfig {
            provider: EmbeddingsProviderKind::OpenAICompatible,
            baseurl: Some("http://x/v1".to_string()),
            apikey: None,
            model: Some("emb-1".to_string()),
        },
        None,
    );
    assert_eq!(p.model(), "emb-1");
}

#[test]
fn create_embedding_provider_falls_back_to_local_semantic_model() {
    let p = create_embedding_provider(
        &EmbeddingsConfig {
            provider: EmbeddingsProviderKind::Local,
            baseurl: None,
            apikey: None,
            model: None,
        },
        None,
    );
    assert_eq!(p.model(), "bge-small-en-v1.5");
}

#[test]
fn incomplete_endpoint_configuration_falls_back_to_the_local_model() {
    for (baseurl, model) in [(Some("http://x"), None), (None, Some("emb-1"))] {
        let p = create_embedding_provider(
            &EmbeddingsConfig {
                provider: EmbeddingsProviderKind::OpenAICompatible,
                baseurl: baseurl.map(String::from),
                apikey: None,
                model: model.map(String::from),
            },
            Some("/cache".to_string()),
        );
        match p {
            EmbeddingBackend::Local(l) => assert_eq!(l.cache_dir().as_deref(), Some("/cache")),
            EmbeddingBackend::OpenAICompatible(_) => panic!("endpoint selected"),
        }
    }
}

#[test]
fn local_model_is_not_replaced_by_an_endpoint_that_nobody_asked_for() {
    let p = create_embedding_provider(
        &EmbeddingsConfig {
            provider: EmbeddingsProviderKind::Local,
            baseurl: Some("http://x".to_string()),
            apikey: Some("k".to_string()),
            model: Some("emb-1".to_string()),
        },
        None,
    );
    assert!(matches!(p, EmbeddingBackend::Local(_)));
}

#[test]
fn selected_endpoint_keeps_its_key() {
    let p = create_embedding_provider(
        &EmbeddingsConfig {
            provider: EmbeddingsProviderKind::OpenAICompatible,
            baseurl: Some("http://x/v1/".to_string()),
            apikey: Some("k1".to_string()),
            model: Some("emb-1".to_string()),
        },
        None,
    );
    match p {
        EmbeddingBackend::OpenAICompatible(e) => {
            let request = e.request("t");
            assert_eq!(request.url, "http://x/v1/embeddings");
            assert_eq!(request.authorization.as_deref(), Some("Bearer k1"));
        }
        EmbeddingBackend::Local(_) => panic!("local model selected"),
    }
}

#[test]
fn hash_embeddings_deterministic_normalized_fixed_dims() {
    let h = HashEmbeddings::new(64);
    let a = h.embed("hello world");
    let b = h.embed("hello world");
    assert_eq!(a.counts, b.counts);
    assert_eq!(a.counts.len(), 64);
    let mut vector: Vec<f32> = a.counts.iter().map(|c| *c as f32).collect();
    let length: f32 = vector.iter().map(|v| v * v).sum::<f32>().sqrt();
    for v in &mut vector {
        *v /= length;
    }
    let norm: f32 = vector.iter().map(|v| v * v).sum::<f32>().sqrt();
    assert!((norm - 1.0).abs() < 1e-5, "norm was {norm}");
}

#[test]
fn hash_embeddings_count_trigrams_by_md5() {
    assert_eq!(HashEmbeddings::new(8).embed("abcabc").counts, vec![0, 2, 0, 0, 1, 0, 1, 0]);
    assert_eq!(HashEmbeddings::new(8).embed("Hello World").counts, vec![0, 1, 1, 3, 2, 1, 1, 0]);
    // the case does not matter
    assert_eq!(HashEmbeddings::new(4).embed("ABC").counts, vec![0, 1, 0, 0]);
    assert_eq!(HashEmbeddings::new(4).embed("abc").counts, vec![0, 1, 0, 0]);
    // beyond ASCII too; windows are made of bytes
    assert_eq!(HashEmbeddings::new(4).embed("\u{c4}\u{d6}").counts, vec![1, 0, 1, 0]);
    assert_eq!(HashEmbeddings::new(4).embed("\u{e4}\u{f6}").counts, vec![1, 0, 1, 0]);
    assert_eq!(HashEmbeddings::new(4).embed("ab").counts, vec![0, 0, 0, 0]);
    assert_eq!(HashEmbeddings::new(4).model(), "local-hash-4");
}

#[test]
fn windows_are_three_bytes_long() {
    assert_eq!(count_windows(b"abcabc", 8), vec![0, 2, 0, 0, 1, 0, 1, 0]);
    assert_eq!(count_windows(b"abc", 4), vec![0, 1, 0, 0]);
    assert_eq!(count_windows(b"", 0), Vec::<u32>::new());
}

#[test]
fn only_short_texts_count_nothing() {
    let zero = |text: &str| HashEmbeddings::new(5).embed(text).counts.iter().all(|c| *c == 0);
    for short in ["", "a", "ab", "\u{e9}"] {
        assert!(zero(short));
    }
    for long in ["abc", "a\u{e9}", "\u{20ac}"] {
        assert!(!zero(long));
    }
}

#[test]
fn every_window_is_counted_once() {
    let counts = HashEmbeddings::new(7).embed("the quick brown fox").counts;
    assert_eq!(counts.iter().sum::<u32>(), 17);
}

#[test]
fn hash_embeddings_need_a_bucket() {
    let none = HashEmbeddings::new(0);
    assert!(none.try_embed("abc").is_none());
    assert_eq!(none.try_embed("ab").unwrap().counts, Vec::<u32>::new());
    assert_eq!(HashEmbeddings::new(4).try_embed("abc").unwrap().counts, vec![0, 1, 0, 0]);
    assert_eq!(none.model(), "local-hash-0");
}

#[test]
fn buckets_come_from_the_first_two_bytes() {
    assert_eq!(bucket_of(&vec![1, 2, 99], 1000), 258);
    assert_eq!(bucket_of(&vec![1, 2], 100), 58);
    assert_eq!(tally(&vec![0, 2, 2], 3), vec![1, 0, 2]);
    assert_eq!(FULL_BUCKET as f32 + 1.0, FULL_BUCKET as f32);
    assert_ne!((FULL_BUCKET - 1) as f32 + 1.0, (FULL_BUCKET - 1) as f32);
}

#[test]
fn slashes_at_the_end_of_the_address_do_not_matter() {
    assert_eq!(trim_end_slashes("http://x/v1///"), "http://x/v1");
    assert_eq!(trim_end_slashes("http://x"), "http://x");
    assert_eq!(trim_end_slashes("///"), "");
    let p = OpenAICompatibleEmbeddings::new("http://x/v1//", "", "m");
    assert_eq!(p.request("t").url, "http://x/v1/embeddings");
}

#[test]
fn long_answers_are_cut_in_error_messages() {
    let exact = "\u{e9}".repeat(200);
    assert_eq!(quote(&exact), exact);
    let long = "\u{e9}".repeat(201);
    assert_eq!(quote(&long), format!("{exact}\u{2026}"));
    assert_eq!(quote(""), "");
    let p = OpenAICompatibleEmbeddings::new("http://x", "", "m");
    assert_eq!(
        p.refused(400, &long).message(),
        format!("embedding endpoint error 400 for model \"m\": {exact}\u{2026}")
    );
}

#[test]
fn success_is_a_status_from_200_to_299() {
    for (status, success) in [(199, false), (200, true), (204, true), (299, true), (300, false)] {
        assert_eq!(OpenAICompatibleEmbeddings::is_success(status), success);
    }
}

#[test]
fn the_status_decides_what_an_answer_means() {
    let p = OpenAICompatibleEmbeddings::new("http://x", "", "m");
    let good = b"{\"data\":[{\"embedding\":[1.0]}]}".to_vec();
    assert_eq!(as_singles(p.received(201, Ok(good.clone())).unwrap().vector), vec![1.0]);
    // an embedding does not make a success of a failure
    assert_eq!(
        p.received(500, Ok(good)).unwrap_err().message(),
        "embedding endpoint error 500 for model \"m\": {\"data\":[{\"embedding\":[1.0]}]}"
    );
    assert_eq!(p.received(200, Ok(b"{}".to_vec())).unwrap_err(), EmbeddingError::NoVector);
}

#[test]
fn answers_that_break_off_are_told() {
    let p = OpenAICompatibleEmbeddings::new("http://x", "", "m");
    let err = p.received(200, Err("connection reset".to_string())).unwrap_err();
    assert_eq!(err, EmbeddingError::Unreadable { detail: "connection reset".to_string() });
    assert_eq!(err.message(), "connection reset");
    assert_eq!(
        p.received(502, Err("connection reset".to_string())).unwrap_err().message(),
        "embedding endpoint error 502 for model \"m\": "
    );
}

#[test]
fn refusals_are_quoted_as_text() {
    let p = OpenAICompatibleEmbeddings::new("http://x", "", "m");
    assert_eq!(
        p.received(400, Ok("caf\u{e9}".as_bytes().to_vec())).unwrap_err().message(),
        "embedding endpoint error 400 for model \"m\": caf\u{e9}"
    );
    assert_eq!(
        p.received(400, Ok(vec![b'a', 0xff, b'b'])).unwrap_err().message(),
        "embedding endpoint error 400 for model \"m\": a\u{fffd}b"
    );
}

#[test]
fn answers_without_an_embedding_are_errors() {
    let answers: [&[u8]; 7] = [
        b"{}",
        b"[]",
        b"{\"data\":[]}",
        b"{\"data\":{}}",
        b"{\"data\":[{}]}",
        b"{\"data\":[{\"embedding\":\"x\"}]}",
        b"null",
    ];
    for answer in answers {
        let err = OpenAICompatibleEmbeddings::answered(answer).unwrap_err();
        assert_eq!(err, EmbeddingError::NoVector);
        assert_eq!(err.message(), "embedding endpoint returned no embedding vector");
    }
}

#[test]
fn items_that_are_no_numbers_are_left_out_of_an_embedding() {
    let v = OpenAICompatibleEmbeddings::answered(
        b"{\"object\":\"list\",\"data\":[{\"index\":0,\"embedding\":[1,\"2\",null,-3.5,[4],true]},{}]}",
    )
    .unwrap();
    assert_eq!(as_singles(v), vec![1.0, -3.5]);
    let v = OpenAICompatibleEmbeddings::answered(b"{\"data\":[{\"embedding\":[]}]}").unwrap();
    assert_eq!(v, Vec::<u64>::new());
}

#[test]
fn answers_that_are_no_json_are_undecodable() {
    let err = OpenAICompatibleEmbeddings::answered(b"not json").unwrap_err();
    match &err {
        EmbeddingError::Undecodable { detail } => {
            assert_eq!(err.message(), format!("error decoding response body: {detail}"));
            assert!(detail.contains("line 1"));
        }
        _ => panic!("decoded"),
    }
}

#[test]
fn local_model_gives_the_first_vector() {
    let l = LocalEmbeddings::new(None);
    assert_eq!(l.model(), "bge-small-en-v1.5");
    assert_eq!(l.cache_dir(), None);
    let e = l.embedded(vec![vec![1, 2], vec![3]]).unwrap();
    assert_eq!(e.vector, vec![1, 2]);
    assert_eq!(e.model, "bge-small-en-v1.5");
    let err = l.embedded(Vec::new()).unwrap_err();
    assert_eq!(err, EmbeddingError::NoLocalVector);
    assert_eq!(err.message(), "fastembed returned no vectors");
}
