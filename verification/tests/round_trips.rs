//! Whole operations of the service and the tools, on stores kept in memory.
use cognitive_memory::embeddings::{EmbeddingResult, HashEmbeddings};
use cognitive_memory::graph::{InMemoryGraphStore, MemoryRecord};
use cognitive_memory::in_memory::{perform_on_graph, perform_on_index};
use cognitive_memory::server::{
    Answer, ContextParams, DeleteParams, GetParams, LinkParams, MemoryMcpServer, SearchParams,
    StoreParams, ToolError,
};
use cognitive_memory::service::{
    Action, ContextResult, Flow, MemoryService, Outcome, Reply, SearchResult, Step,
};
use cognitive_memory::vectors::{InMemoryVectorStore, VectorRecord};

fn cosine_similarity(a: &[f32], b: &[f32]) -> f32 {
    let mut dot = 0.0;
    let mut na = 0.0;
    let mut nb = 0.0;
    for i in 0..a.len() {
        dot += a[i] * b[i];
        na += a[i] * a[i];
        nb += b[i] * b[i];
    }
    let denom = na.sqrt() * nb.sqrt();
    dot / if denom != 0.0 { denom } else { 1.0 }
}

fn bits(v: &[f32]) -> Vec<u32> {
    v.iter().map(|x| x.to_bits()).collect()
}

fn floats(v: &[u32]) -> Vec<f32> {
    v.iter().map(|x| f32::from_bits(*x)).collect()
}

fn embed(provider: &HashEmbeddings, text: &str) -> EmbeddingResult {
    let raw = provider.embed(text);
    let mut vector: Vec<f32> = raw.counts.iter().map(|c| *c as f32).collect();
    let norm: f32 = vector.iter().map(|v| v * v).sum::<f32>().sqrt();
    if norm > 0.0 {
        for v in &mut vector {
            *v /= norm;
        }
    }
    EmbeddingResult { vector: bits(&vector), model: raw.model }
}

/// Both stores in memory and a provider; an index can be made to fail.
struct Stack {
    graph: InMemoryGraphStore,
    vectors: InMemoryVectorStore,
    provider: HashEmbeddings,
    broken_index: bool,
    broken_provider: bool,
    log: Vec<&'static str>,
}

impl Stack {
    fn new() -> Stack {
        Stack {
            graph: InMemoryGraphStore::new(),
            vectors: InMemoryVectorStore::new(),
            provider: HashEmbeddings::new(64),
            broken_index: false,
            broken_provider: false,
            log: Vec::new(),
        }
    }

    fn service(&self) -> MemoryService {
        MemoryService::new(&self.provider.model())
    }

    fn perform(&mut self, action: Action) -> Reply {
        let name = match &action {
            Action::StoreMemory { .. } => "store",
            Action::LinkMemories { .. } => "link",
            Action::GetMemory { .. } => "get",
            Action::DeleteMemory { .. } => "delete",
            Action::ListAll => "list",
            Action::CloseGraph => "close graph",
            Action::Embed { .. } => "embed",
            Action::Upsert { .. } => "upsert",
            Action::SearchVectors { .. } => "search vectors",
            Action::DeleteVector { .. } => "delete vector",
            Action::DeleteAllVectors => "delete all vectors",
            Action::ListModels => "models",
            Action::CloseVectors => "close vectors",
        };
        self.log.push(name);
        match action {
            Action::Embed { text } => {
                if self.broken_provider {
                    Reply::Failed("no provider".to_string())
                } else {
                    Reply::Embedded(embed(&self.provider, &text))
                }
            }
            Action::StoreMemory { .. }
            | Action::LinkMemories { .. }
            | Action::GetMemory { .. }
            | Action::DeleteMemory { .. }
            | Action::ListAll
            | Action::CloseGraph => perform_on_graph(&mut self.graph, action),
            other => {
                if self.broken_index {
                    return Reply::Failed("no index".to_string());
                }
                let mut scores: Vec<u32> = Vec::new();
                if let Action::SearchVectors { vector, .. } = &other {
                    let query = floats(vector);
                    let mut i: usize = 0;
                    while let Some(p) = self.vectors.point(i) {
                        scores.push(cosine_similarity(&query, &floats(&p.vector)).to_bits());
                        i += 1;
                    }
                }
                perform_on_index(&mut self.vectors, other, &scores)
            }
        }
    }

    fn run(&mut self, flow: Flow) -> Outcome {
        let mut flow = flow;
        loop {
            match flow.next() {
                Step::Done(outcome) => return outcome,
                Step::Do(action) => {
                    let reply = self.perform(action);
                    assert!(flow.expects(&reply));
                    flow = flow.reply(reply);
                }
            }
        }
    }

    fn store(&mut self, text: &str) -> MemoryRecord {
        let flow = self.service().store(text, None);
        match self.run(flow) {
            Outcome::Stored(r) => r,
            _ => panic!("not stored"),
        }
    }

    fn search(&mut self, query: &str, top_k: Option<usize>) -> Vec<SearchResult> {
        let flow = self.service().search(query, top_k);
        match self.run(flow) {
            Outcome::Results(r) => r,
            _ => panic!("no results"),
        }
    }

    fn context(&mut self, message: &str, top_k: Option<usize>) -> Vec<ContextResult> {
        let flow = self.service().context(message, top_k);
        match self.run(flow) {
            Outcome::Context(r) => r,
            _ => panic!("no context"),
        }
    }

    fn delete(&mut self, id: &str) -> bool {
        let flow = self.service().delete(id);
        match self.run(flow) {
            Outcome::Deleted(b) => b,
            _ => panic!("not deleted"),
        }
    }

    fn reindex(&mut self) -> usize {
        let flow = self.service().reindex();
        match self.run(flow) {
            Outcome::Reindexed(n) => n,
            _ => panic!("not reindexed"),
        }
    }

    fn drift(&mut self) -> Vec<String> {
        let flow = self.service().embedding_model_drift();
        match self.run(flow) {
            Outcome::Drift(d) => d,
            _ => panic!("no drift"),
        }
    }

    fn tools(&self) -> MemoryMcpServer {
        MemoryMcpServer::new(self.service())
    }

    fn answer(&mut self, id: &str, flow: Flow) -> Result<Answer, ToolError> {
        let outcome = self.run(flow);
        MemoryMcpServer::answer(id, outcome)
    }
}

// ---- the service -----------------------------------------------------------

#[test]
fn store_reindex_search_round_trip_heals_index_drift() {
    let mut s = Stack::new();

    let a = s.store("alpha stores secrets in vault-7");
    s.store("the beta cluster is for staging");

    // simulate index loss
    s.vectors.delete_all();
    assert_eq!(s.vectors.count(), 0);

    // reindex rebuilds from the graph
    let n = s.reindex();
    assert_eq!(n, 2);
    assert_eq!(s.vectors.count(), 2);

    let hits = s.search("alpha stores secrets in vault-7", None);
    assert_eq!(hits[0].memory.id, a.id);

    // index model matches current provider: empty drift
    assert_eq!(s.drift(), Vec::<String>::new());

    // foreign model in index: reported
    s.vectors.upsert(&VectorRecord {
        memory_id: "mem_x".to_string(),
        vector: bits(&[1.0, 0.0]),
        model: "old-model-v1".to_string(),
    });
    assert_eq!(s.drift(), vec!["old-model-v1".to_string()]);
}

#[test]
fn search_hydrates_from_graph_and_skips_orphaned_vectors() {
    let mut s = Stack::new();
    let a = s.store("deploy server 192.168.0.50");
    let embedded = embed(&HashEmbeddings::new(64), "deploy server 192.168.0.50");
    // orphaned vector: points at a memory that no longer exists in the graph
    s.vectors.upsert(&VectorRecord {
        memory_id: "mem_orphan".to_string(),
        vector: embedded.vector,
        model: "h".to_string(),
    });

    let hits = s.search("deploy server 192.168.0.50", Some(5));
    // orphan skipped (not in graph), real memory returned
    assert!(hits.iter().all(|h| h.memory.id != "mem_orphan"));
    assert!(hits.iter().any(|h| h.memory.id == a.id));
}

#[test]
fn storing_writes_the_graph_first_then_the_index() {
    let mut s = Stack::new();
    let r = s.store("one fact");
    assert_eq!(s.log, vec!["store", "embed", "upsert"]);
    assert_eq!(r.id.len(), 40);
    assert!(r.id.starts_with("mem_"));
    assert!(r.created_at.ends_with('Z'));
    let p = s.vectors.point(0).unwrap();
    assert_eq!(p.memory_id, r.id);
    assert_eq!(p.model, "local-hash-64");
    assert_eq!(p.vector, embed(&s.provider, "one fact").vector);
    assert_eq!(s.graph.list_all().unwrap(), vec![r]);
}

#[test]
fn failing_provider_ends_storing_before_the_index() {
    let mut s = Stack::new();
    s.broken_provider = true;
    let flow = s.service().store("kept in the graph", None);
    match s.run(flow) {
        Outcome::Failed(e) => assert_eq!(e, "no provider"),
        _ => panic!("stored"),
    }
    assert_eq!(s.log, vec!["store", "embed"]);
    assert_eq!(s.graph.list_all().unwrap().len(), 1);
    assert_eq!(s.vectors.count(), 0);
    // the graph is the source of truth: reindexing brings the index in step
    s.broken_provider = false;
    assert_eq!(s.reindex(), 1);
    assert_eq!(s.search("kept in the graph", None).len(), 1);
}

#[test]
fn failing_index_does_not_fail_a_deletion() {
    let mut s = Stack::new();
    let r = s.store("soon gone");
    s.broken_index = true;
    assert!(s.delete(&r.id));
    s.broken_index = false;
    assert_eq!(s.vectors.count(), 1);
    // the orphaned vector is harmless
    assert_eq!(s.search("soon gone", None).len(), 0);
}

#[test]
fn deleting_cleans_both_stores() {
    let mut s = Stack::new();
    let r = s.store("first");
    s.store("second");
    s.log.clear();
    assert!(s.delete(&r.id));
    assert_eq!(s.log, vec!["delete", "delete vector"]);
    assert_eq!(s.vectors.count(), 1);
    s.log.clear();
    // nothing to clean when there was no memory
    assert!(!s.delete(&r.id));
    assert_eq!(s.log, vec!["delete"]);
}

#[test]
fn search_and_context_have_default_limits() {
    let mut s = Stack::new();
    for i in 0..8 {
        s.store(&format!("note number {i}"));
    }
    assert_eq!(s.search("note number 3", None).len(), 5);
    assert_eq!(s.search("note number 3", Some(7)).len(), 7);
    assert_eq!(s.search("note number 3", Some(0)).len(), 0);
    assert_eq!(s.context("note number 3", None).len(), 3);
    assert_eq!(s.context("note number 3", Some(4)).len(), 4);
}

#[test]
fn wide_search_finds_every_memory_best_first() {
    let mut s = Stack::new();
    let a = s.store("graph databases store relations");
    let b = s.store("vector databases store embeddings");
    let c = s.store("unrelated");
    let hits = s.search("vector databases store embeddings", Some(3));
    assert_eq!(hits.len(), 3);
    assert_eq!(hits[0].memory.id, b.id);
    assert_eq!(hits[1].memory.id, a.id);
    assert_eq!(hits[2].memory.id, c.id);
    let scores: Vec<f32> = hits.iter().map(|h| f32::from_bits(h.score)).collect();
    assert!((scores[0] - 1.0).abs() < 1e-5);
    let query = floats(&embed(&s.provider, "vector databases store embeddings").vector);
    let other = floats(&embed(&s.provider, "graph databases store relations").vector);
    assert_eq!(scores[1], cosine_similarity(&query, &other));
    assert!(scores[0] >= scores[1] && scores[1] >= scores[2]);
}

#[test]
fn context_carries_neighborhoods() {
    let mut s = Stack::new();
    let a = s.store("the api gateway");
    let b = s.store("the billing database");
    let flow = s.service().link(&a.id, &b.id, "USES");
    match s.run(flow) {
        Outcome::Linked(l) => assert_eq!(l.relation, "USES"),
        _ => panic!("not linked"),
    }
    let found = s.context("the api gateway", Some(1));
    assert_eq!(found.len(), 1);
    assert_eq!(found[0].memory.id, a.id);
    assert_eq!(found[0].related.len(), 1);
    assert_eq!(found[0].related[0].memory.id, b.id);
    assert_eq!(found[0].related[0].direction, "out");
}

#[test]
fn reindexing_forgets_what_the_index_held() {
    let mut s = Stack::new();
    let a = s.store("kept");
    s.vectors.upsert(&VectorRecord {
        memory_id: "mem_stray".to_string(),
        vector: bits(&[1.0]),
        model: "other".to_string(),
    });
    s.vectors.upsert(&VectorRecord {
        memory_id: a.id.clone(),
        vector: bits(&[2.0]),
        model: "older".to_string(),
    });
    assert_eq!(s.drift(), vec!["older".to_string(), "other".to_string()]);
    s.log.clear();
    assert_eq!(s.reindex(), 1);
    assert_eq!(s.log, vec!["list", "delete all vectors", "embed", "upsert"]);
    assert_eq!(s.vectors.count(), 1);
    assert_eq!(s.vectors.point(0).unwrap().memory_id, a.id);
    assert_eq!(s.vectors.point(0).unwrap().vector, embed(&s.provider, "kept").vector);
    let b = s.store("added");
    s.reindex();
    let ids: Vec<&str> =
        (0..2).map(|i| s.vectors.point(i).unwrap().memory_id.as_str()).collect();
    assert_eq!(ids, vec![a.id.as_str(), b.id.as_str()]);
    assert_eq!(s.drift(), Vec::<String>::new());
}

#[test]
fn reindexing_nothing_empties_the_index() {
    let mut s = Stack::new();
    s.vectors.upsert(&VectorRecord {
        memory_id: "mem_stray".to_string(),
        vector: bits(&[1.0]),
        model: "other".to_string(),
    });
    assert_eq!(s.reindex(), 0);
    assert_eq!(s.vectors.count(), 0);
}

#[test]
fn failing_index_ends_a_search_and_a_reindex() {
    let mut s = Stack::new();
    s.store("something");
    s.broken_index = true;
    let flow = s.service().search("something", None);
    assert!(matches!(s.run(flow), Outcome::Failed(e) if e == "no index"));
    let flow = s.service().reindex();
    assert!(matches!(s.run(flow), Outcome::Failed(e) if e == "no index"));
    let flow = s.service().embedding_model_drift();
    assert!(matches!(s.run(flow), Outcome::Failed(e) if e == "no index"));
}

#[test]
fn closing_closes_the_graph_then_the_index() {
    let mut s = Stack::new();
    let flow = s.service().close();
    assert!(matches!(s.run(flow), Outcome::Closed));
    assert_eq!(s.log, vec!["close graph", "close vectors"]);
}

#[test]
fn a_reply_to_another_action_is_not_expected() {
    let s = Stack::new();
    let flow = s.service().get("mem_1");
    assert!(!flow.expects(&Reply::Finished));
    assert!(!flow.expects(&Reply::Removed(true)));
    assert!(flow.expects(&Reply::Fetched(None)));
    assert!(flow.expects(&Reply::Failed("x".to_string())));
    let flow = flow.reply(Reply::Fetched(None));
    assert!(matches!(flow.next(), Step::Done(Outcome::Fetched(None))));
    assert!(!flow.expects(&Reply::Fetched(None)));
}

// ---- the tools -------------------------------------------------------------

#[test]
fn store_search_round_trip_and_shared_layer() {
    let mut s = Stack::new();

    // client 1 stores a memory
    let flow = s.tools().memory_store(&StoreParams {
        text: "the deploy server is at 192.168.0.50".to_string(),
        tags: Some(vec!["infra".to_string()]),
    });
    let stored = match s.answer("", flow) {
        Ok(Answer::Record(r)) => r,
        _ => panic!("not stored"),
    };
    assert!(stored.id.starts_with("mem_"));
    assert_eq!(stored.tags, vec!["infra".to_string()]);

    // client 2 finds it: one shared layer
    let flow = s
        .tools()
        .memory_search(&SearchParams {
            query: "the deploy server is at 192.168.0.50".to_string(),
            top_k: None,
        })
        .unwrap_or_else(|_| panic!("refused"));
    match s.answer("", flow) {
        Ok(Answer::Results(found)) => {
            assert_eq!(found.len(), 1);
            assert_eq!(found[0].memory.id, stored.id);
        }
        _ => panic!("no results"),
    }

    // the context tool returns the memory for a related message
    let flow = s
        .tools()
        .memory_context(&ContextParams {
            message: "the deploy server is at 192.168.0.50".to_string(),
            top_k: None,
        })
        .unwrap_or_else(|_| panic!("refused"));
    match s.answer("", flow) {
        Ok(Answer::Context(found)) => assert_eq!(found.len(), 1),
        _ => panic!("no context"),
    }
}

#[test]
fn get_and_delete_round_trip() {
    let mut s = Stack::new();
    let flow = s.tools().memory_store(&StoreParams {
        text: "k8s cluster prod-1".to_string(),
        tags: None,
    });
    let id = match s.answer("", flow) {
        Ok(Answer::Record(r)) => r.id,
        _ => panic!("not stored"),
    };

    // get
    let flow = s.tools().memory_get(&GetParams { id: id.clone() });
    match s.answer(&id, flow) {
        Ok(Answer::Memory(m)) => {
            assert_eq!(m.memory.text, "k8s cluster prod-1");
            assert_eq!(m.memory.tags.len(), 0);
        }
        _ => panic!("not found"),
    }

    // get missing
    let flow = s.tools().memory_get(&GetParams { id: "mem_missing".to_string() });
    match s.answer("mem_missing", flow) {
        Ok(Answer::Text(t)) => assert_eq!(t, "memory \"mem_missing\" not found"),
        _ => panic!("found"),
    }

    // delete
    let flow = s.tools().memory_delete(&DeleteParams { id: id.clone() });
    match s.answer(&id, flow) {
        Ok(Answer::Text(t)) => assert_eq!(t, format!("deleted {id}")),
        _ => panic!("not deleted"),
    }

    // delete again: not found
    let flow = s.tools().memory_delete(&DeleteParams { id: id.clone() });
    match s.answer(&id, flow) {
        Ok(Answer::Text(t)) => assert_eq!(t, format!("memory \"{id}\" not found")),
        _ => panic!("deleted twice"),
    }
}

#[test]
fn link_and_context_round_trip() {
    let mut s = Stack::new();
    let a = s.store("rust rewrite done");
    let b = s.store("fastembed ported to rust");

    let flow = s.tools().memory_link(&LinkParams {
        from_id: a.id.clone(),
        to_id: b.id.clone(),
        relation: "RELATED_TO".to_string(),
    });
    match s.answer("", flow) {
        Ok(Answer::Link(link)) => {
            assert_eq!(link.relation, "RELATED_TO");
            assert_eq!(link.from_id, a.id);
            assert_eq!(link.to_id, b.id);
        }
        _ => panic!("not linked"),
    }

    // get expands the neighborhood
    let flow = s.tools().memory_get(&GetParams { id: a.id.clone() });
    match s.answer(&a.id, flow) {
        Ok(Answer::Memory(m)) => {
            assert_eq!(m.related.len(), 1);
            assert_eq!(m.related[0].direction, "out");
        }
        _ => panic!("not found"),
    }
}

#[test]
fn failures_of_the_stores_are_internal_errors() {
    let mut s = Stack::new();
    let flow = s.tools().memory_link(&LinkParams {
        from_id: "mem_a".to_string(),
        to_id: "mem_b".to_string(),
        relation: "R".to_string(),
    });
    match s.answer("", flow) {
        Err(ToolError::Internal { message }) => {
            assert_eq!(message, "cannot link: memory \"mem_a\" or \"mem_b\" not found")
        }
        _ => panic!("linked"),
    }
    let a = s.store("a");
    let flow = s.tools().memory_link(&LinkParams {
        from_id: a.id.clone(),
        to_id: a.id,
        relation: "not a name".to_string(),
    });
    match s.answer("", flow) {
        Err(ToolError::Internal { message }) => {
            assert_eq!(message, "invalid relation name: not a name")
        }
        _ => panic!("linked"),
    }
}
