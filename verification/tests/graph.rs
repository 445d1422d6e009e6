use cognitive_memory::graph::{
    new_id, new_record, record_of, valid_relation, GraphError, InMemoryGraphStore, MemoryRecord,
};

fn record(id: &str, text: &str) -> MemoryRecord {
    record_of(id.to_string(), "2024-01-01T00:00:00.000Z".to_string(), text, None)
}

fn two() -> InMemoryGraphStore {
    let mut g = InMemoryGraphStore::default();
    g.insert(&record("mem_a", "a"));
    g.insert(&record("mem_b", "b"));
    g
}

#[test]
fn new_ids_are_prefixed_random_uuids() {
    let a = new_id();
    let b = new_id();
    assert_ne!(a, b);
    let u = uuid::Uuid::parse_str(a.strip_prefix("mem_").unwrap()).unwrap();
    assert_eq!(u.get_version_num(), 4);
    assert_eq!(a.len(), 40);
}

#[test]
fn new_records_carry_the_time_in_milliseconds() {
    let before = chrono::Utc::now().timestamp_millis();
    let r = new_record("x", Some(vec!["t".to_string()]));
    let after = chrono::Utc::now().timestamp_millis();
    assert_eq!(r.created_at.len(), 24);
    assert!(r.created_at.ends_with('Z'));
    let at = chrono::DateTime::parse_from_rfc3339(&r.created_at).unwrap().timestamp_millis();
    assert!(before <= at && at <= after);
    assert_eq!(r.text, "x");
    assert_eq!(r.tags, vec!["t".to_string()]);
}

#[test]
fn missing_tags_are_an_empty_list() {
    assert_eq!(new_record("x", None).tags, Vec::<String>::new());
}

#[test]
fn relations_are_word_characters() {
    assert!(valid_relation("RELATED_TO"));
    assert!(valid_relation("a1_Z9"));
    assert!(!valid_relation(""));
    assert!(!valid_relation("A B"));
    assert!(!valid_relation("A]->(b)"));
    assert!(!valid_relation("\u{e9}t\u{e9}"));
}

#[test]
fn stored_memory_is_read_back() {
    let mut g = InMemoryGraphStore::new();
    let r = g.store_memory("hello", Some(vec!["x".to_string()])).unwrap();
    let m = g.get_memory(&r.id).unwrap().unwrap();
    assert_eq!(m.memory, r);
    assert_eq!(m.related.len(), 0);
    assert_eq!(g.get_memory("mem_other").unwrap(), None);
}

#[test]
fn links_show_from_both_ends() {
    let mut g = two();
    let l = g.link_memories("mem_a", "mem_b", "CAUSES").unwrap();
    assert_eq!((l.from_id.as_str(), l.to_id.as_str()), ("mem_a", "mem_b"));
    let a = g.get_memory("mem_a").unwrap().unwrap();
    let b = g.get_memory("mem_b").unwrap().unwrap();
    assert_eq!(a.related.len(), 1);
    assert_eq!(a.related[0].memory, b.memory);
    assert_eq!(a.related[0].relation, "CAUSES");
    assert_eq!(a.related[0].direction, "out");
    assert_eq!(b.related.len(), 1);
    assert_eq!(b.related[0].memory, a.memory);
    assert_eq!(b.related[0].direction, "in");
}

#[test]
fn a_memory_linked_to_itself_shows_twice() {
    let mut g = two();
    g.link_memories("mem_a", "mem_a", "SELF").unwrap();
    let a = g.get_memory("mem_a").unwrap().unwrap();
    let directions: Vec<&str> = a.related.iter().map(|r| r.direction.as_str()).collect();
    assert_eq!(directions, vec!["out", "in"]);
}

#[test]
fn linking_needs_both_memories() {
    let mut g = two();
    let e = g.link_memories("mem_a", "mem_x", "R").unwrap_err();
    assert_eq!(
        e,
        GraphError::CannotLink { from_id: "mem_a".to_string(), to_id: "mem_x".to_string() }
    );
    assert_eq!(e.message(), "cannot link: memory \"mem_a\" or \"mem_x\" not found");
    assert!(g.link_memories("mem_x", "mem_b", "R").is_err());
    assert_eq!(g.get_memory("mem_a").unwrap().unwrap().related.len(), 0);
}

#[test]
fn deleting_removes_the_memory_and_its_relations_only() {
    let mut g = two();
    g.insert(&record("mem_c", "c"));
    g.link_memories("mem_a", "mem_b", "R").unwrap();
    g.link_memories("mem_b", "mem_c", "R").unwrap();
    g.link_memories("mem_c", "mem_a", "R").unwrap();
    assert_eq!(g.delete_memory("mem_a"), Ok(true));
    assert_eq!(g.delete_memory("mem_a"), Ok(false));
    assert_eq!(g.get_memory("mem_a").unwrap(), None);
    let ids: Vec<String> = g.list_all().unwrap().into_iter().map(|m| m.id).collect();
    assert_eq!(ids, vec!["mem_b".to_string(), "mem_c".to_string()]);
    assert_eq!(g.get_memory("mem_b").unwrap().unwrap().related.len(), 1);
    assert_eq!(g.get_memory("mem_c").unwrap().unwrap().related.len(), 1);
}

#[test]
fn deleting_undoes_storing() {
    let mut g = two();
    let before = g.list_all().unwrap();
    let r = g.store_memory("short-lived", None).unwrap();
    assert_eq!(g.list_all().unwrap().len(), 3);
    assert_eq!(g.delete_memory(&r.id), Ok(true));
    assert_eq!(g.list_all().unwrap(), before);
}

#[test]
fn linking_refuses_relations_that_are_no_names() {
    let mut g = two();
    for relation in ["has space", "", "A]->(b)"] {
        let e = g.link_memories("mem_a", "mem_b", relation).unwrap_err();
        assert_eq!(e, GraphError::InvalidRelation { relation: relation.to_string() });
        assert_eq!(e.message(), format!("invalid relation name: {relation}"));
    }
    // the name is looked at first
    assert!(matches!(
        g.link_memories("mem_x", "mem_y", "A B"),
        Err(GraphError::InvalidRelation { .. })
    ));
    assert_eq!(g.get_memory("mem_a").unwrap().unwrap().related.len(), 0);
}

#[test]
fn storing_and_linking_leave_other_memories_alone() {
    let mut g = two();
    g.insert(&record("mem_c", "c"));
    g.link_memories("mem_a", "mem_b", "R").unwrap();
    let before = g.get_memory("mem_a").unwrap();
    g.store_memory("new", None).unwrap();
    g.link_memories("mem_b", "mem_c", "R").unwrap();
    assert_eq!(g.get_memory("mem_a").unwrap(), before);
    assert_eq!(g.get_memory("mem_b").unwrap().unwrap().related.len(), 2);
}
