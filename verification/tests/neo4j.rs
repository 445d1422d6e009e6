use cognitive_memory::graph::{record_of, GraphError, LinkResult};
use cognitive_memory::neo4j::{
    create, NeighborhoodRow, Neo4jGraphStore, NodeRow, Param, RelatedItem,
};

fn text(s: &str) -> Option<String> {
    Some(s.to_string())
}

fn node(id: &str) -> NodeRow {
    NodeRow {
        id: text(id),
        text: text("t"),
        created_at: text("2024-01-01T00:00:00.000Z"),
        tags: Some(vec!["x".to_string()]),
    }
}

fn empty() -> NodeRow {
    NodeRow { id: None, text: None, created_at: None, tags: None }
}

fn name_and_text(p: &(String, Param)) -> (String, String) {
    match &p.1 {
        Param::Text(t) => (p.0.clone(), t.clone()),
        Param::Texts(_) => panic!("a list"),
    }
}

#[test]
fn the_database_is_prepared_with_a_constraint_and_an_index() {
    let statements = Neo4jGraphStore::init();
    assert_eq!(statements.len(), 2);
    assert_eq!(
        statements[0].cypher,
        "CREATE CONSTRAINT memory_id IF NOT EXISTS FOR (m:Memory) REQUIRE m.id IS UNIQUE"
    );
    assert_eq!(
        statements[1].cypher,
        "CREATE INDEX memory_text IF NOT EXISTS FOR (m:Memory) ON (m.text)"
    );
    assert!(statements[0].params.is_empty() && statements[1].params.is_empty());
}

#[test]
fn storing_hands_every_field_over_as_a_parameter() {
    let (record, statement) = Neo4jGraphStore::store_memory("hello", Some(vec!["a".to_string()]));
    assert!(record.id.starts_with("mem_"));
    assert_eq!(record.text, "hello");
    assert_eq!(
        statement.cypher,
        "CREATE (m:Memory {id: $id, text: $text, createdAt: $createdAt, tags: $tags}) RETURN m"
    );
    assert_eq!(name_and_text(&statement.params[0]), ("id".to_string(), record.id.clone()));
    assert_eq!(name_and_text(&statement.params[1]), ("text".to_string(), "hello".to_string()));
    assert_eq!(
        name_and_text(&statement.params[2]),
        ("createdAt".to_string(), record.created_at.clone())
    );
    assert_eq!(
        statement.params[3],
        ("tags".to_string(), Param::Texts(vec!["a".to_string()]))
    );
    assert_eq!(statement.params.len(), 4);
    assert_eq!(create(&record), statement);
}

#[test]
fn linking_puts_the_relation_into_the_statement() {
    let s = Neo4jGraphStore::link_memories("mem_a", "mem_b", "RELATED_TO").unwrap();
    assert_eq!(
        s.cypher,
        "MATCH (a:Memory {id: $fromId}), (b:Memory {id: $toId})\n\
         CREATE (a)-[r:RELATED_TO]->(b)\n\
         RETURN a.id AS fromId, b.id AS toId, type(r) AS relation"
    );
    assert_eq!(name_and_text(&s.params[0]), ("fromId".to_string(), "mem_a".to_string()));
    assert_eq!(name_and_text(&s.params[1]), ("toId".to_string(), "mem_b".to_string()));
    let other = Neo4jGraphStore::link_memories("mem_a", "mem_b", "RELATED").unwrap();
    assert_ne!(s, other);
}

#[test]
fn linking_refuses_other_relations() {
    for relation in ["", "A B", "A]->(b) DETACH DELETE b //", "caf\u{e9}"] {
        assert_eq!(
            Neo4jGraphStore::link_memories("mem_a", "mem_b", relation),
            Err(GraphError::InvalidRelation { relation: relation.to_string() })
        );
    }
}

#[test]
fn a_link_without_a_row_did_not_find_its_memories() {
    let row = LinkResult {
        from_id: "a".to_string(),
        to_id: "b".to_string(),
        relation: "R".to_string(),
    };
    assert_eq!(Neo4jGraphStore::linked("a", "b", Some(row.clone())), Ok(row));
    assert_eq!(
        Neo4jGraphStore::linked("a", "b", None),
        Err(GraphError::CannotLink { from_id: "a".to_string(), to_id: "b".to_string() })
    );
}

#[test]
fn a_memory_is_fetched_with_its_relations() {
    let s = Neo4jGraphStore::get_memory("mem_a");
    assert_eq!(
        s.cypher,
        "MATCH (m:Memory {id: $id})\n\
         OPTIONAL MATCH (m)-[r]->(out:Memory)\n\
         OPTIONAL MATCH (inn:Memory)-[rin]->(m)\n\
         RETURN m, collect(DISTINCT {id: out.id, text: out.text, createdAt: out.createdAt, tags: out.tags, relation: type(r), direction: 'out'}) AS outRel,\n\
         collect(DISTINCT {id: inn.id, text: inn.text, createdAt: inn.createdAt, tags: inn.tags, relation: type(rin), direction: 'in'}) AS inRel"
    );
    assert_eq!(name_and_text(&s.params[0]), ("id".to_string(), "mem_a".to_string()));

    let m = Neo4jGraphStore::fetched(&Some(NeighborhoodRow {
        memory: node("mem_a"),
        out_rel: Some(vec![RelatedItem::Fields { memory: node("mem_b"), relation: text("R") }]),
        in_rel: Some(vec![
            RelatedItem::Fields { memory: empty(), relation: None },
            RelatedItem::Other,
            RelatedItem::Fields { memory: node("mem_c"), relation: None },
        ]),
    }))
    .unwrap();
    assert_eq!(m.memory.id, "mem_a");
    assert_eq!(m.related.len(), 2);
    assert_eq!(m.related[0].memory.id, "mem_b");
    assert_eq!(m.related[0].relation, "R");
    assert_eq!(m.related[0].direction, "out");
    assert_eq!(m.related[1].memory.id, "mem_c");
    assert_eq!(m.related[1].relation, "");
    assert_eq!(m.related[1].direction, "in");
}

#[test]
fn nothing_is_fetched_without_a_row() {
    assert_eq!(Neo4jGraphStore::fetched(&None), None);
    let m = Neo4jGraphStore::fetched(&Some(NeighborhoodRow {
        memory: node("mem_a"),
        out_rel: None,
        in_rel: None,
    }))
    .unwrap();
    assert_eq!(m.related.len(), 0);
}

#[test]
fn rows_with_every_field_are_read_back() {
    let r = Neo4jGraphStore::memory_from_node(&node("mem_a"));
    assert_eq!(
        r,
        record_of(
            "mem_a".to_string(),
            "2024-01-01T00:00:00.000Z".to_string(),
            "t",
            Some(vec!["x".to_string()])
        )
    );
}

#[test]
fn missing_fields_are_empty() {
    let r = Neo4jGraphStore::memory_from_node(&empty());
    assert_eq!(r, record_of(String::new(), String::new(), "", None));
}

#[test]
fn related_memories_need_an_id() {
    let list = vec![
        RelatedItem::Other,
        RelatedItem::Fields { memory: empty(), relation: text("R") },
        RelatedItem::Fields {
            memory: NodeRow { id: text(""), text: None, created_at: None, tags: None },
            relation: text("S"),
        },
    ];
    let r = Neo4jGraphStore::related_from_list(&list, "out");
    assert_eq!(r.len(), 1);
    assert_eq!(r[0].relation, "S");
    assert_eq!(r[0].memory, record_of(String::new(), String::new(), "", None));
}

#[test]
fn a_deletion_counts_what_it_deleted() {
    let s = Neo4jGraphStore::delete_memory("mem_a");
    assert_eq!(s.cypher, "MATCH (m:Memory {id: $id}) DETACH DELETE m RETURN count(m) AS n");
    assert_eq!(name_and_text(&s.params[0]), ("id".to_string(), "mem_a".to_string()));
    assert!(Neo4jGraphStore::deleted(Some(Some(1))));
    assert!(!Neo4jGraphStore::deleted(Some(Some(0))));
    assert!(!Neo4jGraphStore::deleted(Some(None)));
    assert!(!Neo4jGraphStore::deleted(None));
}

#[test]
fn memories_are_listed_oldest_first() {
    let s = Neo4jGraphStore::list_all();
    assert_eq!(s.cypher, "MATCH (m:Memory) RETURN m ORDER BY m.createdAt");
    let list = Neo4jGraphStore::listed(&vec![node("mem_a"), empty(), node("mem_b")]);
    let ids: Vec<&str> = list.iter().map(|m| m.id.as_str()).collect();
    assert_eq!(ids, vec!["mem_a", "", "mem_b"]);
}
