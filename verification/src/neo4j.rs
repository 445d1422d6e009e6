//! The graph in Neo4j: memories as `(:Memory)` nodes with typed relations.
//!
//! What to ask the database, and what its rows mean. Sending a statement and
//! reading the fields out of a row are left to the caller.
use crate::graph::{
    is_new_record, is_relation, new_record, optional_neighborhood, records, relateds,
    valid_relation, GraphError, LinkResult, LinkView, MemoryRecord, MemoryWithRelated,
    NeighborhoodView, RecordView, RelatedMemory, RelatedView,
};
use crate::text::{clone_texts, joined, optional_text, optional_texts, texts};
use vstd::prelude::*;
use vstd::string::*;

verus! {

pub const CREATE_CONSTRAINT: &'static str =
    "CREATE CONSTRAINT memory_id IF NOT EXISTS FOR (m:Memory) REQUIRE m.id IS UNIQUE";

pub const CREATE_INDEX: &'static str =
    "CREATE INDEX memory_text IF NOT EXISTS FOR (m:Memory) ON (m.text)";

pub const CREATE_MEMORY: &'static str =
    "CREATE (m:Memory {id: $id, text: $text, createdAt: $createdAt, tags: $tags}) RETURN m";

/// What comes before the relation in the statement that links two memories.
pub const LINK_BEFORE: &'static str =
    "MATCH (a:Memory {id: $fromId}), (b:Memory {id: $toId})\nCREATE (a)-[r:";

/// What comes after the relation in the statement that links two memories.
pub const LINK_AFTER: &'static str =
    "]->(b)\nRETURN a.id AS fromId, b.id AS toId, type(r) AS relation";

pub const GET_MEMORY: &'static str =
    "MATCH (m:Memory {id: $id})\nOPTIONAL MATCH (m)-[r]->(out:Memory)\nOPTIONAL MATCH (inn:Memory)-[rin]->(m)\nRETURN m, collect(DISTINCT {id: out.id, text: out.text, createdAt: out.createdAt, tags: out.tags, relation: type(r), direction: 'out'}) AS outRel,\ncollect(DISTINCT {id: inn.id, text: inn.text, createdAt: inn.createdAt, tags: inn.tags, relation: type(rin), direction: 'in'}) AS inRel";

/// Removes the node and all its relations, nothing else.
pub const DELETE_MEMORY: &'static str =
    "MATCH (m:Memory {id: $id}) DETACH DELETE m RETURN count(m) AS n";

pub const LIST_ALL: &'static str = "MATCH (m:Memory) RETURN m ORDER BY m.createdAt";

/// The value of a parameter.
#[derive(Debug, PartialEq)]
pub enum Param {
    Text(String),
    Texts(Vec<String>),
}

/// A statement for the database, with its parameters by name.
#[derive(Debug, PartialEq)]
pub struct Statement {
    pub cypher: String,
    pub params: Vec<(String, Param)>,
}

/// The contents of a [`Param`].
pub enum ParamView {
    Text(Seq<char>),
    Texts(Seq<Seq<char>>),
}

/// The contents of a [`Statement`].
pub struct StatementView {
    pub cypher: Seq<char>,
    pub params: Seq<(Seq<char>, ParamView)>,
}

impl View for Param {
    type V = ParamView;

    open spec fn view(&self) -> ParamView {
        match *self {
            Param::Text(t) => ParamView::Text(t@),
            Param::Texts(t) => ParamView::Texts(texts(t@)),
        }
    }
}

impl View for Statement {
    type V = StatementView;

    open spec fn view(&self) -> StatementView {
        StatementView {
            cypher: self.cypher@,
            params: self.params@.map_values(|p: (String, Param)| (p.0@, p.1@)),
        }
    }
}

/// The fields that a row has for a memory; one may be missing or of another
/// type.
#[derive(Debug)]
pub struct NodeRow {
    pub id: Option<String>,
    pub text: Option<String>,
    pub created_at: Option<String>,
    pub tags: Option<Vec<String>>,
}

/// The contents of a [`NodeRow`].
pub struct NodeView {
    pub id: Option<Seq<char>>,
    pub text: Option<Seq<char>>,
    pub created_at: Option<Seq<char>>,
    pub tags: Option<Seq<Seq<char>>>,
}

impl View for NodeRow {
    type V = NodeView;

    open spec fn view(&self) -> NodeView {
        NodeView {
            id: optional_text(self.id),
            text: optional_text(self.text),
            created_at: optional_text(self.created_at),
            tags: optional_texts(self.tags),
        }
    }
}

/// An item in a list of related memories. Where a memory has no relation the
/// database lists one map whose fields are null.
#[derive(Debug)]
pub enum RelatedItem {
    Fields { memory: NodeRow, relation: Option<String> },
    Other,
}

/// The contents of a [`RelatedItem`].
pub enum ItemView {
    Fields { memory: NodeView, relation: Option<Seq<char>> },
    Other,
}

impl View for RelatedItem {
    type V = ItemView;

    open spec fn view(&self) -> ItemView {
        match *self {
            RelatedItem::Fields { memory, relation } => ItemView::Fields {
                memory: memory@,
                relation: optional_text(relation),
            },
            RelatedItem::Other => ItemView::Other,
        }
    }
}

/// The contents of a list of items.
pub open spec fn items(list: Seq<RelatedItem>) -> Seq<ItemView> {
    list.map_values(|i: RelatedItem| i@)
}

/// The contents of a list of items that may be missing: none if it is.
pub open spec fn optional_items(list: Option<Vec<RelatedItem>>) -> Seq<ItemView> {
    match list {
        Some(l) => items(l@),
        None => Seq::empty(),
    }
}

/// The row for a memory with its relations.
#[derive(Debug)]
pub struct NeighborhoodRow {
    pub memory: NodeRow,
    pub out_rel: Option<Vec<RelatedItem>>,
    pub in_rel: Option<Vec<RelatedItem>>,
}

// ---- what rows mean --------------------------------------------------------

/// A text, or an empty one.
pub open spec fn text_or_empty(value: Option<Seq<char>>) -> Seq<char> {
    match value {
        Some(t) => t,
        None => Seq::empty(),
    }
}

/// The memory that a row describes; what is missing is empty.
pub open spec fn memory_of(node: NodeView) -> RecordView {
    RecordView {
        id: text_or_empty(node.id),
        text: text_or_empty(node.text),
        created_at: text_or_empty(node.created_at),
        tags: match node.tags {
            Some(t) => t,
            None => Seq::empty(),
        },
    }
}

/// The related memories that a list describes, in order: the maps with an id.
pub open spec fn related_of(list: Seq<ItemView>, direction: Seq<char>) -> Seq<RelatedView>
    decreases list.len(),
{
    if list.len() == 0 {
        Seq::empty()
    } else {
        let before = related_of(list.drop_last(), direction);
        match list.last() {
            ItemView::Fields { memory, relation } => if memory.id is Some {
                before.push(
                    RelatedView {
                        memory: memory_of(memory),
                        relation: text_or_empty(relation),
                        direction,
                    },
                )
            } else {
                before
            },
            ItemView::Other => before,
        }
    }
}

/// A text, or an empty one.
fn or_empty(value: &Option<String>) -> (r: String)
    ensures
        r@ == text_or_empty(optional_text(*value)),
{
    match value {
        Some(t) => t.clone(),
        None => {
            let r = String::new();
            assert(r@ =~= Seq::<char>::empty());
            r
        },
    }
}

fn param(name: &str, value: &String) -> (r: (String, Param))
    ensures
        r.0@ == name@,
        r.1@ == ParamView::Text(value@),
{
    (name.to_string(), Param::Text(value.clone()))
}

/// The statement that stores a record.
pub open spec fn create_statement(record: RecordView) -> StatementView {
    StatementView {
        cypher: CREATE_MEMORY@,
        params: seq![
            ("id"@, ParamView::Text(record.id)),
            ("text"@, ParamView::Text(record.text)),
            ("createdAt"@, ParamView::Text(record.created_at)),
            ("tags"@, ParamView::Texts(record.tags)),
        ],
    }
}

/// The statement that links two memories. The type of a relationship cannot be
/// a parameter, so the relation stands in the text.
pub open spec fn link_statement(link: LinkView) -> StatementView {
    StatementView {
        cypher: LINK_BEFORE@ + link.relation + LINK_AFTER@,
        params: seq![
            ("fromId"@, ParamView::Text(link.from_id)),
            ("toId"@, ParamView::Text(link.to_id)),
        ],
    }
}

/// A statement about one memory.
pub open spec fn id_statement(cypher: Seq<char>, id: Seq<char>) -> StatementView {
    StatementView { cypher, params: seq![("id"@, ParamView::Text(id))] }
}

/// A statement without parameters.
pub open spec fn plain_statement(cypher: Seq<char>) -> StatementView {
    StatementView { cypher, params: Seq::empty() }
}

fn plain(cypher: &str) -> (r: Statement)
    ensures
        r@ == plain_statement(cypher@),
{
    let r = Statement { cypher: cypher.to_string(), params: Vec::new() };
    assert(r@.params =~= Seq::<(Seq<char>, ParamView)>::empty());
    r
}

fn about(cypher: &str, id: &str) -> (r: Statement)
    ensures
        r@ == id_statement(cypher@, id@),
{
    let mut params: Vec<(String, Param)> = Vec::new();
    params.push(param("id", &id.to_string()));
    let r = Statement { cypher: cypher.to_string(), params };
    assert(r@.params =~= id_statement(cypher@, id@).params);
    r
}

/// The statement that stores a record.
pub fn create(record: &MemoryRecord) -> (r: Statement)
    ensures
        r@ == create_statement(record@),
{
    let mut params: Vec<(String, Param)> = Vec::new();
    params.push(param("id", &record.id));
    params.push(param("text", &record.text));
    params.push(param("createdAt", &record.created_at));
    params.push(("tags".to_string(), Param::Texts(clone_texts(&record.tags))));
    let r = Statement { cypher: CREATE_MEMORY.to_string(), params };
    assert(r@.params =~= create_statement(record@).params);
    r
}

/// The graph in Neo4j.
pub struct Neo4jGraphStore {}

impl Neo4jGraphStore {
    /// The statements that prepare a database, in order: ids are unique, texts
    /// are indexed. Both do nothing in a prepared database.
    pub fn init() -> (r: Vec<Statement>)
        ensures
            r@.len() == 2,
            r@[0]@ == plain_statement(CREATE_CONSTRAINT@),
            r@[1]@ == plain_statement(CREATE_INDEX@),
    {
        let mut r: Vec<Statement> = Vec::new();
        r.push(plain(CREATE_CONSTRAINT));
        r.push(plain(CREATE_INDEX));
        r
    }

    /// A new record for `text`, and the statement that stores it.
    pub fn store_memory(text: &str, tags: Option<Vec<String>>) -> (r: (MemoryRecord, Statement))
        ensures
            is_new_record(r.0@, text@, optional_texts(tags)),
            r.1@ == create_statement(r.0@),
    {
        let record = new_record(text, tags);
        let statement = create(&record);
        (record, statement)
    }

    /// The statement that links two memories, if the relation is a name of word
    /// characters.
    pub fn link_memories(from_id: &str, to_id: &str, relation: &str) -> (r: Result<
        Statement,
        GraphError,
    >)
        ensures
            match r {
                Ok(s) => is_relation(relation@) && s@ == link_statement(
                    LinkView { from_id: from_id@, to_id: to_id@, relation: relation@ },
                ),
                Err(e) => !is_relation(relation@) && (e matches GraphError::InvalidRelation {
                    relation: name,
                } && name@ == relation@),
            },
    {
        if !valid_relation(relation) {
            return Err(GraphError::InvalidRelation { relation: relation.to_string() });
        }
        let mut cypher = joined(LINK_BEFORE, relation);
        cypher.append(LINK_AFTER);
        let mut params: Vec<(String, Param)> = Vec::new();
        params.push(param("fromId", &from_id.to_string()));
        params.push(param("toId", &to_id.to_string()));
        let r = Statement { cypher, params };
        proof {
            let link = LinkView { from_id: from_id@, to_id: to_id@, relation: relation@ };
            assert(r@.params =~= link_statement(link).params);
        }
        Ok(r)
    }

    /// What linking gave: the relation in the row, or no row if one of the
    /// memories is missing.
    pub fn linked(from_id: &str, to_id: &str, row: Option<LinkResult>) -> (r: Result<
        LinkResult,
        GraphError,
    >)
        ensures
            match row {
                Some(l) => r == Ok::<LinkResult, GraphError>(l),
                None => r matches Err(GraphError::CannotLink { from_id: f, to_id: t }) && f@
                    == from_id@ && t@ == to_id@,
            },
    {
        match row {
            Some(l) => Ok(l),
            None => Err(
                GraphError::CannotLink { from_id: from_id.to_string(), to_id: to_id.to_string() },
            ),
        }
    }

    /// The statement that gets a memory with its relations.
    pub fn get_memory(id: &str) -> (r: Statement)
        ensures
            r@ == id_statement(GET_MEMORY@, id@),
    {
        about(GET_MEMORY, id)
    }

    /// What getting a memory gave: outgoing relations first, then incoming
    /// ones; no row if there is no such memory.
    pub fn fetched(row: &Option<NeighborhoodRow>) -> (r: Option<MemoryWithRelated>)
        ensures
            optional_neighborhood(r) == match *row {
                Some(n) => Some(
                    NeighborhoodView {
                        memory: memory_of(n.memory@),
                        related: related_of(optional_items(n.out_rel), "out"@) + related_of(
                            optional_items(n.in_rel),
                            "in"@,
                        ),
                    },
                ),
                None => None,
            },
    {
        match row {
            Some(n) => {
                let mut related = Self::related_or_none(&n.out_rel, "out");
                let mut incoming = Self::related_or_none(&n.in_rel, "in");
                let ghost first = related@;
                let ghost second = incoming@;
                related.append(&mut incoming);
                assert(relateds(related@) =~= relateds(first) + relateds(second));
                Some(MemoryWithRelated { memory: Self::memory_from_node(&n.memory), related })
            },
            None => None,
        }
    }

    /// The related memories in a list that may be missing.
    fn related_or_none(list: &Option<Vec<RelatedItem>>, direction: &str) -> (r: Vec<RelatedMemory>)
        ensures
            relateds(r@) == related_of(optional_items(*list), direction@),
    {
        match list {
            Some(l) => Self::related_from_list(l, direction),
            None => {
                let r: Vec<RelatedMemory> = Vec::new();
                assert(relateds(r@) =~= Seq::<RelatedView>::empty());
                r
            },
        }
    }

    /// The memory that a row describes.
    pub fn memory_from_node(node: &NodeRow) -> (r: MemoryRecord)
        ensures
            r@ == memory_of(node@),
    {
        let tags = match &node.tags {
            Some(t) => clone_texts(t),
            None => Vec::new(),
        };
        assert(texts(Seq::<String>::empty()) =~= Seq::<Seq<char>>::empty());
        MemoryRecord {
            id: or_empty(&node.id),
            text: or_empty(&node.text),
            created_at: or_empty(&node.created_at),
            tags,
        }
    }

    /// The related memories in a list. Items that are no maps, and maps without
    /// an id, stand for no relation.
    pub fn related_from_list(list: &Vec<RelatedItem>, direction: &str) -> (r: Vec<RelatedMemory>)
        ensures
            relateds(r@) == related_of(items(list@), direction@),
    {
        let ghost all = items(list@);
        let mut r: Vec<RelatedMemory> = Vec::new();
        assert(relateds(r@) =~= Seq::<RelatedView>::empty());
        let mut i: usize = 0;
        while i < list.len()
            invariant
                i <= list.len(),
                all == items(list@),
                relateds(r@) == related_of(all.take(i as int), direction@),
            decreases list.len() - i,
        {
            let ghost before = relateds(r@);
            assert(all.take(i + 1).drop_last() =~= all.take(i as int));
            assert(all.take(i + 1).last() == list@[i as int]@);
            match &list[i] {
                RelatedItem::Fields { memory, relation } => {
                    if memory.id.is_some() {
                        let found = RelatedMemory {
                            memory: Self::memory_from_node(memory),
                            relation: or_empty(relation),
                            direction: direction.to_string(),
                        };
                        r.push(found);
                        assert(relateds(r@) =~= before.push(found@));
                    }
                },
                RelatedItem::Other => {},
            }
            i += 1;
        }
        assert(all.take(list.len() as int) =~= all);
        r
    }

    /// The statement that deletes a memory.
    pub fn delete_memory(id: &str) -> (r: Statement)
        ensures
            r@ == id_statement(DELETE_MEMORY@, id@),
    {
        about(DELETE_MEMORY, id)
    }

    /// Whether a memory was deleted: the row counts the deleted ones, and none
    /// are where there is no row or no count.
    pub fn deleted(row: Option<Option<i64>>) -> (r: bool)
        ensures
            r == (row matches Some(Some(n)) && n > 0),
    {
        match row {
            Some(Some(n)) => n > 0,
            _ => false,
        }
    }

    /// The statement that lists every memory, oldest first.
    pub fn list_all() -> (r: Statement)
        ensures
            r@ == plain_statement(LIST_ALL@),
    {
        plain(LIST_ALL)
    }

    /// The memories in the rows, in order.
    pub fn listed(rows: &Vec<NodeRow>) -> (r: Vec<MemoryRecord>)
        ensures
            records(r@) == rows@.map_values(|n: NodeRow| memory_of(n@)),
    {
        let ghost all = rows@.map_values(|n: NodeRow| memory_of(n@));
        let mut r: Vec<MemoryRecord> = Vec::new();
        let mut i: usize = 0;
        while i < rows.len()
            invariant
                i <= rows.len(),
                all == rows@.map_values(|n: NodeRow| memory_of(n@)),
                records(r@) =~= all.take(i as int),
            decreases rows.len() - i,
        {
            let ghost before = records(r@);
            let memory = Self::memory_from_node(&rows[i]);
            r.push(memory);
            assert(records(r@) =~= before.push(memory@));
            assert(all[i as int] == memory@);
            i += 1;
        }
        assert(all.take(rows.len() as int) =~= all);
        r
    }
}

// ---- laws ------------------------------------------------------------------

/// The row that holds every field of a record.
pub open spec fn node_of(record: RecordView) -> NodeView {
    NodeView {
        id: Some(record.id),
        text: Some(record.text),
        created_at: Some(record.created_at),
        tags: Some(record.tags),
    }
}

/// A row with every field of a record is read back as that record.
pub proof fn law_stored_node_is_read_back(record: RecordView)
    ensures
        memory_of(node_of(record)) == record,
{
}

/// Different links have different statements: a relation cannot pass for
/// another one, nor for another part of the statement.
pub proof fn law_links_have_own_statements(a: LinkView, b: LinkView)
    requires
        link_statement(a) == link_statement(b),
    ensures
        a == b,
{
    let s = link_statement(a);
    let t = link_statement(b);
    assert(s.params[0] == t.params[0]);
    assert(s.params[1] == t.params[1]);
    let from = LINK_BEFORE@.len() as int;
    assert(s.cypher.len() == from + a.relation.len() + LINK_AFTER@.len());
    assert(t.cypher.len() == from + b.relation.len() + LINK_AFTER@.len());
    assert(s.cypher.subrange(from, from + a.relation.len()) =~= a.relation);
    assert(t.cypher.subrange(from, from + b.relation.len()) =~= b.relation);
}

/// Reading two lists one after the other is reading them together.
pub proof fn law_related_of_joined_lists(
    a: Seq<ItemView>,
    b: Seq<ItemView>,
    direction: Seq<char>,
)
    ensures
        related_of(a + b, direction) == related_of(a, direction) + related_of(b, direction),
    decreases b.len(),
{
    if b.len() == 0 {
        assert(a + b =~= a);
        assert(related_of(a, direction) + related_of(b, direction) =~= related_of(a, direction));
    } else {
        law_related_of_joined_lists(a, b.drop_last(), direction);
        assert((a + b).drop_last() =~= a + b.drop_last());
        assert((a + b).last() == b.last());
        assert(related_of(a + b, direction) =~= related_of(a, direction) + related_of(
            b,
            direction,
        ));
    }
}

/// Every related memory has the direction of its list, and there are no more of
/// them than items.
pub proof fn law_related_have_one_direction(list: Seq<ItemView>, direction: Seq<char>)
    ensures
        related_of(list, direction).len() <= list.len(),
        forall|i: int|
            0 <= i < related_of(list, direction).len() ==> (#[trigger] related_of(
                list,
                direction,
            )[i]).direction == direction,
    decreases list.len(),
{
    if list.len() > 0 {
        law_related_have_one_direction(list.drop_last(), direction);
    }
}

/// The value of the parameter with the given name, if there is one.
pub open spec fn param_named(params: Seq<(Seq<char>, ParamView)>, name: Seq<char>) -> Option<
    ParamView,
> {
    if exists|i: int| 0 <= i < params.len() && (#[trigger] params[i]).0 == name {
        Some(
            params[choose|i: int| 0 <= i < params.len() && (#[trigger] params[i]).0 == name].1,
        )
    } else {
        None
    }
}

proof fn lemma_param_named(params: Seq<(Seq<char>, ParamView)>, at: int)
    requires
        0 <= at < params.len(),
        forall|i: int| 0 <= i < params.len() && i != at ==> (#[trigger] params[i]).0 != params[at].0,
    ensures
        param_named(params, params[at].0) == Some(params[at].1),
{
    let name = params[at].0;
    let i = choose|i: int| 0 <= i < params.len() && (#[trigger] params[i]).0 == name;
    assert(0 <= i < params.len() && params[i].0 == name);
    assert(i == at);
}

/// The statement that stores a record creates one node from the parameters `id`,
/// `text`, `createdAt` and `tags`; the row made of their values is read back as
/// that very record.
pub proof fn law_stored_record_is_read_back(record: RecordView)
    ensures
        create_statement(record).cypher
            == "CREATE (m:Memory {id: $id, text: $text, createdAt: $createdAt, tags: $tags}) RETURN m"@,
        create_statement(record).params.len() == 4,
        ({
            let params = create_statement(record).params;
            let id = param_named(params, "id"@);
            let text = param_named(params, "text"@);
            let created_at = param_named(params, "createdAt"@);
            let tags = param_named(params, "tags"@);
            &&& id is Some && id->0 is Text
            &&& text is Some && text->0 is Text
            &&& created_at is Some && created_at->0 is Text
            &&& tags is Some && tags->0 is Texts
            &&& memory_of(
                NodeView {
                    id: Some(id->0->Text_0),
                    text: Some(text->0->Text_0),
                    created_at: Some(created_at->0->Text_0),
                    tags: Some(tags->0->Texts_0),
                },
            ) == record
            &&& id->0->Text_0 == record.id
            &&& text->0->Text_0 == record.text
            &&& created_at->0->Text_0 == record.created_at
            &&& tags->0->Texts_0 == record.tags
        }),
{
    let params = create_statement(record).params;
    reveal_strlit("id");
    reveal_strlit("text");
    reveal_strlit("createdAt");
    reveal_strlit("tags");
    assert("text"@[1] != "tags"@[1]);
    assert("id"@.len() == 2 && "text"@.len() == 4 && "createdAt"@.len() == 9 && "tags"@.len() == 4);
    lemma_param_named(params, 0);
    lemma_param_named(params, 1);
    lemma_param_named(params, 2);
    lemma_param_named(params, 3);
}

/// Different records have different statements: nothing of a record is lost in
/// the statement that stores it.
pub proof fn law_records_have_own_statements(a: RecordView, b: RecordView)
    requires
        create_statement(a) == create_statement(b),
    ensures
        a == b,
{
    law_stored_record_is_read_back(a);
    law_stored_record_is_read_back(b);
}

/// A list of one map with every field of a record, and the name of a relation,
/// is read as that record, under that relation and in the direction of the list.
pub proof fn law_related_item_is_read_back(
    record: RecordView,
    relation: Seq<char>,
    direction: Seq<char>,
)
    ensures
        ({
            let node = NodeView {
                id: Some(record.id),
                text: Some(record.text),
                created_at: Some(record.created_at),
                tags: Some(record.tags),
            };
            let list = seq![ItemView::Fields { memory: node, relation: Some(relation) }];
            &&& related_of(list, direction).len() == 1
            &&& related_of(list, direction)[0].memory.id == record.id
            &&& related_of(list, direction)[0].memory.text == record.text
            &&& related_of(list, direction)[0].memory.created_at == record.created_at
            &&& related_of(list, direction)[0].memory.tags == record.tags
            &&& related_of(list, direction)[0].relation == relation
            &&& related_of(list, direction)[0].direction == direction
        }),
{
    reveal_with_fuel(related_of, 2);
}

/// What is missing in a map with an id is empty; a map without an id, an item
/// that is no map and a list without items give no related memory.
pub proof fn law_incomplete_items(
    node: NodeView,
    relation: Option<Seq<char>>,
    direction: Seq<char>,
)
    ensures
        ({
            let one = related_of(seq![ItemView::Fields { memory: node, relation }], direction);
            &&& one.len() == if node.id is Some { 1nat } else { 0nat }
            &&& node.id is Some ==> {
                &&& one[0].memory.id == node.id->0
                &&& node.text is Some ==> one[0].memory.text == node.text->0
                &&& node.text is None ==> one[0].memory.text.len() == 0
                &&& node.created_at is Some ==> one[0].memory.created_at == node.created_at->0
                &&& node.created_at is None ==> one[0].memory.created_at.len() == 0
                &&& node.tags is Some ==> one[0].memory.tags == node.tags->0
                &&& node.tags is None ==> one[0].memory.tags.len() == 0
                &&& relation is Some ==> one[0].relation == relation->0
                &&& relation is None ==> one[0].relation.len() == 0
                &&& one[0].direction == direction
            }
        }),
        related_of(seq![ItemView::Other], direction).len() == 0,
        related_of(Seq::empty(), direction).len() == 0,
{
    reveal_with_fuel(related_of, 2);
}

/// A row is read field by field; what is missing is empty.
pub proof fn law_rows_are_read_field_by_field(node: NodeView)
    ensures
        node.id matches Some(id) ==> memory_of(node).id == id,
        node.id is None ==> memory_of(node).id.len() == 0,
        node.text matches Some(text) ==> memory_of(node).text == text,
        node.text is None ==> memory_of(node).text.len() == 0,
        node.created_at matches Some(at) ==> memory_of(node).created_at == at,
        node.created_at is None ==> memory_of(node).created_at.len() == 0,
        node.tags matches Some(tags) ==> memory_of(node).tags == tags,
        node.tags is None ==> memory_of(node).tags.len() == 0,
{
}

/// The statement that links two memories names them as `fromId` and `toId` and
/// has the relation as the type of the new relationship.
pub proof fn law_links_are_written_from_source_to_target(link: LinkView)
    ensures
        link_statement(link).cypher
            == "MATCH (a:Memory {id: $fromId}), (b:Memory {id: $toId})\nCREATE (a)-[r:"@
            + link.relation
            + "]->(b)\nRETURN a.id AS fromId, b.id AS toId, type(r) AS relation"@,
        link_statement(link).params.len() == 2,
        param_named(link_statement(link).params, "fromId"@) == Some(ParamView::Text(link.from_id)),
        param_named(link_statement(link).params, "toId"@) == Some(ParamView::Text(link.to_id)),
{
    let params = link_statement(link).params;
    reveal_strlit("fromId");
    reveal_strlit("toId");
    assert("fromId"@.len() == 6 && "toId"@.len() == 4);
    lemma_param_named(params, 0);
    lemma_param_named(params, 1);
}

/// A statement about one memory has its id as the one parameter; a plain one has
/// none. Both have the text that was given.
pub proof fn law_statements_name_their_memory(cypher: Seq<char>, id: Seq<char>)
    ensures
        id_statement(cypher, id).cypher == cypher,
        id_statement(cypher, id).params.len() == 1,
        param_named(id_statement(cypher, id).params, "id"@) == Some(ParamView::Text(id)),
        plain_statement(cypher).cypher == cypher,
        plain_statement(cypher).params.len() == 0,
{
    lemma_param_named(id_statement(cypher, id).params, 0);
}

/// The texts of the statements.
pub proof fn law_texts_of_statements()
    ensures
        CREATE_CONSTRAINT@
            == "CREATE CONSTRAINT memory_id IF NOT EXISTS FOR (m:Memory) REQUIRE m.id IS UNIQUE"@,
        CREATE_INDEX@ == "CREATE INDEX memory_text IF NOT EXISTS FOR (m:Memory) ON (m.text)"@,
        GET_MEMORY@
            == "MATCH (m:Memory {id: $id})\nOPTIONAL MATCH (m)-[r]->(out:Memory)\nOPTIONAL MATCH (inn:Memory)-[rin]->(m)\nRETURN m, collect(DISTINCT {id: out.id, text: out.text, createdAt: out.createdAt, tags: out.tags, relation: type(r), direction: 'out'}) AS outRel,\ncollect(DISTINCT {id: inn.id, text: inn.text, createdAt: inn.createdAt, tags: inn.tags, relation: type(rin), direction: 'in'}) AS inRel"@,
        DELETE_MEMORY@ == "MATCH (m:Memory {id: $id}) DETACH DELETE m RETURN count(m) AS n"@,
        LIST_ALL@ == "MATCH (m:Memory) RETURN m ORDER BY m.createdAt"@,
{
}

/// The contents of statements, rows and items show every part of them, in order.
pub proof fn law_rows_show_their_parts(
    text: String,
    list: Vec<String>,
    statement: Statement,
    row: NodeRow,
    relation: Option<String>,
    all: Vec<RelatedItem>,
)
    ensures
        Param::Text(text)@ == ParamView::Text(text@),
        Param::Texts(list)@ is Texts,
        Param::Texts(list)@->Texts_0.len() == list@.len(),
        forall|i: int|
            0 <= i < list@.len() ==> #[trigger] Param::Texts(list)@->Texts_0[i] == list@[i]@,
        statement@.cypher == statement.cypher@,
        statement@.params.len() == statement.params@.len(),
        forall|i: int|
            0 <= i < statement.params@.len() ==> (#[trigger] statement@.params[i]).0
                == statement.params@[i].0@ && statement@.params[i].1 == statement.params@[i].1@,
        row.id matches Some(id) ==> row@.id == Some(id@),
        row.id is None ==> row@.id is None,
        row.text matches Some(t) ==> row@.text == Some(t@),
        row.text is None ==> row@.text is None,
        row.created_at matches Some(t) ==> row@.created_at == Some(t@),
        row.created_at is None ==> row@.created_at is None,
        row.tags is None ==> row@.tags is None,
        row.tags matches Some(tags) ==> row@.tags is Some && row@.tags->0.len() == tags@.len()
            && forall|i: int| 0 <= i < tags@.len() ==> #[trigger] row@.tags->0[i] == tags@[i]@,
        (RelatedItem::Fields { memory: row, relation })@ is Fields,
        (RelatedItem::Fields { memory: row, relation })@->memory == row@,
        relation matches Some(name) ==> (RelatedItem::Fields {
            memory: row,
            relation,
        })@->relation == Some(name@),
        relation is None ==> (RelatedItem::Fields { memory: row, relation })@->relation is None,
        RelatedItem::Other@ is Other,
        items(all@).len() == all@.len(),
        forall|i: int| 0 <= i < all@.len() ==> #[trigger] items(all@)[i] == all@[i]@,
        optional_items(Some(all)) == items(all@),
        optional_items(None).len() == 0,
{
}

} // verus!
