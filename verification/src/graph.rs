//! Graph storage: memories as nodes with typed, directed relations.
//!
//! The graph is the source of truth; the vector index can be rebuilt from it.
use crate::text::{clone_texts, joined};
use vstd::prelude::*;
use vstd::string::*;

verus! {

pub const ID_PREFIX: &'static str = "mem_";

/// A stored memory.
#[derive(Debug, PartialEq)]
pub struct MemoryRecord {
    pub id: String,
    pub text: String,
    pub created_at: String,
    pub tags: Vec<String>,
}

/// A memory at the other end of a relation.
#[derive(Debug, PartialEq)]
pub struct RelatedMemory {
    pub memory: MemoryRecord,
    pub relation: String,
    /// "out" or "in"
    pub direction: String,
}

/// A memory with its neighborhood, one hop.
#[derive(Debug, PartialEq)]
pub struct MemoryWithRelated {
    pub memory: MemoryRecord,
    pub related: Vec<RelatedMemory>,
}

/// A relation that was created.
#[derive(Debug, PartialEq)]
pub struct LinkResult {
    pub from_id: String,
    pub to_id: String,
    pub relation: String,
}

// ---- what the values mean --------------------------------------------------

/// The contents of a [`MemoryRecord`].
pub struct RecordView {
    pub id: Seq<char>,
    pub text: Seq<char>,
    pub created_at: Seq<char>,
    pub tags: Seq<Seq<char>>,
}

/// The contents of a [`RelatedMemory`].
pub struct RelatedView {
    pub memory: RecordView,
    pub relation: Seq<char>,
    pub direction: Seq<char>,
}

/// The contents of a [`MemoryWithRelated`].
pub struct NeighborhoodView {
    pub memory: RecordView,
    pub related: Seq<RelatedView>,
}

/// The contents of a [`LinkResult`]; also one relation of a graph.
pub struct LinkView {
    pub from_id: Seq<char>,
    pub to_id: Seq<char>,
    pub relation: Seq<char>,
}

impl View for MemoryRecord {
    type V = RecordView;

    open spec fn view(&self) -> RecordView {
        RecordView {
            id: self.id@,
            text: self.text@,
            created_at: self.created_at@,
            tags: crate::text::texts(self.tags@),
        }
    }
}

impl View for RelatedMemory {
    type V = RelatedView;

    open spec fn view(&self) -> RelatedView {
        RelatedView {
            memory: self.memory@,
            relation: self.relation@,
            direction: self.direction@,
        }
    }
}

impl View for MemoryWithRelated {
    type V = NeighborhoodView;

    open spec fn view(&self) -> NeighborhoodView {
        NeighborhoodView { memory: self.memory@, related: relateds(self.related@) }
    }
}

impl View for LinkResult {
    type V = LinkView;

    open spec fn view(&self) -> LinkView {
        LinkView { from_id: self.from_id@, to_id: self.to_id@, relation: self.relation@ }
    }
}

/// The contents of a list of records.
pub open spec fn records(list: Seq<MemoryRecord>) -> Seq<RecordView> {
    list.map_values(|m: MemoryRecord| m@)
}

/// The contents of a list of related memories.
pub open spec fn relateds(list: Seq<RelatedMemory>) -> Seq<RelatedView> {
    list.map_values(|m: RelatedMemory| m@)
}

/// The contents of a list of relations.
pub open spec fn links(list: Seq<LinkResult>) -> Seq<LinkView> {
    list.map_values(|l: LinkResult| l@)
}

/// The contents of a memory that may be missing.
pub open spec fn optional_neighborhood(value: Option<MemoryWithRelated>) -> Option<
    NeighborhoodView,
> {
    match value {
        Some(m) => Some(m@),
        None => None,
    }
}

impl Clone for MemoryRecord {
    fn clone(&self) -> (r: Self)
        ensures
            r@ == self@,
    {
        MemoryRecord {
            id: self.id.clone(),
            text: self.text.clone(),
            created_at: self.created_at.clone(),
            tags: clone_texts(&self.tags),
        }
    }
}

impl Clone for RelatedMemory {
    fn clone(&self) -> (r: Self)
        ensures
            r@ == self@,
    {
        RelatedMemory {
            memory: self.memory.clone(),
            relation: self.relation.clone(),
            direction: self.direction.clone(),
        }
    }
}

impl Clone for MemoryWithRelated {
    fn clone(&self) -> (r: Self)
        ensures
            r@ == self@,
    {
        MemoryWithRelated { memory: self.memory.clone(), related: clone_related(&self.related) }
    }
}

impl Clone for LinkResult {
    fn clone(&self) -> (r: Self)
        ensures
            r@ == self@,
    {
        LinkResult {
            from_id: self.from_id.clone(),
            to_id: self.to_id.clone(),
            relation: self.relation.clone(),
        }
    }
}

/// A copy of a list of related memories.
pub fn clone_related(list: &Vec<RelatedMemory>) -> (r: Vec<RelatedMemory>)
    ensures
        relateds(r@) == relateds(list@),
{
    let mut r: Vec<RelatedMemory> = Vec::new();
    let mut i: usize = 0;
    while i < list.len()
        invariant
            i <= list.len(),
            relateds(r@) =~= relateds(list@).take(i as int),
        decreases list.len() - i,
    {
        let ghost before = relateds(r@);
        let copy = list[i].clone();
        r.push(copy);
        assert(relateds(r@) =~= before.push(copy@));
        assert(relateds(list@)[i as int] == copy@);
        i += 1;
    }
    assert(relateds(list@).take(list.len() as int) =~= relateds(list@));
    r
}

/// A copy of a list of records.
pub fn clone_records(list: &Vec<MemoryRecord>) -> (r: Vec<MemoryRecord>)
    ensures
        records(r@) == records(list@),
{
    let mut r: Vec<MemoryRecord> = Vec::new();
    let mut i: usize = 0;
    while i < list.len()
        invariant
            i <= list.len(),
            records(r@) =~= records(list@).take(i as int),
        decreases list.len() - i,
    {
        let ghost before = records(r@);
        let copy = list[i].clone();
        r.push(copy);
        assert(records(r@) =~= before.push(copy@));
        assert(records(list@)[i as int] == copy@);
        i += 1;
    }
    assert(records(list@).take(list.len() as int) =~= records(list@));
    r
}

/// Why a graph operation failed.
#[derive(Debug, PartialEq)]
pub enum GraphError {
    /// the relation name holds something other than word characters
    InvalidRelation { relation: String },
    /// one of the two memories to link does not exist
    CannotLink { from_id: String, to_id: String },
}

impl GraphError {
    /// What went wrong, in words.
    pub open spec fn words(self) -> Seq<char> {
        match self {
            GraphError::InvalidRelation { relation } => "invalid relation name: "@ + relation@,
            GraphError::CannotLink { from_id, to_id } => "cannot link: memory \""@ + from_id@
                + "\" or \""@ + to_id@ + "\" not found"@,
        }
    }

    /// What went wrong, in words.
    pub fn message(&self) -> (r: String)
        ensures
            r@ == self.words(),
    {
        match self {
            GraphError::InvalidRelation { relation } => joined(
                "invalid relation name: ",
                relation.as_str(),
            ),
            GraphError::CannotLink { from_id, to_id } => {
                let mut r = joined("cannot link: memory \"", from_id.as_str());
                r.append("\" or \"");
                r.append(to_id.as_str());
                r.append("\" not found");
                r
            },
        }
    }
}

// ---- ids and times ---------------------------------------------------------

/// Whether `c` is a lower-case hexadecimal digit.
pub open spec fn is_lower_hex(c: char) -> bool {
    '0' <= c <= '9' || 'a' <= c <= 'f'
}

/// Whether position `i` of a hyphenated UUID holds a hyphen.
pub open spec fn hyphen_at(i: int) -> bool {
    i == 8 || i == 13 || i == 18 || i == 23
}

/// Whether `s` is a UUID in lower-case hyphenated form.
pub open spec fn is_uuid(s: Seq<char>) -> bool {
    &&& s.len() == 36
    &&& forall|i: int|
        0 <= i < 36 ==> if hyphen_at(i) {
            #[trigger] s[i] == '-'
        } else {
            is_lower_hex(s[i])
        }
}

/// Whether `s` is a random (version 4) UUID in lower-case hyphenated form.
pub open spec fn is_random_uuid(s: Seq<char>) -> bool {
    &&& is_uuid(s)
    &&& s[14] == '4'
    &&& (s[19] == '8' || s[19] == '9' || s[19] == 'a' || s[19] == 'b')
}

/// `uuid::Uuid::new_v4`, written out by `Uuid`'s `Display`: a fresh random UUID
/// in lower-case hyphenated form, with the version and variant digits of
/// version 4. Which one it is depends on chance; nothing more is claimed.
#[verifier::external_body]
fn fresh_uuid() -> (r: String)
    ensures
        is_random_uuid(r@),
{
    uuid::Uuid::new_v4().to_string()
}

/// Whether `c` is a decimal digit.
pub open spec fn is_decimal(c: char) -> bool {
    '0' <= c <= '9'
}

/// Whether `s` is a UTC time with milliseconds: a year of at least four
/// characters, then `-MM-DDThh:mm:ss.mmmZ`.
pub open spec fn is_utc_millis(s: Seq<char>) -> bool {
    let n = s.len() as int;
    &&& n >= 24
    &&& s[n - 20] == '-' && is_decimal(s[n - 19]) && is_decimal(s[n - 18])
    &&& s[n - 17] == '-' && is_decimal(s[n - 16]) && is_decimal(s[n - 15])
    &&& s[n - 14] == 'T' && is_decimal(s[n - 13]) && is_decimal(s[n - 12])
    &&& s[n - 11] == ':' && is_decimal(s[n - 10]) && is_decimal(s[n - 9])
    &&& s[n - 8] == ':' && is_decimal(s[n - 7]) && is_decimal(s[n - 6])
    &&& s[n - 5] == '.' && is_decimal(s[n - 4]) && is_decimal(s[n - 3]) && is_decimal(s[n - 2])
    &&& s[n - 1] == 'Z'
}

/// `chrono::Utc::now` written by `DateTime::to_rfc3339_opts` with milliseconds
/// and `Z`: the present time as an ISO 8601 text of that shape. Which time it
/// is depends on the clock; nothing more is claimed.
#[verifier::external_body]
fn now_iso() -> (r: String)
    ensures
        is_utc_millis(r@),
{
    chrono::Utc::now().to_rfc3339_opts(chrono::SecondsFormat::Millis, true)
}

/// Whether `id` is `mem_` followed by a random UUID.
pub open spec fn is_new_id(id: Seq<char>) -> bool {
    exists|u: Seq<char>| #[trigger] is_random_uuid(u) && id == ID_PREFIX@ + u
}

/// A fresh memory id.
pub fn new_id() -> (r: String)
    ensures
        is_new_id(r@),
{
    let u = fresh_uuid();
    assert(is_random_uuid(u@));
    joined(ID_PREFIX, u.as_str())
}

/// The record of a memory with the given id and time; no tags means an empty
/// list of them.
pub fn record_of(id: String, created_at: String, text: &str, tags: Option<Vec<String>>) -> (r:
    MemoryRecord)
    ensures
        r@ == (RecordView {
            id: id@,
            text: text@,
            created_at: created_at@,
            tags: match tags {
                Some(t) => crate::text::texts(t@),
                None => Seq::empty(),
            },
        }),
{
    let tags = match tags {
        Some(t) => t,
        None => Vec::new(),
    };
    assert(crate::text::texts(Seq::<String>::empty()) =~= Seq::<Seq<char>>::empty());
    MemoryRecord { id, text: text.to_string(), created_at, tags }
}

/// Whether `r` is a record made now for `text` and `tags`, with a fresh id.
pub open spec fn is_new_record(
    r: RecordView,
    text: Seq<char>,
    tags: Option<Seq<Seq<char>>>,
) -> bool {
    &&& is_new_id(r.id)
    &&& is_utc_millis(r.created_at)
    &&& r.text == text
    &&& r.tags == match tags {
        Some(t) => t,
        None => Seq::empty(),
    }
}

/// A new record for `text`.
pub fn new_record(text: &str, tags: Option<Vec<String>>) -> (r: MemoryRecord)
    ensures
        is_new_record(r@, text@, crate::text::optional_texts(tags)),
{
    record_of(new_id(), now_iso(), text, tags)
}

/// Whether `c` may stand in a relation name: an ASCII letter or digit, or `_`.
pub open spec fn is_word_char(c: char) -> bool {
    'a' <= c <= 'z' || 'A' <= c <= 'Z' || '0' <= c <= '9' || c == '_'
}

/// Whether `relation` is a relation name: at least one character, word
/// characters only.
pub open spec fn is_relation(relation: Seq<char>) -> bool {
    relation.len() > 0 && forall|i: int|
        0 <= i < relation.len() ==> is_word_char(#[trigger] relation[i])
}

/// Only word characters are allowed: the relation becomes the type of a
/// relationship, which no query parameter can carry.
pub fn valid_relation(relation: &str) -> (r: bool)
    ensures
        r == is_relation(relation@),
{
    let chars = crate::text::chars_of(relation);
    let mut i: usize = 0;
    while i < chars.len()
        invariant
            chars@ == relation@,
            i <= chars.len(),
            forall|k: int| 0 <= k < i ==> is_word_char(#[trigger] relation@[k]),
        decreases chars.len() - i,
    {
        let c = chars[i];
        if !(('a' <= c && c <= 'z') || ('A' <= c && c <= 'Z') || ('0' <= c && c <= '9') || c
            == '_') {
            assert(!is_word_char(relation@[i as int]));
            return false;
        }
        i += 1;
    }
    chars.len() > 0
}

// ---- a graph in memory -----------------------------------------------------

/// The contents of a graph: its memories and relations, oldest first.
pub struct GraphView {
    pub memories: Seq<RecordView>,
    pub relations: Seq<LinkView>,
}

/// The first record with the given id.
pub open spec fn first_with_id(list: Seq<RecordView>, id: Seq<char>) -> Option<RecordView>
    decreases list.len(),
{
    if list.len() == 0 {
        None
    } else if list[0].id == id {
        Some(list[0])
    } else {
        first_with_id(list.skip(1), id)
    }
}

/// What one relation adds to the neighborhood of `id`: its target when it
/// starts at `id`, then its source when it ends there.
pub open spec fn related_by(
    memories: Seq<RecordView>,
    relation: LinkView,
    id: Seq<char>,
) -> Seq<RelatedView> {
    let target = first_with_id(memories, relation.to_id);
    let source = first_with_id(memories, relation.from_id);
    let out = if relation.from_id == id && target is Some {
        seq![RelatedView { memory: target->0, relation: relation.relation, direction: "out"@ }]
    } else {
        Seq::empty()
    };
    let inn = if relation.to_id == id && source is Some {
        seq![RelatedView { memory: source->0, relation: relation.relation, direction: "in"@ }]
    } else {
        Seq::empty()
    };
    out + inn
}

/// The neighborhood of `id`, in the order in which the relations were made.
pub open spec fn related_to(
    memories: Seq<RecordView>,
    relations: Seq<LinkView>,
    id: Seq<char>,
) -> Seq<RelatedView>
    decreases relations.len(),
{
    if relations.len() == 0 {
        Seq::empty()
    } else {
        related_to(memories, relations.drop_last(), id) + related_by(
            memories,
            relations.last(),
            id,
        )
    }
}

impl GraphView {
    /// The graph without memories.
    pub open spec fn empty() -> GraphView {
        GraphView { memories: Seq::empty(), relations: Seq::empty() }
    }

    /// Whether a memory has this id.
    pub open spec fn has(self, id: Seq<char>) -> bool {
        exists|i: int| 0 <= i < self.memories.len() && (#[trigger] self.memories[i]).id == id
    }

    /// The memory with this id and its neighborhood.
    pub open spec fn get(self, id: Seq<char>) -> Option<NeighborhoodView> {
        match first_with_id(self.memories, id) {
            Some(memory) => Some(
                NeighborhoodView {
                    memory,
                    related: related_to(self.memories, self.relations, id),
                },
            ),
            None => None,
        }
    }

    /// The graph with one more memory.
    pub open spec fn with_memory(self, record: RecordView) -> GraphView {
        GraphView { memories: self.memories.push(record), ..self }
    }

    /// The graph with one more relation.
    pub open spec fn with_relation(self, relation: LinkView) -> GraphView {
        GraphView { relations: self.relations.push(relation), ..self }
    }

    /// The graph without the memory `id` and without the relations at it.
    pub open spec fn without(self, id: Seq<char>) -> GraphView {
        GraphView {
            memories: self.memories.filter(|m: RecordView| m.id != id),
            relations: self.relations.filter(|l: LinkView| l.from_id != id && l.to_id != id),
        }
    }

    /// Whether every relation joins two memories of the graph.
    pub open spec fn attached(self) -> bool {
        forall|i: int|
            0 <= i < self.relations.len() ==> self.has((#[trigger] self.relations[i]).from_id)
                && self.has(self.relations[i].to_id)
    }
}

/// Adding one element to a filtered sequence.
pub proof fn lemma_filter_push<A>(s: Seq<A>, x: A, keep: spec_fn(A) -> bool)
    ensures
        s.push(x).filter(keep) == if keep(x) {
            s.filter(keep).push(x)
        } else {
            s.filter(keep)
        },
{
    reveal(Seq::filter);
    assert(s.push(x).drop_last() =~= s);
}

/// What a filter keeps: the elements that pass, and no others.
pub proof fn lemma_filter_contains<A>(s: Seq<A>, keep: spec_fn(A) -> bool, x: A)
    ensures
        s.filter(keep).contains(x) <==> s.contains(x) && keep(x),
    decreases s.len(),
{
    if s.len() > 0 {
        let rest = s.drop_last();
        lemma_filter_contains(rest, keep, x);
        lemma_filter_push(rest, s.last(), keep);
        assert(rest.push(s.last()) =~= s);
        if rest.contains(x) {
            let k = choose|k: int| 0 <= k < rest.len() && rest[k] == x;
            assert(s[k] == x);
        }
        if s.contains(x) && x != s.last() {
            let k = choose|k: int| 0 <= k < s.len() && s[k] == x;
            assert(rest[k] == x);
        }
        if keep(s.last()) {
            let f = rest.filter(keep);
            let g = f.push(s.last());
            assert(g[g.len() - 1] == s.last());
            if f.contains(x) {
                let k = choose|k: int| 0 <= k < f.len() && f[k] == x;
                assert(g[k] == x);
            }
            if g.contains(x) && x != s.last() {
                let k = choose|k: int| 0 <= k < g.len() && g[k] == x;
                assert(f[k] == x);
            }
        }
    } else {
        reveal(Seq::filter);
    }
}

/// `first_with_id` finds a record exactly when there is one.
pub proof fn lemma_first_with_id(list: Seq<RecordView>, id: Seq<char>)
    ensures
        match first_with_id(list, id) {
            Some(m) => m.id == id && list.contains(m),
            None => forall|i: int| 0 <= i < list.len() ==> (#[trigger] list[i]).id != id,
        },
    decreases list.len(),
{
    if list.len() > 0 && list[0].id != id {
        lemma_first_with_id(list.skip(1), id);
        match first_with_id(list.skip(1), id) {
            Some(m) => {
                let k = choose|k: int| 0 <= k < list.skip(1).len() && list.skip(1)[k] == m;
                assert(list[k + 1] == m);
            },
            None => {
                assert forall|i: int| 0 <= i < list.len() implies (#[trigger] list[i]).id != id by {
                    if i > 0 {
                        assert(list.skip(1)[i - 1] == list[i]);
                    }
                }
            },
        }
    } else if list.len() > 0 {
        assert(list.contains(list[0]));
    }
}

/// A graph kept in memory.
pub struct InMemoryGraphStore {
    memories: Vec<MemoryRecord>,
    relations: Vec<LinkResult>,
}

impl View for InMemoryGraphStore {
    type V = GraphView;

    closed spec fn view(&self) -> GraphView {
        GraphView { memories: records(self.memories@), relations: links(self.relations@) }
    }
}

impl Default for InMemoryGraphStore {
    fn default() -> (r: Self)
        ensures
            r@ == GraphView::empty(),
    {
        InMemoryGraphStore::new()
    }
}

impl InMemoryGraphStore {
    /// A graph without memories.
    pub fn new() -> (r: Self)
        ensures
            r@ == GraphView::empty(),
            r@.attached(),
    {
        let r = InMemoryGraphStore { memories: Vec::new(), relations: Vec::new() };
        assert(r@.memories =~= Seq::<RecordView>::empty());
        assert(r@.relations =~= Seq::<LinkView>::empty());
        r
    }

    /// The position of the first memory with this id.
    fn position(&self, id: &str) -> (r: Option<usize>)
        ensures
            match r {
                Some(i) => i < self.memories@.len() && first_with_id(self@.memories, id@) == Some(
                    self.memories@[i as int]@,
                ),
                None => first_with_id(self@.memories, id@) is None,
            },
    {
        let mut i: usize = 0;
        let wanted = id.to_string();
        assert(self@.memories.skip(0) =~= self@.memories);
        while i < self.memories.len()
            invariant
                i <= self.memories.len(),
                wanted@ == id@,
                first_with_id(self@.memories, id@) == first_with_id(
                    self@.memories.skip(i as int),
                    id@,
                ),
            decreases self.memories.len() - i,
        {
            assert(self@.memories.skip(i as int)[0] == self.memories@[i as int]@);
            if self.memories[i].id == wanted {
                return Some(i);
            }
            assert(self@.memories.skip(i as int).skip(1) =~= self@.memories.skip(i + 1));
            i += 1;
        }
        None
    }

    /// Adds a record that was made elsewhere.
    pub fn insert(&mut self, record: &MemoryRecord)
        ensures
            final(self)@ == old(self)@.with_memory(record@),
            old(self)@.attached() ==> final(self)@.attached(),
    {
        self.memories.push(record.clone());
        proof {
            assert(self@.memories =~= old(self)@.memories.push(record@));
            if old(self)@.attached() {
                lemma_memory_keeps_attached(old(self)@, record@);
            }
        }
    }

    /// Stores a new memory under a fresh id.
    pub fn store_memory(&mut self, text: &str, tags: Option<Vec<String>>) -> (r: Result<
        MemoryRecord,
        GraphError,
    >)
        ensures
            r is Ok,
            is_new_record(r->Ok_0@, text@, crate::text::optional_texts(tags)),
            final(self)@ == old(self)@.with_memory(r->Ok_0@),
            old(self)@.attached() ==> final(self)@.attached(),
    {
        let record = new_record(text, tags);
        self.insert(&record);
        Ok(record)
    }

    /// Links two memories that exist, under a relation name of word characters.
    pub fn link_memories(&mut self, from_id: &str, to_id: &str, relation: &str) -> (r: Result<
        LinkResult,
        GraphError,
    >)
        ensures
            ({
                let link = LinkView { from_id: from_id@, to_id: to_id@, relation: relation@ };
                match r {
                    Ok(l) => {
                        &&& is_relation(relation@)
                        &&& old(self)@.has(from_id@) && old(self)@.has(to_id@)
                        &&& l@ == link
                        &&& final(self)@ == old(self)@.with_relation(link)
                    },
                    Err(GraphError::InvalidRelation { relation: name }) => {
                        &&& !is_relation(relation@)
                        &&& name@ == relation@
                        &&& final(self)@ == old(self)@
                    },
                    Err(GraphError::CannotLink { from_id: f, to_id: t }) => {
                        &&& is_relation(relation@)
                        &&& !(old(self)@.has(from_id@) && old(self)@.has(to_id@))
                        &&& f@ == from_id@
                        &&& t@ == to_id@
                        &&& final(self)@ == old(self)@
                    },
                }
            }),
            old(self)@.attached() ==> final(self)@.attached(),
    {
        proof {
            lemma_has(self@, from_id@);
            lemma_has(self@, to_id@);
        }
        if !valid_relation(relation) {
            return Err(GraphError::InvalidRelation { relation: relation.to_string() });
        }
        if self.position(from_id).is_none() || self.position(to_id).is_none() {
            return Err(
                GraphError::CannotLink { from_id: from_id.to_string(), to_id: to_id.to_string() },
            );
        }
        let link = LinkResult {
            from_id: from_id.to_string(),
            to_id: to_id.to_string(),
            relation: relation.to_string(),
        };
        self.relations.push(link.clone());
        proof {
            assert(self@.relations =~= old(self)@.relations.push(link@));
            if old(self)@.attached() {
                lemma_relation_keeps_attached(old(self)@, link@);
            }
        }
        Ok(link)
    }

    /// The memory with this id, with the memories at the other ends of its
    /// relations.
    pub fn get_memory(&self, id: &str) -> (r: Result<Option<MemoryWithRelated>, GraphError>)
        ensures
            r is Ok,
            optional_neighborhood(r->Ok_0) == self@.get(id@),
    {
        let at = match self.position(id) {
            Some(i) => i,
            None => return Ok(None),
        };
        let wanted = id.to_string();
        let mut related: Vec<RelatedMemory> = Vec::new();
        let mut i: usize = 0;
        while i < self.relations.len()
            invariant
                i <= self.relations.len(),
                wanted@ == id@,
                relateds(related@) =~= related_to(
                    self@.memories,
                    self@.relations.take(i as int),
                    id@,
                ),
            decreases self.relations.len() - i,
        {
            let relation = &self.relations[i];
            let ghost before = relateds(related@);
            assert(self@.relations.take(i + 1).drop_last() =~= self@.relations.take(i as int));
            assert(self@.relations.take(i + 1).last() == relation@);
            if relation.from_id == wanted {
                if let Some(t) = self.position(relation.to_id.as_str()) {
                    related.push(
                        RelatedMemory {
                            memory: self.memories[t].clone(),
                            relation: relation.relation.clone(),
                            direction: "out".to_string(),
                        },
                    );
                }
            }
            if relation.to_id == wanted {
                if let Some(t) = self.position(relation.from_id.as_str()) {
                    related.push(
                        RelatedMemory {
                            memory: self.memories[t].clone(),
                            relation: relation.relation.clone(),
                            direction: "in".to_string(),
                        },
                    );
                }
            }
            assert(relateds(related@) =~= before + related_by(self@.memories, relation@, id@));
            i += 1;
        }
        assert(self@.relations.take(self.relations.len() as int) =~= self@.relations);
        Ok(Some(MemoryWithRelated { memory: self.memories[at].clone(), related }))
    }

    /// Removes the memory with this id and the relations at it, nothing else.
    /// Tells whether there was one.
    pub fn delete_memory(&mut self, id: &str) -> (r: Result<bool, GraphError>)
        ensures
            r == Ok::<bool, GraphError>(old(self)@.has(id@)),
            final(self)@ == old(self)@.without(id@),
            old(self)@.attached() ==> final(self)@.attached(),
    {
        let id = id.to_string();
        let ghost before = self@;
        let ghost keep_memory = |m: RecordView| m.id != id@;
        let ghost keep_relation = |l: LinkView| l.from_id != id@ && l.to_id != id@;
        let mut deleted = false;
        let mut memories: Vec<MemoryRecord> = Vec::new();
        let mut i: usize = 0;
        proof {
            reveal(Seq::filter);
            assert(before.memories.take(0).filter(keep_memory) =~= Seq::<RecordView>::empty());
        }
        while i < self.memories.len()
            invariant
                i <= self.memories.len(),
                self@ == before,
                keep_memory == (|m: RecordView| m.id != id@),
                records(memories@) == before.memories.take(i as int).filter(keep_memory),
                deleted <==> exists|k: int|
                    0 <= k < i && (#[trigger] before.memories[k]).id == id@,
            decreases self.memories.len() - i,
        {
            let memory = &self.memories[i];
            assert(before.memories[i as int] == memory@);
            proof {
                lemma_filter_push(before.memories.take(i as int), memory@, keep_memory);
                assert(before.memories.take(i + 1) =~= before.memories.take(i as int).push(
                    memory@,
                ));
            }
            if memory.id == id {
                deleted = true;
            } else {
                let ghost old_records = records(memories@);
                memories.push(memory.clone());
                assert(records(memories@) =~= old_records.push(memory@));
            }
            i += 1;
        }
        assert(before.memories.take(before.memories.len() as int) =~= before.memories);
        let mut relations: Vec<LinkResult> = Vec::new();
        let mut j: usize = 0;
        proof {
            reveal(Seq::filter);
            assert(before.relations.take(0).filter(keep_relation) =~= Seq::<LinkView>::empty());
        }
        while j < self.relations.len()
            invariant
                j <= self.relations.len(),
                self@ == before,
                keep_relation == (|l: LinkView| l.from_id != id@ && l.to_id != id@),
                links(relations@) == before.relations.take(j as int).filter(keep_relation),
            decreases self.relations.len() - j,
        {
            let relation = &self.relations[j];
            assert(before.relations[j as int] == relation@);
            proof {
                lemma_filter_push(before.relations.take(j as int), relation@, keep_relation);
                assert(before.relations.take(j + 1) =~= before.relations.take(j as int).push(
                    relation@,
                ));
            }
            if relation.from_id != id && relation.to_id != id {
                let ghost old_links = links(relations@);
                relations.push(relation.clone());
                assert(links(relations@) =~= old_links.push(relation@));
            }
            j += 1;
        }
        assert(before.relations.take(before.relations.len() as int) =~= before.relations);
        self.memories = memories;
        self.relations = relations;
        proof {
            if before.attached() {
                lemma_without_keeps_attached(before, id@);
            }
        }
        Ok(deleted)
    }

    /// Every memory, oldest first.
    pub fn list_all(&self) -> (r: Result<Vec<MemoryRecord>, GraphError>)
        ensures
            r is Ok,
            records(r->Ok_0@) == self@.memories,
    {
        Ok(clone_records(&self.memories))
    }
}

/// A graph has a memory exactly when the first one with the id is found.
pub proof fn lemma_has(g: GraphView, id: Seq<char>)
    ensures
        g.has(id) <==> first_with_id(g.memories, id) is Some,
{
    lemma_first_with_id(g.memories, id);
    if first_with_id(g.memories, id) is Some {
        let m = first_with_id(g.memories, id)->0;
        let k = choose|k: int| 0 <= k < g.memories.len() && g.memories[k] == m;
        assert(g.memories[k].id == id);
    }
}

pub proof fn lemma_memory_keeps_attached(g: GraphView, record: RecordView)
    requires
        g.attached(),
    ensures
        g.with_memory(record).attached(),
{
    let h = g.with_memory(record);
    assert forall|id: Seq<char>| g.has(id) implies #[trigger] h.has(id) by {
        let k = choose|k: int| 0 <= k < g.memories.len() && (#[trigger] g.memories[k]).id == id;
        assert(h.memories[k].id == id);
    }
    assert forall|i: int| 0 <= i < h.relations.len() implies h.has(
        (#[trigger] h.relations[i]).from_id,
    ) && h.has(h.relations[i].to_id) by {
        assert(g.has(g.relations[i].from_id) && g.has(g.relations[i].to_id));
    }
}

pub proof fn lemma_relation_keeps_attached(g: GraphView, relation: LinkView)
    requires
        g.attached(),
        g.has(relation.from_id),
        g.has(relation.to_id),
    ensures
        g.with_relation(relation).attached(),
{
    let h = g.with_relation(relation);
    assert forall|id: Seq<char>| g.has(id) implies #[trigger] h.has(id) by {
        let k = choose|k: int| 0 <= k < g.memories.len() && (#[trigger] g.memories[k]).id == id;
        assert(h.memories[k].id == id);
    }
    assert forall|i: int| 0 <= i < h.relations.len() implies h.has(
        (#[trigger] h.relations[i]).from_id,
    ) && h.has(h.relations[i].to_id) by {
        if i < g.relations.len() {
            assert(g.has(g.relations[i].from_id) && g.has(g.relations[i].to_id));
        }
    }
}

pub proof fn lemma_without_has(g: GraphView, id: Seq<char>, other: Seq<char>)
    ensures
        g.without(id).has(other) <==> other != id && g.has(other),
{
    let keep = |m: RecordView| m.id != id;
    let h = g.without(id);
    if h.has(other) {
        let k = choose|k: int| 0 <= k < h.memories.len() && (#[trigger] h.memories[k]).id == other;
        lemma_filter_contains(g.memories, keep, h.memories[k]);
        assert(h.memories.contains(h.memories[k]));
        let j = choose|j: int| 0 <= j < g.memories.len() && g.memories[j] == h.memories[k];
        assert(g.memories[j].id == other);
    }
    if other != id && g.has(other) {
        let k = choose|k: int| 0 <= k < g.memories.len() && (#[trigger] g.memories[k]).id == other;
        lemma_filter_contains(g.memories, keep, g.memories[k]);
        assert(g.memories.contains(g.memories[k]));
        let j = choose|j: int| 0 <= j < h.memories.len() && h.memories[j] == g.memories[k];
        assert(h.memories[j].id == other);
    }
}

pub proof fn lemma_without_keeps_attached(g: GraphView, id: Seq<char>)
    requires
        g.attached(),
    ensures
        g.without(id).attached(),
{
    let keep = |l: LinkView| l.from_id != id && l.to_id != id;
    let h = g.without(id);
    assert forall|i: int| 0 <= i < h.relations.len() implies h.has(
        (#[trigger] h.relations[i]).from_id,
    ) && h.has(h.relations[i].to_id) by {
        let l = h.relations[i];
        lemma_filter_contains(g.relations, keep, l);
        assert(h.relations.contains(l));
        let j = choose|j: int| 0 <= j < g.relations.len() && g.relations[j] == l;
        assert(g.has(g.relations[j].from_id) && g.has(g.relations[j].to_id));
        lemma_without_has(g, id, l.from_id);
        lemma_without_has(g, id, l.to_id);
    }
}

} // verus!
