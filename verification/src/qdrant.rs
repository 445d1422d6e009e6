//! The vector index in Qdrant.
//!
//! What to ask the database, and what its answers mean. The collection is
//! created on first use, with the dimensions that were set, or else with as many
//! as the first vector has.
use crate::embeddings::EmbeddingView;
use crate::graph::{is_new_id, RecordView};
use crate::service::{point_for, ActionView, ReplyView};
use crate::service_laws::{after, lemma_rebuilt, made_from, rebuilt, World};
use crate::text::{ascending, clone_texts, insert_name, optional_text, text_before, texts};
use crate::vectors::{
    clone_bits, hits, law_fresh_ids_have_own_points, point_uuid, position_of, uuid_to_ulid,
    HitView, PointView, VectorRecord, VectorSearchHit,
};
use vstd::prelude::*;
use vstd::string::*;

verus! {

/// How many points a page holds when the index is read page by page.
pub const SCROLL_LIMIT: u32 = 1000;

/// Why the index cannot be used.
#[derive(Debug, Clone, Copy, PartialEq, Eq, Structural)]
pub enum QdrantError {
    /// there is no collection, and nobody said how many dimensions it has
    DimensionsUnknown,
}

impl QdrantError {
    /// What went wrong, in words.
    pub open spec fn words(self) -> Seq<char> {
        "cannot create qdrant collection: embedding dimensions unknown (embed one memory first or set embeddings.dimensions in config)"@
    }

    /// What went wrong, in words.
    pub fn message(&self) -> (r: String)
        ensures
            r@ == self.words(),
    {
        "cannot create qdrant collection: embedding dimensions unknown (embed one memory first or set embeddings.dimensions in config)".to_string()
    }
}

/// What is known when the collection is prepared.
#[derive(Debug, Clone, Copy, PartialEq, Eq, Structural)]
pub enum Known {
    /// nothing yet
    Nothing,
    /// whether the collection exists
    Exists(bool),
    /// the collection was created
    Created,
}

/// What to do next when the collection is prepared.
#[derive(Debug, Clone, Copy, PartialEq, Eq, Structural)]
pub enum Preparation {
    /// ask whether the collection exists
    Probe,
    /// create the collection, for vectors of this size
    Create { size: u64 },
    /// go on
    Ready,
}

/// The value of a field of a point's payload: a text, or of another type.
#[derive(Debug, PartialEq)]
pub enum PayloadValue {
    Text(String),
    Other,
}

/// The payload of a point: its fields, each name once.
#[derive(Debug)]
pub struct PointPayload {
    pub fields: Vec<(String, PayloadValue)>,
}

/// The contents of a [`PointPayload`]: the texts by name, nothing for a field
/// of another type.
pub open spec fn payload_fields(payload: PointPayload) -> Seq<(Seq<char>, Option<Seq<char>>)> {
    payload.fields@.map_values(
        |f: (String, PayloadValue)|
            (
                f.0@,
                match f.1 {
                    PayloadValue::Text(t) => Some(t@),
                    PayloadValue::Other => None,
                },
            ),
    )
}

/// The text in the first field with a name, if it holds one.
pub open spec fn first_text(fields: Seq<(Seq<char>, Option<Seq<char>>)>, key: Seq<char>) -> Option<
    Seq<char>,
>
    decreases fields.len(),
{
    if fields.len() == 0 {
        None
    } else if fields[0].0 == key {
        fields[0].1
    } else {
        first_text(fields.skip(1), key)
    }
}

/// The text in a field of a payload; `None` if the field is missing or holds
/// something else.
pub fn payload_string(payload: &PointPayload, key: &str) -> (r: Option<String>)
    ensures
        optional_text(r) == first_text(payload_fields(*payload), key@),
{
    let wanted = key.to_string();
    let ghost all = payload_fields(*payload);
    assert(all.skip(0) =~= all);
    let mut i: usize = 0;
    while i < payload.fields.len()
        invariant
            i <= payload.fields.len(),
            wanted@ == key@,
            all == payload_fields(*payload),
            first_text(all, key@) == first_text(all.skip(i as int), key@),
        decreases payload.fields.len() - i,
    {
        let field = &payload.fields[i];
        assert(all.skip(i as int)[0] == all[i as int]);
        assert(all.skip(i as int).skip(1) =~= all.skip(i + 1));
        if field.0 == wanted {
            return match &field.1 {
                PayloadValue::Text(t) => Some(t.clone()),
                PayloadValue::Other => None,
            };
        }
        i += 1;
    }
    None
}

/// A point that a query found.
#[derive(Debug)]
pub struct ScoredPoint {
    pub payload: PointPayload,
    /// bit pattern of the similarity
    pub score: u32,
}

/// A point to write.
#[derive(Debug, PartialEq)]
pub struct NewPoint {
    pub id: String,
    /// bit patterns of the components
    pub vector: Vec<u32>,
    pub payload: Vec<(String, String)>,
}

/// The payload that a point is written with.
pub open spec fn written_payload(point: PointView) -> Seq<(Seq<char>, Option<Seq<char>>)> {
    seq![("memoryId"@, Some(point.memory_id)), ("model"@, Some(point.model))]
}

/// The hits in what a query found, in order: the points whose payload names a
/// memory.
pub open spec fn hits_of(found: Seq<ScoredPoint>) -> Seq<HitView>
    decreases found.len(),
{
    if found.len() == 0 {
        Seq::empty()
    } else {
        let before = hits_of(found.drop_last());
        match first_text(payload_fields(found.last().payload), "memoryId"@) {
            Some(memory_id) => if memory_id.len() > 0 {
                before.push(HitView { memory_id, score: found.last().score })
            } else {
                before
            },
            None => before,
        }
    }
}

/// Whether a model is named by one of the payloads.
pub open spec fn names_model(payloads: Seq<PointPayload>, model: Seq<char>) -> bool {
    exists|i: int|
        0 <= i < payloads.len() && first_text(payload_fields(#[trigger] payloads[i]), "model"@)
            == Some(model)
}

/// The contents of a [`QdrantVectorStore`].
pub struct StoreView {
    pub dimensions: Option<u32>,
    pub ready: bool,
}

/// The vector index in Qdrant: how many dimensions the collection is to have,
/// and whether it is known to exist.
pub struct QdrantVectorStore {
    dimensions: Option<u32>,
    collection_ready: bool,
}

impl View for QdrantVectorStore {
    type V = StoreView;

    closed spec fn view(&self) -> StoreView {
        StoreView { dimensions: self.dimensions, ready: self.collection_ready }
    }
}

impl StoreView {
    /// The store after a step of preparing the collection.
    pub open spec fn after(self, known: Known) -> StoreView {
        StoreView {
            ready: self.ready || known == Known::Exists(true) || known == Known::Created,
            ..self
        }
    }

    /// What comes next before a vector is written: nothing once the collection
    /// is known to exist, else a probe, and its creation if it is missing, with
    /// the dimensions that were set or else those of the vector.
    pub open spec fn ensuring(self, dims: int, known: Known) -> Preparation {
        if self.ready {
            Preparation::Ready
        } else {
            match known {
                Known::Nothing => Preparation::Probe,
                Known::Exists(true) => Preparation::Ready,
                Known::Exists(false) => Preparation::Create {
                    size: match self.dimensions {
                        Some(d) => d as u64,
                        None => dims as u64,
                    },
                },
                Known::Created => Preparation::Ready,
            }
        }
    }

    /// The store once it is known whether the collection exists.
    pub open spec fn found(self, present: bool) -> StoreView {
        StoreView { ready: present, ..self }
    }

    /// What comes next when the store is initialised: always a probe, and the
    /// creation of a missing collection with the dimensions that were set.
    pub open spec fn initialising(self, known: Known) -> Result<Preparation, QdrantError> {
        match known {
            Known::Nothing => Ok(Preparation::Probe),
            Known::Exists(true) => Ok(Preparation::Ready),
            Known::Exists(false) => match self.dimensions {
                Some(d) => Ok(Preparation::Create { size: d as u64 }),
                None => Err(QdrantError::DimensionsUnknown),
            },
            Known::Created => Ok(Preparation::Ready),
        }
    }
}

impl QdrantVectorStore {
    /// An index that nothing is known of.
    pub fn new(dimensions: Option<u32>) -> (r: Self)
        ensures
            r@ == (StoreView { dimensions, ready: false }),
    {
        QdrantVectorStore { dimensions, collection_ready: false }
    }

    /// The next step before a vector with `dims` components is written.
    pub fn ensure_collection(&mut self, dims: usize, known: Known) -> (r: Preparation)
        ensures
            r == old(self)@.ensuring(dims as int, known),
            final(self)@ == old(self)@.after(known),
    {
        let ready = self.collection_ready;
        match known {
            Known::Exists(true) | Known::Created => {
                self.collection_ready = true;
            },
            _ => {},
        }
        if ready {
            return Preparation::Ready;
        }
        match known {
            Known::Nothing => Preparation::Probe,
            Known::Exists(true) => Preparation::Ready,
            Known::Exists(false) => Preparation::Create {
                size: match self.dimensions {
                    Some(d) => d as u64,
                    None => dims as u64,
                },
            },
            Known::Created => Preparation::Ready,
        }
    }

    /// The next step of creating the collection if it is missing.
    pub fn init(&mut self, known: Known) -> (r: Result<Preparation, QdrantError>)
        ensures
            r == old(self)@.initialising(known),
            final(self)@ == old(self)@.after(known),
    {
        match known {
            Known::Nothing => Ok(Preparation::Probe),
            Known::Exists(false) => match self.dimensions {
                Some(d) => Ok(Preparation::Create { size: d as u64 }),
                None => Err(QdrantError::DimensionsUnknown),
            },
            Known::Exists(true) | Known::Created => {
                self.collection_ready = true;
                Ok(Preparation::Ready)
            },
        }
    }

    /// The point of a record: its payload names the memory, so that hydration
    /// goes through the graph, and the model, to detect mismatches.
    pub fn upsert(record: &VectorRecord) -> (r: NewPoint)
        ensures
            r.id@ == point_uuid(record@.memory_id),
            r.vector@ == record@.vector,
            r.payload@.map_values(|f: (String, String)| (f.0@, Some(f.1@))) == written_payload(
                record@,
            ),
    {
        let mut payload: Vec<(String, String)> = Vec::new();
        payload.push(("memoryId".to_string(), record.memory_id.clone()));
        payload.push(("model".to_string(), record.model.clone()));
        assert(payload@.map_values(|f: (String, String)| (f.0@, Some(f.1@))) =~= written_payload(
            record@,
        ));
        NewPoint {
            id: uuid_to_ulid(record.memory_id.as_str()),
            vector: clone_bits(&record.vector),
            payload,
        }
    }

    /// How many points to ask for in a search; `None` if there is nothing to
    /// ask: without a collection a search finds nothing.
    pub fn query_limit(present: bool, top_k: usize) -> (r: Option<u64>)
        ensures
            r == if present {
                Some(top_k as u64)
            } else {
                None
            },
    {
        if present {
            Some(top_k as u64)
        } else {
            None
        }
    }

    /// The hits in what a query found.
    pub fn search(found: &Vec<ScoredPoint>) -> (r: Vec<VectorSearchHit>)
        ensures
            hits(r@) == hits_of(found@),
    {
        let mut r: Vec<VectorSearchHit> = Vec::new();
        assert(hits(r@) =~= Seq::<HitView>::empty());
        let mut i: usize = 0;
        while i < found.len()
            invariant
                i <= found.len(),
                hits(r@) == hits_of(found@.take(i as int)),
            decreases found.len() - i,
        {
            let point = &found[i];
            let ghost before = hits(r@);
            assert(found@.take(i + 1).drop_last() =~= found@.take(i as int));
            assert(found@.take(i + 1).last() == point);
            if let Some(memory_id) = payload_string(&point.payload, "memoryId") {
                if !memory_id.as_str().is_empty() {
                    let hit = VectorSearchHit { memory_id, score: point.score };
                    r.push(hit);
                    assert(hits(r@) =~= before.push(hit@));
                }
            }
            i += 1;
        }
        assert(found@.take(found.len() as int) =~= found@);
        r
    }

    /// The id of the point to delete for a memory.
    pub fn delete(memory_id: &str) -> (r: String)
        ensures
            r@ == point_uuid(memory_id@),
    {
        uuid_to_ulid(memory_id)
    }

    /// The number of points that the database reports, 0 if it reports none.
    pub fn count(reported: Option<u64>) -> (r: u64)
        ensures
            r == match reported {
                Some(n) => n,
                None => 0,
            },
    {
        match reported {
            Some(n) => n,
            None => 0,
        }
    }

    /// Whether there are points to delete when the index is emptied: without a
    /// collection there are none, and nothing is to be asked. A collection that
    /// is gone is made again when the next vector is written.
    pub fn delete_all(&mut self, present: bool) -> (r: bool)
        ensures
            r == present,
            final(self)@ == old(self)@.found(present),
    {
        self.collection_ready = present;
        present
    }

    /// Begins to read the models in the index.
    pub fn models() -> (r: ModelScan)
        ensures
            r@ == ScanView::start(),
    {
        ModelScan::start()
    }
}

// ---- models in the index ---------------------------------------------------

/// Where a page begins: the id of its first point.
#[derive(Debug, PartialEq)]
pub enum PageOffset {
    Number(u64),
    Uuid(String),
}

/// The contents of a [`PageOffset`].
pub enum OffsetView {
    Number(u64),
    Uuid(Seq<char>),
}

impl View for PageOffset {
    type V = OffsetView;

    open spec fn view(&self) -> OffsetView {
        match *self {
            PageOffset::Number(n) => OffsetView::Number(n),
            PageOffset::Uuid(u) => OffsetView::Uuid(u@),
        }
    }
}

/// The contents of an offset that may be missing.
pub open spec fn optional_offset(offset: Option<PageOffset>) -> Option<OffsetView> {
    match offset {
        Some(o) => Some(o@),
        None => None,
    }
}

fn clone_offset(offset: &PageOffset) -> (r: PageOffset)
    ensures
        r@ == offset@,
{
    match offset {
        PageOffset::Number(n) => PageOffset::Number(*n),
        PageOffset::Uuid(u) => PageOffset::Uuid(u.clone()),
    }
}

/// A page of the index: the payloads of its points, and where the next page
/// begins if there is one.
#[derive(Debug)]
pub struct Page {
    pub payloads: Vec<PointPayload>,
    pub next: Option<PageOffset>,
}

/// What is next in reading the models.
#[derive(Debug, PartialEq)]
pub enum ScanStep {
    /// ask for the page that begins at an offset, or for the first one
    Scroll { offset: Option<PageOffset>, limit: u32 },
    /// every page was read: the models, each once, in ascending order
    Done(Vec<String>),
}

/// How far the index was read: the payloads so far, and where the next page
/// begins; the first page has no offset.
pub struct ScanView {
    pub seen: Seq<PointPayload>,
    pub next: Option<OffsetView>,
    pub complete: bool,
}

impl ScanView {
    /// Nothing was read yet.
    pub open spec fn start() -> ScanView {
        ScanView { seen: Seq::empty(), next: None, complete: false }
    }

    /// After one more page; it was the last one if it names no next.
    pub open spec fn after(self, page: Page) -> ScanView {
        ScanView {
            seen: self.seen + page.payloads@,
            next: optional_offset(page.next),
            complete: page.next is None,
        }
    }
}

/// Reads the models in the index, page by page.
pub struct ModelScan {
    names: Vec<String>,
    next: Option<PageOffset>,
    complete: bool,
    seen: Ghost<Seq<PointPayload>>,
}

impl View for ModelScan {
    type V = ScanView;

    closed spec fn view(&self) -> ScanView {
        ScanView {
            seen: self.seen@,
            next: optional_offset(self.next),
            complete: self.complete,
        }
    }
}

/// Whether `list` holds the models that payloads name, each once and in
/// ascending order.
pub open spec fn are_models_named(list: Seq<Seq<char>>, payloads: Seq<PointPayload>) -> bool {
    &&& ascending(list)
    &&& forall|m: Seq<char>| #[trigger] list.contains(m) <==> names_model(payloads, m)
}

/// One more payload adds the model that it names.
proof fn lemma_one_more_payload(payloads: Seq<PointPayload>, payload: PointPayload, m: Seq<char>)
    ensures
        names_model(payloads.push(payload), m) <==> names_model(payloads, m) || first_text(
            payload_fields(payload),
            "model"@,
        ) == Some(m),
{
    let longer = payloads.push(payload);
    if names_model(payloads, m) {
        let k = choose|k: int|
            0 <= k < payloads.len() && first_text(payload_fields(#[trigger] payloads[k]), "model"@)
                == Some(m);
        assert(longer[k] == payloads[k]);
    }
    if names_model(longer, m) {
        let k = choose|k: int|
            0 <= k < longer.len() && first_text(payload_fields(#[trigger] longer[k]), "model"@)
                == Some(m);
        if k < payloads.len() {
            assert(payloads[k] == longer[k]);
        }
    }
    assert(longer[payloads.len() as int] == payload);
}

impl ModelScan {
    #[verifier::type_invariant]
    spec fn well_formed(self) -> bool {
        are_models_named(texts(self.names@), self.seen@)
    }

    fn start() -> (r: Self)
        ensures
            r@ == ScanView::start(),
    {
        let names: Vec<String> = Vec::new();
        assert(texts(names@) =~= Seq::<Seq<char>>::empty());
        ModelScan { names, next: None, complete: false, seen: Ghost(Seq::empty()) }
    }

    /// What to ask for next, or the models once there is no further page.
    pub fn next(&self) -> (r: ScanStep)
        ensures
            match r {
                ScanStep::Scroll { offset, limit } => {
                    &&& !self@.complete
                    &&& optional_offset(offset) == self@.next
                    &&& limit == SCROLL_LIMIT
                },
                ScanStep::Done(list) => {
                    &&& self@.complete
                    &&& are_models_named(texts(list@), self@.seen)
                },
            },
    {
        proof {
            use_type_invariant(self);
        }
        if self.complete {
            ScanStep::Done(clone_texts(&self.names))
        } else {
            let offset = match &self.next {
                Some(o) => Some(clone_offset(o)),
                None => None,
            };
            ScanStep::Scroll { offset, limit: SCROLL_LIMIT }
        }
    }

    /// The scan after the page that was asked for.
    pub fn page(self, page: Page) -> (r: Self)
        ensures
            r@ == self@.after(page),
    {
        proof {
            use_type_invariant(&self);
        }
        let ghost first = self.seen@;
        let mut names = self.names;
        let payloads = &page.payloads;
        assert(first + payloads@.take(0) =~= first);
        let mut i: usize = 0;
        while i < payloads.len()
            invariant
                i <= payloads.len(),
                are_models_named(texts(names@), first + payloads@.take(i as int)),
            decreases payloads.len() - i,
        {
            let ghost before = texts(names@);
            let ghost shorter = first + payloads@.take(i as int);
            let ghost longer = first + payloads@.take(i + 1);
            let found = payload_string(&payloads[i], "model");
            if let Some(model) = found {
                insert_name(&mut names, &model);
            }
            proof {
                let here = payloads@[i as int];
                assert(longer =~= shorter.push(here));
                assert forall|m: Seq<char>| #[trigger]
                    texts(names@).contains(m) <==> names_model(longer, m) by {
                    assert(before.contains(m) <==> names_model(shorter, m));
                    lemma_one_more_payload(shorter, here, m);
                }
            }
            i += 1;
        }
        assert(payloads@.take(payloads@.len() as int) =~= payloads@);
        let ghost seen = first + page.payloads@;
        let complete = page.next.is_none();
        ModelScan { names, next: page.next, complete, seen: Ghost(seen) }
    }
}

// ---- laws ------------------------------------------------------------------

/// Once the collection is known to exist it is neither probed nor created
/// again, whatever is written.
pub proof fn law_ready_collection_is_left_alone(store: StoreView, dims: int, known: Known)
    requires
        store.ready,
    ensures
        store.ensuring(dims, known) == Preparation::Ready,
        store.after(known) == store,
{
}

/// Preparing the collection ends after at most one probe and one creation, and
/// then the collection is known to exist.
pub proof fn law_preparing_ends(store: StoreView, dims: int, exists_now: bool)
    ensures
        store.ensuring(dims, Known::Nothing) == Preparation::Ready || {
            &&& store.ensuring(dims, Known::Nothing) == Preparation::Probe
            &&& exists_now ==> store.ensuring(dims, Known::Exists(exists_now))
                == Preparation::Ready && store.after(Known::Exists(exists_now)).ready
            &&& !exists_now ==> store.ensuring(dims, Known::Exists(exists_now)) is Create
                && store.ensuring(dims, Known::Created) == Preparation::Ready && store.after(
                Known::Created,
            ).ready
        },
{
}

/// Initialising a store whose collection exists never fails and creates
/// nothing, so initialising twice is as good as once.
pub proof fn law_init_is_idempotent(store: StoreView)
    ensures
        store.initialising(Known::Exists(true)) == Ok::<Preparation, QdrantError>(
            Preparation::Ready,
        ),
        store.after(Known::Exists(true)).after(Known::Exists(true)) == store.after(
            Known::Exists(true),
        ),
{
}

/// The payload of a written point names its memory and its model.
pub proof fn law_written_payload_is_read_back(point: PointView)
    ensures
        first_text(written_payload(point), "memoryId"@) == Some(point.memory_id),
        first_text(written_payload(point), "model"@) == Some(point.model),
{
    reveal_strlit("memoryId");
    reveal_strlit("model");
    let fields = written_payload(point);
    assert("memoryId"@.len() != "model"@.len());
    assert(fields.skip(1)[0] == fields[1]);
    reveal_with_fuel(first_text, 3);
}

/// A point that was written for a memory, and that a query finds last, becomes
/// the last hit, with the memory's id and the point's score.
pub proof fn law_written_point_becomes_a_hit(found: Seq<ScoredPoint>, point: PointView)
    requires
        found.len() > 0,
        payload_fields(found.last().payload) == written_payload(point),
        point.memory_id.len() > 0,
    ensures
        hits_of(found) == hits_of(found.drop_last()).push(
            HitView { memory_id: point.memory_id, score: found.last().score },
        ),
{
    law_written_payload_is_read_back(point);
}

/// A search never gives a hit without a memory id, nor more hits than points.
pub proof fn law_hits_name_memories(found: Seq<ScoredPoint>)
    ensures
        hits_of(found).len() <= found.len(),
        forall|i: int|
            0 <= i < hits_of(found).len() ==> (#[trigger] hits_of(found)[i]).memory_id.len() > 0,
    decreases found.len(),
{
    if found.len() > 0 {
        law_hits_name_memories(found.drop_last());
    }
}

/// Dimensions that were set are those of a collection that is created, however
/// long the vector is and whichever way it is created.
pub proof fn law_set_dimensions_hold(store: StoreView, dims: int, d: u32)
    requires
        store.dimensions == Some(d),
    ensures
        store.ensuring(dims, Known::Exists(false)) matches Preparation::Create { size }
            ==> size == d,
        store.initialising(Known::Exists(false)) == Ok::<Preparation, QdrantError>(
            Preparation::Create { size: d as u64 },
        ),
{
}

/// A collection that was lost is made again by the first write after the index
/// was emptied.
pub proof fn law_lost_collection_is_made_again(store: StoreView, dims: int)
    ensures
        store.found(false).ensuring(dims, Known::Nothing) == Preparation::Probe,
        store.found(false).ensuring(dims, Known::Exists(false)) is Create,
        store.found(false).ensuring(dims, Known::Created) == Preparation::Ready,
        store.found(false).after(Known::Created).ready,
{
}

/// The points in a collection: none if it does not exist.
pub open spec fn points_in(collection: Option<Seq<PointView>>) -> Seq<PointView> {
    match collection {
        Some(points) => points,
        None => Seq::empty(),
    }
}

/// A collection after the index was emptied: every point is deleted if it
/// exists, and nothing is asked if it does not.
pub open spec fn emptied(collection: Option<Seq<PointView>>) -> Option<Seq<PointView>> {
    match collection {
        Some(_) => Some(Seq::empty()),
        None => None,
    }
}

/// The position of the first point with the id of a memory's point; the length
/// if there is none.
pub open spec fn slot_of(points: Seq<PointView>, memory_id: Seq<char>) -> int
    decreases points.len(),
{
    if points.len() == 0 {
        0
    } else if point_uuid(points[0].memory_id) == point_uuid(memory_id) {
        0
    } else {
        1 + slot_of(points.skip(1), memory_id)
    }
}

/// A collection after a point was written: it is created first if it is missing,
/// and a point with the same id is replaced.
pub open spec fn written(collection: Option<Seq<PointView>>, point: PointView) -> Option<
    Seq<PointView>,
> {
    let points = points_in(collection);
    let at = slot_of(points, point.memory_id);
    if at < points.len() {
        Some(points.update(at, point))
    } else {
        Some(points.push(point))
    }
}

/// Whether no other memory's point has the id of this memory's.
pub open spec fn has_own_point(points: Seq<PointView>, memory_id: Seq<char>) -> bool {
    forall|i: int|
        0 <= i < points.len() && point_uuid((#[trigger] points[i]).memory_id) == point_uuid(
            memory_id,
        ) ==> points[i].memory_id == memory_id
}

proof fn lemma_slot_of(points: Seq<PointView>, memory_id: Seq<char>)
    requires
        has_own_point(points, memory_id),
    ensures
        slot_of(points, memory_id) == position_of(points, memory_id),
    decreases points.len(),
{
    if points.len() > 0 {
        assert(points[0] == points[0]);
        let rest = points.skip(1);
        assert forall|i: int|
            0 <= i < rest.len() && point_uuid((#[trigger] rest[i]).memory_id) == point_uuid(
                memory_id,
            ) implies rest[i].memory_id == memory_id by {
            assert(rest[i] == points[i + 1]);
        }
        lemma_slot_of(rest, memory_id);
    }
}

/// A collection acts as an index, a missing one as an empty index: emptying it
/// does to its points what that does to an index, and so does writing to it, if
/// no other memory's point has the id of the written one.
pub proof fn law_missing_collection_is_an_empty_index(
    collection: Option<Seq<PointView>>,
    world: World,
    point: PointView,
)
    requires
        world.index == points_in(collection),
    ensures
        after(world, ActionView::DeleteAllVectors, ReplyView::Finished).index == points_in(
            emptied(collection),
        ),
        has_own_point(points_in(collection), point.memory_id) ==> after(
            world,
            ActionView::Upsert { point },
            ReplyView::Finished,
        ).index == points_in(written(collection, point)),
{
    if has_own_point(points_in(collection), point.memory_id) {
        lemma_slot_of(points_in(collection), point.memory_id);
    }
}

/// A collection after the point of each memory was written to it, in order.
pub open spec fn refilled(
    collection: Option<Seq<PointView>>,
    memories: Seq<RecordView>,
    embed: spec_fn(Seq<char>) -> EmbeddingView,
) -> Option<Seq<PointView>>
    decreases memories.len(),
{
    if memories.len() == 0 {
        collection
    } else {
        written(
            refilled(collection, memories.drop_last(), embed),
            point_for(memories.last().id, embed(memories.last().text)),
        )
    }
}

/// Whether memories with different ids have points with different ids.
pub open spec fn have_own_points(memories: Seq<RecordView>) -> bool {
    forall|i: int, j: int|
        #![trigger memories[i], memories[j]]
        0 <= i < memories.len() && 0 <= j < memories.len() && point_uuid(memories[i].id)
            == point_uuid(memories[j].id) ==> memories[i].id == memories[j].id
}

/// Emptying a collection and writing every memory's point rebuilds it, whatever
/// it held and even if it was lost: it then holds the index that is made from the
/// memories alone.
pub proof fn law_lost_collection_is_rebuilt(
    collection: Option<Seq<PointView>>,
    memories: Seq<RecordView>,
    embed: spec_fn(Seq<char>) -> EmbeddingView,
)
    requires
        have_own_points(memories),
    ensures
        points_in(refilled(emptied(collection), memories, embed)) == rebuilt(memories, embed),
    decreases memories.len(),
{
    if memories.len() > 0 {
        let rest = memories.drop_last();
        let last = memories.last();
        assert forall|i: int, j: int|
            #![trigger rest[i], rest[j]]
            0 <= i < rest.len() && 0 <= j < rest.len() && point_uuid(rest[i].id) == point_uuid(
                rest[j].id,
            ) implies rest[i].id == rest[j].id by {
            assert(memories[i] == rest[i] && memories[j] == rest[j]);
        }
        law_lost_collection_is_rebuilt(collection, rest, embed);
        let before = rebuilt(rest, embed);
        lemma_rebuilt(rest, embed);
        assert(has_own_point(before, last.id)) by {
            assert forall|i: int|
                0 <= i < before.len() && point_uuid((#[trigger] before[i]).memory_id)
                    == point_uuid(last.id) implies before[i].memory_id == last.id by {
                let j = choose|j: int|
                    0 <= j < rest.len() && made_from(before[i], #[trigger] rest[j], embed);
                assert(memories[j] == rest[j]);
                assert(memories[memories.len() - 1] == last);
            }
        }
        lemma_slot_of(before, last.id);
    }
}

/// Memories that were stored under fresh ids have points of their own.
pub proof fn law_fresh_memories_have_own_points(memories: Seq<RecordView>)
    requires
        forall|i: int| 0 <= i < memories.len() ==> is_new_id((#[trigger] memories[i]).id),
    ensures
        have_own_points(memories),
{
    assert forall|i: int, j: int|
        #![trigger memories[i], memories[j]]
        0 <= i < memories.len() && 0 <= j < memories.len() && point_uuid(memories[i].id)
            == point_uuid(memories[j].id) implies memories[i].id == memories[j].id by {
        if memories[i].id != memories[j].id {
            law_fresh_ids_have_own_points(memories[i].id, memories[j].id);
        }
    }
}

/// How far the index was read after these pages.
pub open spec fn scanned(pages: Seq<Page>) -> ScanView
    decreases pages.len(),
{
    if pages.len() == 0 {
        ScanView::start()
    } else {
        scanned(pages.drop_last()).after(pages.last())
    }
}

proof fn lemma_page_is_read(pages: Seq<Page>, p: int, i: int)
    requires
        0 <= p < pages.len(),
        0 <= i < pages[p].payloads@.len(),
    ensures
        scanned(pages).seen.contains(pages[p].payloads@[i]),
    decreases pages.len(),
{
    let before = scanned(pages.drop_last()).seen;
    let last = pages.last().payloads@;
    let all = before + last;
    if p < pages.len() - 1 {
        assert(pages.drop_last()[p] == pages[p]);
        lemma_page_is_read(pages.drop_last(), p, i);
        let k = choose|k: int| 0 <= k < before.len() && before[k] == pages[p].payloads@[i];
        assert(all[k] == before[k]);
    } else {
        assert(all[before.len() + i] == last[i]);
    }
}

/// Reading ends exactly with a page that names no next one, and by then every
/// payload of every page was seen.
pub proof fn law_every_page_is_read(pages: Seq<Page>)
    requires
        pages.len() > 0,
    ensures
        scanned(pages).complete <==> pages.last().next is None,
        forall|p: int, i: int|
            #![trigger pages[p].payloads@[i]]
            0 <= p < pages.len() && 0 <= i < pages[p].payloads@.len() ==> scanned(
                pages,
            ).seen.contains(pages[p].payloads@[i]),
{
    assert forall|p: int, i: int|
        #![trigger pages[p].payloads@[i]]
        0 <= p < pages.len() && 0 <= i < pages[p].payloads@.len() implies scanned(
        pages,
    ).seen.contains(pages[p].payloads@[i]) by {
        lemma_page_is_read(pages, p, i);
    }
}

/// Before a vector is written to a collection that is not known to exist, it is
/// probed; an existing one is used, and a missing one is created with the
/// dimensions that were set, or else with those of the vector.
pub proof fn law_missing_collection_is_created(store: StoreView, dims: usize)
    requires
        !store.ready,
    ensures
        store.ensuring(dims as int, Known::Nothing) == Preparation::Probe,
        store.ensuring(dims as int, Known::Exists(true)) == Preparation::Ready,
        store.ensuring(dims as int, Known::Created) == Preparation::Ready,
        store.dimensions matches Some(d) ==> store.ensuring(dims as int, Known::Exists(false)) == (
        Preparation::Create { size: d as u64 }),
        store.dimensions is None ==> store.ensuring(dims as int, Known::Exists(false)) == (
        Preparation::Create { size: dims as u64 }),
{
}

/// Initialising always probes, whatever is known; a missing collection is created
/// with the dimensions that were set, and without them it is an error.
pub proof fn law_initialising_needs_dimensions(store: StoreView)
    ensures
        store.initialising(Known::Nothing) == Ok::<Preparation, QdrantError>(Preparation::Probe),
        store.initialising(Known::Created) == Ok::<Preparation, QdrantError>(Preparation::Ready),
        store.initialising(Known::Exists(true)) == Ok::<Preparation, QdrantError>(
            Preparation::Ready,
        ),
        store.dimensions matches Some(d) ==> store.initialising(Known::Exists(false)) == Ok::<
            Preparation,
            QdrantError,
        >(Preparation::Create { size: d as u64 }),
        store.dimensions is None ==> store.initialising(Known::Exists(false)) == Err::<
            Preparation,
            QdrantError,
        >(QdrantError::DimensionsUnknown),
        QdrantError::DimensionsUnknown.words()
            == "cannot create qdrant collection: embedding dimensions unknown (embed one memory first or set embeddings.dimensions in config)"@,
{
}

/// A collection that was found or created is known to exist from then on; one
/// that was found to be missing when the index is emptied is not. The dimensions
/// that were set never change.
pub proof fn law_what_is_known_of_the_collection(store: StoreView, known: Known, present: bool)
    ensures
        store.after(known).dimensions == store.dimensions,
        store.found(present).dimensions == store.dimensions,
        store.after(Known::Exists(true)).ready,
        store.after(Known::Created).ready,
        store.after(Known::Nothing).ready == store.ready,
        store.after(Known::Exists(false)).ready == store.ready,
        store.found(present).ready == present,
{
}

/// The text of a field is looked up by its name: one more field at the end is
/// looked at only if no field before it has the name.
pub proof fn law_texts_are_found_by_name(
    fields: Seq<(Seq<char>, Option<Seq<char>>)>,
    name: Seq<char>,
    value: Option<Seq<char>>,
    key: Seq<char>,
)
    ensures
        first_text(Seq::empty(), key) is None,
        (exists|i: int| 0 <= i < fields.len() && (#[trigger] fields[i]).0 == key) ==> first_text(
            fields.push((name, value)),
            key,
        ) == first_text(fields, key),
        (forall|i: int| 0 <= i < fields.len() ==> (#[trigger] fields[i]).0 != key) && name == key
            ==> first_text(fields.push((name, value)), key) == value,
        (forall|i: int| 0 <= i < fields.len() ==> (#[trigger] fields[i]).0 != key) && name != key
            ==> first_text(fields.push((name, value)), key) is None,
    decreases fields.len(),
{
    let all = fields.push((name, value));
    if fields.len() == 0 {
        assert(all.skip(1) =~= Seq::<(Seq<char>, Option<Seq<char>>)>::empty());
        reveal_with_fuel(first_text, 2);
    } else {
        let rest = fields.skip(1);
        assert(all[0] == fields[0]);
        assert(all.skip(1) =~= rest.push((name, value)));
        law_texts_are_found_by_name(rest, name, value, key);
        assert forall|i: int| 0 <= i < rest.len() implies (#[trigger] rest[i]) == fields[
            i + 1
        ] by {}
        if fields[0].0 != key && exists|i: int|
            0 <= i < fields.len() && (#[trigger] fields[i]).0 == key {
            let i = choose|i: int| 0 <= i < fields.len() && (#[trigger] fields[i]).0 == key;
            assert(rest[i - 1].0 == key);
        }
    }
}

/// A point is written with its memory and its model, and nothing else; different
/// memories or models are written differently.
pub proof fn law_payloads_name_memory_and_model(a: PointView, b: PointView)
    ensures
        written_payload(a).len() == 2,
        written_payload(a)[0] == ("memoryId"@, Some(a.memory_id)),
        written_payload(a)[1] == ("model"@, Some(a.model)),
        written_payload(a) == written_payload(b) ==> a.memory_id == b.memory_id && a.model
            == b.model,
{
    if written_payload(a) == written_payload(b) {
        assert(written_payload(a)[0] == written_payload(b)[0]);
        assert(written_payload(a)[1] == written_payload(b)[1]);
    }
}

/// The hits follow what a query found: one more point adds one hit, its memory
/// with the point's score, if its payload names a memory, and none otherwise.
pub proof fn law_hits_follow_the_points(found: Seq<ScoredPoint>, point: ScoredPoint)
    ensures
        hits_of(Seq::empty()) == Seq::<HitView>::empty(),
        ({
            let name = first_text(payload_fields(point.payload), "memoryId"@);
            &&& name is Some && name->0.len() > 0 ==> hits_of(found.push(point)) == hits_of(
                found,
            ).push(HitView { memory_id: name->0, score: point.score })
            &&& name is None || name->0.len() == 0 ==> hits_of(found.push(point)) == hits_of(found)
        }),
{
    assert(found.push(point).drop_last() =~= found);
    assert(found.push(point).last() == point);
}

/// The models that payloads name follow the payloads: one more payload names its
/// model, if it names one, and nothing else.
pub proof fn law_models_follow_the_payloads(
    payloads: Seq<PointPayload>,
    payload: PointPayload,
    model: Seq<char>,
)
    ensures
        !names_model(Seq::empty(), model),
        names_model(payloads.push(payload), model) <==> names_model(payloads, model) || first_text(
            payload_fields(payload),
            "model"@,
        ) == Some(model),
{
    lemma_one_more_payload(payloads, payload, model);
}

/// The models in an index are those that its payloads name, each once, one name
/// before the next as texts are ordered.
pub proof fn law_models_are_those_named(list: Seq<Seq<char>>, payloads: Seq<PointPayload>)
    ensures
        are_models_named(list, payloads) <==> {
            &&& forall|m: Seq<char>| #[trigger] list.contains(m) <==> names_model(payloads, m)
            &&& forall|i: int, j: int|
                #![trigger list[i], list[j]]
                0 <= i < j < list.len() ==> text_before(list[i], list[j])
        },
{
}

/// Reading begins without an offset; after a page the next one is asked for where
/// the page says, and with the last page reading is over. A page holds up to 1000
/// points.
pub proof fn law_pages_follow_each_other(scan: ScanView, page: Page)
    ensures
        ScanView::start().seen.len() == 0,
        ScanView::start().next is None,
        !ScanView::start().complete,
        scan.after(page).seen == scan.seen + page.payloads@,
        page.next matches Some(offset) ==> scan.after(page).next == Some(offset@) && !scan.after(
            page,
        ).complete,
        page.next is None ==> scan.after(page).complete,
        SCROLL_LIMIT == 1000,
{
}

/// The contents of payloads and offsets show every part of them, in order.
pub proof fn law_payloads_show_their_parts(payload: PointPayload, offset: PageOffset)
    ensures
        payload_fields(payload).len() == payload.fields@.len(),
        forall|i: int|
            0 <= i < payload.fields@.len() ==> {
                let shown = #[trigger] payload_fields(payload)[i];
                let field = payload.fields@[i];
                &&& shown.0 == field.0@
                &&& field.1 is Text ==> shown.1 == Some(field.1->Text_0@)
                &&& field.1 is Other ==> shown.1 is None
            },
        offset matches PageOffset::Number(n) ==> offset@ == OffsetView::Number(n),
        offset matches PageOffset::Uuid(u) ==> offset@ == OffsetView::Uuid(u@),
        optional_offset(Some(offset)) == Some(offset@),
        optional_offset(None) is None,
{
}

} // verus!
