//! Business logic: dual write (graph first, then index), hydration through the
//! graph. The index is rebuildable: reindexing heals any drift.
//!
//! Each operation is a [`Flow`]: what was asked for, and the replies of the
//! stores so far. [`Flow::next`] says what to do next, or how it ended; the
//! caller does it and hands the reply to [`Flow::reply`].
use crate::embeddings::{EmbeddingResult, EmbeddingView};
use crate::graph::{
    clone_related, optional_neighborhood, records, relateds, LinkResult, LinkView, MemoryRecord,
    MemoryWithRelated, NeighborhoodView, RecordView, RelatedMemory, RelatedView,
};
use crate::text::{clone_texts, optional_texts, texts};
use crate::vectors::{
    clone_bits, hits, HitView, PointView, VectorRecord, VectorSearchHit,
};
use vstd::prelude::*;
use vstd::string::*;

verus! {

/// How many memories a search returns unless it is told.
pub const SEARCH_TOP_K: usize = 5;

/// How many memories a context holds unless it is told.
pub const CONTEXT_TOP_K: usize = 3;

/// A memory found by a search.
#[derive(Debug)]
pub struct SearchResult {
    pub memory: MemoryRecord,
    /// bit pattern of the similarity
    pub score: u32,
}

/// A memory found for a message, with its neighborhood.
#[derive(Debug)]
pub struct ContextResult {
    pub memory: MemoryRecord,
    /// bit pattern of the similarity
    pub score: u32,
    pub related: Vec<RelatedMemory>,
}

/// What a caller asks of the service.
pub enum Request {
    Store { text: String, tags: Option<Vec<String>> },
    Link { from_id: String, to_id: String, relation: String },
    Get { id: String },
    Delete { id: String },
    Search { query: String, top_k: Option<usize> },
    Context { message: String, top_k: Option<usize> },
    Reindex,
    Drift { current: String },
    Close,
}

/// Something to do with a store or a provider.
pub enum Action {
    StoreMemory { text: String, tags: Option<Vec<String>> },
    LinkMemories { from_id: String, to_id: String, relation: String },
    GetMemory { id: String },
    DeleteMemory { id: String },
    ListAll,
    CloseGraph,
    Embed { text: String },
    Upsert { record: VectorRecord },
    SearchVectors { vector: Vec<u32>, top_k: usize },
    DeleteVector { memory_id: String },
    DeleteAllVectors,
    ListModels,
    CloseVectors,
}

/// What came of an action.
pub enum Reply {
    Stored(MemoryRecord),
    Linked(LinkResult),
    Fetched(Option<MemoryWithRelated>),
    Removed(bool),
    Listed(Vec<MemoryRecord>),
    Embedded(EmbeddingResult),
    Found(Vec<VectorSearchHit>),
    Models(Vec<String>),
    Finished,
    Failed(String),
}

/// How an operation ended.
pub enum Outcome {
    Stored(MemoryRecord),
    Linked(LinkResult),
    Fetched(Option<MemoryWithRelated>),
    Deleted(bool),
    Results(Vec<SearchResult>),
    Context(Vec<ContextResult>),
    Reindexed(usize),
    Drift(Vec<String>),
    Closed,
    Failed(String),
}

/// What is next in an operation.
pub enum Step {
    Do(Action),
    Done(Outcome),
}

// ---- what the values mean --------------------------------------------------

/// The contents of a [`SearchResult`].
pub struct ResultView {
    pub memory: RecordView,
    pub score: u32,
}

/// The contents of a [`ContextResult`].
pub struct ContextView {
    pub memory: RecordView,
    pub score: u32,
    pub related: Seq<RelatedView>,
}

/// The contents of a [`Request`].
pub enum RequestView {
    Store { text: Seq<char>, tags: Option<Seq<Seq<char>>> },
    Link { from_id: Seq<char>, to_id: Seq<char>, relation: Seq<char> },
    Get { id: Seq<char> },
    Delete { id: Seq<char> },
    Search { query: Seq<char>, top_k: Option<usize> },
    Context { message: Seq<char>, top_k: Option<usize> },
    Reindex,
    Drift { current: Seq<char> },
    Close,
}

/// The contents of an [`Action`].
pub enum ActionView {
    StoreMemory { text: Seq<char>, tags: Option<Seq<Seq<char>>> },
    LinkMemories { from_id: Seq<char>, to_id: Seq<char>, relation: Seq<char> },
    GetMemory { id: Seq<char> },
    DeleteMemory { id: Seq<char> },
    ListAll,
    CloseGraph,
    Embed { text: Seq<char> },
    Upsert { point: PointView },
    SearchVectors { vector: Seq<u32>, top_k: usize },
    DeleteVector { memory_id: Seq<char> },
    DeleteAllVectors,
    ListModels,
    CloseVectors,
}

/// The contents of a [`Reply`].
pub enum ReplyView {
    Stored(RecordView),
    Linked(LinkView),
    Fetched(Option<NeighborhoodView>),
    Removed(bool),
    Listed(Seq<RecordView>),
    Embedded(EmbeddingView),
    Found(Seq<HitView>),
    Models(Seq<Seq<char>>),
    Finished,
    Failed(Seq<char>),
}

/// The contents of an [`Outcome`].
pub enum OutcomeView {
    Stored(RecordView),
    Linked(LinkView),
    Fetched(Option<NeighborhoodView>),
    Deleted(bool),
    Results(Seq<ResultView>),
    Context(Seq<ContextView>),
    Reindexed(nat),
    Drift(Seq<Seq<char>>),
    Closed,
    Failed(Seq<char>),
}

/// The contents of a [`Step`].
pub enum StepView {
    Do(ActionView),
    Done(OutcomeView),
}

impl View for SearchResult {
    type V = ResultView;

    open spec fn view(&self) -> ResultView {
        ResultView { memory: self.memory@, score: self.score }
    }
}

impl View for ContextResult {
    type V = ContextView;

    open spec fn view(&self) -> ContextView {
        ContextView {
            memory: self.memory@,
            score: self.score,
            related: relateds(self.related@),
        }
    }
}

impl View for Request {
    type V = RequestView;

    open spec fn view(&self) -> RequestView {
        match *self {
            Request::Store { text, tags } => RequestView::Store {
                text: text@,
                tags: optional_texts(tags),
            },
            Request::Link { from_id, to_id, relation } => RequestView::Link {
                from_id: from_id@,
                to_id: to_id@,
                relation: relation@,
            },
            Request::Get { id } => RequestView::Get { id: id@ },
            Request::Delete { id } => RequestView::Delete { id: id@ },
            Request::Search { query, top_k } => RequestView::Search { query: query@, top_k },
            Request::Context { message, top_k } => RequestView::Context {
                message: message@,
                top_k,
            },
            Request::Reindex => RequestView::Reindex,
            Request::Drift { current } => RequestView::Drift { current: current@ },
            Request::Close => RequestView::Close,
        }
    }
}

impl View for Action {
    type V = ActionView;

    open spec fn view(&self) -> ActionView {
        match *self {
            Action::StoreMemory { text, tags } => ActionView::StoreMemory {
                text: text@,
                tags: optional_texts(tags),
            },
            Action::LinkMemories { from_id, to_id, relation } => ActionView::LinkMemories {
                from_id: from_id@,
                to_id: to_id@,
                relation: relation@,
            },
            Action::GetMemory { id } => ActionView::GetMemory { id: id@ },
            Action::DeleteMemory { id } => ActionView::DeleteMemory { id: id@ },
            Action::ListAll => ActionView::ListAll,
            Action::CloseGraph => ActionView::CloseGraph,
            Action::Embed { text } => ActionView::Embed { text: text@ },
            Action::Upsert { record } => ActionView::Upsert { point: record@ },
            Action::SearchVectors { vector, top_k } => ActionView::SearchVectors {
                vector: vector@,
                top_k,
            },
            Action::DeleteVector { memory_id } => ActionView::DeleteVector {
                memory_id: memory_id@,
            },
            Action::DeleteAllVectors => ActionView::DeleteAllVectors,
            Action::ListModels => ActionView::ListModels,
            Action::CloseVectors => ActionView::CloseVectors,
        }
    }
}

impl View for Reply {
    type V = ReplyView;

    open spec fn view(&self) -> ReplyView {
        match *self {
            Reply::Stored(r) => ReplyView::Stored(r@),
            Reply::Linked(l) => ReplyView::Linked(l@),
            Reply::Fetched(m) => ReplyView::Fetched(optional_neighborhood(m)),
            Reply::Removed(b) => ReplyView::Removed(b),
            Reply::Listed(list) => ReplyView::Listed(records(list@)),
            Reply::Embedded(e) => ReplyView::Embedded(e@),
            Reply::Found(list) => ReplyView::Found(hits(list@)),
            Reply::Models(list) => ReplyView::Models(texts(list@)),
            Reply::Finished => ReplyView::Finished,
            Reply::Failed(e) => ReplyView::Failed(e@),
        }
    }
}

/// The contents of a list of results.
pub open spec fn results(list: Seq<SearchResult>) -> Seq<ResultView> {
    list.map_values(|r: SearchResult| r@)
}

/// The contents of a list of context results.
pub open spec fn contexts(list: Seq<ContextResult>) -> Seq<ContextView> {
    list.map_values(|r: ContextResult| r@)
}

impl View for Outcome {
    type V = OutcomeView;

    open spec fn view(&self) -> OutcomeView {
        match *self {
            Outcome::Stored(r) => OutcomeView::Stored(r@),
            Outcome::Linked(l) => OutcomeView::Linked(l@),
            Outcome::Fetched(m) => OutcomeView::Fetched(optional_neighborhood(m)),
            Outcome::Deleted(b) => OutcomeView::Deleted(b),
            Outcome::Results(list) => OutcomeView::Results(results(list@)),
            Outcome::Context(list) => OutcomeView::Context(contexts(list@)),
            Outcome::Reindexed(n) => OutcomeView::Reindexed(n as nat),
            Outcome::Drift(list) => OutcomeView::Drift(texts(list@)),
            Outcome::Closed => OutcomeView::Closed,
            Outcome::Failed(e) => OutcomeView::Failed(e@),
        }
    }
}

impl View for Step {
    type V = StepView;

    open spec fn view(&self) -> StepView {
        match *self {
            Step::Do(a) => StepView::Do(a@),
            Step::Done(o) => StepView::Done(o@),
        }
    }
}

/// The contents of a list of replies.
pub open spec fn replies_of(list: Seq<Reply>) -> Seq<ReplyView> {
    list.map_values(|r: Reply| r@)
}

// ---- what an operation does ------------------------------------------------

/// Whether a reply is one that the action can have.
pub open spec fn answers(action: ActionView, reply: ReplyView) -> bool {
    reply is Failed || match action {
        ActionView::StoreMemory { .. } => reply is Stored,
        ActionView::LinkMemories { .. } => reply is Linked,
        ActionView::GetMemory { .. } => reply is Fetched,
        ActionView::DeleteMemory { .. } => reply is Removed,
        ActionView::ListAll => reply is Listed,
        ActionView::Embed { .. } => reply is Embedded,
        ActionView::SearchVectors { .. } => reply is Found,
        ActionView::ListModels => reply is Models,
        _ => reply is Finished,
    }
}

/// The hits whose memory the graph knows, in the order of the hits, each with
/// its memory; `fetched` holds what the graph has for each hit.
pub open spec fn hydrated(
    found: Seq<HitView>,
    fetched: Seq<Option<NeighborhoodView>>,
) -> Seq<ResultView>
    decreases found.len(),
{
    if found.len() == 0 {
        Seq::empty()
    } else {
        let before = hydrated(found.drop_last(), fetched.drop_last());
        match fetched.last() {
            Some(m) => before.push(ResultView { memory: m.memory, score: found.last().score }),
            None => before,
        }
    }
}

/// The results with their neighborhoods; `fetched` holds what the graph has
/// for each result.
pub open spec fn expanded(
    list: Seq<ResultView>,
    fetched: Seq<Option<NeighborhoodView>>,
) -> Seq<ContextView> {
    Seq::new(
        list.len(),
        |i: int|
            ContextView {
                memory: list[i].memory,
                score: list[i].score,
                related: match fetched[i] {
                    Some(m) => m.related,
                    None => Seq::empty(),
                },
            },
    )
}

/// The models other than the current one, each once, in order.
pub open spec fn drifted(models: Seq<Seq<char>>, current: Seq<char>) -> Seq<Seq<char>>
    decreases models.len(),
{
    if models.len() == 0 {
        Seq::empty()
    } else {
        let before = drifted(models.drop_last(), current);
        if models.last() != current && !before.contains(models.last()) {
            before.push(models.last())
        } else {
            before
        }
    }
}

/// What the graph had for the memories fetched by the replies `from..from + n`.
pub open spec fn fetched_in(replies: Seq<ReplyView>, from: int, n: int) -> Seq<
    Option<NeighborhoodView>,
> {
    Seq::new(n as nat, |i: int| replies[from + i]->Fetched_0)
}

/// The point of a memory.
pub open spec fn point_for(id: Seq<char>, embedding: EmbeddingView) -> PointView {
    PointView { memory_id: id, vector: embedding.vector, model: embedding.model }
}

/// The results of the search in a search or a context.
pub open spec fn found_in(replies: Seq<ReplyView>) -> Seq<ResultView> {
    let found = replies[1]->Found_0;
    hydrated(found, fetched_in(replies, 2, found.len() as int))
}

/// A limit, or its default.
pub open spec fn limit(top_k: Option<usize>, default: usize) -> usize {
    match top_k {
        Some(k) => k,
        None => default,
    }
}

/// What comes after these replies in storing a memory.
pub open spec fn store_step(
    text: Seq<char>,
    tags: Option<Seq<Seq<char>>>,
    replies: Seq<ReplyView>,
) -> StepView {
    if replies.len() == 0 {
        StepView::Do(ActionView::StoreMemory { text, tags })
    } else if replies.len() == 1 {
        StepView::Do(ActionView::Embed { text })
    } else if replies.len() == 2 {
        StepView::Do(
            ActionView::Upsert {
                point: point_for(replies[0]->Stored_0.id, replies[1]->Embedded_0),
            },
        )
    } else {
        StepView::Done(OutcomeView::Stored(replies[0]->Stored_0))
    }
}

/// What comes after these replies in deleting a memory. Whether the index
/// could be cleaned does not matter.
pub open spec fn delete_step(id: Seq<char>, replies: Seq<ReplyView>) -> StepView {
    if replies.len() == 0 {
        StepView::Do(ActionView::DeleteMemory { id })
    } else if replies.len() == 1 && replies[0]->Removed_0 {
        StepView::Do(ActionView::DeleteVector { memory_id: id })
    } else {
        StepView::Done(OutcomeView::Deleted(replies[0]->Removed_0))
    }
}

/// The action that comes after these replies in finding the memories for a
/// text: embed it, search the index, fetch each hit; `None` when all is there.
pub open spec fn search_action(text: Seq<char>, top_k: usize, replies: Seq<ReplyView>) -> Option<
    ActionView,
> {
    if replies.len() == 0 {
        Some(ActionView::Embed { text })
    } else if replies.len() == 1 {
        Some(ActionView::SearchVectors { vector: replies[0]->Embedded_0.vector, top_k })
    } else if replies.len() - 2 < replies[1]->Found_0.len() {
        Some(ActionView::GetMemory { id: replies[1]->Found_0[replies.len() - 2].memory_id })
    } else {
        None
    }
}

/// What comes after these replies in a search.
pub open spec fn search_step(
    query: Seq<char>,
    top_k: Option<usize>,
    replies: Seq<ReplyView>,
) -> StepView {
    match search_action(query, limit(top_k, SEARCH_TOP_K), replies) {
        Some(action) => StepView::Do(action),
        None => StepView::Done(OutcomeView::Results(found_in(replies))),
    }
}

/// What comes after these replies in collecting a context: a search, then the
/// neighborhood of each result.
pub open spec fn context_step(
    message: Seq<char>,
    top_k: Option<usize>,
    replies: Seq<ReplyView>,
) -> StepView {
    match search_action(message, limit(top_k, CONTEXT_TOP_K), replies) {
        Some(action) => StepView::Do(action),
        None => {
            let list = found_in(replies);
            let searched = 2 + replies[1]->Found_0.len();
            let done = replies.len() - searched;
            if done < list.len() {
                StepView::Do(ActionView::GetMemory { id: list[done].memory.id })
            } else {
                StepView::Done(
                    OutcomeView::Context(
                        expanded(list, fetched_in(replies, searched as int, list.len() as int)),
                    ),
                )
            }
        },
    }
}

/// What comes after these replies in rebuilding the index: list the memories,
/// empty the index, then embed and index each memory.
pub open spec fn reindex_step(replies: Seq<ReplyView>) -> StepView {
    if replies.len() == 0 {
        StepView::Do(ActionView::ListAll)
    } else if replies.len() == 1 {
        StepView::Do(ActionView::DeleteAllVectors)
    } else {
        let list = replies[0]->Listed_0;
        let i = (replies.len() - 2) / 2;
        if i >= list.len() {
            StepView::Done(OutcomeView::Reindexed(list.len()))
        } else if replies.len() % 2 == 0 {
            StepView::Do(ActionView::Embed { text: list[i].text })
        } else {
            StepView::Do(
                ActionView::Upsert { point: point_for(list[i].id, replies.last()->Embedded_0) },
            )
        }
    }
}

/// The failure that ends an operation: that of the last reply, unless it is the
/// cleaning of the index after a deletion.
pub open spec fn fatal(request: RequestView, replies: Seq<ReplyView>) -> Option<Seq<char>> {
    if replies.len() == 0 || (request is Delete && replies.len() == 2) {
        None
    } else {
        match replies.last() {
            ReplyView::Failed(e) => Some(e),
            _ => None,
        }
    }
}

/// What comes next in an operation after these replies.
pub open spec fn next_step(request: RequestView, replies: Seq<ReplyView>) -> StepView {
    match fatal(request, replies) {
        Some(e) => StepView::Done(OutcomeView::Failed(e)),
        None => match request {
            RequestView::Store { text, tags } => store_step(text, tags, replies),
            RequestView::Link { from_id, to_id, relation } => if replies.len() == 0 {
                StepView::Do(ActionView::LinkMemories { from_id, to_id, relation })
            } else {
                StepView::Done(OutcomeView::Linked(replies[0]->Linked_0))
            },
            RequestView::Get { id } => if replies.len() == 0 {
                StepView::Do(ActionView::GetMemory { id })
            } else {
                StepView::Done(OutcomeView::Fetched(replies[0]->Fetched_0))
            },
            RequestView::Delete { id } => delete_step(id, replies),
            RequestView::Search { query, top_k } => search_step(query, top_k, replies),
            RequestView::Context { message, top_k } => context_step(message, top_k, replies),
            RequestView::Reindex => reindex_step(replies),
            RequestView::Drift { current } => if replies.len() == 0 {
                StepView::Do(ActionView::ListModels)
            } else {
                StepView::Done(OutcomeView::Drift(drifted(replies[0]->Models_0, current)))
            },
            RequestView::Close => if replies.len() == 0 {
                StepView::Do(ActionView::CloseGraph)
            } else if replies.len() == 1 {
                StepView::Do(ActionView::CloseVectors)
            } else {
                StepView::Done(OutcomeView::Closed)
            },
        },
    }
}

/// Whether reply `i` answers the action that was next when it came.
pub open spec fn fits(request: RequestView, replies: Seq<ReplyView>, i: int) -> bool {
    let step = next_step(request, replies.take(i));
    step is Do && answers(step->Do_0, replies[i])
}

/// Whether these replies can have come: each answers the action that was next
/// when it came.
pub open spec fn possible(request: RequestView, replies: Seq<ReplyView>) -> bool {
    forall|i: int| 0 <= i < replies.len() ==> #[trigger] fits(request, replies, i)
}

/// A reply that did not end the operation is what the action asked for.
pub proof fn lemma_answered(request: RequestView, replies: Seq<ReplyView>, i: int)
    requires
        possible(request, replies),
        0 <= i < replies.len(),
        i < replies.len() - 1 || fatal(request, replies) is None,
        !(request is Delete && i == 1),
    ensures
        next_step(request, replies.take(i)) is Do,
        answers(next_step(request, replies.take(i))->Do_0, replies[i]),
        !(replies[i] is Failed),
        fatal(request, replies.take(i)) is None,
{
    assert(fits(request, replies, i));
    if i < replies.len() - 1 {
        assert(fits(request, replies, i + 1));
        assert(replies.take(i + 1).last() == replies[i]);
    } else {
        assert(replies.last() == replies[i]);
    }
}

/// What the replies in storing a memory are.
pub proof fn lemma_store_replies(text: Seq<char>, tags: Option<Seq<Seq<char>>>, replies: Seq<ReplyView>)
    requires
        possible(RequestView::Store { text, tags }, replies),
        fatal(RequestView::Store { text, tags }, replies) is None,
    ensures
        replies.len() <= 3,
        replies.len() >= 1 ==> replies[0] is Stored,
        replies.len() >= 2 ==> replies[1] is Embedded,
        replies.len() >= 3 ==> replies[2] is Finished,
{
    let request = RequestView::Store { text, tags };
    if replies.len() >= 1 {
        lemma_answered(request, replies, 0);
    }
    if replies.len() >= 2 {
        lemma_answered(request, replies, 1);
    }
    if replies.len() >= 3 {
        lemma_answered(request, replies, 2);
    }
    if replies.len() >= 4 {
        lemma_answered(request, replies, 3);
    }
}

/// What the replies in deleting a memory are.
pub proof fn lemma_delete_replies(id: Seq<char>, replies: Seq<ReplyView>)
    requires
        possible(RequestView::Delete { id }, replies),
        fatal(RequestView::Delete { id }, replies) is None,
    ensures
        replies.len() <= 2,
        replies.len() >= 1 ==> replies[0] is Removed,
        replies.len() == 2 ==> replies[0] == ReplyView::Removed(true),
{
    let request = RequestView::Delete { id };
    if replies.len() >= 1 {
        lemma_answered(request, replies, 0);
    }
    if replies.len() >= 2 {
        assert(fits(request, replies, 1));
        assert(replies.take(1)[0] == replies[0]);
    }
    if replies.len() >= 3 {
        assert(fits(request, replies, 2));
    }
}

/// What the replies in a search or a context are.
pub proof fn lemma_search_replies(request: RequestView, replies: Seq<ReplyView>, i: int)
    requires
        possible(request, replies),
        fatal(request, replies) is None,
        request is Search || request is Context,
        0 <= i < replies.len(),
    ensures
        i == 0 ==> replies[i] is Embedded,
        i == 1 ==> replies[i] is Found,
        i >= 2 ==> replies[i] is Fetched,
{
    lemma_answered(request, replies, i);
}

/// How many replies a search can have.
pub proof fn lemma_search_length(request: RequestView, replies: Seq<ReplyView>)
    requires
        possible(request, replies),
        request is Search || request is Context,
        replies.len() >= 2,
    ensures
        request is Search ==> replies.len() <= 2 + replies[1]->Found_0.len(),
        request is Context && replies.len() >= 2 + replies[1]->Found_0.len() ==> replies.len() <= 2
            + replies[1]->Found_0.len() + found_in(replies).len(),
{
    let last = replies.len() - 1;
    let before = replies.take(last);
    assert(fits(request, replies, last));
    if replies.len() > 2 {
        assert(before[1] == replies[1]);
        let n = replies[1]->Found_0.len() as int;
        if before.len() >= 2 + n {
            assert(fetched_in(before, 2, n) =~= fetched_in(replies, 2, n));
        }
    }
}

/// What the replies in rebuilding the index are.
pub proof fn lemma_reindex_replies(replies: Seq<ReplyView>, i: int)
    requires
        possible(RequestView::Reindex, replies),
        fatal(RequestView::Reindex, replies) is None,
        0 <= i < replies.len(),
    ensures
        i == 0 ==> replies[i] is Listed,
        i == 1 ==> replies[i] is Finished,
        i >= 2 && i % 2 == 0 ==> replies[i] is Embedded,
        i >= 2 && i % 2 == 1 ==> replies[i] is Finished,
{
    lemma_answered(RequestView::Reindex, replies, i);
}

/// How many replies rebuilding the index can have.
pub proof fn lemma_reindex_length(replies: Seq<ReplyView>)
    requires
        possible(RequestView::Reindex, replies),
        replies.len() >= 2,
    ensures
        replies.len() <= 2 + 2 * replies[0]->Listed_0.len(),
{
    let last = replies.len() - 1;
    let before = replies.take(last);
    assert(fits(RequestView::Reindex, replies, last));
    if replies.len() > 2 {
        assert(before[0] == replies[0]);
    }
}

// ---- operations ------------------------------------------------------------

/// An operation under way.
pub struct FlowView {
    pub request: RequestView,
    pub replies: Seq<ReplyView>,
}

/// An operation under way: what was asked for and the replies so far.
pub struct Flow {
    request: Request,
    replies: Vec<Reply>,
}

impl View for Flow {
    type V = FlowView;

    closed spec fn view(&self) -> FlowView {
        FlowView { request: self.request@, replies: replies_of(self.replies@) }
    }
}

impl FlowView {
    /// An operation at its start.
    pub open spec fn start(request: RequestView) -> FlowView {
        FlowView { request, replies: Seq::empty() }
    }

    /// What is next.
    pub open spec fn next(self) -> StepView {
        next_step(self.request, self.replies)
    }

    /// Whether a reply is one that the next action can have.
    pub open spec fn expects(self, reply: ReplyView) -> bool {
        self.next() is Do && answers(self.next()->Do_0, reply)
    }

    /// The operation after one more reply.
    pub open spec fn replied(self, reply: ReplyView) -> FlowView {
        FlowView { replies: self.replies.push(reply), ..self }
    }
}

/// A copy of optional tags.
fn clone_tags(tags: &Option<Vec<String>>) -> (r: Option<Vec<String>>)
    ensures
        optional_texts(r) == optional_texts(*tags),
{
    match tags {
        Some(t) => Some(clone_texts(t)),
        None => None,
    }
}

/// A copy of a memory that may be missing.
fn clone_fetched(m: &Option<MemoryWithRelated>) -> (r: Option<MemoryWithRelated>)
    ensures
        optional_neighborhood(r) == optional_neighborhood(*m),
{
    match m {
        Some(m) => Some(m.clone()),
        None => None,
    }
}

/// The models other than the current one, each once, in order.
pub fn drift_of(models: &Vec<String>, current: &String) -> (r: Vec<String>)
    ensures
        texts(r@) == drifted(texts(models@), current@),
{
    let mut drift: Vec<String> = Vec::new();
    assert(texts(drift@) =~= Seq::<Seq<char>>::empty());
    let mut i: usize = 0;
    while i < models.len()
        invariant
            i <= models.len(),
            texts(drift@) == drifted(texts(models@).take(i as int), current@),
        decreases models.len() - i,
    {
        let m = &models[i];
        let ghost before = texts(drift@);
        assert(texts(models@).take(i + 1).drop_last() =~= texts(models@).take(i as int));
        assert(texts(models@).take(i + 1).last() == m@);
        if *m != *current && !holds(&drift, m) {
            drift.push(m.clone());
            assert(texts(drift@) =~= before.push(m@));
        }
        i += 1;
    }
    assert(texts(models@).take(models.len() as int) =~= texts(models@));
    drift
}

/// Whether a list holds a name.
fn holds(list: &Vec<String>, name: &String) -> (r: bool)
    ensures
        r == texts(list@).contains(name@),
{
    let mut i: usize = 0;
    while i < list.len()
        invariant
            i <= list.len(),
            forall|k: int| 0 <= k < i ==> #[trigger] texts(list@)[k] != name@,
        decreases list.len() - i,
    {
        assert(texts(list@)[i as int] == list@[i as int]@);
        if list[i] == *name {
            return true;
        }
        i += 1;
    }
    false
}

impl Flow {
    #[verifier::type_invariant]
    spec fn well_formed(self) -> bool {
        possible(self@.request, self@.replies)
    }

    /// An operation at its start.
    pub fn start(request: Request) -> (r: Flow)
        ensures
            r@ == FlowView::start(request@),
    {
        let replies: Vec<Reply> = Vec::new();
        assert(replies_of(replies@) =~= Seq::<ReplyView>::empty());
        Flow { request, replies }
    }

    /// Whether a reply is one that the next action can have.
    pub fn expects(&self, reply: &Reply) -> (r: bool)
        ensures
            r == self@.expects(reply@),
    {
        match self.next() {
            Step::Do(action) => match (&action, reply) {
                (_, Reply::Failed(_)) => true,
                (Action::StoreMemory { .. }, Reply::Stored(_)) => true,
                (Action::LinkMemories { .. }, Reply::Linked(_)) => true,
                (Action::GetMemory { .. }, Reply::Fetched(_)) => true,
                (Action::DeleteMemory { .. }, Reply::Removed(_)) => true,
                (Action::ListAll, Reply::Listed(_)) => true,
                (Action::Embed { .. }, Reply::Embedded(_)) => true,
                (Action::SearchVectors { .. }, Reply::Found(_)) => true,
                (Action::ListModels, Reply::Models(_)) => true,
                (Action::CloseGraph, Reply::Finished) => true,
                (Action::Upsert { .. }, Reply::Finished) => true,
                (Action::DeleteVector { .. }, Reply::Finished) => true,
                (Action::DeleteAllVectors, Reply::Finished) => true,
                (Action::CloseVectors, Reply::Finished) => true,
                _ => false,
            },
            Step::Done(_) => false,
        }
    }

    /// The operation after the reply to its next action.
    pub fn reply(self, reply: Reply) -> (r: Flow)
        requires
            self@.expects(reply@),
        ensures
            r@ == self@.replied(reply@),
    {
        proof {
            use_type_invariant(&self);
        }
        let ghost before = self@;
        let ghost last = reply@;
        let request = self.request;
        let mut replies = self.replies;
        replies.push(reply);
        proof {
            let all = replies_of(replies@);
            assert(all =~= before.replies.push(last));
            assert forall|i: int| 0 <= i < all.len() implies #[trigger] fits(
                before.request,
                all,
                i,
            ) by {
                assert(all.take(i) =~= before.replies.take(i));
                if i < before.replies.len() {
                    assert(fits(before.request, before.replies, i));
                    assert(all[i] == before.replies[i]);
                } else {
                    assert(before.replies.take(i) =~= before.replies);
                }
            }
        }
        Flow { request, replies }
    }

    /// The hits of the search.
    fn hits(&self) -> (r: &Vec<VectorSearchHit>)
        requires
            possible(self@.request, self@.replies),
            fatal(self@.request, self@.replies) is None,
            self@.request is Search || self@.request is Context,
            self@.replies.len() >= 2,
        ensures
            hits(r@) == self@.replies[1]->Found_0,
    {
        proof {
            lemma_search_replies(self@.request, self@.replies, 1);
            assert(self@.replies[1] == self.replies@[1]@);
        }
        match &self.replies[1] {
            Reply::Found(list) => list,
            _ => {
                assert(false);
                vstd::pervasive::unreached()
            },
        }
    }

    /// The results of the search, once every hit was fetched.
    fn results(&self) -> (r: Vec<SearchResult>)
        requires
            possible(self@.request, self@.replies),
            fatal(self@.request, self@.replies) is None,
            self@.request is Search || self@.request is Context,
            self@.replies.len() >= 2,
            self@.replies.len() >= 2 + self@.replies[1]->Found_0.len(),
        ensures
            results(r@) == found_in(self@.replies),
    {
        let found = self.hits();
        let ghost all = hits(found@);
        let ghost fetched = fetched_in(self@.replies, 2, all.len() as int);
        let total: usize = self.replies.len();
        let mut r: Vec<SearchResult> = Vec::new();
        assert(results(r@) =~= Seq::<ResultView>::empty());
        let mut i: usize = 0;
        while i < found.len()
            invariant
                i <= found.len(),
                possible(self@.request, self@.replies),
                fatal(self@.request, self@.replies) is None,
                self@.request is Search || self@.request is Context,
                self@.replies.len() == total,
                self.replies@.len() == total,
                total >= 2 + found.len(),
                all == hits(found@),
                fetched == fetched_in(self@.replies, 2, all.len() as int),
                results(r@) == hydrated(all.take(i as int), fetched.take(i as int)),
            decreases found.len() - i,
        {
            proof {
                lemma_search_replies(self@.request, self@.replies, 2 + i);
                assert(self@.replies[2 + i] == self.replies@[2 + i]@);
                assert(all.take(i + 1).drop_last() =~= all.take(i as int));
                assert(fetched.take(i + 1).drop_last() =~= fetched.take(i as int));
                assert(all.take(i + 1).last() == found@[i as int]@);
                assert(fetched.take(i + 1).last() == fetched[i as int]);
            }
            let ghost before = results(r@);
            match &self.replies[2 + i] {
                Reply::Fetched(Some(m)) => {
                    let result = SearchResult { memory: m.memory.clone(), score: found[i].score };
                    r.push(result);
                    assert(results(r@) =~= before.push(result@));
                },
                _ => {},
            }
            i += 1;
        }
        assert(all.take(all.len() as int) =~= all);
        assert(fetched.take(all.len() as int) =~= fetched);
        r
    }

    /// The results with their neighborhoods, once each was fetched.
    fn expand(&self, list: Vec<SearchResult>) -> (r: Vec<ContextResult>)
        requires
            possible(self@.request, self@.replies),
            fatal(self@.request, self@.replies) is None,
            self@.request is Context,
            self@.replies.len() >= 2,
            results(list@) == found_in(self@.replies),
            self@.replies.len() == 2 + self@.replies[1]->Found_0.len() + list@.len(),
        ensures
            contexts(r@) == expanded(
                results(list@),
                fetched_in(
                    self@.replies,
                    2 + self@.replies[1]->Found_0.len() as int,
                    list@.len() as int,
                ),
            ),
    {
        let total: usize = self.replies.len();
        let from: usize = total - list.len();
        let ghost searched = 2 + self@.replies[1]->Found_0.len() as int;
        let ghost whole = expanded(
            results(list@),
            fetched_in(self@.replies, searched, list@.len() as int),
        );
        let mut r: Vec<ContextResult> = Vec::new();
        let mut i: usize = 0;
        while i < list.len()
            invariant
                i <= list.len(),
                possible(self@.request, self@.replies),
                fatal(self@.request, self@.replies) is None,
                self@.request is Context,
                from == searched,
                searched >= 2,
                self@.replies.len() == total,
                self.replies@.len() == total,
                total == from + list@.len(),
                whole == expanded(
                    results(list@),
                    fetched_in(self@.replies, searched, list@.len() as int),
                ),
                contexts(r@) =~= whole.take(i as int),
            decreases list.len() - i,
        {
            proof {
                lemma_search_replies(self@.request, self@.replies, from + i);
                assert(self@.replies[from + i] == self.replies@[from + i]@);
                assert(results(list@)[i as int] == list@[i as int]@);
            }
            let related = match &self.replies[from + i] {
                Reply::Fetched(Some(m)) => clone_related(&m.related),
                _ => Vec::new(),
            };
            assert(relateds(Seq::<RelatedMemory>::empty()) =~= Seq::<RelatedView>::empty());
            let ghost before = contexts(r@);
            let result = ContextResult {
                memory: list[i].memory.clone(),
                score: list[i].score,
                related,
            };
            r.push(result);
            assert(contexts(r@) =~= before.push(result@));
            assert(whole[i as int] == result@);
            i += 1;
        }
        assert(contexts(r@) =~= whole);
        r
    }

    /// The next action of the search; `None` when all is there.
    fn search_action(&self, text: &String, top_k: usize) -> (r: Option<Action>)
        requires
            possible(self@.request, self@.replies),
            fatal(self@.request, self@.replies) is None,
            self@.request is Search || self@.request is Context,
        ensures
            match r {
                Some(a) => search_action(text@, top_k, self@.replies) == Some(a@),
                None => search_action(text@, top_k, self@.replies) is None,
            },
    {
        if self.replies.len() == 0 {
            return Some(Action::Embed { text: text.clone() });
        }
        if self.replies.len() == 1 {
            proof {
                lemma_search_replies(self@.request, self@.replies, 0);
                assert(self@.replies[0] == self.replies@[0]@);
            }
            return match &self.replies[0] {
                Reply::Embedded(e) => Some(
                    Action::SearchVectors { vector: clone_bits(&e.vector), top_k },
                ),
                _ => {
                    assert(false);
                    None
                },
            };
        }
        let found = self.hits();
        let i: usize = self.replies.len() - 2;
        if i < found.len() {
            assert(hits(found@)[i as int] == found@[i as int]@);
            Some(Action::GetMemory { id: found[i].memory_id.clone() })
        } else {
            None
        }
    }

    fn next_in_store(&self, text: &String, tags: &Option<Vec<String>>) -> (r: Step)
        requires
            possible(self@.request, self@.replies),
            fatal(self@.request, self@.replies) is None,
            self@.request == (RequestView::Store { text: text@, tags: optional_texts(*tags) }),
        ensures
            r@ == store_step(text@, optional_texts(*tags), self@.replies),
    {
        proof {
            lemma_store_replies(text@, optional_texts(*tags), self@.replies);
            assert forall|i: int| 0 <= i < self.replies@.len() implies self@.replies[i]
                == #[trigger] self.replies@[i]@ by {}
        }
        if self.replies.len() == 0 {
            return Step::Do(Action::StoreMemory { text: text.clone(), tags: clone_tags(tags) });
        }
        if self.replies.len() == 1 {
            return Step::Do(Action::Embed { text: text.clone() });
        }
        match (&self.replies[0], &self.replies[1]) {
            (Reply::Stored(record), Reply::Embedded(e)) => {
                if self.replies.len() == 2 {
                    Step::Do(
                        Action::Upsert {
                            record: VectorRecord {
                                memory_id: record.id.clone(),
                                vector: clone_bits(&e.vector),
                                model: e.model.clone(),
                            },
                        },
                    )
                } else {
                    Step::Done(Outcome::Stored(record.clone()))
                }
            },
            _ => {
                assert(false);
                Step::Done(Outcome::Closed)
            },
        }
    }

    fn next_in_delete(&self, id: &String) -> (r: Step)
        requires
            possible(self@.request, self@.replies),
            fatal(self@.request, self@.replies) is None,
            self@.request == (RequestView::Delete { id: id@ }),
        ensures
            r@ == delete_step(id@, self@.replies),
    {
        proof {
            lemma_delete_replies(id@, self@.replies);
        }
        if self.replies.len() == 0 {
            return Step::Do(Action::DeleteMemory { id: id.clone() });
        }
        assert(self@.replies[0] == self.replies@[0]@);
        match &self.replies[0] {
            Reply::Removed(deleted) => {
                if self.replies.len() == 1 && *deleted {
                    Step::Do(Action::DeleteVector { memory_id: id.clone() })
                } else {
                    Step::Done(Outcome::Deleted(*deleted))
                }
            },
            _ => {
                assert(false);
                Step::Done(Outcome::Closed)
            },
        }
    }

    fn next_in_context(&self, message: &String, top_k: Option<usize>) -> (r: Step)
        requires
            possible(self@.request, self@.replies),
            fatal(self@.request, self@.replies) is None,
            self@.request == (RequestView::Context { message: message@, top_k }),
        ensures
            r@ == context_step(message@, top_k, self@.replies),
    {
        let k = match top_k {
            Some(k) => k,
            None => CONTEXT_TOP_K,
        };
        if let Some(action) = self.search_action(message, k) {
            return Step::Do(action);
        }
        proof {
            lemma_search_length(self@.request, self@.replies);
        }
        let list = self.results();
        let found = self.hits();
        let done: usize = self.replies.len() - 2 - found.len();
        assert(results(list@).len() == list@.len());
        if done < list.len() {
            assert(results(list@)[done as int] == list@[done as int]@);
            Step::Do(Action::GetMemory { id: list[done].memory.id.clone() })
        } else {
            Step::Done(Outcome::Context(self.expand(list)))
        }
    }

    fn next_in_reindex(&self) -> (r: Step)
        requires
            possible(self@.request, self@.replies),
            fatal(self@.request, self@.replies) is None,
            self@.request is Reindex,
        ensures
            r@ == reindex_step(self@.replies),
    {
        if self.replies.len() == 0 {
            return Step::Do(Action::ListAll);
        }
        if self.replies.len() == 1 {
            return Step::Do(Action::DeleteAllVectors);
        }
        let n = self.replies.len();
        proof {
            lemma_reindex_replies(self@.replies, 0);
            lemma_reindex_replies(self@.replies, n - 1);
            assert(self@.replies[0] == self.replies@[0]@);
            assert(self@.replies[n - 1] == self.replies@[n - 1]@);
        }
        let i: usize = (n - 2) / 2;
        match &self.replies[0] {
            Reply::Listed(list) => {
                assert(records(list@).len() == list@.len());
                if i >= list.len() {
                    return Step::Done(Outcome::Reindexed(list.len()));
                }
                assert(records(list@)[i as int] == list@[i as int]@);
                if n % 2 == 0 {
                    return Step::Do(Action::Embed { text: list[i].text.clone() });
                }
                match &self.replies[n - 1] {
                    Reply::Embedded(e) => Step::Do(
                        Action::Upsert {
                            record: VectorRecord {
                                memory_id: list[i].id.clone(),
                                vector: clone_bits(&e.vector),
                                model: e.model.clone(),
                            },
                        },
                    ),
                    _ => {
                        assert(false);
                        Step::Done(Outcome::Closed)
                    },
                }
            },
            _ => {
                assert(false);
                Step::Done(Outcome::Closed)
            },
        }
    }

    /// What to do next, or how the operation ended.
    pub fn next(&self) -> (r: Step)
        ensures
            r@ == self@.next(),
    {
        proof {
            use_type_invariant(self);
        }
        let n = self.replies.len();
        if n > 0 {
            assert(self@.replies.last() == self.replies@[n - 1]@);
            let cleaning = n == 2 && match &self.request {
                Request::Delete { .. } => true,
                _ => false,
            };
            if !cleaning {
                if let Reply::Failed(e) = &self.replies[n - 1] {
                    return Step::Done(Outcome::Failed(e.clone()));
                }
            }
        }
        assert(fatal(self@.request, self@.replies) is None);
        match &self.request {
            Request::Store { text, tags } => self.next_in_store(text, tags),
            Request::Link { from_id, to_id, relation } => {
                if n == 0 {
                    return Step::Do(
                        Action::LinkMemories {
                            from_id: from_id.clone(),
                            to_id: to_id.clone(),
                            relation: relation.clone(),
                        },
                    );
                }
                proof {
                    lemma_answered(self@.request, self@.replies, 0);
                    assert(self@.replies[0] == self.replies@[0]@);
                }
                match &self.replies[0] {
                    Reply::Linked(l) => Step::Done(Outcome::Linked(l.clone())),
                    _ => {
                        assert(false);
                        Step::Done(Outcome::Closed)
                    },
                }
            },
            Request::Get { id } => {
                if n == 0 {
                    return Step::Do(Action::GetMemory { id: id.clone() });
                }
                proof {
                    lemma_answered(self@.request, self@.replies, 0);
                    assert(self@.replies[0] == self.replies@[0]@);
                }
                match &self.replies[0] {
                    Reply::Fetched(m) => Step::Done(Outcome::Fetched(clone_fetched(m))),
                    _ => {
                        assert(false);
                        Step::Done(Outcome::Closed)
                    },
                }
            },
            Request::Delete { id } => self.next_in_delete(id),
            Request::Search { query, top_k } => {
                let k = match top_k {
                    Some(k) => *k,
                    None => SEARCH_TOP_K,
                };
                match self.search_action(query, k) {
                    Some(action) => Step::Do(action),
                    None => Step::Done(Outcome::Results(self.results())),
                }
            },
            Request::Context { message, top_k } => self.next_in_context(message, *top_k),
            Request::Reindex => self.next_in_reindex(),
            Request::Drift { current } => {
                if n == 0 {
                    return Step::Do(Action::ListModels);
                }
                proof {
                    lemma_answered(self@.request, self@.replies, 0);
                    assert(self@.replies[0] == self.replies@[0]@);
                }
                match &self.replies[0] {
                    Reply::Models(models) => Step::Done(Outcome::Drift(drift_of(models, current))),
                    _ => {
                        assert(false);
                        Step::Done(Outcome::Closed)
                    },
                }
            },
            Request::Close => {
                if n == 0 {
                    Step::Do(Action::CloseGraph)
                } else if n == 1 {
                    Step::Do(Action::CloseVectors)
                } else {
                    Step::Done(Outcome::Closed)
                }
            },
        }
    }
}

/// The memory service, over an embedding provider with a given model.
pub struct MemoryService {
    model: String,
}

impl View for MemoryService {
    type V = Seq<char>;

    closed spec fn view(&self) -> Seq<char> {
        self.model@
    }
}

impl MemoryService {
    /// A service whose provider embeds with `model`.
    pub fn new(model: &str) -> (r: Self)
        ensures
            r@ == model@,
    {
        MemoryService { model: model.to_string() }
    }

    /// Stores a memory: in the graph first, then in the index.
    pub fn store(&self, text: &str, tags: Option<Vec<String>>) -> (r: Flow)
        ensures
            r@ == FlowView::start(
                RequestView::Store { text: text@, tags: optional_texts(tags) },
            ),
    {
        Flow::start(Request::Store { text: text.to_string(), tags })
    }

    /// Creates a typed relation between two memories.
    pub fn link(&self, from_id: &str, to_id: &str, relation: &str) -> (r: Flow)
        ensures
            r@ == FlowView::start(
                RequestView::Link { from_id: from_id@, to_id: to_id@, relation: relation@ },
            ),
    {
        Flow::start(
            Request::Link {
                from_id: from_id.to_string(),
                to_id: to_id.to_string(),
                relation: relation.to_string(),
            },
        )
    }

    /// Gets a memory with its neighborhood.
    pub fn get(&self, id: &str) -> (r: Flow)
        ensures
            r@ == FlowView::start(RequestView::Get { id: id@ }),
    {
        Flow::start(Request::Get { id: id.to_string() })
    }

    /// Deletes a memory from the graph, and then from the index.
    pub fn delete(&self, id: &str) -> (r: Flow)
        ensures
            r@ == FlowView::start(RequestView::Delete { id: id@ }),
    {
        Flow::start(Request::Delete { id: id.to_string() })
    }

    /// Semantic search: embed the query, search the index, hydrate from the
    /// graph. Vectors whose memory is missing in the graph are skipped.
    pub fn search(&self, query: &str, top_k: Option<usize>) -> (r: Flow)
        ensures
            r@ == FlowView::start(RequestView::Search { query: query@, top_k }),
    {
        Flow::start(Request::Search { query: query.to_string(), top_k })
    }

    /// Relevant prior memories for a user message: a search with the
    /// neighborhood of each result.
    pub fn context(&self, message: &str, top_k: Option<usize>) -> (r: Flow)
        ensures
            r@ == FlowView::start(RequestView::Context { message: message@, top_k }),
    {
        Flow::start(Request::Context { message: message.to_string(), top_k })
    }

    /// Rebuilds the index from the graph.
    pub fn reindex(&self) -> (r: Flow)
        ensures
            r@ == FlowView::start(RequestView::Reindex),
    {
        Flow::start(Request::Reindex)
    }

    /// Finds the models in the index other than the provider's.
    pub fn embedding_model_drift(&self) -> (r: Flow)
        ensures
            r@ == FlowView::start(RequestView::Drift { current: self@ }),
    {
        Flow::start(Request::Drift { current: self.model.clone() })
    }

    /// Closes the stores.
    pub fn close(&self) -> (r: Flow)
        ensures
            r@ == FlowView::start(RequestView::Close),
    {
        Flow::start(Request::Close)
    }
}

} // verus!
