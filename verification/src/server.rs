//! The memory tools and the HTTP surface: what a tool call asks of the service,
//! how it is answered, and which requests are let in.
//!
//! Tools: memory_store, memory_search, memory_get, memory_link, memory_delete
//! and memory_context. Each call is handled on its own; all state lives in the
//! stores.
use crate::graph::{
    LinkResult, LinkView, MemoryRecord, MemoryWithRelated, NeighborhoodView, RecordView,
};
use crate::service::{
    contexts, hydrated, next_step, results, ContextResult, ContextView, Flow, FlowView,
    MemoryService, Outcome, OutcomeView, ReplyView, RequestView, ResultView, SearchResult,
    StepView,
};
use crate::service_laws::{
    known, law_context_expands_a_search, law_results_are_memories, ran, searched, Meaning, World,
};
use crate::text::{clone_texts, decimal, decimal_text, joined, optional_text, optional_texts};
use crate::vectors::HitView;
use vstd::prelude::*;
use vstd::string::*;

verus! {

/// The most results that a caller may ask a search for.
pub const MAX_SEARCH_RESULTS: u32 = 20;

/// The most memories that a caller may ask a context for.
pub const MAX_CONTEXT_RESULTS: u32 = 10;

// ---- tool arguments --------------------------------------------------------

/// The arguments of memory_store.
#[derive(Debug)]
pub struct StoreParams {
    /// the memory content to store
    pub text: String,
    /// optional tags
    pub tags: Option<Vec<String>>,
}

/// The arguments of memory_search.
#[derive(Debug)]
pub struct SearchParams {
    /// what to search for
    pub query: String,
    /// max results (default 5)
    pub top_k: Option<u64>,
}

/// The arguments of memory_get.
#[derive(Debug)]
pub struct GetParams {
    /// memory id
    pub id: String,
}

/// The arguments of memory_link.
#[derive(Debug)]
pub struct LinkParams {
    /// source memory id
    pub from_id: String,
    /// target memory id
    pub to_id: String,
    /// relation type, e.g. RELATED_TO, CAUSES, PART_OF
    pub relation: String,
}

/// The arguments of memory_delete.
#[derive(Debug)]
pub struct DeleteParams {
    /// memory id
    pub id: String,
}

/// The arguments of memory_context.
#[derive(Debug)]
pub struct ContextParams {
    /// the current user message
    pub message: String,
    /// max memories (default 3)
    pub top_k: Option<u64>,
}

// ---- answers ---------------------------------------------------------------

/// Why a tool call failed.
#[derive(Debug, PartialEq)]
pub enum ToolError {
    /// an argument is out of bounds
    InvalidParams { message: String },
    /// a store or the provider failed
    Internal { message: String },
}

/// What a tool call answers: a value to be written as JSON, or plain text.
#[derive(Debug)]
pub enum Answer {
    Record(MemoryRecord),
    Link(LinkResult),
    Memory(MemoryWithRelated),
    Results(Vec<SearchResult>),
    Context(Vec<ContextResult>),
    Text(String),
}

/// The contents of a [`ToolError`].
pub enum ToolErrorView {
    InvalidParams { message: Seq<char> },
    Internal { message: Seq<char> },
}

/// The contents of an [`Answer`].
pub enum AnswerView {
    Record(RecordView),
    Link(LinkView),
    Memory(NeighborhoodView),
    Results(Seq<ResultView>),
    Context(Seq<ContextView>),
    Text(Seq<char>),
}

impl View for ToolError {
    type V = ToolErrorView;

    open spec fn view(&self) -> ToolErrorView {
        match *self {
            ToolError::InvalidParams { message } => ToolErrorView::InvalidParams {
                message: message@,
            },
            ToolError::Internal { message } => ToolErrorView::Internal { message: message@ },
        }
    }
}

impl View for Answer {
    type V = AnswerView;

    open spec fn view(&self) -> AnswerView {
        match *self {
            Answer::Record(r) => AnswerView::Record(r@),
            Answer::Link(l) => AnswerView::Link(l@),
            Answer::Memory(m) => AnswerView::Memory(m@),
            Answer::Results(list) => AnswerView::Results(results(list@)),
            Answer::Context(list) => AnswerView::Context(contexts(list@)),
            Answer::Text(t) => AnswerView::Text(t@),
        }
    }
}

/// What is said of a memory that does not exist.
pub open spec fn not_found(id: Seq<char>) -> Seq<char> {
    "memory \""@ + id + "\" not found"@
}

/// What is said of a memory that does not exist.
fn not_found_text(id: &str) -> (r: String)
    ensures
        r@ == not_found(id@),
{
    let mut r = joined("memory \"", id);
    r.append("\" not found");
    r
}

/// Whether an operation that a tool starts can end like this.
pub open spec fn is_tool_outcome(outcome: OutcomeView) -> bool {
    !(outcome is Reindexed || outcome is Drift || outcome is Closed)
}

/// The answer to a tool call about the memory `id` that ended like this.
pub open spec fn answer_to(id: Seq<char>, outcome: OutcomeView) -> Result<
    AnswerView,
    ToolErrorView,
> {
    match outcome {
        OutcomeView::Stored(r) => Ok(AnswerView::Record(r)),
        OutcomeView::Linked(l) => Ok(AnswerView::Link(l)),
        OutcomeView::Fetched(Some(m)) => Ok(AnswerView::Memory(m)),
        OutcomeView::Fetched(None) => Ok(AnswerView::Text(not_found(id))),
        OutcomeView::Deleted(true) => Ok(AnswerView::Text("deleted "@ + id)),
        OutcomeView::Deleted(false) => Ok(AnswerView::Text(not_found(id))),
        OutcomeView::Results(list) => Ok(AnswerView::Results(list)),
        OutcomeView::Context(list) => Ok(AnswerView::Context(list)),
        OutcomeView::Failed(e) => Err(ToolErrorView::Internal { message: e }),
        _ => arbitrary(),
    }
}

/// The limit in a tool call: none if there is none, the number itself from 1 to
/// `max`, an error otherwise.
pub open spec fn bounded(value: Option<u64>, max: nat) -> Result<Option<usize>, Seq<char>> {
    match value {
        Some(n) => if 1 <= n <= max {
            Ok(Some(n as usize))
        } else {
            Err(
                "top_k must be between 1 and "@ + decimal(max) + ", got "@ + decimal(n as nat),
            )
        },
        None => Ok(None),
    }
}

/// Checks the limit in a tool call.
pub fn top_k_bounds(value: Option<u64>, max: u32) -> (r: Result<Option<usize>, ToolError>)
    ensures
        match bounded(value, max as nat) {
            Ok(k) => r == Ok::<Option<usize>, ToolError>(k),
            Err(e) => r matches Err(ToolError::InvalidParams { message }) && message@ == e,
        },
        r matches Ok(Some(k)) ==> 1 <= k <= max && value == Some(k as u64),
{
    match value {
        Some(n) => {
            if 1 <= n && n <= max as u64 {
                Ok(Some(n as usize))
            } else {
                let most = decimal_text(max as u64);
                let got = decimal_text(n);
                let mut message = joined("top_k must be between 1 and ", most.as_str());
                message.append(", got ");
                message.append(got.as_str());
                Err(ToolError::InvalidParams { message })
            }
        },
        None => Ok(None),
    }
}

/// The memory tools.
pub struct MemoryMcpServer {
    service: MemoryService,
}

impl View for MemoryMcpServer {
    type V = Seq<char>;

    closed spec fn view(&self) -> Seq<char> {
        self.service@
    }
}

impl MemoryMcpServer {
    /// The tools over a service.
    pub fn new(service: MemoryService) -> (r: Self)
        ensures
            r@ == service@,
    {
        MemoryMcpServer { service }
    }

    /// Store a new memory for later semantic recall.
    pub fn memory_store(&self, params: &StoreParams) -> (r: Flow)
        ensures
            r@ == FlowView::start(
                RequestView::Store { text: params.text@, tags: optional_texts(params.tags) },
            ),
    {
        let tags = match &params.tags {
            Some(t) => Some(clone_texts(t)),
            None => None,
        };
        self.service.store(params.text.as_str(), tags)
    }

    /// Search memories by semantic similarity.
    pub fn memory_search(&self, params: &SearchParams) -> (r: Result<Flow, ToolError>)
        ensures
            match bounded(params.top_k, MAX_SEARCH_RESULTS as nat) {
                Ok(top_k) => r matches Ok(f) && f@ == FlowView::start(
                    RequestView::Search { query: params.query@, top_k },
                ),
                Err(e) => r matches Err(ToolError::InvalidParams { message }) && message@ == e,
            },
    {
        match top_k_bounds(params.top_k, MAX_SEARCH_RESULTS) {
            Ok(top_k) => Ok(self.service.search(params.query.as_str(), top_k)),
            Err(e) => Err(e),
        }
    }

    /// Get a memory by id, including its linked memories.
    pub fn memory_get(&self, params: &GetParams) -> (r: Flow)
        ensures
            r@ == FlowView::start(RequestView::Get { id: params.id@ }),
    {
        self.service.get(params.id.as_str())
    }

    /// Create a typed relation between two memories.
    pub fn memory_link(&self, params: &LinkParams) -> (r: Flow)
        ensures
            r@ == FlowView::start(
                RequestView::Link {
                    from_id: params.from_id@,
                    to_id: params.to_id@,
                    relation: params.relation@,
                },
            ),
    {
        self.service.link(
            params.from_id.as_str(),
            params.to_id.as_str(),
            params.relation.as_str(),
        )
    }

    /// Delete a memory by id; its relations are removed too.
    pub fn memory_delete(&self, params: &DeleteParams) -> (r: Flow)
        ensures
            r@ == FlowView::start(RequestView::Delete { id: params.id@ }),
    {
        self.service.delete(params.id.as_str())
    }

    /// Get prior memories relevant to the current user message, with their
    /// neighborhoods.
    pub fn memory_context(&self, params: &ContextParams) -> (r: Result<Flow, ToolError>)
        ensures
            match bounded(params.top_k, MAX_CONTEXT_RESULTS as nat) {
                Ok(top_k) => r matches Ok(f) && f@ == FlowView::start(
                    RequestView::Context { message: params.message@, top_k },
                ),
                Err(e) => r matches Err(ToolError::InvalidParams { message }) && message@ == e,
            },
    {
        match top_k_bounds(params.top_k, MAX_CONTEXT_RESULTS) {
            Ok(top_k) => Ok(self.service.context(params.message.as_str(), top_k)),
            Err(e) => Err(e),
        }
    }

    /// The answer to a tool call about the memory `id`; `id` does not matter
    /// where a call is about no single memory.
    pub fn answer(id: &str, outcome: Outcome) -> (r: Result<Answer, ToolError>)
        requires
            is_tool_outcome(outcome@),
        ensures
            match r {
                Ok(a) => answer_to(id@, outcome@) == Ok::<AnswerView, ToolErrorView>(a@),
                Err(e) => answer_to(id@, outcome@) == Err::<AnswerView, ToolErrorView>(e@),
            },
    {
        match outcome {
            Outcome::Stored(r) => Ok(Answer::Record(r)),
            Outcome::Linked(l) => Ok(Answer::Link(l)),
            Outcome::Fetched(Some(m)) => Ok(Answer::Memory(m)),
            Outcome::Fetched(None) => Ok(Answer::Text(not_found_text(id))),
            Outcome::Deleted(deleted) => if deleted {
                Ok(Answer::Text(joined("deleted ", id)))
            } else {
                Ok(Answer::Text(not_found_text(id)))
            },
            Outcome::Results(list) => Ok(Answer::Results(list)),
            Outcome::Context(list) => Ok(Answer::Context(list)),
            Outcome::Failed(message) => Err(ToolError::Internal { message }),
            _ => {
                assert(false);
                vstd::pervasive::unreached()
            },
        }
    }
}

// ---- HTTP ------------------------------------------------------------------

/// A reply that needs no tool: a status and a JSON document.
#[derive(Debug, PartialEq)]
pub struct HttpReply {
    pub status: u16,
    pub body: String,
}

/// The contents of an [`HttpReply`].
pub struct HttpReplyView {
    pub status: u16,
    pub body: Seq<char>,
}

impl View for HttpReply {
    type V = HttpReplyView;

    open spec fn view(&self) -> HttpReplyView {
        HttpReplyView { status: self.status, body: self.body@ }
    }
}

/// How the server listens.
#[derive(Debug)]
pub struct MemoryServerOptions {
    pub port: u16,
    /// when set, requests without this bearer token are rejected before any
    /// tool runs
    pub token: Option<String>,
    /// the names under which the tools may be reached
    pub allowed_hosts: Vec<String>,
}

/// Whether a request with this `Authorization` header is let in.
pub open spec fn admitted(token: Option<Seq<char>>, authorization: Option<Seq<char>>) -> bool {
    match token {
        Some(t) => authorization == Some("Bearer "@ + t),
        None => true,
    }
}

/// The reply to a request that is not let in.
pub open spec fn refusal() -> HttpReplyView {
    HttpReplyView {
        status: 401,
        body: "{\"error\":\"unauthorized: valid bearer token required\"}"@,
    }
}

impl MemoryServerOptions {
    /// Bearer authentication, for every request before anything else is done
    /// with it: nothing if the request is let in, else the reply to it.
    pub fn gate(&self, authorization: &Option<String>) -> (r: Option<HttpReply>)
        ensures
            match r {
                None => admitted(optional_text(self.token), optional_text(*authorization)),
                Some(reply) => reply@ == refusal() && !admitted(
                    optional_text(self.token),
                    optional_text(*authorization),
                ),
            },
    {
        if let Some(token) = &self.token {
            let expected = joined("Bearer ", token.as_str());
            let admitted = match authorization {
                Some(provided) => *provided == expected,
                None => false,
            };
            if !admitted {
                return Some(
                    HttpReply {
                        status: 401,
                        body: "{\"error\":\"unauthorized: valid bearer token required\"}".to_string(),
                    },
                );
            }
        }
        None
    }
}

/// The reply that the server is up.
pub fn health() -> (r: HttpReply)
    ensures
        r@ == (HttpReplyView { status: 200, body: "{\"ok\":true}"@ }),
{
    HttpReply { status: 200, body: "{\"ok\":true}".to_string() }
}

/// The reply to a request for anything but the tools and the server's health.
pub fn fallback() -> (r: HttpReply)
    ensures
        r@ == (HttpReplyView {
            status: 405,
            body: "{\"error\":\"method not allowed in stateless mode; use POST\"}"@,
        }),
{
    HttpReply {
        status: 405,
        body: "{\"error\":\"method not allowed in stateless mode; use POST\"}".to_string(),
    }
}

// ---- laws ------------------------------------------------------------------

/// With a token set, a request without the header is refused, and so is one
/// with another token; exactly the request with the token is let in.
pub proof fn law_only_the_token_is_let_in(token: Seq<char>, other: Seq<char>)
    ensures
        !admitted(Some(token), None),
        admitted(Some(token), Some("Bearer "@ + token)),
        other != token ==> !admitted(Some(token), Some("Bearer "@ + other)),
{
    let n = "Bearer "@.len() as int;
    assert(("Bearer "@ + token).skip(n) =~= token);
    assert(("Bearer "@ + other).skip(n) =~= other);
}

/// Without a token every request is let in.
pub proof fn law_no_token_lets_everyone_in(authorization: Option<Seq<char>>)
    ensures
        admitted(None, authorization),
{
}

/// An operation that a tool started has an answer when it is over.
pub proof fn law_tool_calls_are_answered(
    request: RequestView,
    replies: Seq<ReplyView>,
    outcome: OutcomeView,
)
    requires
        !(request is Reindex || request is Drift || request is Close),
        next_step(request, replies) == StepView::Done(outcome),
    ensures
        is_tool_outcome(outcome),
{
}

/// What a limit lets through is between 1 and the maximum, and every such limit
/// passes unchanged.
pub proof fn law_limits_are_bounded(value: Option<u64>, max: nat)
    requires
        max <= u32::MAX,
    ensures
        bounded(value, max) is Ok <==> (value matches Some(n) ==> 1 <= n <= max),
        bounded(value, max) matches Ok(Some(k)) ==> value == Some(k as u64),
{
}

/// The answer to an operation that succeeded with a value carries that value
/// unchanged; one that failed is answered with its words.
pub proof fn law_answers_carry_their_values(
    id: Seq<char>,
    record: RecordView,
    link: LinkView,
    memory: NeighborhoodView,
    list: Seq<ResultView>,
    all: Seq<ContextView>,
    error: Seq<char>,
)
    ensures
        answer_to(id, OutcomeView::Stored(record)) == Ok::<AnswerView, ToolErrorView>(
            AnswerView::Record(record),
        ),
        answer_to(id, OutcomeView::Linked(link)) == Ok::<AnswerView, ToolErrorView>(
            AnswerView::Link(link),
        ),
        answer_to(id, OutcomeView::Fetched(Some(memory))) == Ok::<AnswerView, ToolErrorView>(
            AnswerView::Memory(memory),
        ),
        answer_to(id, OutcomeView::Results(list)) == Ok::<AnswerView, ToolErrorView>(
            AnswerView::Results(list),
        ),
        answer_to(id, OutcomeView::Context(all)) == Ok::<AnswerView, ToolErrorView>(
            AnswerView::Context(all),
        ),
        answer_to(id, OutcomeView::Failed(error)) == Err::<AnswerView, ToolErrorView>(
            ToolErrorView::Internal { message: error },
        ),
{
}

/// A memory that is not there is answered with its id, between the same words
/// whether it was to be read or to be deleted; one that was deleted is answered
/// with its id too.
pub proof fn law_answers_name_the_memory(id: Seq<char>)
    ensures
        answer_to(id, OutcomeView::Fetched(None)) == Ok::<AnswerView, ToolErrorView>(
            AnswerView::Text("memory \""@ + id + "\" not found"@),
        ),
        answer_to(id, OutcomeView::Deleted(false)) == Ok::<AnswerView, ToolErrorView>(
            AnswerView::Text("memory \""@ + id + "\" not found"@),
        ),
        answer_to(id, OutcomeView::Deleted(true)) == Ok::<AnswerView, ToolErrorView>(
            AnswerView::Text("deleted "@ + id),
        ),
{
}

/// The answer to memory_context lists, for each result of the search for the
/// message, the memory, its score, and the relations that the graph has for it.
pub proof fn law_context_is_answered_with_neighborhoods(
    message: Seq<char>,
    top_k: Option<usize>,
    replies: Seq<ReplyView>,
    world: World,
    meaning: Meaning,
    id: Seq<char>,
    outcome: OutcomeView,
    all: Seq<ContextView>,
)
    requires
        ran(RequestView::Context { message, top_k }, replies, world, meaning),
        next_step(RequestView::Context { message, top_k }, replies) == StepView::Done(outcome),
        answer_to(id, outcome) == Ok::<AnswerView, ToolErrorView>(AnswerView::Context(all)),
    ensures
        exists|found: Seq<HitView>|
            {
                let plain = #[trigger] hydrated(found, known(world.graph, found));
                let n = match top_k {
                    Some(k) => k as int,
                    None => 3,
                };
                &&& found.len() == if n < world.index.len() {
                    n
                } else {
                    world.index.len() as int
                }
                &&& searched(
                    found,
                    world.index,
                    (meaning.embed)(message).vector,
                    meaning.similarity,
                    n,
                )
                &&& all.len() == plain.len()
                &&& forall|i: int|
                    0 <= i < all.len() ==> (#[trigger] all[i]).memory == plain[i].memory
                        && all[i].score == plain[i].score
            },
        forall|i: int|
            0 <= i < all.len() ==> world.graph.has((#[trigger] all[i]).memory.id)
                && all[i].related == world.graph.get(all[i].memory.id)->0.related,
{
    lemma_context_outcome(message, top_k, replies, outcome);
    assert(outcome == OutcomeView::Context(all));
    law_context_expands_a_search(message, top_k, replies, world, meaning, all);
    let n = match top_k {
        Some(k) => k as int,
        None => 3,
    };
    let vector = (meaning.embed)(message).vector;
    let found = choose|found: Seq<HitView>|
        {
            let plain = #[trigger] hydrated(found, known(world.graph, found));
            &&& searched(found, world.index, vector, meaning.similarity, n)
            &&& all.len() == plain.len()
            &&& forall|i: int|
                0 <= i < plain.len() ==> #[trigger] all[i] == (ContextView {
                    memory: plain[i].memory,
                    score: plain[i].score,
                    related: world.graph.get(plain[i].memory.id)->0.related,
                })
        };
    let plain = hydrated(found, known(world.graph, found));
    assert forall|i: int| 0 <= i < all.len() implies world.graph.has(
        (#[trigger] all[i]).memory.id,
    ) && all[i].related == world.graph.get(all[i].memory.id)->0.related by {
        law_results_are_memories(world.graph, found);
        assert(world.graph.has(plain[i].memory.id));
    }
}

/// An operation for a context ends with a context or with a failure.
proof fn lemma_context_outcome(
    message: Seq<char>,
    top_k: Option<usize>,
    replies: Seq<ReplyView>,
    outcome: OutcomeView,
)
    requires
        next_step(RequestView::Context { message, top_k }, replies) == StepView::Done(outcome),
    ensures
        outcome is Context || outcome is Failed,
{
}

/// A limit from 1 to the maximum is passed on as it is, and so is no limit; any
/// other is refused with words that name the maximum and the limit. A search may
/// ask for 20 results and a context for 10.
pub proof fn law_limits_out_of_bounds_are_refused(value: u64, max: nat)
    requires
        max <= u32::MAX,
    ensures
        bounded(None, max) == Ok::<Option<usize>, Seq<char>>(None),
        1 <= value <= max ==> bounded(Some(value), max) == Ok::<Option<usize>, Seq<char>>(
            Some(value as usize),
        ),
        value == 0 || value > max ==> bounded(Some(value), max) == Err::<Option<usize>, Seq<char>>(
            "top_k must be between 1 and "@ + decimal(max) + ", got "@ + decimal(value as nat),
        ),
        MAX_SEARCH_RESULTS == 20,
        MAX_CONTEXT_RESULTS == 10,
{
}

/// With a token set, a request is let in exactly when its header is the word
/// `Bearer`, a blank and the token; any other is answered with status 401 and
/// the same words.
pub proof fn law_refusals_look_alike(token: Seq<char>, authorization: Option<Seq<char>>)
    ensures
        admitted(Some(token), authorization) <==> {
            &&& authorization is Some
            &&& authorization->0.len() == 7 + token.len()
            &&& authorization->0.take(7) == "Bearer "@
            &&& authorization->0.skip(7) == token
        },
        refusal().status == 401,
        refusal().body == "{\"error\":\"unauthorized: valid bearer token required\"}"@,
{
    reveal_strlit("Bearer ");
    let expected = "Bearer "@ + token;
    assert("Bearer "@.len() == 7);
    assert(expected.take(7) =~= "Bearer "@);
    assert(expected.skip(7) =~= token);
    if authorization is Some && authorization->0.len() == 7 + token.len()
        && authorization->0.take(7) == "Bearer "@ && authorization->0.skip(7) == token {
        let given = authorization->0;
        assert(given =~= given.take(7) + given.skip(7));
    }
}

/// The contents of answers, errors and replies show every part of them, in
/// order.
pub proof fn law_answers_show_their_parts(answer: Answer, error: ToolError, reply: HttpReply)
    ensures
        answer matches Answer::Record(r) ==> answer@ == AnswerView::Record(r@),
        answer matches Answer::Link(l) ==> answer@ == AnswerView::Link(l@),
        answer matches Answer::Memory(m) ==> answer@ == AnswerView::Memory(m@),
        answer matches Answer::Results(list) ==> (answer@ matches AnswerView::Results(v) && v.len()
            == list@.len() && forall|i: int|
            0 <= i < list@.len() ==> #[trigger] v[i] == list@[i]@),
        answer matches Answer::Context(list) ==> (answer@ matches AnswerView::Context(v) && v.len()
            == list@.len() && forall|i: int|
            0 <= i < list@.len() ==> #[trigger] v[i] == list@[i]@),
        answer matches Answer::Text(t) ==> answer@ == AnswerView::Text(t@),
        error matches ToolError::InvalidParams { message } ==> error@ == (
        ToolErrorView::InvalidParams { message: message@ }),
        error matches ToolError::Internal { message } ==> error@ == (ToolErrorView::Internal {
            message: message@,
        }),
        reply@.status == reply.status,
        reply@.body == reply.body@,
{
}

/// Operations that no tool starts are the ones without an answer.
pub proof fn law_tool_outcomes(outcome: OutcomeView)
    ensures
        is_tool_outcome(outcome) <==> {
            ||| outcome is Stored
            ||| outcome is Linked
            ||| outcome is Fetched
            ||| outcome is Deleted
            ||| outcome is Results
            ||| outcome is Context
            ||| outcome is Failed
        },
{
}

} // verus!
