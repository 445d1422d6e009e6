//! What each operation of the service does, action by action, and what it
//! gives back.
use crate::graph::{NeighborhoodView, RecordView, RelatedView};
use crate::service::{
    answers, contexts, drifted, fits, hydrated, lemma_reindex_length, next_step, possible, results,
    Action, ActionView, ContextResult, FlowView, Outcome, OutcomeView, Reply, ReplyView, Request,
    RequestView, ResultView, SearchResult, Step, StepView,
};
use crate::service_laws::{
    known, law_search_hydrates_from_the_graph, lemma_ran_at, lemma_ran_possible, ran, searched,
    Meaning, World,
};
use crate::vectors::{lists_all, HitView, PointView};
use vstd::prelude::*;

verus! {

/// Whether no reply is a failure.
pub open spec fn all_went_well(replies: Seq<ReplyView>) -> bool {
    forall|i: int| 0 <= i < replies.len() ==> !((#[trigger] replies[i]) is Failed)
}

// ---- failure and success ---------------------------------------------------

/// An operation ends in failure exactly when its last reply is one, and with the
/// words of that reply; only in a deletion the second reply cannot fail it.
pub proof fn law_operations_fail_only_with_a_reply(
    request: RequestView,
    replies: Seq<ReplyView>,
    error: Seq<char>,
)
    ensures
        next_step(request, replies) == StepView::Done(OutcomeView::Failed(error)) <==> {
            &&& replies.len() > 0
            &&& replies[replies.len() - 1] == ReplyView::Failed(error)
            &&& !(request is Delete && replies.len() == 2)
        },
{
}

/// An operation on stores and a provider that work never fails.
pub proof fn law_working_stores_never_fail(request: RequestView, replies: Seq<ReplyView>)
    requires
        all_went_well(replies),
    ensures
        next_step(request, replies) matches StepView::Done(outcome) ==> !(outcome is Failed),
{
    if replies.len() > 0 {
        assert(!(replies[replies.len() - 1] is Failed));
    }
}

/// What an operation gives back when it succeeds is of the kind that was asked
/// for.
pub proof fn law_outcomes_belong_to_requests(
    request: RequestView,
    replies: Seq<ReplyView>,
    outcome: OutcomeView,
)
    requires
        next_step(request, replies) == StepView::Done(outcome),
        !(outcome is Failed),
    ensures
        request is Store <==> outcome is Stored,
        request is Link <==> outcome is Linked,
        request is Get <==> outcome is Fetched,
        request is Delete <==> outcome is Deleted,
        request is Search <==> outcome is Results,
        request is Context <==> outcome is Context,
        request is Reindex <==> outcome is Reindexed,
        request is Drift <==> outcome is Drift,
        request is Close <==> outcome is Closed,
{
}

/// An operation that nothing was replied to has not ended.
pub proof fn law_every_operation_begins_with_an_action(request: RequestView)
    ensures
        next_step(request, Seq::empty()) is Do,
{
}

// ---- storing ---------------------------------------------------------------

/// Storing has three actions: the text and the tags go to the graph as they
/// were given, the text is embedded, and its vector and model are written under
/// the id of the record that the graph made, which is given back.
pub proof fn law_storing_step_by_step(
    text: Seq<char>,
    tags: Option<Seq<Seq<char>>>,
    record: RecordView,
    vector: Seq<u32>,
    model: Seq<char>,
)
    ensures
        ({
            let request = RequestView::Store { text, tags };
            let stored = ReplyView::Stored(record);
            let embedded = ReplyView::Embedded(
                crate::embeddings::EmbeddingView { vector, model },
            );
            &&& next_step(request, seq![]) == StepView::Do(ActionView::StoreMemory { text, tags })
            &&& next_step(request, seq![stored]) == StepView::Do(ActionView::Embed { text })
            &&& next_step(request, seq![stored, embedded]) == StepView::Do(
                ActionView::Upsert {
                    point: PointView { memory_id: record.id, vector, model },
                },
            )
            &&& next_step(request, seq![stored, embedded, ReplyView::Finished])
                == StepView::Done(OutcomeView::Stored(record))
        }),
{
}

// ---- linking, getting, closing ---------------------------------------------

/// Linking, getting and looking for models ask one store for exactly what was
/// asked for and give back its answer; closing closes the graph and then the
/// index.
pub proof fn law_single_actions_step_by_step(
    from_id: Seq<char>,
    to_id: Seq<char>,
    relation: Seq<char>,
    link: crate::graph::LinkView,
    id: Seq<char>,
    got: Option<NeighborhoodView>,
    current: Seq<char>,
)
    ensures
        next_step(RequestView::Link { from_id, to_id, relation }, seq![]) == StepView::Do(
            ActionView::LinkMemories { from_id, to_id, relation },
        ),
        next_step(
            RequestView::Link { from_id, to_id, relation },
            seq![ReplyView::Linked(link)],
        ) == StepView::Done(OutcomeView::Linked(link)),
        next_step(RequestView::Get { id }, seq![]) == StepView::Do(ActionView::GetMemory { id }),
        next_step(RequestView::Get { id }, seq![ReplyView::Fetched(got)]) == StepView::Done(
            OutcomeView::Fetched(got),
        ),
        next_step(RequestView::Drift { current }, seq![]) == StepView::Do(ActionView::ListModels),
        next_step(RequestView::Close, seq![]) == StepView::Do(ActionView::CloseGraph),
        next_step(RequestView::Close, seq![ReplyView::Finished]) == StepView::Do(
            ActionView::CloseVectors,
        ),
        next_step(RequestView::Close, seq![ReplyView::Finished, ReplyView::Finished])
            == StepView::Done(OutcomeView::Closed),
{
}

// ---- deleting --------------------------------------------------------------

/// Deleting asks the graph; where there was a memory its vector is removed next,
/// and the outcome is what the graph said, whatever the index replies.
pub proof fn law_deleting_step_by_step(id: Seq<char>, deleted: bool, cleaning: ReplyView)
    ensures
        next_step(RequestView::Delete { id }, seq![]) == StepView::Do(
            ActionView::DeleteMemory { id },
        ),
        next_step(RequestView::Delete { id }, seq![ReplyView::Removed(true)]) == StepView::Do(
            ActionView::DeleteVector { memory_id: id },
        ),
        next_step(RequestView::Delete { id }, seq![ReplyView::Removed(false)]) == StepView::Done(
            OutcomeView::Deleted(false),
        ),
        next_step(RequestView::Delete { id }, seq![ReplyView::Removed(true), cleaning])
            == StepView::Done(OutcomeView::Deleted(true)),
{
}

// ---- searching -------------------------------------------------------------

/// A search embeds its query, asks the index for as many hits as were asked for,
/// or for 5, and gets the memory of each hit in turn.
pub proof fn law_search_asks_for_the_limit_it_was_given(
    query: Seq<char>,
    top_k: Option<usize>,
    replies: Seq<ReplyView>,
)
    requires
        all_went_well(replies),
    ensures
        ({
            let step = next_step(RequestView::Search { query, top_k }, replies);
            &&& replies.len() == 0 ==> step == StepView::Do(ActionView::Embed { text: query })
            &&& replies.len() == 1 ==> (step matches StepView::Do(
                ActionView::SearchVectors { vector, top_k: n },
            ) && vector == replies[0]->Embedded_0.vector && (top_k matches Some(k) ==> n == k) && (
            top_k is None ==> n == 5))
            &&& 2 <= replies.len() < 2 + replies[1]->Found_0.len() ==> step == StepView::Do(
                ActionView::GetMemory {
                    id: replies[1]->Found_0[replies.len() - 2].memory_id,
                },
            )
            &&& replies.len() >= 2 && replies.len() >= 2 + replies[1]->Found_0.len() ==> (
            step matches StepView::Done(OutcomeView::Results(list)) && list == hydrated(
                replies[1]->Found_0,
                Seq::new(
                    replies[1]->Found_0.len(),
                    |i: int| replies[2 + i]->Fetched_0,
                ),
            ))
        }),
{
    if replies.len() > 0 {
        assert(!(replies[replies.len() - 1] is Failed));
    }
    if replies.len() >= 2 {
        let n = replies[1]->Found_0.len();
        assert(crate::service::fetched_in(replies, 2, n as int) =~= Seq::new(
            n,
            |i: int| replies[2 + i]->Fetched_0,
        ));
    }
}

/// A context does what a search does, with a limit of 3 unless it is told, and
/// then gets each result once more; it lists every result with its score and
/// with the neighborhood that was got for it.
pub proof fn law_context_asks_for_the_limit_it_was_given(
    message: Seq<char>,
    top_k: Option<usize>,
    replies: Seq<ReplyView>,
)
    requires
        all_went_well(replies),
    ensures
        ({
            let step = next_step(RequestView::Context { message, top_k }, replies);
            let found = replies[1]->Found_0;
            let list = hydrated(found, Seq::new(found.len(), |i: int| replies[2 + i]->Fetched_0));
            let from = 2 + found.len();
            &&& replies.len() == 0 ==> step == StepView::Do(ActionView::Embed { text: message })
            &&& replies.len() == 1 ==> (step matches StepView::Do(
                ActionView::SearchVectors { vector, top_k: n },
            ) && vector == replies[0]->Embedded_0.vector && (top_k matches Some(k) ==> n == k) && (
            top_k is None ==> n == 3))
            &&& 2 <= replies.len() < from ==> step == StepView::Do(
                ActionView::GetMemory { id: found[replies.len() - 2].memory_id },
            )
            &&& replies.len() >= 2 && from <= replies.len() < from + list.len() ==> step
                == StepView::Do(
                ActionView::GetMemory { id: list[replies.len() - from].memory.id },
            )
            &&& replies.len() >= 2 && replies.len() >= from + list.len() ==> (
            step matches StepView::Done(OutcomeView::Context(all)) && all.len() == list.len()
                && forall|i: int|
                0 <= i < all.len() ==> (#[trigger] all[i]).memory == list[i].memory && all[i].score
                    == list[i].score && all[i].related == match replies[from + i]->Fetched_0 {
                    Some(m) => m.related,
                    None => Seq::<RelatedView>::empty(),
                })
        }),
{
    if replies.len() > 0 {
        assert(!(replies[replies.len() - 1] is Failed));
    }
    if replies.len() >= 2 {
        let n = replies[1]->Found_0.len();
        assert(crate::service::fetched_in(replies, 2, n as int) =~= Seq::new(
            n,
            |i: int| replies[2 + i]->Fetched_0,
        ));
    }
}

/// Without hits there are no results, and one more hit adds one result, its
/// memory with the hit's score, where the graph has the memory, and none where it
/// has not.
pub proof fn law_results_follow_the_hits(
    found: Seq<HitView>,
    fetched: Seq<Option<NeighborhoodView>>,
    hit: HitView,
    got: NeighborhoodView,
)
    ensures
        hydrated(Seq::empty(), Seq::empty()) == Seq::<ResultView>::empty(),
        hydrated(found.push(hit), fetched.push(None)) == hydrated(found, fetched),
        hydrated(found.push(hit), fetched.push(Some(got))) == hydrated(found, fetched).push(
            ResultView { memory: got.memory, score: hit.score },
        ),
{
    assert(found.push(hit).drop_last() =~= found);
    let none: Seq<Option<NeighborhoodView>> = fetched.push(None);
    let some: Seq<Option<NeighborhoodView>> = fetched.push(Some(got));
    assert(none.drop_last() =~= fetched);
    assert(some.drop_last() =~= fetched);
    assert(none.last() is None);
    assert(some.last() == Some(got));
}

/// A search with a limit looks at that many points of the index, or at all of
/// them if there are fewer; without a limit it looks at 5. Where the graph has
/// the memory of every point, there are as many results.
pub proof fn law_search_gives_as_many_as_were_asked_for(
    query: Seq<char>,
    top_k: Option<usize>,
    replies: Seq<ReplyView>,
    world: World,
    meaning: Meaning,
    list: Seq<ResultView>,
)
    requires
        ran(RequestView::Search { query, top_k }, replies, world, meaning),
        next_step(RequestView::Search { query, top_k }, replies) == StepView::Done(
            OutcomeView::Results(list),
        ),
    ensures
        ({
            let wanted = match top_k {
                Some(k) => k as int,
                None => 5,
            };
            let n = if wanted < world.index.len() {
                wanted
            } else {
                world.index.len() as int
            };
            &&& exists|found: Seq<HitView>|
                found.len() == n && list == #[trigger] hydrated(found, known(world.graph, found))
            &&& (forall|i: int|
                0 <= i < world.index.len() ==> world.graph.has(
                    (#[trigger] world.index[i]).memory_id,
                )) ==> list.len() == n
        }),
{
    law_search_hydrates_from_the_graph(query, top_k, replies, world, meaning, list);
    let k = crate::service::limit(top_k, crate::service::SEARCH_TOP_K) as int;
    let index = world.index;
    let scores = crate::service_laws::similarities(
        index,
        (meaning.embed)(query).vector,
        meaning.similarity,
    );
    let found = choose|found: Seq<HitView>|
        searched(found, index, (meaning.embed)(query).vector, meaning.similarity, k) && list
            == #[trigger] hydrated(found, known(world.graph, found));
    let order = choose|order: Seq<int>| #[trigger]
        lists_all(order, index.len() as int) && {
            let k = if k < index.len() { k } else { index.len() as int };
            found == order.take(k).map_values(
                |i: int| crate::vectors::hit_of(index, scores, i),
            )
        };
    if forall|i: int|
        0 <= i < index.len() ==> world.graph.has((#[trigger] index[i]).memory_id) {
        assert forall|j: int| 0 <= j < found.len() implies world.graph.has(
            (#[trigger] found[j]).memory_id,
        ) by {
            assert(0 <= order[j] < index.len());
            assert(found[j].memory_id == index[order[j]].memory_id);
        }
        lemma_all_known(world.graph, found);
    }
}

/// Where the graph has the memory of every hit, there are as many results as
/// hits.
proof fn lemma_all_known(graph: crate::graph::GraphView, found: Seq<HitView>)
    requires
        forall|j: int| 0 <= j < found.len() ==> graph.has((#[trigger] found[j]).memory_id),
    ensures
        hydrated(found, known(graph, found)).len() == found.len(),
    decreases found.len(),
{
    if found.len() > 0 {
        let rest = found.drop_last();
        assert forall|j: int| 0 <= j < rest.len() implies graph.has(
            (#[trigger] rest[j]).memory_id,
        ) by {
            assert(rest[j] == found[j]);
        }
        lemma_all_known(graph, rest);
        assert(known(graph, found).drop_last() =~= known(graph, rest));
        assert(found[found.len() - 1] == found.last());
        crate::graph::lemma_has(graph, found.last().memory_id);
        assert(known(graph, found).last() == graph.get(found.last().memory_id));
    }
}

// ---- reindexing ------------------------------------------------------------

/// Reindexing lists the memories and empties the index; then, for each memory in
/// turn, its text is embedded and the vector is written under its id. It ends
/// after the last memory, with their number.
pub proof fn law_reindexing_step_by_step(replies: Seq<ReplyView>, i: int)
    requires
        all_went_well(replies),
        replies.len() >= 2 ==> 0 <= i <= replies[0]->Listed_0.len(),
    ensures
        ({
            let step = next_step(RequestView::Reindex, replies);
            let list = replies[0]->Listed_0;
            &&& replies.len() == 0 ==> step == StepView::Do(ActionView::ListAll)
            &&& replies.len() == 1 ==> step == StepView::Do(ActionView::DeleteAllVectors)
            &&& replies.len() >= 2 && replies.len() == 2 + 2 * i && i < list.len() ==> step
                == StepView::Do(ActionView::Embed { text: list[i].text })
            &&& replies.len() >= 2 && replies.len() == 3 + 2 * i && i < list.len() ==> step
                == StepView::Do(
                ActionView::Upsert {
                    point: PointView {
                        memory_id: list[i].id,
                        vector: replies[2 + 2 * i]->Embedded_0.vector,
                        model: replies[2 + 2 * i]->Embedded_0.model,
                    },
                },
            )
            &&& replies.len() >= 2 && replies.len() == 2 + 2 * i && i == list.len() ==> step
                == StepView::Done(OutcomeView::Reindexed(list.len()))
        }),
{
    if replies.len() > 0 {
        assert(!(replies[replies.len() - 1] is Failed));
    }
    if replies.len() == 2 + 2 * i {
        assert((replies.len() - 2) / 2 == i);
    }
    if replies.len() == 3 + 2 * i {
        assert((replies.len() - 2) / 2 == i);
        assert(replies.last() == replies[2 + 2 * i]);
    }
}

/// A reindex on stores and a provider that work ends with the number of
/// memories that the graph listed, after one reply for the list, one for the
/// emptying, and two for each memory; no earlier.
pub proof fn law_working_reindex_indexes_every_memory(replies: Seq<ReplyView>)
    requires
        possible(RequestView::Reindex, replies),
        all_went_well(replies),
        next_step(RequestView::Reindex, replies) is Done,
    ensures
        replies.len() == 2 + 2 * replies[0]->Listed_0.len(),
        next_step(RequestView::Reindex, replies) == StepView::Done(
            OutcomeView::Reindexed(replies[0]->Listed_0.len()),
        ),
{
    let n = replies[0]->Listed_0.len() as int;
    if replies.len() < 2 {
        law_reindexing_step_by_step(replies, 0);
        assert(false);
    }
    lemma_reindex_length(replies);
    let i = (replies.len() - 2) / 2;
    if replies.len() < 2 + 2 * n {
        law_reindexing_step_by_step(replies, i);
        assert(false);
    }
    law_reindexing_step_by_step(replies, n);
}

/// A reindex on working stores indexes every memory of the graph: it ends with
/// their number, after two replies and two more for each of them.
pub proof fn law_working_reindex_counts_the_memories(
    replies: Seq<ReplyView>,
    world: World,
    meaning: Meaning,
)
    requires
        ran(RequestView::Reindex, replies, world, meaning),
        all_went_well(replies),
        next_step(RequestView::Reindex, replies) is Done,
    ensures
        replies.len() == 2 + 2 * world.graph.memories.len(),
        next_step(RequestView::Reindex, replies) == StepView::Done(
            OutcomeView::Reindexed(world.graph.memories.len()),
        ),
{
    lemma_ran_possible(RequestView::Reindex, replies, world, meaning);
    law_working_reindex_indexes_every_memory(replies);
    lemma_ran_at(RequestView::Reindex, replies, world, meaning, 0);
    assert(replies.take(0) =~= Seq::<ReplyView>::empty());
    assert(!(replies[0] is Failed));
}

// ---- drift -----------------------------------------------------------------

/// Looking for drift goes through the models that the index names: one more
/// model is added at the end, unless it is the current one or there already.
pub proof fn law_drift_follows_the_models(
    models: Seq<Seq<char>>,
    model: Seq<char>,
    current: Seq<char>,
)
    ensures
        next_step(RequestView::Drift { current }, seq![ReplyView::Models(models)])
            == StepView::Done(OutcomeView::Drift(drifted(models, current))),
        drifted(Seq::empty(), current) == Seq::<Seq<char>>::empty(),
        drifted(models.push(model), current) == if model == current || drifted(
            models,
            current,
        ).contains(model) {
            drifted(models, current)
        } else {
            drifted(models, current).push(model)
        },
{
    assert(models.push(model).drop_last() =~= models);
}

// ---- replies ---------------------------------------------------------------

/// Which reply belongs to which action; a failure may answer any of them.
pub proof fn law_replies_belong_to_actions(action: ActionView, reply: ReplyView)
    ensures
        answers(action, reply) <==> {
            ||| reply is Failed
            ||| action is StoreMemory && reply is Stored
            ||| action is LinkMemories && reply is Linked
            ||| action is GetMemory && reply is Fetched
            ||| action is DeleteMemory && reply is Removed
            ||| action is ListAll && reply is Listed
            ||| action is Embed && reply is Embedded
            ||| action is SearchVectors && reply is Found
            ||| action is ListModels && reply is Models
            ||| action is CloseGraph && reply is Finished
            ||| action is Upsert && reply is Finished
            ||| action is DeleteVector && reply is Finished
            ||| action is DeleteAllVectors && reply is Finished
            ||| action is CloseVectors && reply is Finished
        },
{
}

/// An operation takes a reply that answers its next action, and only such a one,
/// and then it has that reply behind those before.
pub proof fn law_flows_take_answers(flow: FlowView, request: RequestView, reply: ReplyView)
    ensures
        FlowView::start(request).request == request,
        FlowView::start(request).replies.len() == 0,
        flow.next() == next_step(flow.request, flow.replies),
        flow.expects(reply) <==> (next_step(flow.request, flow.replies) matches StepView::Do(action)
            && answers(action, reply)),
        flow.replied(reply).request == flow.request,
        flow.replied(reply).replies == flow.replies.push(reply),
{
}

/// Which replies can have come: none at first, and then each that answers the
/// action that was next.
pub proof fn law_possible_replies(
    request: RequestView,
    replies: Seq<ReplyView>,
    reply: ReplyView,
)
    ensures
        possible(request, Seq::empty()),
        possible(request, replies.push(reply)) <==> {
            &&& possible(request, replies)
            &&& next_step(request, replies) is Do
            &&& answers(next_step(request, replies)->Do_0, reply)
        },
{
    let all = replies.push(reply);
    assert forall|i: int| 0 <= i <= replies.len() implies #[trigger] all.take(i)
        == replies.take(i) by {
        assert(all.take(i) =~= replies.take(i));
    }
    assert(replies.take(replies.len() as int) =~= replies);
    let n = replies.len() as int;
    assert(all[n] == reply);
    assert(fits(request, all, n) <==> next_step(request, replies) is Do && answers(
        next_step(request, replies)->Do_0,
        reply,
    )) by {
        assert(all.take(n) == replies.take(n));
    }
    assert forall|i: int| 0 <= i < n implies fits(request, all, i) == #[trigger] fits(
        request,
        replies,
        i,
    ) by {
        assert(all.take(i) == replies.take(i));
        assert(all[i] == replies[i]);
    }
    if possible(request, all) {
        assert(fits(request, all, n));
        assert forall|i: int| 0 <= i < n implies #[trigger] fits(request, replies, i) by {
            assert(fits(request, all, i));
        }
    }
    if possible(request, replies) && fits(request, all, n) {
        assert forall|i: int| 0 <= i < all.len() implies #[trigger] fits(request, all, i) by {
            if i < n {
                assert(fits(request, replies, i));
            }
        }
    }
}

// ---- what values show ------------------------------------------------------

/// The contents of results show every part of them, in order.
pub proof fn law_results_show_their_parts(
    result: SearchResult,
    context: ContextResult,
    list: Seq<SearchResult>,
    all: Seq<ContextResult>,
)
    ensures
        result@.memory == result.memory@,
        result@.score == result.score,
        context@.memory == context.memory@,
        context@.score == context.score,
        context@.related.len() == context.related@.len(),
        forall|i: int|
            0 <= i < context.related@.len() ==> #[trigger] context@.related[i]
                == context.related@[i]@,
        results(list).len() == list.len(),
        forall|i: int| 0 <= i < list.len() ==> #[trigger] results(list)[i] == list[i]@,
        contexts(all).len() == all.len(),
        forall|i: int| 0 <= i < all.len() ==> #[trigger] contexts(all)[i] == all[i]@,
{
}

/// The contents of a request are those of its parts.
pub proof fn law_requests_show_their_parts(request: Request)
    ensures
        request matches Request::Store { text, tags } ==> (request@ matches RequestView::Store {
            text: t,
            tags: g,
        } && t == text@ && (tags is None <==> g is None) && (tags matches Some(list) ==> g->0.len()
            == list@.len() && forall|i: int|
            0 <= i < list@.len() ==> #[trigger] g->0[i] == list@[i]@)),
        request matches Request::Link { from_id, to_id, relation } ==> request@ == (
        RequestView::Link { from_id: from_id@, to_id: to_id@, relation: relation@ }),
        request matches Request::Get { id } ==> request@ == (RequestView::Get { id: id@ }),
        request matches Request::Delete { id } ==> request@ == (RequestView::Delete { id: id@ }),
        request matches Request::Search { query, top_k } ==> request@ == (RequestView::Search {
            query: query@,
            top_k,
        }),
        request matches Request::Context { message, top_k } ==> request@ == (
        RequestView::Context { message: message@, top_k }),
        request is Reindex ==> request@ is Reindex,
        request matches Request::Drift { current } ==> request@ == (RequestView::Drift {
            current: current@,
        }),
        request is Close ==> request@ is Close,
{
}

/// The contents of an action are those of its parts.
pub proof fn law_actions_show_their_parts(action: Action)
    ensures
        action matches Action::StoreMemory { text, tags } ==> (
        action@ matches ActionView::StoreMemory { text: t, tags: g } && t == text@ && (tags is None
            <==> g is None) && (tags matches Some(list) ==> g->0.len() == list@.len() && forall|
            i: int,
        |
            0 <= i < list@.len() ==> #[trigger] g->0[i] == list@[i]@)),
        action matches Action::LinkMemories { from_id, to_id, relation } ==> action@ == (
        ActionView::LinkMemories { from_id: from_id@, to_id: to_id@, relation: relation@ }),
        action matches Action::GetMemory { id } ==> action@ == (ActionView::GetMemory { id: id@ }),
        action matches Action::DeleteMemory { id } ==> action@ == (ActionView::DeleteMemory {
            id: id@,
        }),
        action is ListAll ==> action@ is ListAll,
        action is CloseGraph ==> action@ is CloseGraph,
        action matches Action::Embed { text } ==> action@ == (ActionView::Embed { text: text@ }),
        action matches Action::Upsert { record } ==> action@ == (ActionView::Upsert {
            point: PointView {
                memory_id: record.memory_id@,
                vector: record.vector@,
                model: record.model@,
            },
        }),
        action matches Action::SearchVectors { vector, top_k } ==> action@ == (
        ActionView::SearchVectors { vector: vector@, top_k }),
        action matches Action::DeleteVector { memory_id } ==> action@ == (
        ActionView::DeleteVector { memory_id: memory_id@ }),
        action is DeleteAllVectors ==> action@ is DeleteAllVectors,
        action is ListModels ==> action@ is ListModels,
        action is CloseVectors ==> action@ is CloseVectors,
{
}

/// The contents of a reply are those of its parts.
pub proof fn law_replies_show_their_parts(reply: Reply)
    ensures
        reply matches Reply::Stored(r) ==> reply@ == ReplyView::Stored(r@),
        reply matches Reply::Linked(l) ==> reply@ == ReplyView::Linked(l@),
        reply matches Reply::Fetched(m) ==> (reply@ matches ReplyView::Fetched(v) && (m is None
            <==> v is None) && (m matches Some(x) ==> v->0 == x@)),
        reply matches Reply::Removed(b) ==> reply@ == ReplyView::Removed(b),
        reply matches Reply::Listed(list) ==> (reply@ matches ReplyView::Listed(v) && v.len()
            == list@.len() && forall|i: int|
            0 <= i < list@.len() ==> #[trigger] v[i] == list@[i]@),
        reply matches Reply::Embedded(e) ==> (reply@ matches ReplyView::Embedded(v) && v.vector
            == e.vector@ && v.model == e.model@),
        reply matches Reply::Found(list) ==> (reply@ matches ReplyView::Found(v) && v.len()
            == list@.len() && forall|i: int|
            0 <= i < list@.len() ==> (#[trigger] v[i]).memory_id == list@[i].memory_id@
                && v[i].score == list@[i].score),
        reply matches Reply::Models(list) ==> (reply@ matches ReplyView::Models(v) && v.len()
            == list@.len() && forall|i: int|
            0 <= i < list@.len() ==> #[trigger] v[i] == list@[i]@),
        reply is Finished ==> reply@ is Finished,
        reply matches Reply::Failed(e) ==> reply@ == ReplyView::Failed(e@),
{
}

/// The contents of an outcome are those of its parts.
pub proof fn law_outcomes_show_their_parts(outcome: Outcome, step: Step)
    ensures
        outcome matches Outcome::Stored(r) ==> outcome@ == OutcomeView::Stored(r@),
        outcome matches Outcome::Linked(l) ==> outcome@ == OutcomeView::Linked(l@),
        outcome matches Outcome::Fetched(m) ==> (outcome@ matches OutcomeView::Fetched(v) && (
        m is None <==> v is None) && (m matches Some(x) ==> v->0 == x@)),
        outcome matches Outcome::Deleted(b) ==> outcome@ == OutcomeView::Deleted(b),
        outcome matches Outcome::Results(list) ==> (outcome@ matches OutcomeView::Results(v)
            && v.len() == list@.len() && forall|i: int|
            0 <= i < list@.len() ==> #[trigger] v[i] == list@[i]@),
        outcome matches Outcome::Context(list) ==> (outcome@ matches OutcomeView::Context(v)
            && v.len() == list@.len() && forall|i: int|
            0 <= i < list@.len() ==> #[trigger] v[i] == list@[i]@),
        outcome matches Outcome::Reindexed(n) ==> outcome@ == OutcomeView::Reindexed(n as nat),
        outcome matches Outcome::Drift(list) ==> (outcome@ matches OutcomeView::Drift(v) && v.len()
            == list@.len() && forall|i: int|
            0 <= i < list@.len() ==> #[trigger] v[i] == list@[i]@),
        outcome is Closed ==> outcome@ is Closed,
        outcome matches Outcome::Failed(e) ==> outcome@ == OutcomeView::Failed(e@),
        step matches Step::Do(a) ==> step@ == StepView::Do(a@),
        step matches Step::Done(o) ==> step@ == StepView::Done(o@),
{
}

} // verus!
