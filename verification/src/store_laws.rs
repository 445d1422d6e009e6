//! What the service's actions do to the stores, and which replies are true of
//! them.
use crate::embeddings::EmbeddingView;
use crate::graph::{is_new_record, is_relation, LinkView, NeighborhoodView, RecordView};
use crate::in_memory::{are_similarities, is_graph_action, is_index_action};
use crate::service::{
    answers, next_step, point_for, replies_of, ActionView, Reply, ReplyView, RequestView, StepView,
};
use crate::service_laws::{
    after, ran, searched, similarities, truthful, world_after, Meaning, World,
};
use crate::vectors::{
    are_models_of, is_search_result, is_selection, no_nan, unindexed, upserted, HitView, PointView,
};
use vstd::prelude::*;

verus! {

// ---- the graph -------------------------------------------------------------

/// The graph replies with what it has: a new record, a relation between two
/// memories that it has, the memory with its neighborhood, whether there was a
/// memory, or all of them.
pub proof fn law_graph_replies_are_true(
    world: World,
    meaning: Meaning,
    text: Seq<char>,
    tags: Option<Seq<Seq<char>>>,
    record: RecordView,
    from_id: Seq<char>,
    to_id: Seq<char>,
    relation: Seq<char>,
    link: LinkView,
    id: Seq<char>,
    got: Option<NeighborhoodView>,
    removed: bool,
    list: Seq<RecordView>,
)
    ensures
        truthful(
            world,
            meaning,
            ActionView::StoreMemory { text, tags },
            ReplyView::Stored(record),
        ) <==> is_new_record(record, text, tags),
        truthful(
            world,
            meaning,
            ActionView::LinkMemories { from_id, to_id, relation },
            ReplyView::Linked(link),
        ) <==> {
            &&& is_relation(relation)
            &&& world.graph.has(from_id)
            &&& world.graph.has(to_id)
            &&& link.from_id == from_id
            &&& link.to_id == to_id
            &&& link.relation == relation
        },
        truthful(world, meaning, ActionView::GetMemory { id }, ReplyView::Fetched(got)) <==> got
            == world.graph.get(id),
        truthful(world, meaning, ActionView::DeleteMemory { id }, ReplyView::Removed(removed))
            <==> removed == world.graph.has(id),
        truthful(world, meaning, ActionView::ListAll, ReplyView::Listed(list)) <==> list
            == world.graph.memories,
        truthful(world, meaning, ActionView::CloseGraph, ReplyView::Finished),
{
}

/// Storing adds the record, linking the relation, and deleting takes the memory
/// away with its relations; nothing else changes the graph, and none of them
/// touches the index.
pub proof fn law_actions_on_the_graph(
    world: World,
    action: ActionView,
    text: Seq<char>,
    tags: Option<Seq<Seq<char>>>,
    record: RecordView,
    link: LinkView,
    id: Seq<char>,
    removed: bool,
    reply: ReplyView,
)
    ensures
        after(world, ActionView::StoreMemory { text, tags }, ReplyView::Stored(record)) == (World {
            graph: world.graph.with_memory(record),
            index: world.index,
        }),
        action is LinkMemories ==> after(world, action, ReplyView::Linked(link)) == (World {
            graph: world.graph.with_relation(link),
            index: world.index,
        }),
        after(world, ActionView::DeleteMemory { id }, ReplyView::Removed(removed)) == (World {
            graph: world.graph.without(id),
            index: world.index,
        }),
        !(action is StoreMemory || action is LinkMemories || action is DeleteMemory) ==> after(
            world,
            action,
            reply,
        ).graph == world.graph,
{
}

// ---- the index and the provider --------------------------------------------

/// The provider replies with what the text means, the index with what it finds
/// and with its models.
pub proof fn law_index_replies_are_true(
    world: World,
    meaning: Meaning,
    text: Seq<char>,
    embedding: EmbeddingView,
    vector: Seq<u32>,
    top_k: usize,
    found: Seq<HitView>,
    models: Seq<Seq<char>>,
    point: PointView,
    memory_id: Seq<char>,
)
    ensures
        truthful(world, meaning, ActionView::Embed { text }, ReplyView::Embedded(embedding))
            <==> embedding == (meaning.embed)(text),
        truthful(
            world,
            meaning,
            ActionView::SearchVectors { vector, top_k },
            ReplyView::Found(found),
        ) <==> searched(found, world.index, vector, meaning.similarity, top_k as int),
        truthful(world, meaning, ActionView::ListModels, ReplyView::Models(models))
            <==> are_models_of(models, world.index),
        truthful(world, meaning, ActionView::Upsert { point }, ReplyView::Finished),
        truthful(world, meaning, ActionView::DeleteVector { memory_id }, ReplyView::Finished),
        truthful(world, meaning, ActionView::DeleteAllVectors, ReplyView::Finished),
        truthful(world, meaning, ActionView::CloseVectors, ReplyView::Finished),
{
}

/// Writing a point, removing those of a memory and emptying change the index;
/// nothing else does, and none of them touches the graph.
pub proof fn law_actions_on_the_index(
    world: World,
    action: ActionView,
    point: PointView,
    memory_id: Seq<char>,
    reply: ReplyView,
)
    ensures
        after(world, ActionView::Upsert { point }, ReplyView::Finished) == (World {
            graph: world.graph,
            index: upserted(world.index, point),
        }),
        after(world, ActionView::DeleteVector { memory_id }, ReplyView::Finished) == (World {
            graph: world.graph,
            index: unindexed(world.index, memory_id),
        }),
        after(world, ActionView::DeleteAllVectors, ReplyView::Finished).graph == world.graph,
        after(world, ActionView::DeleteAllVectors, ReplyView::Finished).index.len() == 0,
        !(action is Upsert || action is DeleteVector || action is DeleteAllVectors) ==> after(
            world,
            action,
            reply,
        ).index == world.index,
{
}

/// What a search finds are points of the index with their similarities to the
/// vector, and the most similar ones if every similarity is a number.
pub proof fn law_found_points_have_similarities(
    found: Seq<HitView>,
    index: Seq<PointView>,
    vector: Seq<u32>,
    similarity: spec_fn(Seq<u32>, Seq<u32>) -> u32,
    top_k: int,
    scores: Seq<u32>,
)
    requires
        scores.len() == index.len(),
        forall|i: int|
            0 <= i < index.len() ==> #[trigger] scores[i] == similarity(vector, index[i].vector),
    ensures
        similarities(index, vector, similarity) == scores,
        searched(found, index, vector, similarity, top_k) <==> is_selection(
            found,
            index,
            scores,
            top_k,
        ) && (no_nan(scores) ==> is_search_result(found, index, scores, top_k)),
{
    assert(similarities(index, vector, similarity) =~= scores);
}

// ---- failures and runs -----------------------------------------------------

/// Any action may fail, and then nothing has changed; a reply that does not
/// belong to the action is never true.
pub proof fn law_failed_actions_change_nothing(
    world: World,
    meaning: Meaning,
    action: ActionView,
    error: Seq<char>,
    reply: ReplyView,
)
    ensures
        truthful(world, meaning, action, ReplyView::Failed(error)),
        after(world, action, ReplyView::Failed(error)) == world,
        !answers(action, reply) ==> !truthful(world, meaning, action, reply),
{
}

/// A run of an operation goes from reply to reply: each is true of the stores as
/// the replies before it left them.
pub proof fn law_runs_go_from_reply_to_reply(
    request: RequestView,
    replies: Seq<ReplyView>,
    reply: ReplyView,
    world: World,
    meaning: Meaning,
)
    ensures
        ran(request, Seq::empty(), world, meaning),
        world_after(request, Seq::empty(), world) == world,
        next_step(request, replies) matches StepView::Do(action) ==> {
            &&& ran(request, replies.push(reply), world, meaning) <==> ran(
                request,
                replies,
                world,
                meaning,
            ) && truthful(world_after(request, replies, world), meaning, action, reply)
            &&& world_after(request, replies.push(reply), world) == after(
                world_after(request, replies, world),
                action,
                reply,
            )
        },
        !(next_step(request, replies) is Do) ==> !ran(request, replies.push(reply), world, meaning),
{
    assert(replies.push(reply).drop_last() =~= replies);
    assert(replies.push(reply).last() == reply);
}

/// The point of a memory has its id, and the vector and the model of its
/// embedding.
pub proof fn law_points_are_made_of_embeddings(id: Seq<char>, embedding: EmbeddingView)
    ensures
        point_for(id, embedding).memory_id == id,
        point_for(id, embedding).vector == embedding.vector,
        point_for(id, embedding).model == embedding.model,
{
}

// ---- which store an action is for ------------------------------------------

/// Every action but embedding is for exactly one of the two stores.
pub proof fn law_actions_have_one_store(action: ActionView)
    ensures
        is_graph_action(action) <==> (action is StoreMemory || action is LinkMemories
            || action is GetMemory || action is DeleteMemory || action is ListAll
            || action is CloseGraph),
        is_index_action(action) <==> (action is Upsert || action is SearchVectors
            || action is DeleteVector || action is DeleteAllVectors || action is ListModels
            || action is CloseVectors),
{
}

/// Only a search needs similarities: one for each point, that of the vector and
/// the point's.
pub proof fn law_searches_need_similarities(
    scores: Seq<u32>,
    index: Seq<PointView>,
    action: ActionView,
    meaning: Meaning,
)
    ensures
        !(action is SearchVectors) ==> are_similarities(scores, index, action, meaning),
        action matches ActionView::SearchVectors { vector, top_k } ==> (are_similarities(
            scores,
            index,
            action,
            meaning,
        ) <==> scores.len() == index.len() && forall|i: int|
            0 <= i < index.len() ==> #[trigger] scores[i] == (meaning.similarity)(
                vector,
                index[i].vector,
            )),
{
    if let ActionView::SearchVectors { vector, top_k } = action {
        if scores.len() == index.len() && forall|i: int|
            0 <= i < index.len() ==> #[trigger] scores[i] == (meaning.similarity)(
                vector,
                index[i].vector,
            ) {
            assert(scores =~= similarities(index, vector, meaning.similarity));
        }
    }
}

/// The contents of a list of replies show each of them, in order.
pub proof fn law_replies_are_shown_in_order(list: Seq<Reply>)
    ensures
        replies_of(list).len() == list.len(),
        forall|i: int| 0 <= i < list.len() ==> #[trigger] replies_of(list)[i] == list[i]@,
{
}

} // verus!
