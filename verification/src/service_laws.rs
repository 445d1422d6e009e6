//! What holds of the service across its operations and its stores.
use crate::embeddings::EmbeddingView;
use crate::graph::{
    first_with_id, is_new_record, is_relation, lemma_filter_contains, lemma_first_with_id, lemma_has, lemma_without_has,
    GraphView, LinkView, NeighborhoodView, RecordView,
};
use crate::service::{
    answers, drifted, fatal, fetched_in, fits, found_in, hydrated, lemma_answered,
    lemma_delete_replies, lemma_reindex_length, lemma_reindex_replies, lemma_search_length,
    lemma_search_replies, lemma_store_replies, limit, next_step, point_for, possible, ActionView,
    ContextView, OutcomeView, ReplyView, RequestView, ResultView, StepView, CONTEXT_TOP_K,
    SEARCH_TOP_K,
};
use crate::vectors::{
    are_models_of, hit_of, is_search_result, is_selection, law_search_is_bounded, lemma_lists_all,
    lemma_position_of, lemma_upserted_one_each, lists_all, no_nan,
    one_point_each, place, position_of, unindexed, upserted,
    HitView, PointView,
};
use vstd::prelude::*;

verus! {

/// The contents of both stores.
pub struct World {
    pub graph: GraphView,
    pub index: Seq<PointView>,
}

/// The stores after an action. One that failed is taken to have done nothing.
pub open spec fn after(world: World, action: ActionView, reply: ReplyView) -> World {
    if reply is Failed {
        world
    } else {
        match action {
            ActionView::StoreMemory { .. } => World {
                graph: world.graph.with_memory(reply->Stored_0),
                ..world
            },
            ActionView::LinkMemories { .. } => World {
                graph: world.graph.with_relation(reply->Linked_0),
                ..world
            },
            ActionView::DeleteMemory { id } => World { graph: world.graph.without(id), ..world },
            ActionView::Upsert { point } => World {
                index: upserted(world.index, point),
                ..world
            },
            ActionView::DeleteVector { memory_id } => World {
                index: unindexed(world.index, memory_id),
                ..world
            },
            ActionView::DeleteAllVectors => World { index: Seq::empty(), ..world },
            _ => world,
        }
    }
}

/// What vectors mean: the embedding that the provider gives a text, and the
/// similarity of a query's vector and a point's, by its bit pattern.
pub struct Meaning {
    pub embed: spec_fn(Seq<char>) -> EmbeddingView,
    pub similarity: spec_fn(Seq<u32>, Seq<u32>) -> u32,
}

/// The similarity of each point to a vector.
pub open spec fn similarities(
    index: Seq<PointView>,
    vector: Seq<u32>,
    similarity: spec_fn(Seq<u32>, Seq<u32>) -> u32,
) -> Seq<u32> {
    index.map_values(|p: PointView| similarity(vector, p.vector))
}

/// Whether `found` is what the index finds for a vector: points of the index,
/// the most similar ones first if every similarity is a number.
pub open spec fn searched(
    found: Seq<HitView>,
    index: Seq<PointView>,
    vector: Seq<u32>,
    similarity: spec_fn(Seq<u32>, Seq<u32>) -> u32,
    top_k: int,
) -> bool {
    let scores = similarities(index, vector, similarity);
    &&& is_selection(found, index, scores, top_k)
    &&& no_nan(scores) ==> is_search_result(found, index, scores, top_k)
}

/// Whether a reply is true of the stores and of what vectors mean. An action may
/// fail.
pub open spec fn truthful(
    world: World,
    meaning: Meaning,
    action: ActionView,
    reply: ReplyView,
) -> bool {
    answers(action, reply) && (reply is Failed || match action {
        ActionView::StoreMemory { text, tags } => is_new_record(reply->Stored_0, text, tags),
        ActionView::LinkMemories { from_id, to_id, relation } => {
            &&& is_relation(relation)
            &&& world.graph.has(from_id) && world.graph.has(to_id)
            &&& reply->Linked_0 == (LinkView { from_id, to_id, relation })
        },
        ActionView::GetMemory { id } => reply->Fetched_0 == world.graph.get(id),
        ActionView::DeleteMemory { id } => reply->Removed_0 == world.graph.has(id),
        ActionView::ListAll => reply->Listed_0 == world.graph.memories,
        ActionView::Embed { text } => reply->Embedded_0 == (meaning.embed)(text),
        ActionView::SearchVectors { vector, top_k } => searched(
            reply->Found_0,
            world.index,
            vector,
            meaning.similarity,
            top_k as int,
        ),
        ActionView::ListModels => are_models_of(reply->Models_0, world.index),
        _ => true,
    })
}

/// The stores after an operation had these replies.
pub open spec fn world_after(
    request: RequestView,
    replies: Seq<ReplyView>,
    world: World,
) -> World
    decreases replies.len(),
{
    if replies.len() == 0 {
        world
    } else {
        let before = replies.drop_last();
        after(
            world_after(request, before, world),
            next_step(request, before)->Do_0,
            replies.last(),
        )
    }
}

/// Whether an operation can have had these replies on these stores.
pub open spec fn ran(
    request: RequestView,
    replies: Seq<ReplyView>,
    world: World,
    meaning: Meaning,
) -> bool
    decreases replies.len(),
{
    replies.len() == 0 || {
        let before = replies.drop_last();
        &&& ran(request, before, world, meaning)
        &&& next_step(request, before) is Do
        &&& truthful(
            world_after(request, before, world),
            meaning,
            next_step(request, before)->Do_0,
            replies.last(),
        )
    }
}

/// What a run says of each of its replies.
pub proof fn lemma_ran_at(
    request: RequestView,
    replies: Seq<ReplyView>,
    world: World,
    meaning: Meaning,
    i: int,
)
    requires
        ran(request, replies, world, meaning),
        0 <= i < replies.len(),
    ensures
        next_step(request, replies.take(i)) is Do,
        truthful(
            world_after(request, replies.take(i), world),
            meaning,
            next_step(request, replies.take(i))->Do_0,
            replies[i],
        ),
        world_after(request, replies.take(i + 1), world) == after(
            world_after(request, replies.take(i), world),
            next_step(request, replies.take(i))->Do_0,
            replies[i],
        ),
    decreases replies.len(),
{
    let before = replies.drop_last();
    if i == replies.len() - 1 {
        assert(replies.take(i) =~= before);
        assert(replies.take(i + 1) =~= replies);
    } else {
        lemma_ran_at(request, before, world, meaning, i);
        assert(before.take(i) =~= replies.take(i));
        assert(before.take(i + 1) =~= replies.take(i + 1));
    }
}

/// The replies of a run are possible.
pub proof fn lemma_ran_possible(
    request: RequestView,
    replies: Seq<ReplyView>,
    world: World,
    meaning: Meaning,
)
    requires
        ran(request, replies, world, meaning),
    ensures
        possible(request, replies),
{
    assert forall|i: int| 0 <= i < replies.len() implies #[trigger] fits(request, replies, i) by {
        lemma_ran_at(request, replies, world, meaning, i);
    }
}

/// Reading changes neither store: searching, collecting a context, getting a
/// memory, looking for drift and closing.
pub proof fn law_reading_changes_nothing(
    request: RequestView,
    replies: Seq<ReplyView>,
    world: World,
    meaning: Meaning,
)
    requires
        ran(request, replies, world, meaning),
        request is Get || request is Search || request is Context || request is Drift
            || request is Close,
    ensures
        world_after(request, replies, world) == world,
    decreases replies.len(),
{
    if replies.len() > 0 {
        law_reading_changes_nothing(request, replies.drop_last(), world, meaning);
    }
}

// ---- failures --------------------------------------------------------------

/// A store or provider that fails ends the operation with its own words, and
/// nothing more is done; only the cleaning of the index after a deletion may
/// fail without consequence.
pub proof fn law_failure_ends_the_operation(
    request: RequestView,
    replies: Seq<ReplyView>,
    error: Seq<char>,
)
    requires
        possible(request, replies.push(ReplyView::Failed(error))),
        !(request is Delete && replies.len() == 1),
    ensures
        next_step(request, replies.push(ReplyView::Failed(error))) == StepView::Done(
            OutcomeView::Failed(error),
        ),
{
    let all = replies.push(ReplyView::Failed(error));
    assert(all.last() == ReplyView::Failed(error));
}

/// A deletion whose cleaning of the index fails is a deletion all the same.
pub proof fn law_index_cannot_fail_a_deletion(id: Seq<char>, replies: Seq<ReplyView>)
    requires
        possible(RequestView::Delete { id }, replies),
        replies.len() == 2,
    ensures
        next_step(RequestView::Delete { id }, replies) == StepView::Done(
            OutcomeView::Deleted(true),
        ),
{
    lemma_delete_replies(id, replies);
}

// ---- storing and deleting --------------------------------------------------

/// Graph first, index second: storing writes the memory to the graph, embeds
/// its text, and then writes that vector to the index under the memory's id;
/// the index is not touched unless both came off.
pub proof fn law_store_writes_graph_first(
    text: Seq<char>,
    tags: Option<Seq<Seq<char>>>,
    replies: Seq<ReplyView>,
    i: int,
)
    requires
        possible(RequestView::Store { text, tags }, replies),
        0 <= i < replies.len(),
    ensures
        replies.len() <= 3,
        ({
            let action = next_step(RequestView::Store { text, tags }, replies.take(i))->Do_0;
            &&& i == 0 ==> action == ActionView::StoreMemory { text, tags }
            &&& i == 1 ==> replies[0] is Stored && action == ActionView::Embed { text }
            &&& i == 2 ==> replies[0] is Stored && replies[1] is Embedded && action
                == ActionView::Upsert {
                point: point_for(replies[0]->Stored_0.id, replies[1]->Embedded_0),
            }
        }),
{
    let request = RequestView::Store { text, tags };
    assert(fits(request, replies, i));
    if i >= 1 {
        lemma_answered(request, replies, 0);
        assert(replies.take(i)[0] == replies[0]);
    }
    if i >= 2 {
        lemma_answered(request, replies, 1);
        assert(replies.take(i)[1] == replies[1]);
    }
    if replies.len() >= 4 {
        assert(fits(request, replies, 3));
        lemma_answered(request, replies, 2);
    }
    assert(fits(request, replies, 0));
}

/// A memory that was stored has a new id and is in the graph, and its vector, made from its
/// text, is in the index; nothing else changed.
pub proof fn law_stored_in_both(
    text: Seq<char>,
    tags: Option<Seq<Seq<char>>>,
    replies: Seq<ReplyView>,
    world: World,
    meaning: Meaning,
    record: RecordView,
)
    requires
        ran(RequestView::Store { text, tags }, replies, world, meaning),
        next_step(RequestView::Store { text, tags }, replies) == StepView::Done(
            OutcomeView::Stored(record),
        ),
    ensures
        is_new_record(record, text, tags),
        world_after(RequestView::Store { text, tags }, replies, world) == (World {
            graph: world.graph.with_memory(record),
            index: upserted(world.index, point_for(record.id, (meaning.embed)(text))),
        }),
{
    let request = RequestView::Store { text, tags };
    lemma_ran_possible(request, replies, world, meaning);
    lemma_store_replies(text, tags, replies);
    lemma_ran_at(request, replies, world, meaning, 0);
    lemma_ran_at(request, replies, world, meaning, 1);
    lemma_ran_at(request, replies, world, meaning, 2);
    assert(replies.take(0) =~= Seq::<ReplyView>::empty());
    assert(replies.take(3) =~= replies);
    assert(replies.take(1)[0] == replies[0]);
    assert(replies.take(2)[0] == replies[0]);
    assert(replies.take(2)[1] == replies[1]);
}

/// A deletion removes the memory from the graph, and its vector from the index
/// if there was a memory, and tells whether there was.
pub proof fn law_deleted_from_both(
    id: Seq<char>,
    replies: Seq<ReplyView>,
    world: World,
    meaning: Meaning,
    deleted: bool,
)
    requires
        ran(RequestView::Delete { id }, replies, world, meaning),
        next_step(RequestView::Delete { id }, replies) == StepView::Done(
            OutcomeView::Deleted(deleted),
        ),
    ensures
        deleted == world.graph.has(id),
        world_after(RequestView::Delete { id }, replies, world).graph == world.graph.without(id),
        !deleted ==> world_after(RequestView::Delete { id }, replies, world).index == world.index,
        deleted && !(replies[1] is Failed) ==> world_after(
            RequestView::Delete { id },
            replies,
            world,
        ).index == unindexed(world.index, id),
{
    let request = RequestView::Delete { id };
    lemma_ran_possible(request, replies, world, meaning);
    lemma_delete_replies(id, replies);
    lemma_ran_at(request, replies, world, meaning, 0);
    assert(replies.take(0) =~= Seq::<ReplyView>::empty());
    assert(replies.take(1)[0] == replies[0]);
    if replies.len() == 2 {
        lemma_ran_at(request, replies, world, meaning, 1);
        assert(replies.take(2) =~= replies);
    } else {
        assert(replies.take(1) =~= replies);
    }
}

/// A link that was made is in the graph, under a relation name of word
/// characters and between two memories that exist; nothing else changed.
pub proof fn law_linked_in_the_graph(
    link: LinkView,
    replies: Seq<ReplyView>,
    world: World,
    meaning: Meaning,
    made: LinkView,
)
    requires
        ran(
            RequestView::Link {
                from_id: link.from_id,
                to_id: link.to_id,
                relation: link.relation,
            },
            replies,
            world,
            meaning,
        ),
        next_step(
            RequestView::Link {
                from_id: link.from_id,
                to_id: link.to_id,
                relation: link.relation,
            },
            replies,
        ) == StepView::Done(OutcomeView::Linked(made)),
    ensures
        made == link,
        is_relation(link.relation),
        world.graph.has(link.from_id),
        world.graph.has(link.to_id),
        world_after(
            RequestView::Link {
                from_id: link.from_id,
                to_id: link.to_id,
                relation: link.relation,
            },
            replies,
            world,
        ) == (World { graph: world.graph.with_relation(link), index: world.index }),
{
    let request = RequestView::Link {
        from_id: link.from_id,
        to_id: link.to_id,
        relation: link.relation,
    };
    lemma_ran_possible(request, replies, world, meaning);
    law_every_operation_ends(request, replies);
    lemma_answered(request, replies, 0);
    lemma_ran_at(request, replies, world, meaning, 0);
    assert(replies.take(0) =~= Seq::<ReplyView>::empty());
    assert(replies.take(1) =~= replies);
}

/// Getting a memory gives what the graph has for its id.
pub proof fn law_get_reads_the_graph(
    id: Seq<char>,
    replies: Seq<ReplyView>,
    world: World,
    meaning: Meaning,
    got: Option<NeighborhoodView>,
)
    requires
        ran(RequestView::Get { id }, replies, world, meaning),
        next_step(RequestView::Get { id }, replies) == StepView::Done(OutcomeView::Fetched(got)),
    ensures
        got == world.graph.get(id),
{
    let request = RequestView::Get { id };
    lemma_ran_possible(request, replies, world, meaning);
    law_every_operation_ends(request, replies);
    lemma_answered(request, replies, 0);
    lemma_ran_at(request, replies, world, meaning, 0);
    assert(replies.take(0) =~= Seq::<ReplyView>::empty());
}

/// Looking for drift lists the models in the index other than the current one,
/// each once.
pub proof fn law_drift_reads_the_index(
    current: Seq<char>,
    replies: Seq<ReplyView>,
    world: World,
    meaning: Meaning,
    drift: Seq<Seq<char>>,
)
    requires
        ran(RequestView::Drift { current }, replies, world, meaning),
        next_step(RequestView::Drift { current }, replies) == StepView::Done(
            OutcomeView::Drift(drift),
        ),
    ensures
        drift.no_duplicates(),
        forall|m: Seq<char>| #[trigger]
            drift.contains(m) <==> m != current && exists|i: int|
                0 <= i < world.index.len() && (#[trigger] world.index[i]).model == m,
{
    let request = RequestView::Drift { current };
    lemma_ran_possible(request, replies, world, meaning);
    law_every_operation_ends(request, replies);
    lemma_answered(request, replies, 0);
    lemma_ran_at(request, replies, world, meaning, 0);
    assert(replies.take(0) =~= Seq::<ReplyView>::empty());
    let models = replies[0]->Models_0;
    law_drift_lists_foreign_models(models, current);
    assert forall|m: Seq<char>| #[trigger]
        drift.contains(m) <==> m != current && exists|i: int|
            0 <= i < world.index.len() && (#[trigger] world.index[i]).model == m by {
        assert(models.contains(m) <==> exists|i: int|
            0 <= i < world.index.len() && (#[trigger] world.index[i]).model == m);
    }
}

// ---- searching -------------------------------------------------------------

/// What the graph has for each hit.
pub open spec fn known(graph: GraphView, found: Seq<HitView>) -> Seq<Option<NeighborhoodView>> {
    found.map_values(|h: HitView| graph.get(h.memory_id))
}

/// In a search on given stores, the replies after the search of the index say
/// what the graph has for each hit.
proof fn lemma_search_ran(
    request: RequestView,
    replies: Seq<ReplyView>,
    world: World,
    meaning: Meaning,
    text: Seq<char>,
    top_k: usize,
)
    requires
        ran(request, replies, world, meaning),
        fatal(request, replies) is None,
        replies.len() >= 2,
        replies.len() >= 2 + replies[1]->Found_0.len(),
        match request {
            RequestView::Search { query, top_k: k } => text == query && top_k == limit(
                k,
                SEARCH_TOP_K,
            ),
            RequestView::Context { message, top_k: k } => text == message && top_k == limit(
                k,
                CONTEXT_TOP_K,
            ),
            _ => false,
        },
    ensures
        searched(
            replies[1]->Found_0,
            world.index,
            (meaning.embed)(text).vector,
            meaning.similarity,
            top_k as int,
        ),
        found_in(replies) == hydrated(
            replies[1]->Found_0,
            known(world.graph, replies[1]->Found_0),
        ),
{
    lemma_ran_possible(request, replies, world, meaning);
    let found = replies[1]->Found_0;
    lemma_search_replies(request, replies, 0);
    lemma_search_replies(request, replies, 1);
    lemma_ran_at(request, replies, world, meaning, 0);
    assert(replies.take(0) =~= Seq::<ReplyView>::empty());
    lemma_ran_at(request, replies, world, meaning, 1);
    lemma_ran_take(request, replies, world, meaning, 1);
    law_reading_changes_nothing(request, replies.take(1), world, meaning);
    lemma_answered(request, replies, 1);
    assert(replies.take(1)[0] == replies[0]);
    let fetched = fetched_in(replies, 2, found.len() as int);
    assert forall|i: int| 0 <= i < found.len() implies fetched[i] == known(
        world.graph,
        found,
    )[i] by {
        let at = 2 + i;
        lemma_search_replies(request, replies, at);
        lemma_ran_at(request, replies, world, meaning, at);
        lemma_ran_take(request, replies, world, meaning, at);
        law_reading_changes_nothing(request, replies.take(at), world, meaning);
        lemma_answered(request, replies, at);
        assert(replies.take(at)[1] == replies[1]);
    }
    assert(fetched =~= known(world.graph, found));
}

/// The beginning of a run is a run.
proof fn lemma_ran_take(
    request: RequestView,
    replies: Seq<ReplyView>,
    world: World,
    meaning: Meaning,
    n: int,
)
    requires
        ran(request, replies, world, meaning),
        0 <= n <= replies.len(),
    ensures
        ran(request, replies.take(n), world, meaning),
    decreases replies.len(),
{
    if n < replies.len() {
        lemma_ran_take(request, replies.drop_last(), world, meaning, n);
        assert(replies.drop_last().take(n) =~= replies.take(n));
    } else {
        assert(replies.take(n) =~= replies);
    }
}

/// A search gives the memories that the graph has for what the index finds,
/// in the order of the index and with its scores; vectors whose memory is
/// missing in the graph are skipped.
pub proof fn law_search_hydrates_from_the_graph(
    query: Seq<char>,
    top_k: Option<usize>,
    replies: Seq<ReplyView>,
    world: World,
    meaning: Meaning,
    list: Seq<ResultView>,
)
    requires
        ran(RequestView::Search { query, top_k }, replies, world, meaning),
        next_step(RequestView::Search { query, top_k }, replies) == StepView::Done(
            OutcomeView::Results(list),
        ),
    ensures
        exists|found: Seq<HitView>|
            searched(
                found,
                world.index,
                (meaning.embed)(query).vector,
                meaning.similarity,
                limit(top_k, SEARCH_TOP_K) as int,
            ) && list == #[trigger] hydrated(found, known(world.graph, found)),
{
    let request = RequestView::Search { query, top_k };
    lemma_ran_possible(request, replies, world, meaning);
    lemma_search_ran(request, replies, world, meaning, query, limit(top_k, SEARCH_TOP_K));
}

/// Results come in the order of the hits: where no hit is better than the one
/// before it, no result is.
proof fn lemma_hydrated_in_order(graph: GraphView, found: Seq<HitView>)
    requires
        forall|i: int, j: int|
            #![trigger found[i], found[j]]
            0 <= i < j < found.len() ==> place(found[i].score) >= place(found[j].score),
    ensures
        ({
            let list = hydrated(found, known(graph, found));
            forall|i: int, j: int|
                #![trigger list[i], list[j]]
                0 <= i < j < list.len() ==> place(list[i].score) >= place(list[j].score)
        }),
    decreases found.len(),
{
    if found.len() > 0 {
        let rest = found.drop_last();
        assert(known(graph, found).drop_last() =~= known(graph, rest));
        assert forall|i: int, j: int|
            #![trigger rest[i], rest[j]]
            0 <= i < j < rest.len() implies place(rest[i].score) >= place(rest[j].score) by {
            assert(found[i] == rest[i] && found[j] == rest[j]);
        }
        lemma_hydrated_in_order(graph, rest);
        let before = hydrated(rest, known(graph, rest));
        let list = hydrated(found, known(graph, found));
        assert forall|i: int, j: int|
            #![trigger list[i], list[j]]
            0 <= i < j < list.len() implies place(list[i].score) >= place(list[j].score) by {
            assert(list[i] == before[i]);
            if j < before.len() {
                assert(list[j] == before[j]);
            } else {
                lemma_hydrated_known(graph, rest, i);
                let k = choose|k: int|
                    0 <= k < rest.len() && (#[trigger] rest[k]).memory_id == before[i].memory.id
                        && rest[k].score == before[i].score;
                assert(found[k] == rest[k]);
                assert(found[found.len() - 1] == found.last());
            }
        }
    }
}

/// Whether a result's score is the similarity of a point of its memory.
pub open spec fn scored_by(
    result: ResultView,
    index: Seq<PointView>,
    vector: Seq<u32>,
    similarity: spec_fn(Seq<u32>, Seq<u32>) -> u32,
) -> bool {
    exists|p: int|
        0 <= p < index.len() && (#[trigger] index[p]).memory_id == result.memory.id && result.score
            == similarity(vector, index[p].vector)
}

/// A search ranks by similarity to the query: the score of each result is the
/// similarity of the query's vector and its memory's, and no result is more
/// similar than the one before it, if every similarity is a number.
pub proof fn law_search_ranks_by_similarity(
    query: Seq<char>,
    top_k: Option<usize>,
    replies: Seq<ReplyView>,
    world: World,
    meaning: Meaning,
    list: Seq<ResultView>,
)
    requires
        ran(RequestView::Search { query, top_k }, replies, world, meaning),
        next_step(RequestView::Search { query, top_k }, replies) == StepView::Done(
            OutcomeView::Results(list),
        ),
    ensures
        forall|i: int|
            0 <= i < list.len() ==> scored_by(
                #[trigger] list[i],
                world.index,
                (meaning.embed)(query).vector,
                meaning.similarity,
            ),
        no_nan(similarities(world.index, (meaning.embed)(query).vector, meaning.similarity))
            ==> forall|i: int, j: int|
            #![trigger list[i], list[j]]
            0 <= i < j < list.len() ==> place(list[i].score) >= place(list[j].score),
{
    let vector = (meaning.embed)(query).vector;
    let index = world.index;
    let k = limit(top_k, SEARCH_TOP_K) as int;
    let scores = similarities(index, vector, meaning.similarity);
    law_search_hydrates_from_the_graph(query, top_k, replies, world, meaning, list);
    let found = choose|found: Seq<HitView>|
        searched(found, index, vector, meaning.similarity, k) && list == #[trigger] hydrated(
            found,
            known(world.graph, found),
        );
    let order = choose|order: Seq<int>| #[trigger]
        lists_all(order, index.len() as int) && {
            let k = if k < index.len() { k } else { index.len() as int };
            found == order.take(k).map_values(|i: int| hit_of(index, scores, i))
        };
    assert forall|i: int| 0 <= i < list.len() implies scored_by(
        #[trigger] list[i],
        index,
        vector,
        meaning.similarity,
    ) by {
        lemma_hydrated_known(world.graph, found, i);
        let j = choose|j: int|
            0 <= j < found.len() && (#[trigger] found[j]).memory_id == list[i].memory.id
                && found[j].score == list[i].score;
        let p = order[j];
        assert(found[j] == hit_of(index, scores, p));
        assert(index[p].memory_id == list[i].memory.id);
    }
    if no_nan(scores) {
        law_search_is_bounded(found, index, scores, k);
        lemma_hydrated_in_order(world.graph, found);
    }
}

/// A context is a search with, for each result, the neighborhood that the graph
/// has for it.
pub proof fn law_context_expands_a_search(
    message: Seq<char>,
    top_k: Option<usize>,
    replies: Seq<ReplyView>,
    world: World,
    meaning: Meaning,
    list: Seq<ContextView>,
)
    requires
        ran(RequestView::Context { message, top_k }, replies, world, meaning),
        next_step(RequestView::Context { message, top_k }, replies) == StepView::Done(
            OutcomeView::Context(list),
        ),
    ensures
        exists|found: Seq<HitView>|
            {
                let plain = #[trigger] hydrated(found, known(world.graph, found));
                &&& searched(
                    found,
                    world.index,
                    (meaning.embed)(message).vector,
                    meaning.similarity,
                    limit(top_k, CONTEXT_TOP_K) as int,
                )
                &&& list.len() == plain.len()
                &&& forall|i: int|
                    0 <= i < plain.len() ==> #[trigger] list[i] == (ContextView {
                        memory: plain[i].memory,
                        score: plain[i].score,
                        related: world.graph.get(plain[i].memory.id)->0.related,
                    })
            },
{
    let request = RequestView::Context { message, top_k };
    lemma_ran_possible(request, replies, world, meaning);
    lemma_search_length(request, replies);
    lemma_search_ran(request, replies, world, meaning, message, limit(top_k, CONTEXT_TOP_K));
    let found = replies[1]->Found_0;
    let plain = hydrated(found, known(world.graph, found));
    let from = 2 + found.len();
    assert forall|i: int| 0 <= i < plain.len() implies #[trigger] list[i] == (ContextView {
        memory: plain[i].memory,
        score: plain[i].score,
        related: world.graph.get(plain[i].memory.id)->0.related,
    }) by {
        let at = from + i;
        lemma_search_replies(request, replies, at as int);
        lemma_ran_at(request, replies, world, meaning, at as int);
        lemma_ran_take(request, replies, world, meaning, at as int);
        law_reading_changes_nothing(request, replies.take(at as int), world, meaning);
        lemma_answered(request, replies, at as int);
        let before = replies.take(at as int);
        assert(before[1] == replies[1]);
        assert(fetched_in(before, 2, found.len() as int) =~= fetched_in(
            replies,
            2,
            found.len() as int,
        ));
        lemma_hydrated_known(world.graph, found, i);
    }
}

/// Each result of a search is a memory of the graph, for one of the hits.
proof fn lemma_hydrated_known(graph: GraphView, found: Seq<HitView>, i: int)
    requires
        0 <= i < hydrated(found, known(graph, found)).len(),
    ensures
        ({
            let r = hydrated(found, known(graph, found))[i];
            &&& first_with_id(graph.memories, r.memory.id) == Some(r.memory)
            &&& graph.get(r.memory.id) is Some
            &&& exists|j: int|
                0 <= j < found.len() && (#[trigger] found[j]).memory_id == r.memory.id
                    && found[j].score == r.score
        }),
    decreases found.len(),
{
    let rest = found.drop_last();
    assert(known(graph, found).drop_last() =~= known(graph, rest));
    let before = hydrated(rest, known(graph, rest));
    lemma_first_with_id(graph.memories, found.last().memory_id);
    if i < before.len() {
        lemma_hydrated_known(graph, rest, i);
        let r = before[i];
        let j = choose|j: int|
            0 <= j < rest.len() && (#[trigger] rest[j]).memory_id == r.memory.id && rest[j].score
                == r.score;
        assert(found[j] == rest[j]);
    } else {
        assert(found[found.len() - 1] == found.last());
    }
}

/// Every result of a search is a memory of the graph: an orphaned vector never
/// shows.
pub proof fn law_results_are_memories(graph: GraphView, found: Seq<HitView>)
    ensures
        forall|i: int|
            0 <= i < hydrated(found, known(graph, found)).len() ==> {
                let r = #[trigger] hydrated(found, known(graph, found))[i];
                graph.memories.contains(r.memory) && graph.has(r.memory.id)
            },
        hydrated(found, known(graph, found)).len() <= found.len(),
{
    assert forall|i: int| 0 <= i < hydrated(found, known(graph, found)).len() implies {
        let r = #[trigger] hydrated(found, known(graph, found))[i];
        graph.memories.contains(r.memory) && graph.has(r.memory.id)
    } by {
        let r = hydrated(found, known(graph, found))[i];
        lemma_hydrated_known(graph, found, i);
        lemma_first_with_id(graph.memories, r.memory.id);
        lemma_has(graph, r.memory.id);
    }
    lemma_hydrated_length(found, known(graph, found));
}

proof fn lemma_hydrated_length(found: Seq<HitView>, fetched: Seq<Option<NeighborhoodView>>)
    ensures
        hydrated(found, fetched).len() <= found.len(),
    decreases found.len(),
{
    if found.len() > 0 {
        lemma_hydrated_length(found.drop_last(), fetched.drop_last());
    }
}

/// Every hit whose memory the graph has becomes a result with the hit's score.
pub proof fn law_known_hits_become_results(graph: GraphView, found: Seq<HitView>, j: int)
    requires
        0 <= j < found.len(),
        graph.has(found[j].memory_id),
    ensures
        hydrated(found, known(graph, found)).contains(
            ResultView {
                memory: first_with_id(graph.memories, found[j].memory_id)->0,
                score: found[j].score,
            },
        ),
    decreases found.len(),
{
    lemma_has(graph, found[j].memory_id);
    let rest = found.drop_last();
    assert(known(graph, found).drop_last() =~= known(graph, rest));
    let before = hydrated(rest, known(graph, rest));
    let all = hydrated(found, known(graph, found));
    let wanted = ResultView {
        memory: first_with_id(graph.memories, found[j].memory_id)->0,
        score: found[j].score,
    };
    if j < rest.len() {
        assert(rest[j] == found[j]);
        law_known_hits_become_results(graph, rest, j);
        let k = choose|k: int| 0 <= k < before.len() && before[k] == wanted;
        assert(all[k] == wanted);
    } else {
        assert(known(graph, found).last() == graph.get(found.last().memory_id));
        assert(all[all.len() - 1] == wanted);
    }
}

// ---- both stores together --------------------------------------------------

/// Whether a memory has a point in the index.
pub open spec fn indexed(index: Seq<PointView>, id: Seq<char>) -> bool {
    exists|i: int| 0 <= i < index.len() && (#[trigger] index[i]).memory_id == id
}

/// Whether the index holds a point for each memory of the graph, and no others.
pub open spec fn in_step(world: World) -> bool {
    &&& one_point_each(world.index)
    &&& forall|id: Seq<char>| #[trigger] world.graph.has(id) <==> indexed(world.index, id)
}

proof fn lemma_upserted_indexed(index: Seq<PointView>, point: PointView, id: Seq<char>)
    ensures
        indexed(upserted(index, point), id) <==> indexed(index, id) || id == point.memory_id,
{
    let at = position_of(index, point.memory_id);
    let new = upserted(index, point);
    lemma_position_of(index, point.memory_id);
    assert(new[at] == point);
    if indexed(index, id) {
        let k = choose|k: int| 0 <= k < index.len() && (#[trigger] index[k]).memory_id == id;
        assert(new[k].memory_id == id);
    }
    if indexed(new, id) {
        let k = choose|k: int| 0 <= k < new.len() && (#[trigger] new[k]).memory_id == id;
        if k != at {
            assert(index[k].memory_id == id);
        }
    }
}

/// Storing keeps graph and index in step.
pub proof fn law_storing_keeps_in_step(world: World, record: RecordView, point: PointView)
    requires
        in_step(world),
        point.memory_id == record.id,
    ensures
        in_step(
            World {
                graph: world.graph.with_memory(record),
                index: upserted(world.index, point),
            },
        ),
{
    let new = World {
        graph: world.graph.with_memory(record),
        index: upserted(world.index, point),
    };
    lemma_upserted_one_each(world.index, point);
    assert forall|id: Seq<char>| #[trigger] new.graph.has(id) <==> indexed(new.index, id) by {
        lemma_upserted_indexed(world.index, point, id);
        if world.graph.has(id) {
            let k = choose|k: int|
                0 <= k < world.graph.memories.len() && (#[trigger] world.graph.memories[k]).id
                    == id;
            assert(new.graph.memories[k].id == id);
        }
        if id == record.id {
            assert(new.graph.memories[world.graph.memories.len() as int] == record);
        }
        if new.graph.has(id) && id != record.id {
            let k = choose|k: int|
                0 <= k < new.graph.memories.len() && (#[trigger] new.graph.memories[k]).id == id;
            assert(world.graph.memories[k].id == id);
        }
        assert(world.graph.has(id) <==> indexed(world.index, id));
    }
}

/// Deleting keeps graph and index in step.
pub proof fn law_deleting_keeps_in_step(world: World, id: Seq<char>)
    requires
        in_step(world),
    ensures
        in_step(
            World { graph: world.graph.without(id), index: unindexed(world.index, id) },
        ),
{
    let new = World { graph: world.graph.without(id), index: unindexed(world.index, id) };
    crate::vectors::lemma_unindexed_one_each(world.index, id);
    assert forall|other: Seq<char>| #[trigger] new.graph.has(other) <==> indexed(
        new.index,
        other,
    ) by {
        lemma_without_has(world.graph, id, other);
        let keep = |p: PointView| p.memory_id != id;
        if indexed(world.index, other) && other != id {
            let k = choose|k: int|
                0 <= k < world.index.len() && (#[trigger] world.index[k]).memory_id == other;
            lemma_filter_contains(world.index, keep, world.index[k]);
            assert(world.index.contains(world.index[k]));
            let j = choose|j: int| 0 <= j < new.index.len() && new.index[j] == world.index[k];
            assert(new.index[j].memory_id == other);
        }
        if indexed(new.index, other) {
            let k = choose|k: int|
                0 <= k < new.index.len() && (#[trigger] new.index[k]).memory_id == other;
            lemma_filter_contains(world.index, keep, new.index[k]);
            assert(new.index.contains(new.index[k]));
            let j = choose|j: int| 0 <= j < world.index.len() && world.index[j] == new.index[k];
            assert(world.index[j].memory_id == other);
        }
        assert(world.graph.has(other) <==> indexed(world.index, other));
    }
}

/// While graph and index are in step, a search that asks for as many results as
/// there are memories finds every one of them.
pub proof fn law_wide_search_finds_every_memory(
    world: World,
    found: Seq<HitView>,
    vector: Seq<u32>,
    similarity: spec_fn(Seq<u32>, Seq<u32>) -> u32,
    top_k: int,
    id: Seq<char>,
)
    requires
        in_step(world),
        searched(found, world.index, vector, similarity, top_k),
        top_k >= world.index.len(),
        world.graph.has(id),
    ensures
        exists|i: int|
            0 <= i < hydrated(found, known(world.graph, found)).len() && (#[trigger] hydrated(
                found,
                known(world.graph, found),
            )[i]).memory == first_with_id(world.graph.memories, id)->0,
{
    let index = world.index;
    assert(indexed(index, id));
    let p = choose|p: int| 0 <= p < index.len() && (#[trigger] index[p]).memory_id == id;
    let scores = similarities(index, vector, similarity);
    let order = choose|order: Seq<int>| #[trigger]
        lists_all(order, index.len() as int) && {
            let k = if top_k < index.len() { top_k } else { index.len() as int };
            found == order.take(k).map_values(|i: int| hit_of(index, scores, i))
        };
    lemma_lists_all(order, index.len() as int, p);
    let j = choose|j: int| 0 <= j < index.len() && #[trigger] order[j] == p;
    assert(found[j] == hit_of(index, scores, p));
    law_known_hits_become_results(world.graph, found, j);
    let all = hydrated(found, known(world.graph, found));
    let wanted = ResultView {
        memory: first_with_id(world.graph.memories, found[j].memory_id)->0,
        score: found[j].score,
    };
    let i = choose|i: int| 0 <= i < all.len() && all[i] == wanted;
    assert(all[i].memory == wanted.memory);
}

// ---- reindexing ------------------------------------------------------------

/// An index made from nothing but the memories, in order.
pub open spec fn rebuilt(
    memories: Seq<RecordView>,
    embed: spec_fn(Seq<char>) -> EmbeddingView,
) -> Seq<PointView>
    decreases memories.len(),
{
    if memories.len() == 0 {
        Seq::empty()
    } else {
        upserted(
            rebuilt(memories.drop_last(), embed),
            point_for(memories.last().id, embed(memories.last().text)),
        )
    }
}

proof fn lemma_reindex_ran(
    replies: Seq<ReplyView>,
    world: World,
    meaning: Meaning,
    n: int,
)
    requires
        ran(RequestView::Reindex, replies, world, meaning),
        fatal(RequestView::Reindex, replies) is None,
        replies.len() >= 2,
        0 <= n,
        2 + 2 * n <= replies.len(),
    ensures
        replies[0]->Listed_0 == world.graph.memories,
        n <= world.graph.memories.len(),
        world_after(RequestView::Reindex, replies.take(2 + 2 * n), world) == (World {
            graph: world.graph,
            index: rebuilt(world.graph.memories.take(n), meaning.embed),
        }),
    decreases n,
{
    let request = RequestView::Reindex;
    lemma_ran_possible(request, replies, world, meaning);
    lemma_reindex_length(replies);
    lemma_reindex_replies(replies, 0);
    lemma_ran_at(request, replies, world, meaning, 0);
    assert(replies.take(0) =~= Seq::<ReplyView>::empty());
    let memories = world.graph.memories;
    if n == 0 {
        lemma_reindex_replies(replies, 1);
        lemma_ran_at(request, replies, world, meaning, 1);
        lemma_answered(request, replies, 1);
        assert(memories.take(0) =~= Seq::<RecordView>::empty());
    } else {
        lemma_reindex_ran(replies, world, meaning, n - 1);
        let i = n - 1;
        let e = 2 + 2 * i;
        lemma_reindex_replies(replies, e);
        lemma_reindex_replies(replies, e + 1);
        lemma_ran_at(request, replies, world, meaning, e);
        lemma_ran_at(request, replies, world, meaning, e + 1);
        lemma_answered(request, replies, e);
        lemma_answered(request, replies, e + 1);
        assert(replies.take(e)[0] == replies[0]);
        assert(replies.take(e + 1)[0] == replies[0]);
        assert(replies.take(e + 1).last() == replies[e]);
        assert((e - 2) / 2 == i);
        assert((e + 1 - 2) / 2 == i);
        assert(memories.take(n).drop_last() =~= memories.take(i));
        assert(memories.take(n).last() == memories[i]);
    }
}

/// Reindexing leaves the graph as it is and makes the index anew from it, with
/// the vectors that the provider gives now: whatever the index held before
/// leaves no trace. Every point is that of a memory, and where no two memories
/// share an id the index holds the point of each memory, in order. It tells how
/// many memories there are.
pub proof fn law_reindex_heals_drift(
    replies: Seq<ReplyView>,
    world: World,
    meaning: Meaning,
    n: nat,
)
    requires
        ran(RequestView::Reindex, replies, world, meaning),
        next_step(RequestView::Reindex, replies) == StepView::Done(OutcomeView::Reindexed(n)),
    ensures
        n == world.graph.memories.len(),
        world_after(RequestView::Reindex, replies, world) == (World {
            graph: world.graph,
            index: rebuilt(world.graph.memories, meaning.embed),
        }),
        in_step(world_after(RequestView::Reindex, replies, world)),
        are_made_from(
            world_after(RequestView::Reindex, replies, world).index,
            world.graph.memories,
            meaning.embed,
        ),
        distinct_ids(world.graph.memories) ==> world_after(
            RequestView::Reindex,
            replies,
            world,
        ).index == world.graph.memories.map_values(
            |m: RecordView| point_for(m.id, (meaning.embed)(m.text)),
        ),
{
    let request = RequestView::Reindex;
    lemma_ran_possible(request, replies, world, meaning);
    lemma_reindex_length(replies);
    lemma_reindex_replies(replies, 0);
    let memories = world.graph.memories;
    lemma_reindex_ran(replies, world, meaning, 0);
    let m = memories.len() as int;
    assert(replies.len() == 2 + 2 * m);
    lemma_reindex_ran(replies, world, meaning, m);
    assert(replies.take(2 + 2 * m) =~= replies);
    assert(memories.take(m) =~= memories);
    lemma_rebuilt(memories, meaning.embed);
    if distinct_ids(memories) {
        lemma_rebuilt_distinct(memories, meaning.embed);
    }
    let index = rebuilt(memories, meaning.embed);
    assert forall|id: Seq<char>| #[trigger] world.graph.has(id) <==> indexed(index, id) by {
        if world.graph.has(id) {
            let k = choose|k: int| 0 <= k < memories.len() && (#[trigger] memories[k]).id == id;
            assert(indexed(index, memories[k].id));
        }
        if indexed(index, id) {
            let k = choose|k: int| 0 <= k < index.len() && (#[trigger] index[k]).memory_id == id;
            let j = choose|j: int| 0 <= j < memories.len() && made_from(index[k], #[trigger] memories[j], meaning.embed);
            assert(memories[j].id == id);
        }
    }
}

/// Whether a point is that of a memory, with the vector of its text.
pub open spec fn made_from(
    point: PointView,
    memory: RecordView,
    embed: spec_fn(Seq<char>) -> EmbeddingView,
) -> bool {
    point == point_for(memory.id, embed(memory.text))
}

/// Whether every point is that of one of the memories.
pub open spec fn are_made_from(
    index: Seq<PointView>,
    memories: Seq<RecordView>,
    embed: spec_fn(Seq<char>) -> EmbeddingView,
) -> bool {
    forall|i: int|
        0 <= i < index.len() ==> exists|j: int|
            0 <= j < memories.len() && made_from(#[trigger] index[i], #[trigger] memories[j], embed)
}

/// Whether no two memories share an id.
pub open spec fn distinct_ids(memories: Seq<RecordView>) -> bool {
    forall|i: int, j: int|
        #![trigger memories[i], memories[j]]
        0 <= i < j < memories.len() ==> memories[i].id != memories[j].id
}

/// An index made from memories with ids of their own holds their points in order.
proof fn lemma_rebuilt_distinct(
    memories: Seq<RecordView>,
    embed: spec_fn(Seq<char>) -> EmbeddingView,
)
    requires
        distinct_ids(memories),
    ensures
        rebuilt(memories, embed) == memories.map_values(
            |m: RecordView| point_for(m.id, embed(m.text)),
        ),
    decreases memories.len(),
{
    let points = memories.map_values(|m: RecordView| point_for(m.id, embed(m.text)));
    if memories.len() == 0 {
        assert(points =~= Seq::<PointView>::empty());
    } else {
        let rest = memories.drop_last();
        let last = memories.last();
        assert forall|i: int, j: int|
            #![trigger rest[i], rest[j]]
            0 <= i < j < rest.len() implies rest[i].id != rest[j].id by {
            assert(memories[i].id != memories[j].id);
        }
        lemma_rebuilt_distinct(rest, embed);
        let before = rebuilt(rest, embed);
        lemma_position_of(before, last.id);
        let at = position_of(before, last.id);
        if at < before.len() {
            assert(before[at].memory_id == rest[at].id);
            assert(memories[at].id != memories[memories.len() - 1].id);
        }
        assert(rebuilt(memories, embed) =~= points);
    }
}

/// An index made from memories holds one point for each id among them, made
/// from a memory with that id.
pub proof fn lemma_rebuilt(memories: Seq<RecordView>, embed: spec_fn(Seq<char>) -> EmbeddingView)
    ensures
        one_point_each(rebuilt(memories, embed)),
        forall|j: int|
            0 <= j < memories.len() ==> indexed(
                rebuilt(memories, embed),
                (#[trigger] memories[j]).id,
            ),
        are_made_from(rebuilt(memories, embed), memories, embed),
    decreases memories.len(),
{
    if memories.len() > 0 {
        let rest = memories.drop_last();
        let last = memories.last();
        let before = rebuilt(rest, embed);
        let point = point_for(last.id, embed(last.text));
        let all = rebuilt(memories, embed);
        lemma_rebuilt(rest, embed);
        lemma_upserted_one_each(before, point);
        lemma_position_of(before, last.id);
        let at = position_of(before, last.id);
        assert forall|j: int| 0 <= j < memories.len() implies indexed(
            all,
            (#[trigger] memories[j]).id,
        ) by {
            lemma_upserted_indexed(before, point, memories[j].id);
            if j < rest.len() {
                assert(rest[j] == memories[j]);
            }
        }
        assert forall|i: int| 0 <= i < all.len() implies exists|j: int|
            0 <= j < memories.len() && made_from(
                #[trigger] all[i],
                #[trigger] memories[j],
                embed,
            ) by {
            if i == at {
                assert(made_from(all[i], memories[memories.len() - 1], embed));
            } else {
                assert(all[i] == before[i]);
                let j = choose|j: int|
                    0 <= j < rest.len() && made_from(before[i], #[trigger] rest[j], embed);
                assert(memories[j] == rest[j]);
                assert(made_from(all[i], memories[j], embed));
            }
        }
    }
}

/// After reindexing with a provider that has one model there is no drift.
pub proof fn law_no_drift_after_reindex(
    memories: Seq<RecordView>,
    embed: spec_fn(Seq<char>) -> EmbeddingView,
    model: Seq<char>,
    models: Seq<Seq<char>>,
)
    requires
        forall|text: Seq<char>| (#[trigger] embed(text)).model == model,
        are_models_of(models, rebuilt(memories, embed)),
    ensures
        drifted(models, model) == Seq::<Seq<char>>::empty(),
{
    lemma_rebuilt(memories, embed);
    let index = rebuilt(memories, embed);
    assert forall|k: int| 0 <= k < models.len() implies #[trigger] models[k] == model by {
        assert(models.contains(models[k]));
        let i = choose|i: int| 0 <= i < index.len() && (#[trigger] index[i]).model == models[k];
        let j = choose|j: int|
            0 <= j < memories.len() && made_from(index[i], #[trigger] memories[j], embed);
        assert(embed(memories[j].text).model == model);
    }
    lemma_nothing_drifted(models, model);
}

proof fn lemma_nothing_drifted(models: Seq<Seq<char>>, current: Seq<char>)
    requires
        forall|k: int| 0 <= k < models.len() ==> #[trigger] models[k] == current,
    ensures
        drifted(models, current) == Seq::<Seq<char>>::empty(),
    decreases models.len(),
{
    if models.len() > 0 {
        assert(models[models.len() - 1] == current);
        lemma_nothing_drifted(models.drop_last(), current);
    }
}

/// Drift is what the index holds of other models: each of them once, and never
/// the current one.
pub proof fn law_drift_lists_foreign_models(models: Seq<Seq<char>>, current: Seq<char>)
    ensures
        forall|m: Seq<char>| #[trigger]
            drifted(models, current).contains(m) <==> models.contains(m) && m != current,
        drifted(models, current).no_duplicates(),
    decreases models.len(),
{
    if models.len() > 0 {
        let rest = models.drop_last();
        let last = models.last();
        let before = drifted(rest, current);
        let all = drifted(models, current);
        law_drift_lists_foreign_models(rest, current);
        assert forall|m: Seq<char>| #[trigger] all.contains(m) <==> models.contains(m) && m
            != current by {
            if all.contains(m) {
                let k = choose|k: int| 0 <= k < all.len() && all[k] == m;
                if k < before.len() {
                    assert(before[k] == m);
                    assert(before.contains(m));
                    let j = choose|j: int| 0 <= j < rest.len() && rest[j] == m;
                    assert(models[j] == m);
                } else {
                    assert(models[models.len() - 1] == m);
                }
            }
            if models.contains(m) && m != current {
                let k = choose|k: int| 0 <= k < models.len() && models[k] == m;
                if k < rest.len() {
                    assert(rest[k] == m);
                    assert(before.contains(m));
                }
                if before.contains(m) {
                    let j = choose|j: int| 0 <= j < before.len() && before[j] == m;
                    assert(all[j] == m);
                } else {
                    assert(all[all.len() - 1] == m);
                }
            }
        }
    }
}

// ---- operations one after the other ----------------------------------------

/// Every operation that succeeds leaves graph and index in step, if they were;
/// a deletion does so if the index could be cleaned.
pub proof fn law_operations_keep_in_step(
    request: RequestView,
    replies: Seq<ReplyView>,
    world: World,
    meaning: Meaning,
)
    requires
        in_step(world),
        ran(request, replies, world, meaning),
        next_step(request, replies) is Done,
        !(next_step(request, replies)->Done_0 is Failed),
        request is Delete && replies.len() == 2 ==> !(replies[1] is Failed),
    ensures
        in_step(world_after(request, replies, world)),
{
    lemma_ran_possible(request, replies, world, meaning);
    let new = world_after(request, replies, world);
    match request {
        RequestView::Store { text, tags } => {
            lemma_store_replies(text, tags, replies);
            let record = replies[0]->Stored_0;
            law_stored_in_both(text, tags, replies, world, meaning, record);
            law_storing_keeps_in_step(world, record, point_for(record.id, (meaning.embed)(text)));
        },
        RequestView::Link { from_id, to_id, relation } => {
            law_every_operation_ends(request, replies);
            lemma_answered(request, replies, 0);
            lemma_ran_at(request, replies, world, meaning, 0);
            assert(replies.take(0) =~= Seq::<ReplyView>::empty());
            assert(replies.take(1) =~= replies);
            assert forall|id: Seq<char>| #[trigger] new.graph.has(id) <==> indexed(new.index, id) by {
                assert(new.graph.memories == world.graph.memories);
                assert(world.graph.has(id) <==> indexed(world.index, id));
                assert(new.graph.has(id) <==> world.graph.has(id));
            }
        },
        RequestView::Delete { id } => {
            lemma_delete_replies(id, replies);
            let deleted = replies[0]->Removed_0;
            law_deleted_from_both(id, replies, world, meaning, deleted);
            law_deleting_keeps_in_step(world, id);
            if !deleted {
                assert forall|other: Seq<char>| #[trigger] new.graph.has(other) <==> indexed(
                    new.index,
                    other,
                ) by {
                    lemma_without_has(world.graph, id, other);
                    assert(world.graph.has(other) <==> indexed(world.index, other));
                }
            }
        },
        RequestView::Reindex => {
            law_reindex_heals_drift(
                replies,
                world,
                meaning,
                next_step(request, replies)->Done_0->Reindexed_0,
            );
        },
        _ => {
            law_reading_changes_nothing(request, replies, world, meaning);
        },
    }
}

/// A memory that was just stored is found by a search that asks for as many
/// results as there are memories, if its id was new.
pub proof fn law_stored_memory_can_be_found(
    text: Seq<char>,
    tags: Option<Seq<Seq<char>>>,
    stored: Seq<ReplyView>,
    world: World,
    meaning: Meaning,
    record: RecordView,
    query: Seq<char>,
    top_k: Option<usize>,
    searching: Seq<ReplyView>,
    list: Seq<ResultView>,
)
    requires
        in_step(world),
        ran(RequestView::Store { text, tags }, stored, world, meaning),
        next_step(RequestView::Store { text, tags }, stored) == StepView::Done(
            OutcomeView::Stored(record),
        ),
        !world.graph.has(record.id),
        ({
            let later = world_after(RequestView::Store { text, tags }, stored, world);
            &&& ran(RequestView::Search { query, top_k }, searching, later, meaning)
            &&& next_step(RequestView::Search { query, top_k }, searching) == StepView::Done(
                OutcomeView::Results(list),
            )
            &&& limit(top_k, SEARCH_TOP_K) >= later.index.len()
        }),
    ensures
        exists|i: int| 0 <= i < list.len() && (#[trigger] list[i]).memory == record,
{
    let request = RequestView::Store { text, tags };
    let later = world_after(request, stored, world);
    law_stored_in_both(text, tags, stored, world, meaning, record);
    law_operations_keep_in_step(request, stored, world, meaning);
    law_search_hydrates_from_the_graph(query, top_k, searching, later, meaning, list);
    let k = limit(top_k, SEARCH_TOP_K) as int;
    let found = choose|found: Seq<HitView>|
        searched(
            found,
            later.index,
            (meaning.embed)(query).vector,
            meaning.similarity,
            k,
        ) && list == #[trigger] hydrated(
            found,
            known(later.graph, found),
        );
    let n = world.graph.memories.len() as int;
    assert(later.graph.memories[n] == record);
    assert(later.graph.has(record.id));
    law_wide_search_finds_every_memory(
        later,
        found,
        (meaning.embed)(query).vector,
        meaning.similarity,
        k,
        record.id,
    );
    lemma_first_with_id(later.graph.memories, record.id);
    let first = first_with_id(later.graph.memories, record.id);
    lemma_has(later.graph, record.id);
    let j = choose|j: int| 0 <= j < n + 1 && later.graph.memories[j] == first->0;
    if j < n {
        assert(world.graph.memories[j].id == record.id);
    }
    assert(first == Some(record));
}

/// A memory that was deleted is found by no search, even if its vector could
/// not be removed from the index.
pub proof fn law_deleted_memory_is_never_found(
    id: Seq<char>,
    deleting: Seq<ReplyView>,
    world: World,
    meaning: Meaning,
    deleted: bool,
    query: Seq<char>,
    top_k: Option<usize>,
    searching: Seq<ReplyView>,
    list: Seq<ResultView>,
)
    requires
        ran(RequestView::Delete { id }, deleting, world, meaning),
        next_step(RequestView::Delete { id }, deleting) == StepView::Done(
            OutcomeView::Deleted(deleted),
        ),
        ran(
            RequestView::Search { query, top_k },
            searching,
            world_after(RequestView::Delete { id }, deleting, world),
            meaning,
        ),
        next_step(RequestView::Search { query, top_k }, searching) == StepView::Done(
            OutcomeView::Results(list),
        ),
    ensures
        forall|i: int| 0 <= i < list.len() ==> (#[trigger] list[i]).memory.id != id,
{
    let later = world_after(RequestView::Delete { id }, deleting, world);
    law_deleted_from_both(id, deleting, world, meaning, deleted);
    law_search_hydrates_from_the_graph(query, top_k, searching, later, meaning, list);
    let found = choose|found: Seq<HitView>|
        searched(
            found,
            later.index,
            (meaning.embed)(query).vector,
            meaning.similarity,
            limit(top_k, SEARCH_TOP_K) as int,
        ) && list == #[trigger] hydrated(found, known(later.graph, found));
    law_results_are_memories(later.graph, found);
    lemma_without_has(world.graph, id, id);
}

// ---- every operation ends --------------------------------------------------

/// How many replies an operation can have: a fixed number, or two for the
/// embedding and the search and one or two for each memory that was found or
/// listed.
pub proof fn law_every_operation_ends(request: RequestView, replies: Seq<ReplyView>)
    requires
        possible(request, replies),
    ensures
        match request {
            RequestView::Store { .. } => replies.len() <= 3,
            RequestView::Link { .. } => replies.len() <= 1,
            RequestView::Get { .. } => replies.len() <= 1,
            RequestView::Delete { .. } => replies.len() <= 2,
            RequestView::Search { .. } => replies.len() <= 2 || replies.len() <= 2
                + replies[1]->Found_0.len(),
            RequestView::Context { .. } => replies.len() <= 2 || replies.len() <= 2 + 2
                * replies[1]->Found_0.len(),
            RequestView::Reindex => replies.len() <= 2 || replies.len() <= 2 + 2
                * replies[0]->Listed_0.len(),
            RequestView::Drift { .. } => replies.len() <= 1,
            RequestView::Close => replies.len() <= 2,
        },
{
    match request {
        RequestView::Store { text, tags } => {
            if replies.len() >= 1 {
                law_store_writes_graph_first(text, tags, replies, 0);
            }
        },
        RequestView::Link { .. } => {
            if replies.len() >= 2 {
                assert(fits(request, replies, 1));
            }
        },
        RequestView::Get { .. } => {
            if replies.len() >= 2 {
                assert(fits(request, replies, 1));
            }
        },
        RequestView::Delete { .. } => {
            if replies.len() >= 3 {
                assert(fits(request, replies, 2));
            }
        },
        RequestView::Search { .. } => {
            if replies.len() >= 2 {
                lemma_search_length(request, replies);
            }
        },
        RequestView::Context { .. } => {
            if replies.len() >= 2 {
                lemma_search_length(request, replies);
                let found = replies[1]->Found_0;
                lemma_hydrated_length(found, fetched_in(replies, 2, found.len() as int));
            }
        },
        RequestView::Reindex => {
            if replies.len() >= 2 {
                lemma_reindex_length(replies);
            }
        },
        RequestView::Drift { .. } => {
            if replies.len() >= 2 {
                assert(fits(request, replies, 1));
            }
        },
        RequestView::Close => {
            if replies.len() >= 3 {
                assert(fits(request, replies, 2));
            }
        },
    }
}

} // verus!
