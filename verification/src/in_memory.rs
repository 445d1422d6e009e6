//! The service's actions on the stores that are kept in memory.
use crate::graph::{is_relation, InMemoryGraphStore};
use crate::service::{Action, ActionView, Reply, ReplyView};
use crate::service_laws::{after, similarities, truthful, Meaning, World};
use crate::vectors::{is_search_result, is_selection, no_nan, InMemoryVectorStore, PointView};
use vstd::prelude::*;

verus! {

/// Whether an action is one for the graph.
pub open spec fn is_graph_action(action: ActionView) -> bool {
    match action {
        ActionView::StoreMemory { .. } => true,
        ActionView::LinkMemories { .. } => true,
        ActionView::GetMemory { .. } => true,
        ActionView::DeleteMemory { .. } => true,
        ActionView::ListAll => true,
        ActionView::CloseGraph => true,
        _ => false,
    }
}

/// Whether an action is one for the index.
pub open spec fn is_index_action(action: ActionView) -> bool {
    !is_graph_action(action) && !(action is Embed)
}

/// Whether these are the similarities that a search of the index needs.
pub open spec fn are_similarities(
    scores: Seq<u32>,
    index: Seq<PointView>,
    action: ActionView,
    meaning: Meaning,
) -> bool {
    action matches ActionView::SearchVectors { vector, .. } ==> scores == similarities(
        index,
        vector,
        meaning.similarity,
    )
}

/// Performs an action on the graph. The reply is true of it, whatever the index
/// holds, and the graph is what the action makes of it. Only a link can fail.
pub fn perform_on_graph(graph: &mut InMemoryGraphStore, action: Action) -> (r: Reply)
    requires
        is_graph_action(action@),
    ensures
        forall|index: Seq<PointView>, meaning: Meaning| #[trigger]
            truthful(World { graph: old(graph)@, index }, meaning, action@, r@),
        forall|index: Seq<PointView>| #[trigger]
            after(World { graph: old(graph)@, index }, action@, r@) == (World {
                graph: final(graph)@,
                index,
            }),
        r@ matches ReplyView::Failed(e) ==> (action@ matches ActionView::LinkMemories {
            from_id,
            to_id,
            relation,
        } && if !is_relation(relation) {
            e == "invalid relation name: "@ + relation
        } else {
            &&& !(old(graph)@.has(from_id) && old(graph)@.has(to_id))
            &&& e == "cannot link: memory \""@ + from_id + "\" or \""@ + to_id
                + "\" not found"@
        }),
{
    match action {
        Action::StoreMemory { text, tags } => match graph.store_memory(text.as_str(), tags) {
            Ok(record) => Reply::Stored(record),
            Err(e) => Reply::Failed(e.message()),
        },
        Action::LinkMemories { from_id, to_id, relation } => {
            match graph.link_memories(from_id.as_str(), to_id.as_str(), relation.as_str()) {
                Ok(link) => Reply::Linked(link),
                Err(e) => Reply::Failed(e.message()),
            }
        },
        Action::GetMemory { id } => match graph.get_memory(id.as_str()) {
            Ok(found) => Reply::Fetched(found),
            Err(e) => Reply::Failed(e.message()),
        },
        Action::DeleteMemory { id } => match graph.delete_memory(id.as_str()) {
            Ok(deleted) => Reply::Removed(deleted),
            Err(e) => Reply::Failed(e.message()),
        },
        Action::ListAll => match graph.list_all() {
            Ok(list) => Reply::Listed(list),
            Err(e) => Reply::Failed(e.message()),
        },
        _ => Reply::Finished,
    }
}

/// Performs an action on the index; for a search `scores` holds the similarity
/// of each point, oldest point first. The reply is true of the index, whatever
/// the graph holds and whatever gave these similarities, and the index is what
/// the action makes of it.
pub fn perform_on_index(
    index: &mut InMemoryVectorStore,
    action: Action,
    scores: &Vec<u32>,
) -> (r: Reply)
    requires
        is_index_action(action@),
        action@ is SearchVectors ==> scores@.len() == old(index)@.len(),
    ensures
        forall|world: World, meaning: Meaning|
            world.index == old(index)@ && are_similarities(
                scores@,
                old(index)@,
                action@,
                meaning,
            ) ==> #[trigger] truthful(world, meaning, action@, r@),
        forall|world: World|
            world.index == old(index)@ ==> #[trigger] after(world, action@, r@) == (World {
                index: final(index)@,
                ..world
            }),
        !(r@ is Failed),
        action@ matches ActionView::SearchVectors { top_k, .. } ==> is_selection(
            r@->Found_0,
            old(index)@,
            scores@,
            top_k as int,
        ) && (no_nan(scores@) ==> is_search_result(
            r@->Found_0,
            old(index)@,
            scores@,
            top_k as int,
        )),
{
    match action {
        Action::Upsert { record } => {
            index.upsert(&record);
            Reply::Finished
        },
        Action::SearchVectors { vector, top_k } => {
            let found = index.search(scores, top_k);
            Reply::Found(found)
        },
        Action::DeleteVector { memory_id } => {
            index.delete(memory_id.as_str());
            Reply::Finished
        },
        Action::DeleteAllVectors => {
            index.delete_all();
            Reply::Finished
        },
        Action::ListModels => Reply::Models(index.models()),
        _ => Reply::Finished,
    }
}

} // verus!
