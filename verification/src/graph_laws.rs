//! What holds of a graph of memories across its operations.
use crate::graph::{
    first_with_id, is_new_id, is_new_record, is_random_uuid, is_relation, is_utc_millis, is_uuid,
    is_word_char, lemma_filter_contains, lemma_filter_push, lemma_first_with_id, lemma_has,
    lemma_without_has, links, optional_neighborhood, records, related_by, related_to, relateds,
    GraphError, GraphView, LinkResult, LinkView, MemoryRecord, MemoryWithRelated, NeighborhoodView,
    RecordView, RelatedMemory, RelatedView, ID_PREFIX,
};
use vstd::prelude::*;
use vstd::string::*;

verus! {

/// A record at the end of a list is found unless an earlier one has the id.
proof fn lemma_first_push(list: Seq<RecordView>, record: RecordView, id: Seq<char>)
    ensures
        first_with_id(list.push(record), id) == match first_with_id(list, id) {
            Some(m) => Some(m),
            None => if record.id == id {
                Some(record)
            } else {
                None
            },
        },
    decreases list.len(),
{
    reveal_with_fuel(first_with_id, 2);
    if list.len() > 0 {
        assert(list.push(record).skip(1) =~= list.skip(1).push(record));
        lemma_first_push(list.skip(1), record, id);
    } else {
        assert(list.push(record).skip(1) =~= Seq::<RecordView>::empty());
    }
}

/// Dropping the records of one id changes nothing for another id.
proof fn lemma_first_filter(list: Seq<RecordView>, dropped: Seq<char>, id: Seq<char>)
    ensures
        first_with_id(list.filter(|m: RecordView| m.id != dropped), id) == if id == dropped {
            None
        } else {
            first_with_id(list, id)
        },
    decreases list.len(),
{
    let keep = |m: RecordView| m.id != dropped;
    if list.len() > 0 {
        let rest = list.drop_last();
        assert(rest.push(list.last()) =~= list);
        lemma_first_filter(rest, dropped, id);
        lemma_filter_push(rest, list.last(), keep);
        lemma_first_push(rest, list.last(), id);
        if keep(list.last()) {
            lemma_first_push(rest.filter(keep), list.last(), id);
        }
    } else {
        reveal(Seq::filter);
    }
}

/// A new memory that no relation touches leaves a neighborhood as it was.
proof fn lemma_related_with_memory(
    memories: Seq<RecordView>,
    relations: Seq<LinkView>,
    record: RecordView,
    id: Seq<char>,
)
    requires
        forall|i: int|
            0 <= i < relations.len() ==> (#[trigger] relations[i]).from_id != record.id
                && relations[i].to_id != record.id,
    ensures
        related_to(memories.push(record), relations, id) == related_to(memories, relations, id),
        id == record.id ==> related_to(memories, relations, id) =~= Seq::<RelatedView>::empty(),
    decreases relations.len(),
{
    if relations.len() > 0 {
        let rest = relations.drop_last();
        let last = relations.last();
        assert(relations[relations.len() - 1] == last);
        assert forall|i: int| 0 <= i < rest.len() implies (#[trigger] rest[i]).from_id != record.id
            && rest[i].to_id != record.id by {
            assert(rest[i] == relations[i]);
        }
        lemma_related_with_memory(memories, rest, record, id);
        lemma_first_push(memories, record, last.from_id);
        lemma_first_push(memories, record, last.to_id);
        if id == record.id {
            assert(related_by(memories, last, id) =~= Seq::<RelatedView>::empty());
        }
    }
}

/// In a graph whose relations join its own memories, no relation is at an id
/// that the graph does not have.
proof fn lemma_unknown_untouched(g: GraphView, id: Seq<char>)
    requires
        g.attached(),
        !g.has(id),
    ensures
        forall|i: int|
            0 <= i < g.relations.len() ==> (#[trigger] g.relations[i]).from_id != id
                && g.relations[i].to_id != id,
{
    assert forall|i: int| 0 <= i < g.relations.len() implies (#[trigger] g.relations[i]).from_id
        != id && g.relations[i].to_id != id by {
        assert(g.has(g.relations[i].from_id) && g.has(g.relations[i].to_id));
    }
}

/// What was stored is read back, unchanged and without relations, by an id that
/// was not in use.
pub proof fn law_stored_memory_is_read_back(g: GraphView, record: RecordView)
    requires
        g.attached(),
        !g.has(record.id),
    ensures
        g.with_memory(record).get(record.id) == Some(
            NeighborhoodView { memory: record, related: Seq::empty() },
        ),
{
    lemma_has(g, record.id);
    lemma_first_push(g.memories, record, record.id);
    lemma_unknown_untouched(g, record.id);
    lemma_related_with_memory(g.memories, g.relations, record, record.id);
}

/// Storing a memory under an id that was not in use changes what is read of no
/// other memory.
pub proof fn law_storing_leaves_others(g: GraphView, record: RecordView, other: Seq<char>)
    requires
        g.attached(),
        !g.has(record.id),
        other != record.id,
    ensures
        g.with_memory(record).get(other) == g.get(other),
{
    lemma_first_push(g.memories, record, other);
    lemma_unknown_untouched(g, record.id);
    lemma_related_with_memory(g.memories, g.relations, record, other);
}

/// A relation is seen from both of its memories, behind what was there before:
/// as "out" where it starts and as "in" where it ends. A memory that is linked to
/// itself sees both, "out" first.
pub proof fn law_link_is_seen_from_both_ends(g: GraphView, link: LinkView)
    requires
        g.has(link.from_id),
        g.has(link.to_id),
    ensures
        ({
            let linked = g.with_relation(link);
            let source = g.get(link.from_id)->0;
            let target = g.get(link.to_id)->0;
            let out = RelatedView {
                memory: target.memory,
                relation: link.relation,
                direction: "out"@,
            };
            let inn = RelatedView {
                memory: source.memory,
                relation: link.relation,
                direction: "in"@,
            };
            &&& g.get(link.from_id) is Some && g.get(link.to_id) is Some
            &&& if link.from_id == link.to_id {
                linked.get(link.from_id) == Some(
                    NeighborhoodView {
                        memory: source.memory,
                        related: source.related.push(out).push(inn),
                    },
                )
            } else {
                &&& linked.get(link.from_id) == Some(
                    NeighborhoodView { memory: source.memory, related: source.related.push(out) },
                )
                &&& linked.get(link.to_id) == Some(
                    NeighborhoodView { memory: target.memory, related: target.related.push(inn) },
                )
            }
        }),
{
    lemma_has(g, link.from_id);
    lemma_has(g, link.to_id);
    let linked = g.with_relation(link);
    assert(linked.relations.drop_last() =~= g.relations);
    assert(linked.relations.last() == link);
    let source = g.get(link.from_id)->0;
    let target = g.get(link.to_id)->0;
    let out = RelatedView {
        memory: target.memory,
        relation: link.relation,
        direction: "out"@,
    };
    let inn = RelatedView { memory: source.memory, relation: link.relation, direction: "in"@ };
    if link.from_id == link.to_id {
        assert(linked.get(link.from_id)->0.related =~= source.related.push(out).push(inn));
    } else {
        assert(linked.get(link.from_id)->0.related =~= source.related.push(out));
        assert(linked.get(link.to_id)->0.related =~= target.related.push(inn));
    }
}

/// A relation changes what is read of no memory but the two that it joins.
pub proof fn law_linking_leaves_others(g: GraphView, link: LinkView, other: Seq<char>)
    requires
        other != link.from_id,
        other != link.to_id,
    ensures
        g.with_relation(link).get(other) == g.get(other),
{
    let linked = g.with_relation(link);
    assert(linked.relations.drop_last() =~= g.relations);
    assert(linked.relations.last() == link);
    assert(related_by(g.memories, link, other) =~= Seq::<RelatedView>::empty());
    assert(related_to(g.memories, linked.relations, other) =~= related_to(
        g.memories,
        g.relations,
        other,
    ));
}

/// A deleted memory is not read back, and deleting it again finds nothing.
pub proof fn law_deleted_memory_is_gone(g: GraphView, id: Seq<char>)
    ensures
        g.without(id).get(id) is None,
        !g.without(id).has(id),
        g.without(id).without(id) == g.without(id),
{
    lemma_first_filter(g.memories, id, id);
    lemma_without_has(g, id, id);
    let keep = |m: RecordView| m.id != id;
    let keep_link = |l: LinkView| l.from_id != id && l.to_id != id;
    lemma_filter_twice(g.memories, keep);
    lemma_filter_twice(g.relations, keep_link);
}

/// Filtering a second time changes nothing.
proof fn lemma_filter_twice<A>(s: Seq<A>, keep: spec_fn(A) -> bool)
    ensures
        s.filter(keep).filter(keep) == s.filter(keep),
    decreases s.len(),
{
    if s.len() > 0 {
        let rest = s.drop_last();
        assert(rest.push(s.last()) =~= s);
        lemma_filter_twice(rest, keep);
        lemma_filter_push(rest, s.last(), keep);
        lemma_filter_push(rest.filter(keep), s.last(), keep);
    } else {
        reveal(Seq::filter);
    }
}

/// A filter that everything passes changes nothing.
proof fn lemma_filter_all<A>(s: Seq<A>, keep: spec_fn(A) -> bool)
    requires
        forall|i: int| 0 <= i < s.len() ==> keep(#[trigger] s[i]),
    ensures
        s.filter(keep) == s,
    decreases s.len(),
{
    if s.len() > 0 {
        let rest = s.drop_last();
        assert(rest.push(s.last()) =~= s);
        assert(keep(s[s.len() - 1]));
        assert forall|i: int| 0 <= i < rest.len() implies keep(#[trigger] rest[i]) by {
            assert(rest[i] == s[i]);
        }
        lemma_filter_all(rest, keep);
        lemma_filter_push(rest, s.last(), keep);
    } else {
        reveal(Seq::filter);
        assert(s.filter(keep) =~= s);
    }
}

/// Deleting a memory right after storing it, under an id that was not in use,
/// gives the graph back as it was.
pub proof fn law_deleting_undoes_storing(g: GraphView, record: RecordView)
    requires
        g.attached(),
        !g.has(record.id),
    ensures
        g.with_memory(record).without(record.id) == g,
{
    let id = record.id;
    let keep = |m: RecordView| m.id != id;
    let keep_link = |l: LinkView| l.from_id != id && l.to_id != id;
    lemma_filter_push(g.memories, record, keep);
    assert forall|i: int| 0 <= i < g.memories.len() implies keep(#[trigger] g.memories[i]) by {
        if g.memories[i].id == id {
            assert(g.has(id));
        }
    }
    lemma_filter_all(g.memories, keep);
    lemma_unknown_untouched(g, id);
    lemma_filter_all(g.relations, keep_link);
}

/// Joining two filtered sequences.
proof fn lemma_filter_concat<A>(a: Seq<A>, b: Seq<A>, keep: spec_fn(A) -> bool)
    ensures
        (a + b).filter(keep) == a.filter(keep) + b.filter(keep),
    decreases b.len(),
{
    if b.len() > 0 {
        let rest = b.drop_last();
        assert(rest.push(b.last()) =~= b);
        assert((a + rest).push(b.last()) =~= a + b);
        lemma_filter_concat(a, rest, keep);
        lemma_filter_push(a + rest, b.last(), keep);
        lemma_filter_push(rest, b.last(), keep);
        assert((a + b).filter(keep) =~= a.filter(keep) + b.filter(keep));
    } else {
        reveal(Seq::filter);
        assert(a + b =~= a);
        assert(a.filter(keep) + b.filter(keep) =~= a.filter(keep));
    }
}

proof fn lemma_related_without(
    memories: Seq<RecordView>,
    relations: Seq<LinkView>,
    id: Seq<char>,
    other: Seq<char>,
)
    requires
        other != id,
    ensures
        related_to(
            memories.filter(|m: RecordView| m.id != id),
            relations.filter(|l: LinkView| l.from_id != id && l.to_id != id),
            other,
        ) == related_to(memories, relations, other).filter(
            |r: RelatedView| r.memory.id != id,
        ),
    decreases relations.len(),
{
    let keep = |m: RecordView| m.id != id;
    let keep_link = |l: LinkView| l.from_id != id && l.to_id != id;
    let keep_related = |r: RelatedView| r.memory.id != id;
    if relations.len() > 0 {
        let rest = relations.drop_last();
        let last = relations.last();
        assert(rest.push(last) =~= relations);
        lemma_related_without(memories, rest, id, other);
        lemma_filter_push(rest, last, keep_link);
        let kept = rest.filter(keep_link);
        let fewer = memories.filter(keep);
        let part = related_by(memories, last, other);
        lemma_filter_concat(related_to(memories, rest, other), part, keep_related);
        lemma_first_filter(memories, id, last.from_id);
        lemma_first_filter(memories, id, last.to_id);
        lemma_first_with_id(memories, last.from_id);
        lemma_first_with_id(memories, last.to_id);
        if keep_link(last) {
            assert(kept.push(last).drop_last() =~= kept);
            assert(related_by(fewer, last, other) == part);
            assert forall|i: int| 0 <= i < part.len() implies keep_related(
                #[trigger] part[i],
            ) by {}
            lemma_filter_all(part, keep_related);
        } else {
            assert(part.filter(keep_related) =~= Seq::<RelatedView>::empty()) by {
                assert forall|x: RelatedView| !part.filter(keep_related).contains(x) by {
                    lemma_filter_contains(part, keep_related, x);
                }
                if part.filter(keep_related).len() > 0 {
                    assert(part.filter(keep_related).contains(part.filter(keep_related)[0]));
                }
            }
            assert(related_to(memories, rest, other).filter(keep_related) + Seq::<
                RelatedView,
            >::empty() =~= related_to(memories, rest, other).filter(keep_related));
        }
    } else {
        reveal(Seq::filter);
        assert(relations.filter(keep_link) =~= Seq::<LinkView>::empty());
        assert(Seq::<RelatedView>::empty().filter(keep_related) =~= Seq::<RelatedView>::empty());
    }
}

/// Deleting a memory takes its relations away from the other memories and
/// changes nothing else of them.
pub proof fn law_deleting_leaves_others(g: GraphView, id: Seq<char>, other: Seq<char>)
    requires
        other != id,
    ensures
        g.without(id).get(other) == match g.get(other) {
            Some(m) => Some(
                NeighborhoodView {
                    memory: m.memory,
                    related: m.related.filter(|r: RelatedView| r.memory.id != id),
                },
            ),
            None => None,
        },
{
    lemma_first_filter(g.memories, id, other);
    lemma_related_without(g.memories, g.relations, id, other);
}

/// Of a graph whose relations join its own memories, every relation of a memory
/// shows in its neighborhood: a relation that starts at it as "out", one that
/// ends at it as "in".
pub proof fn law_every_relation_shows(g: GraphView, id: Seq<char>, i: int)
    requires
        g.attached(),
        0 <= i < g.relations.len(),
        g.relations[i].from_id == id || g.relations[i].to_id == id,
    ensures
        g.get(id) is Some,
        g.relations[i].from_id == id ==> exists|m: RecordView|
            m.id == g.relations[i].to_id && #[trigger] g.get(id)->0.related.contains(
                RelatedView {
                    memory: m,
                    relation: g.relations[i].relation,
                    direction: "out"@,
                },
            ),
        g.relations[i].to_id == id ==> exists|m: RecordView|
            m.id == g.relations[i].from_id && #[trigger] g.get(id)->0.related.contains(
                RelatedView {
                    memory: m,
                    relation: g.relations[i].relation,
                    direction: "in"@,
                },
            ),
{
    let l = g.relations[i];
    assert(g.has(l.from_id) && g.has(l.to_id));
    lemma_has(g, l.from_id);
    lemma_has(g, l.to_id);
    lemma_first_with_id(g.memories, l.from_id);
    lemma_first_with_id(g.memories, l.to_id);
    let part = related_by(g.memories, l, id);
    lemma_related_contains(g.memories, g.relations, id, i);
    if l.from_id == id {
        let m = first_with_id(g.memories, l.to_id)->0;
        let r = RelatedView { memory: m, relation: l.relation, direction: "out"@ };
        assert(part[0] == r);
        assert(part.contains(r));
        assert(g.get(id)->0.related.contains(r));
    }
    if l.to_id == id {
        let m = first_with_id(g.memories, l.from_id)->0;
        let r = RelatedView { memory: m, relation: l.relation, direction: "in"@ };
        assert(part[part.len() - 1] == r);
        assert(part.contains(r));
        assert(g.get(id)->0.related.contains(r));
    }
}

/// A neighborhood holds what each relation adds to it.
proof fn lemma_related_contains(
    memories: Seq<RecordView>,
    relations: Seq<LinkView>,
    id: Seq<char>,
    i: int,
)
    requires
        0 <= i < relations.len(),
    ensures
        forall|r: RelatedView|
            related_by(memories, relations[i], id).contains(r) ==> related_to(
                memories,
                relations,
                id,
            ).contains(r),
    decreases relations.len(),
{
    let rest = related_to(memories, relations.drop_last(), id);
    let part = related_by(memories, relations.last(), id);
    let all = related_to(memories, relations, id);
    if i < relations.len() - 1 {
        lemma_related_contains(memories, relations.drop_last(), id, i);
    }
    assert forall|r: RelatedView|
        related_by(memories, relations[i], id).contains(r) implies all.contains(r) by {
        if i < relations.len() - 1 {
            assert(relations.drop_last()[i] == relations[i]);
            assert(rest.contains(r));
            let k = choose|k: int| 0 <= k < rest.len() && rest[k] == r;
            assert(all[k] == r);
        } else {
            let k = choose|k: int| 0 <= k < part.len() && part[k] == r;
            assert(all[rest.len() + k] == r);
        }
    }
}

// ---- lists of memories and relations ---------------------------------------

/// A memory is looked up by its id: the first one that has it, if one does.
pub proof fn law_first_memory_with_an_id(list: Seq<RecordView>, id: Seq<char>, at: int)
    ensures
        0 <= at < list.len() && list[at].id == id && (forall|i: int|
            0 <= i < at ==> (#[trigger] list[i]).id != id) ==> first_with_id(list, id) == Some(
            list[at],
        ),
        (forall|i: int| 0 <= i < list.len() ==> (#[trigger] list[i]).id != id)
            ==> first_with_id(list, id) is None,
    decreases list.len(),
{
    if list.len() > 0 {
        let rest = list.skip(1);
        law_first_memory_with_an_id(rest, id, at - 1);
        assert forall|i: int| 0 <= i < rest.len() implies (#[trigger] rest[i]) == list[i + 1] by {}
    }
}

/// What a memory is related to follows the relations: one more relation adds, at
/// the end, its target where the memory is its source, and then its source where
/// the memory is its target.
pub proof fn law_related_follow_the_relations(
    memories: Seq<RecordView>,
    relations: Seq<LinkView>,
    relation: LinkView,
    id: Seq<char>,
    source: RecordView,
    target: RecordView,
)
    requires
        first_with_id(memories, relation.from_id) == Some(source),
        first_with_id(memories, relation.to_id) == Some(target),
    ensures
        related_to(memories, Seq::empty(), id) == Seq::<RelatedView>::empty(),
        ({
            let before = related_to(memories, relations, id);
            let after = related_to(memories, relations.push(relation), id);
            let out = RelatedView {
                memory: target,
                relation: relation.relation,
                direction: "out"@,
            };
            let back = RelatedView {
                memory: source,
                relation: relation.relation,
                direction: "in"@,
            };
            &&& relation.from_id != id && relation.to_id != id ==> after == before
            &&& relation.from_id == id && relation.to_id != id ==> after == before.push(out)
            &&& relation.from_id != id && relation.to_id == id ==> after == before.push(back)
            &&& relation.from_id == id && relation.to_id == id ==> after == before.push(out).push(
                back,
            )
        }),
{
    let before = related_to(memories, relations, id);
    let after = related_to(memories, relations.push(relation), id);
    assert(relations.push(relation).drop_last() =~= relations);
    let out = RelatedView { memory: target, relation: relation.relation, direction: "out"@ };
    let back = RelatedView { memory: source, relation: relation.relation, direction: "in"@ };
    if relation.from_id == id {
        if relation.to_id == id {
            assert(after =~= before.push(out).push(back));
        } else {
            assert(after =~= before.push(out));
        }
    } else if relation.to_id == id {
        assert(after =~= before.push(back));
    } else {
        assert(after =~= before);
    }
}

/// A relation whose other end is no memory shows nothing there.
pub proof fn law_loose_ends_show_nothing(
    memories: Seq<RecordView>,
    relations: Seq<LinkView>,
    relation: LinkView,
    id: Seq<char>,
)
    requires
        relation.from_id == id ==> first_with_id(memories, relation.to_id) is None,
        relation.to_id == id ==> first_with_id(memories, relation.from_id) is None,
    ensures
        related_to(memories, relations.push(relation), id) == related_to(memories, relations, id),
{
    assert(relations.push(relation).drop_last() =~= relations);
    assert(related_to(memories, relations.push(relation), id) =~= related_to(
        memories,
        relations,
        id,
    ));
}

/// What a graph has and what it gives for an id, and what the graph without
/// memories, one more memory and one more relation are.
pub proof fn law_graphs_grow_at_the_end(
    g: GraphView,
    id: Seq<char>,
    record: RecordView,
    relation: LinkView,
)
    ensures
        GraphView::empty().memories.len() == 0,
        GraphView::empty().relations.len() == 0,
        g.has(id) <==> first_with_id(g.memories, id) is Some,
        g.get(id) is Some <==> g.has(id),
        g.get(id) matches Some(n) ==> Some(n.memory) == first_with_id(g.memories, id) && n.related
            == related_to(g.memories, g.relations, id),
        g.with_memory(record).memories == g.memories.push(record),
        g.with_memory(record).relations == g.relations,
        g.with_relation(relation).memories == g.memories,
        g.with_relation(relation).relations == g.relations.push(relation),
{
    lemma_has(g, id);
    lemma_first_with_id(g.memories, id);
}

/// Deleting goes through the memories and the relations: one more of them is kept
/// at the end exactly if it is another memory, or a relation between others.
pub proof fn law_deleting_goes_through_the_graph(
    g: GraphView,
    record: RecordView,
    relation: LinkView,
    id: Seq<char>,
)
    ensures
        GraphView::empty().without(id).memories.len() == 0,
        GraphView::empty().without(id).relations.len() == 0,
        g.with_memory(record).without(id).relations == g.without(id).relations,
        g.with_memory(record).without(id).memories == if record.id == id {
            g.without(id).memories
        } else {
            g.without(id).memories.push(record)
        },
        g.with_relation(relation).without(id).memories == g.without(id).memories,
        g.with_relation(relation).without(id).relations == if relation.from_id == id
            || relation.to_id == id {
            g.without(id).relations
        } else {
            g.without(id).relations.push(relation)
        },
{
    reveal(Seq::filter);
    lemma_filter_push(g.memories, record, |m: RecordView| m.id != id);
    lemma_filter_push(g.relations, relation, |l: LinkView| l.from_id != id && l.to_id != id);
}

/// Every relation of a graph joins memories exactly if none has a loose end.
pub proof fn law_attached_relations(g: GraphView)
    ensures
        g.attached() <==> forall|i: int|
            0 <= i < g.relations.len() ==> first_with_id(
                g.memories,
                (#[trigger] g.relations[i]).from_id,
            ) is Some && first_with_id(g.memories, g.relations[i].to_id) is Some,
{
    assert forall|id: Seq<char>| #[trigger]
        g.has(id) <==> first_with_id(g.memories, id) is Some by {
        lemma_has(g, id);
        lemma_first_with_id(g.memories, id);
    }
}

// ---- ids, times and names --------------------------------------------------

/// A UUID has 36 characters: hyphens at 8, 13, 18 and 23, and lower-case
/// hexadecimal digits everywhere else.
pub proof fn law_shape_of_uuids(s: Seq<char>, i: int)
    requires
        is_uuid(s),
        0 <= i < s.len(),
    ensures
        s.len() == 36,
        s[8] == '-' && s[13] == '-' && s[18] == '-' && s[23] == '-',
        i != 8 && i != 13 && i != 18 && i != 23 ==> ('0' <= s[i] <= '9' || 'a' <= s[i] <= 'f'),
{
}

/// A fresh id is `mem_` and a random UUID: 40 characters, with the hyphens, the
/// version digit `4` and the variant digit in their places.
pub proof fn law_shape_of_fresh_ids(id: Seq<char>)
    requires
        is_new_id(id),
    ensures
        id.len() == 40,
        id.take(4) == "mem_"@,
        is_uuid(id.skip(4)),
        id[12] == '-' && id[17] == '-' && id[22] == '-' && id[27] == '-',
        id[18] == '4',
        id[23] == '8' || id[23] == '9' || id[23] == 'a' || id[23] == 'b',
{
    reveal_strlit("mem_");
    let u = choose|u: Seq<char>| #[trigger] is_random_uuid(u) && id == ID_PREFIX@ + u;
    assert(id.take(4) =~= "mem_"@);
    assert(id.skip(4) =~= u);
    assert(id[12] == u[8] && id[17] == u[13] && id[22] == u[18] && id[27] == u[23]);
    assert(id[18] == u[14] && id[23] == u[19]);
}

/// `mem_` and any random UUID make a fresh id.
pub proof fn law_random_uuids_make_fresh_ids(u: Seq<char>)
    requires
        is_uuid(u),
        u[14] == '4',
        u[19] == '8' || u[19] == '9' || u[19] == 'a' || u[19] == 'b',
    ensures
        is_new_id("mem_"@ + u),
{
    assert(is_random_uuid(u));
}

/// A time ends like `-00-00T00:00:00.000Z`, with a digit for every `0`, behind a
/// year of at least four characters.
pub proof fn law_shape_of_times(s: Seq<char>, k: int)
    requires
        is_utc_millis(s),
        0 <= k < 20,
    ensures
        s.len() >= 24,
        ({
            let shape = "-00-00T00:00:00.000Z"@;
            &&& shape.len() == 20
            &&& shape[k] == '0' ==> '0' <= s[s.len() - 20 + k] <= '9'
            &&& shape[k] != '0' ==> s[s.len() - 20 + k] == shape[k]
        }),
{
    reveal_strlit("-00-00T00:00:00.000Z");
    let shape = "-00-00T00:00:00.000Z"@;
    assert(shape.len() == 20);
    assert(shape[0] == '-' && shape[1] == '0' && shape[2] == '0' && shape[3] == '-');
    assert(shape[4] == '0' && shape[5] == '0' && shape[6] == 'T' && shape[7] == '0');
    assert(shape[8] == '0' && shape[9] == ':' && shape[10] == '0' && shape[11] == '0');
    assert(shape[12] == ':' && shape[13] == '0' && shape[14] == '0' && shape[15] == '.');
    assert(shape[16] == '0' && shape[17] == '0' && shape[18] == '0' && shape[19] == 'Z');
    assert(k == 0 || k == 1 || k == 2 || k == 3 || k == 4 || k == 5 || k == 6 || k == 7 || k == 8
        || k == 9 || k == 10 || k == 11 || k == 12 || k == 13 || k == 14 || k == 15 || k == 16
        || k == 17 || k == 18 || k == 19);
}

/// A new record has a fresh id, a time, and the text and the tags that it was
/// made for; without tags it has an empty list of them.
pub proof fn law_new_records(r: RecordView, text: Seq<char>, tags: Option<Seq<Seq<char>>>)
    ensures
        is_new_record(r, text, tags) <==> {
            &&& is_new_id(r.id)
            &&& is_utc_millis(r.created_at)
            &&& r.text == text
            &&& tags matches Some(list) ==> r.tags == list
            &&& tags is None ==> r.tags.len() == 0
        },
{
    if r.tags.len() == 0 {
        assert(r.tags =~= Seq::<Seq<char>>::empty());
    }
}

/// The one-character relation names are the ASCII letters and digits and `_`.
pub proof fn law_word_characters(c: char)
    ensures
        is_relation(seq![c]) <==> ('a' <= c <= 'z' || 'A' <= c <= 'Z' || '0' <= c <= '9' || c
            == '_'),
        !is_relation(Seq::empty()),
{
    assert(seq![c][0] == c);
}

/// A text is a relation name exactly if each part of it is one.
pub proof fn law_relation_names_join(a: Seq<char>, b: Seq<char>)
    requires
        a.len() > 0,
        b.len() > 0,
    ensures
        is_relation(a + b) <==> is_relation(a) && is_relation(b),
{
    let both = a + b;
    if is_relation(both) {
        assert forall|i: int| 0 <= i < a.len() implies is_word_char(#[trigger] a[i]) by {
            assert(is_word_char(both[i]));
        }
        assert forall|i: int| 0 <= i < b.len() implies is_word_char(#[trigger] b[i]) by {
            assert(is_word_char(both[a.len() + i]));
        }
    }
    if is_relation(a) && is_relation(b) {
        assert forall|i: int| 0 <= i < both.len() implies is_word_char(#[trigger] both[i]) by {
            if i < a.len() {
                assert(is_word_char(a[i]));
            } else {
                assert(is_word_char(b[i - a.len()]));
            }
        }
    }
}

/// The words for a failure name the relation, or the two memories, that it is
/// about.
pub proof fn law_words_for_graph_errors(error: GraphError)
    ensures
        error matches GraphError::InvalidRelation { relation } ==> error.words()
            == "invalid relation name: "@ + relation@,
        error matches GraphError::CannotLink { from_id, to_id } ==> error.words()
            == "cannot link: memory \""@ + from_id@ + "\" or \""@ + to_id@ + "\" not found"@,
{
}

// ---- what values show ------------------------------------------------------

/// The contents of memories and relations show every part of them, in order.
pub proof fn law_memories_show_their_parts(
    record: MemoryRecord,
    related: RelatedMemory,
    memory: MemoryWithRelated,
    link: LinkResult,
)
    ensures
        record@.id == record.id@,
        record@.text == record.text@,
        record@.created_at == record.created_at@,
        record@.tags.len() == record.tags@.len(),
        forall|i: int|
            0 <= i < record.tags@.len() ==> #[trigger] record@.tags[i] == record.tags@[i]@,
        related@.memory == related.memory@,
        related@.relation == related.relation@,
        related@.direction == related.direction@,
        memory@.memory == memory.memory@,
        memory@.related.len() == memory.related@.len(),
        forall|i: int|
            0 <= i < memory.related@.len() ==> #[trigger] memory@.related[i]
                == memory.related@[i]@,
        link@.from_id == link.from_id@,
        link@.to_id == link.to_id@,
        link@.relation == link.relation@,
        optional_neighborhood(Some(memory)) == Some(memory@),
        optional_neighborhood(None) is None,
{
}

/// The contents of lists show every item of them, in order.
pub proof fn law_lists_show_their_items(
    list: Seq<MemoryRecord>,
    related: Seq<RelatedMemory>,
    all: Seq<LinkResult>,
)
    ensures
        records(list).len() == list.len(),
        forall|i: int| 0 <= i < list.len() ==> #[trigger] records(list)[i] == list[i]@,
        relateds(related).len() == related.len(),
        forall|i: int| 0 <= i < related.len() ==> #[trigger] relateds(related)[i] == related[i]@,
        links(all).len() == all.len(),
        forall|i: int| 0 <= i < all.len() ==> #[trigger] links(all)[i] == all[i]@,
{
}

} // verus!
