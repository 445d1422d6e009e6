//! What scores, rankings, searches and point ids are, and what writing and
//! removing points does to an index.
use crate::graph::{is_lower_hex, is_uuid, ID_PREFIX};
use crate::text::{ascending, digit, text_before};
use crate::text_laws::law_order_is_strict;
use crate::vectors::{
    are_models_of, ascii_lower, ascii_lower_text, grouped, hex, hit_of, hits, hyphenated_reading,
    indices, is_hex, is_hit_on, is_nan, is_ranking, is_search_result, is_selection,
    lemma_position_of, lists_all, md5_digest, no_nan, one_point_each, outranks, place, point_uuid,
    points, unindexed, upserted, uuid_reading, without_prefix, HitView, PointView,
    VectorRecord, VectorSearchHit, COLLECTION_NAME,
};
use vstd::prelude::*;
use vstd::string::*;
use vstd::utf8::*;

verus! {

// ---- scores ----------------------------------------------------------------

/// The bit patterns of single-precision numbers: those above infinity, of either
/// sign, are no numbers; positive numbers have the order of their bit patterns;
/// a number with the sign bit is the opposite of the one without, and so the
/// two zeros are equal.
pub proof fn law_scores_compare_as_numbers(a: u32, b: u32)
    ensures
        is_nan(a) <==> 0x7f80_0000 < a < 0x8000_0000 || 0xff80_0000 < a,
        a < 0x8000_0000 && b < 0x8000_0000 ==> (place(a) < place(b) <==> a < b),
        a < 0x8000_0000 && b == a + 0x8000_0000 ==> place(b) == -place(a),
        place(0x0000_0000) == 0,
{
}

/// Scores are numbers exactly if none of them is a bit pattern of no number.
pub proof fn law_no_score_is_nan(scores: Seq<u32>)
    ensures
        no_nan(scores) <==> forall|i: int|
            0 <= i < scores.len() ==> ((#[trigger] scores[i]) <= 0x7f80_0000 || 0x8000_0000
                <= scores[i] <= 0xff80_0000),
{
    if no_nan(scores) {
        assert forall|i: int| 0 <= i < scores.len() implies ((#[trigger] scores[i]) <= 0x7f80_0000
            || 0x8000_0000 <= scores[i] <= 0xff80_0000) by {
            assert(!is_nan(scores[i]));
        }
    }
}

// ---- searching -------------------------------------------------------------

/// A higher score comes first; of equal scores the older point comes first.
pub proof fn law_better_comes_first(scores: Seq<u32>, a: int, b: int)
    ensures
        place(scores[a]) > place(scores[b]) ==> outranks(scores, a, b) && !outranks(scores, b, a),
        place(scores[a]) == place(scores[b]) ==> (outranks(scores, a, b) <==> a < b),
{
}

/// A ranking lists every point exactly once, a higher score before a lower one
/// and an older point before a newer one of the same score.
pub proof fn law_ranking_is_by_score_and_age(order: Seq<int>, scores: Seq<u32>, n: int)
    requires
        is_ranking(order, scores, n),
    ensures
        order.len() == n,
        forall|x: int| #[trigger] order.contains(x) <==> 0 <= x < n,
        forall|i: int, j: int|
            #![trigger order[i], order[j]]
            0 <= i < j < n ==> place(scores[order[i]]) > place(scores[order[j]]) || place(
                scores[order[i]],
            ) == place(scores[order[j]]) && order[i] < order[j],
{
    crate::vectors::lemma_ranking_lists_all(order, scores, n);
    assert forall|x: int| #[trigger] order.contains(x) <==> 0 <= x < n by {
        if 0 <= x < n {
            crate::vectors::lemma_lists_all(order, n, x);
        }
    }
    assert forall|i: int, j: int|
        #![trigger order[i], order[j]]
        0 <= i < j < n implies place(scores[order[i]]) > place(scores[order[j]]) || place(
        scores[order[i]],
    ) == place(scores[order[j]]) && order[i] < order[j] by {
        assert(outranks(scores, order[i], order[j]));
    }
}

/// A search selects as many points as were asked for, or all of them if there
/// are fewer: each hit has the memory and the score of a point of its own.
pub proof fn law_hits_are_points_of_their_own(
    found: Seq<HitView>,
    index: Seq<PointView>,
    scores: Seq<u32>,
    top_k: int,
)
    requires
        is_selection(found, index, scores, top_k),
        0 <= top_k,
    ensures
        found.len() <= top_k,
        found.len() <= index.len(),
        found.len() == top_k || found.len() == index.len(),
        exists|at: Seq<int>|
            {
                &&& #[trigger] at.len() == found.len()
                &&& forall|i: int|
                    #![trigger at[i]]
                    0 <= i < at.len() ==> 0 <= at[i] < index.len() && found[i].memory_id
                        == index[at[i]].memory_id && found[i].score == scores[at[i]]
                &&& forall|i: int, j: int|
                    #![trigger at[i], at[j]]
                    0 <= i < j < at.len() ==> at[i] != at[j]
            },
{
    let n = index.len() as int;
    let order = choose|order: Seq<int>| #[trigger]
        lists_all(order, n) && {
            let k = if top_k < n { top_k } else { n };
            found == order.take(k).map_values(|i: int| hit_of(index, scores, i))
        };
    let k = if top_k < n { top_k } else { n };
    let at = order.take(k);
    assert(at.len() == found.len());
    assert forall|i: int|
        #![trigger at[i]]
        0 <= i < at.len() implies 0 <= at[i] < index.len() && found[i].memory_id
        == index[at[i]].memory_id && found[i].score == scores[at[i]] by {
        assert(at[i] == order[i]);
    }
}

/// A search of scores that are numbers gives the best points: each hit has the
/// memory and the score of a point of its own; a higher score comes before a
/// lower one and an older point before a newer one of the same score; and a point
/// that was left out comes after all of them.
pub proof fn law_search_gives_the_best_in_order(
    found: Seq<HitView>,
    index: Seq<PointView>,
    scores: Seq<u32>,
    top_k: int,
)
    requires
        is_search_result(found, index, scores, top_k),
        0 <= top_k,
    ensures
        found.len() <= top_k,
        found.len() <= index.len(),
        found.len() == top_k || found.len() == index.len(),
        exists|at: Seq<int>|
            {
                &&& #[trigger] at.len() == found.len()
                &&& forall|i: int|
                    #![trigger at[i]]
                    0 <= i < at.len() ==> 0 <= at[i] < index.len() && found[i].memory_id
                        == index[at[i]].memory_id && found[i].score == scores[at[i]]
                &&& forall|i: int, j: int|
                    #![trigger at[i], at[j]]
                    0 <= i < j < at.len() ==> place(scores[at[i]]) > place(scores[at[j]]) || place(
                        scores[at[i]],
                    ) == place(scores[at[j]]) && at[i] < at[j]
                &&& forall|i: int, x: int|
                    #![trigger at[i], scores[x]]
                    0 <= i < at.len() && 0 <= x < index.len() && !at.contains(x) ==> place(
                        scores[at[i]],
                    ) > place(scores[x]) || place(scores[at[i]]) == place(scores[x]) && at[i] < x
            },
{
    let n = index.len() as int;
    let order = choose|order: Seq<int>| #[trigger]
        is_ranking(order, scores, n) && {
            let k = if top_k < n { top_k } else { n };
            found == order.take(k).map_values(|i: int| hit_of(index, scores, i))
        };
    let k = if top_k < n { top_k } else { n };
    let at = order.take(k);
    law_ranking_is_by_score_and_age(order, scores, n);
    assert(at.len() == found.len());
    assert forall|i: int|
        #![trigger at[i]]
        0 <= i < at.len() implies 0 <= at[i] < index.len() && found[i].memory_id
        == index[at[i]].memory_id && found[i].score == scores[at[i]] by {
        assert(at[i] == order[i]);
    }
    assert forall|i: int, x: int|
        #![trigger at[i], scores[x]]
        0 <= i < at.len() && 0 <= x < index.len() && !at.contains(x) implies place(scores[at[i]])
        > place(scores[x]) || place(scores[at[i]]) == place(scores[x]) && at[i] < x by {
        assert(order.contains(x));
        let p = choose|p: int| 0 <= p < order.len() && order[p] == x;
        if p < k {
            assert(at[p] == x);
        }
        assert(order[i] == at[i]);
        assert(i < p);
        let y = order[p];
    }
}

/// A hit is that of a point exactly if it has the memory and the score of one.
pub proof fn law_hits_name_memory_and_score(hit: HitView, index: Seq<PointView>, scores: Seq<u32>)
    ensures
        is_hit_on(hit, index, scores) <==> exists|i: int|
            0 <= i < index.len() && (#[trigger] index[i]).memory_id == hit.memory_id && scores[i]
                == hit.score,
{
    if exists|i: int|
        0 <= i < index.len() && (#[trigger] index[i]).memory_id == hit.memory_id && scores[i]
            == hit.score {
        let i = choose|i: int|
            0 <= i < index.len() && (#[trigger] index[i]).memory_id == hit.memory_id && scores[i]
                == hit.score;
        assert(hit_of(index, scores, i) == hit);
    }
}

// ---- writing and removing --------------------------------------------------

/// A point is written in the place of the first point of its memory, or at the
/// end if the memory has none; everything else stays where it is.
pub proof fn law_upsert_replaces_in_place(index: Seq<PointView>, point: PointView, at: int)
    ensures
        (forall|i: int|
            0 <= i < index.len() ==> (#[trigger] index[i]).memory_id != point.memory_id)
            ==> upserted(index, point) == index.push(point),
        0 <= at < index.len() && index[at].memory_id == point.memory_id && (forall|i: int|
            0 <= i < at ==> (#[trigger] index[i]).memory_id != point.memory_id) ==> upserted(
            index,
            point,
        ) == index.update(at, point),
{
    lemma_position_of(index, point.memory_id);
}

/// Removing a memory from an index goes through its points: one more point is
/// kept at the end exactly if it is that of another memory.
pub proof fn law_delete_goes_through_the_points(
    index: Seq<PointView>,
    point: PointView,
    memory_id: Seq<char>,
)
    ensures
        unindexed(Seq::empty(), memory_id) == Seq::<PointView>::empty(),
        unindexed(index.push(point), memory_id) == if point.memory_id == memory_id {
            unindexed(index, memory_id)
        } else {
            unindexed(index, memory_id).push(point)
        },
{
    reveal(Seq::filter);
    crate::graph::lemma_filter_push(index, point, |p: PointView| p.memory_id != memory_id);
}

/// No memory has two points exactly if points at different places have different
/// memories.
pub proof fn law_points_of_their_own(index: Seq<PointView>)
    ensures
        one_point_each(index) <==> forall|i: int, j: int|
            #![trigger index[i], index[j]]
            0 <= i < index.len() && 0 <= j < index.len() && index[i].memory_id == index[j].memory_id
                ==> i == j,
{
}

/// The models of an index are the names that its points have, each once, one
/// name before the next as texts are ordered.
pub proof fn law_models_are_those_of_points(list: Seq<Seq<char>>, index: Seq<PointView>)
    requires
        are_models_of(list, index),
    ensures
        forall|i: int| 0 <= i < index.len() ==> list.contains((#[trigger] index[i]).model),
        forall|m: Seq<char>| #[trigger]
            list.contains(m) ==> exists|i: int|
                0 <= i < index.len() && (#[trigger] index[i]).model == m,
        forall|i: int, j: int|
            #![trigger list[i], list[j]]
            0 <= i < j < list.len() ==> text_before(list[i], list[j]) && list[i] != list[j],
{
    assert forall|i: int, j: int|
        #![trigger list[i], list[j]]
        0 <= i < j < list.len() implies text_before(list[i], list[j]) && list[i] != list[j] by {
        assert(ascending(list));
        law_order_is_strict(list[i], list[j]);
    }
}

// ---- point ids -------------------------------------------------------------

/// Bytes are written one after the other, the high half of each first.
pub proof fn law_hex_goes_through_the_bytes(bytes: Seq<u8>, b: u8)
    ensures
        hex(Seq::empty()) == Seq::<char>::empty(),
        hex(bytes.push(b)) == hex(bytes) + seq![digit(b as int / 16), digit(b as int % 16)],
{
    assert(bytes.push(b).drop_last() =~= bytes);
    assert(hex(bytes.push(b)) =~= hex(bytes) + seq![digit(b as int / 16), digit(b as int % 16)]);
}

/// The two digits of each byte.
proof fn lemma_hex_at(bytes: Seq<u8>, k: int)
    requires
        0 <= k < bytes.len(),
    ensures
        hex(bytes).len() == 2 * bytes.len(),
        hex(bytes)[2 * k] == digit(bytes[k] as int / 16),
        hex(bytes)[2 * k + 1] == digit(bytes[k] as int % 16),
    decreases bytes.len(),
{
    let rest = bytes.drop_last();
    law_hex_goes_through_the_bytes(rest, bytes.last());
    assert(rest.push(bytes.last()) =~= bytes);
    if rest.len() > 0 {
        lemma_hex_at(rest, if k < rest.len() { k } else { 0 });
    }
}

/// An id that holds no UUID has the MD5 digest of the whole id for its point:
/// 36 characters, hyphens at 8, 13, 18 and 23, and between them the two digits of
/// each byte, in order.
pub proof fn law_other_ids_are_hashed(memory_id: Seq<char>, k: int)
    requires
        uuid_reading(without_prefix(memory_id)) is None,
        md5_digest(encode_utf8(memory_id)).len() == 16,
        0 <= k < 16,
    ensures
        ({
            let digest = md5_digest(encode_utf8(memory_id));
            let point = point_uuid(memory_id);
            let at = 2 * k + if k < 4 {
                0int
            } else if k < 6 {
                1
            } else if k < 8 {
                2
            } else if k < 10 {
                3
            } else {
                4
            };
            &&& point.len() == 36
            &&& point[8] == '-' && point[13] == '-' && point[18] == '-' && point[23] == '-'
            &&& point[at] == digit(digest[k] as int / 16)
            &&& point[at + 1] == digit(digest[k] as int % 16)
        }),
{
    let digest = md5_digest(encode_utf8(memory_id));
    lemma_hex_at(digest, k);
    let h = hex(digest);
    assert(h.len() == 32);
    let g = grouped(h);
    if k < 4 {
        assert(g[2 * k] == h[2 * k] && g[2 * k + 1] == h[2 * k + 1]);
    } else if k < 6 {
        assert(g[2 * k + 1] == h[2 * k] && g[2 * k + 2] == h[2 * k + 1]);
    } else if k < 8 {
        assert(g[2 * k + 2] == h[2 * k] && g[2 * k + 3] == h[2 * k + 1]);
    } else if k < 10 {
        assert(g[2 * k + 3] == h[2 * k] && g[2 * k + 4] == h[2 * k + 1]);
    } else {
        assert(g[2 * k + 4] == h[2 * k] && g[2 * k + 5] == h[2 * k + 1]);
    }
}

/// The prefix of a memory id is taken off once; an id that does not begin with
/// it is left alone.
pub proof fn law_prefix_is_taken_off(id: Seq<char>)
    ensures
        ID_PREFIX@ == "mem_"@,
        without_prefix("mem_"@ + id) == id,
        without_prefix(id) == id || id == "mem_"@ + without_prefix(id),
        (id.len() < 4 || id.take(4) != "mem_"@) ==> without_prefix(id) == id,
{
    reveal_strlit("mem_");
    assert("mem_"@.len() == 4);
    assert(("mem_"@ + id).take(4) =~= "mem_"@);
    assert(("mem_"@ + id).skip(4) =~= id);
    if id.len() >= 4 && id.take(4) == "mem_"@ {
        assert(id =~= "mem_"@ + id.skip(4));
    }
}

/// A UUID reads as itself, and so it does in braces, behind `urn:uuid:`, and
/// without its hyphens.
pub proof fn law_forms_of_a_uuid(u: Seq<char>)
    requires
        is_uuid(u),
    ensures
        uuid_reading(u) == Some(u),
        uuid_reading(seq!['{'] + u + seq!['}']) == Some(u),
        uuid_reading("urn:uuid:"@ + u) == Some(u),
        uuid_reading(
            u.subrange(0, 8) + u.subrange(9, 13) + u.subrange(14, 18) + u.subrange(19, 23)
                + u.subrange(24, 36),
        ) == Some(u),
{
    reveal_strlit("urn:uuid:");
    lemma_uuid_reads(u);
    let braced = seq!['{'] + u + seq!['}'];
    assert(braced.subrange(1, 37) =~= u);
    assert(braced.len() == 38 && braced[0] == '{' && braced[37] == '}');
    let urn = "urn:uuid:"@ + u;
    assert("urn:uuid:"@.len() == 9);
    assert(urn.skip(9) =~= u);
    assert(urn.take(9) =~= "urn:uuid:"@);
    assert(ascii_lower_text("urn:uuid:"@) =~= "urn:uuid:"@);
    let simple = u.subrange(0, 8) + u.subrange(9, 13) + u.subrange(14, 18) + u.subrange(19, 23)
        + u.subrange(24, 36);
    assert(simple.len() == 32);
    assert forall|i: int| 0 <= i < 32 implies is_lower_hex(#[trigger] simple[i]) by {
        if i < 8 {
            assert(simple[i] == u[i]);
        } else if i < 12 {
            assert(simple[i] == u[i + 1]);
        } else if i < 16 {
            assert(simple[i] == u[i + 2]);
        } else if i < 20 {
            assert(simple[i] == u[i + 3]);
        } else {
            assert(simple[i] == u[i + 4]);
        }
    }
    assert forall|i: int| 0 <= i < 32 implies ascii_lower(#[trigger] simple[i]) == simple[i] by {
        assert(is_lower_hex(simple[i]));
    }
    assert(ascii_lower_text(simple) =~= simple);
    assert(grouped(simple) =~= u) by {
        assert(u[8] == '-' && u[13] == '-' && u[18] == '-' && u[23] == '-');
    }
}

/// 32 characters stand in groups of 8, 4, 4, 4 and 12, with hyphens between the
/// groups.
pub proof fn law_groups_of_characters(h: Seq<char>, i: int)
    requires
        h.len() == 32,
        0 <= i < 32,
    ensures
        grouped(h).len() == 36,
        grouped(h)[8] == '-',
        grouped(h)[13] == '-',
        grouped(h)[18] == '-',
        grouped(h)[23] == '-',
        i < 8 ==> grouped(h)[i] == h[i],
        8 <= i < 12 ==> grouped(h)[i + 1] == h[i],
        12 <= i < 16 ==> grouped(h)[i + 2] == h[i],
        16 <= i < 20 ==> grouped(h)[i + 3] == h[i],
        20 <= i ==> grouped(h)[i + 4] == h[i],
{
}

/// The case of letters does not matter in a UUID; the letters `A` to `Z` become
/// `a` to `z` and every other character stays.
pub proof fn law_case_of_uuids(s: Seq<char>, c: char)
    ensures
        uuid_reading(ascii_lower_text(s)) == uuid_reading(s),
        ascii_lower_text(s).len() == s.len(),
        ascii_lower_text(seq![c]) == seq![ascii_lower(c)],
        'A' <= c <= 'Z' ==> ascii_lower(c) as u32 == c as u32 + 32,
        !('A' <= c <= 'Z') ==> ascii_lower(c) == c,
{
    assert(ascii_lower_text(seq![c]) =~= seq![ascii_lower(c)]);
    lemma_ascii_lower(c);
    let t = ascii_lower_text(s);
    lemma_lower_text(s);
    assert forall|i: int| 0 <= i < s.len() implies is_hex(#[trigger] t[i]) == is_hex(s[i]) && (t[i]
        == '-' <==> s[i] == '-') && (t[i] == '{' <==> s[i] == '{') && (t[i] == '}' <==> s[i]
        == '}') by {
        lemma_ascii_lower(s[i]);
    }
    lemma_same_hyphenated(s);
    if s.len() == 32 {
        if forall|i: int| 0 <= i < 32 ==> is_hex(#[trigger] s[i]) {
            assert forall|i: int| 0 <= i < 32 implies is_hex(#[trigger] t[i]) by {
                assert(is_hex(s[i]));
            }
        }
        if forall|i: int| 0 <= i < 32 ==> is_hex(#[trigger] t[i]) {
            assert forall|i: int| 0 <= i < 32 implies is_hex(#[trigger] s[i]) by {
                assert(is_hex(t[i]));
            }
        }
    }
    if s.len() == 38 {
        assert(t.subrange(1, 37) =~= ascii_lower_text(s.subrange(1, 37)));
        lemma_same_hyphenated(s.subrange(1, 37));
        assert(is_hex(t[0]) == is_hex(s[0]));
        assert(is_hex(t[37]) == is_hex(s[37]));
    }
    if s.len() == 45 {
        assert(t.take(9) =~= ascii_lower_text(s.take(9)));
        lemma_lower_text(s.take(9));
        assert(t.skip(9) =~= ascii_lower_text(s.skip(9)));
        lemma_same_hyphenated(s.skip(9));
    }
}

proof fn lemma_ascii_lower(c: char)
    ensures
        'A' <= c <= 'Z' ==> ascii_lower(c) as u32 == c as u32 + 32,
        !('A' <= c <= 'Z') ==> ascii_lower(c) == c,
        ascii_lower(ascii_lower(c)) == ascii_lower(c),
        is_hex(ascii_lower(c)) == is_hex(c),
        ascii_lower(c) == '-' <==> c == '-',
        ascii_lower(c) == '{' <==> c == '{',
        ascii_lower(c) == '}' <==> c == '}',
{
    if 'A' <= c <= 'Z' {
        assert(((c as u32) + 32) as char as u32 == c as u32 + 32);
    }
}

proof fn lemma_lower_text(s: Seq<char>)
    ensures
        ascii_lower_text(ascii_lower_text(s)) == ascii_lower_text(s),
{
    assert forall|i: int| 0 <= i < s.len() implies ascii_lower(ascii_lower(#[trigger] s[i]))
        == ascii_lower(s[i]) by {
        lemma_ascii_lower(s[i]);
    }
    assert(ascii_lower_text(ascii_lower_text(s)) =~= ascii_lower_text(s));
}

proof fn lemma_same_hyphenated(s: Seq<char>)
    ensures
        hyphenated_reading(ascii_lower_text(s)) == hyphenated_reading(s),
{
    let t = ascii_lower_text(s);
    lemma_lower_text(s);
    if s.len() == 36 {
        assert forall|i: int| 0 <= i < 36 implies is_hex(#[trigger] t[i]) == is_hex(s[i]) && (t[i]
            == '-' <==> s[i] == '-') by {
            lemma_ascii_lower(s[i]);
        }
        if hyphenated_reading(s) is Some {
            assert forall|i: int| 0 <= i < 36 implies if crate::graph::hyphen_at(i) {
                #[trigger] t[i] == '-'
            } else {
                is_hex(t[i])
            } by {
                assert(s[i] == '-' || is_hex(s[i]));
            }
        }
        if hyphenated_reading(t) is Some {
            assert forall|i: int| 0 <= i < 36 implies if crate::graph::hyphen_at(i) {
                #[trigger] s[i] == '-'
            } else {
                is_hex(s[i])
            } by {
                assert(t[i] == '-' || is_hex(t[i]));
            }
        }
    }
}

/// Nothing but the four forms of a UUID, in either case, reads as one.
pub proof fn law_nothing_else_is_a_uuid(s: Seq<char>)
    ensures
        uuid_reading(s) matches Some(u) ==> {
            let lower = ascii_lower_text(s);
            &&& is_uuid(u)
            &&& {
                ||| lower == u
                ||| lower == seq!['{'] + u + seq!['}']
                ||| lower == "urn:uuid:"@ + u
                ||| lower == u.subrange(0, 8) + u.subrange(9, 13) + u.subrange(14, 18)
                    + u.subrange(19, 23) + u.subrange(24, 36)
            }
        },
{
    if let Some(u) = uuid_reading(s) {
        let lower = ascii_lower_text(s);
        reveal_strlit("urn:uuid:");
        crate::vectors::lemma_reading_is_uuid(s);
        if s.len() == 32 {
            assert(u.subrange(0, 8) + u.subrange(9, 13) + u.subrange(14, 18) + u.subrange(19, 23)
                + u.subrange(24, 36) =~= lower);
        } else if s.len() == 38 {
            assert(ascii_lower('{') == '{' && ascii_lower('}') == '}');
            assert(seq!['{'] + u + seq!['}'] =~= lower);
        } else if s.len() == 45 {
            assert(lower.take(9) =~= ascii_lower_text(s.take(9)));
            assert(lower.skip(9) =~= u);
            assert("urn:uuid:"@ + u =~= lower.take(9) + lower.skip(9));
            assert(lower =~= lower.take(9) + lower.skip(9));
        }
    }
}

proof fn lemma_uuid_reads(u: Seq<char>)
    requires
        is_uuid(u),
    ensures
        hyphenated_reading(u) == Some(u),
{
    assert forall|i: int| 0 <= i < 36 implies if crate::graph::hyphen_at(i) {
        #[trigger] u[i] == '-'
    } else {
        is_hex(u[i])
    } by {}
    assert(ascii_lower_text(u) =~= u);
}

// ---- what values show ------------------------------------------------------

/// The contents of points and hits show every part of them, in order.
pub proof fn law_points_show_their_parts(
    point: VectorRecord,
    hit: VectorSearchHit,
    list: Seq<VectorRecord>,
    all: Seq<VectorSearchHit>,
    order: Seq<usize>,
)
    ensures
        point@.memory_id == point.memory_id@,
        point@.vector == point.vector@,
        point@.model == point.model@,
        hit@.memory_id == hit.memory_id@,
        hit@.score == hit.score,
        points(list).len() == list.len(),
        forall|i: int| 0 <= i < list.len() ==> #[trigger] points(list)[i] == list[i]@,
        hits(all).len() == all.len(),
        forall|i: int| 0 <= i < all.len() ==> #[trigger] hits(all)[i] == all[i]@,
        indices(order).len() == order.len(),
        forall|i: int| 0 <= i < order.len() ==> #[trigger] indices(order)[i] == order[i],
        COLLECTION_NAME@ == "memories"@,
{
}

} // verus!
