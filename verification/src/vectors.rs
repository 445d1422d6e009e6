//! Vector storage: memory embeddings keyed by memory id.
//!
//! The components of a vector and the scores of a search are single-precision
//! numbers, held here by their IEEE 754 bit patterns. The index can be rebuilt
//! from the graph at any time.
use crate::graph::{
    hyphen_at, is_lower_hex, is_new_id, is_random_uuid, is_uuid, lemma_filter_contains,
    lemma_filter_push, ID_PREFIX,
};
use crate::text::{chars_of, digit, digit_char, insert_name, text_between};
use md5::{Digest, Md5};
use vstd::prelude::*;
use vstd::string::*;
use vstd::utf8::*;

verus! {

pub const COLLECTION_NAME: &'static str = "memories";

/// The vector of one memory.
#[derive(Debug)]
pub struct VectorRecord {
    /// the memory's id in the graph, so that hydration goes through the graph
    pub memory_id: String,
    /// bit patterns of the components
    pub vector: Vec<u32>,
    /// the embedding model, recorded per point to detect mismatches
    pub model: String,
}

/// A memory that a search found.
#[derive(Debug)]
pub struct VectorSearchHit {
    pub memory_id: String,
    /// bit pattern of the similarity
    pub score: u32,
}

/// The contents of a [`VectorRecord`].
pub struct PointView {
    pub memory_id: Seq<char>,
    pub vector: Seq<u32>,
    pub model: Seq<char>,
}

/// The contents of a [`VectorSearchHit`].
pub struct HitView {
    pub memory_id: Seq<char>,
    pub score: u32,
}

impl View for VectorRecord {
    type V = PointView;

    open spec fn view(&self) -> PointView {
        PointView { memory_id: self.memory_id@, vector: self.vector@, model: self.model@ }
    }
}

impl View for VectorSearchHit {
    type V = HitView;

    open spec fn view(&self) -> HitView {
        HitView { memory_id: self.memory_id@, score: self.score }
    }
}

/// The contents of a list of points.
pub open spec fn points(list: Seq<VectorRecord>) -> Seq<PointView> {
    list.map_values(|p: VectorRecord| p@)
}

/// The contents of a list of hits.
pub open spec fn hits(list: Seq<VectorSearchHit>) -> Seq<HitView> {
    list.map_values(|h: VectorSearchHit| h@)
}

/// A copy of a list of bit patterns.
pub fn clone_bits(list: &Vec<u32>) -> (r: Vec<u32>)
    ensures
        r@ == list@,
{
    let mut r: Vec<u32> = Vec::new();
    let mut i: usize = 0;
    while i < list.len()
        invariant
            i <= list.len(),
            r@ =~= list@.take(i as int),
        decreases list.len() - i,
    {
        r.push(list[i]);
        i += 1;
    }
    r
}

impl Clone for VectorRecord {
    fn clone(&self) -> (r: Self)
        ensures
            r@ == self@,
    {
        VectorRecord {
            memory_id: self.memory_id.clone(),
            vector: clone_bits(&self.vector),
            model: self.model.clone(),
        }
    }
}

impl Clone for VectorSearchHit {
    fn clone(&self) -> (r: Self)
        ensures
            r@ == self@,
    {
        VectorSearchHit { memory_id: self.memory_id.clone(), score: self.score }
    }
}

// ---- point ids -------------------------------------------------------------

/// Whether `c` is a hexadecimal digit of either case.
pub open spec fn is_hex(c: char) -> bool {
    is_lower_hex(c) || 'A' <= c <= 'F'
}

/// `c` in lower case if it is an ASCII letter.
pub open spec fn ascii_lower(c: char) -> char {
    if 'A' <= c <= 'Z' {
        ((c as u32) + 32) as char
    } else {
        c
    }
}

/// `s` with its ASCII letters in lower case.
pub open spec fn ascii_lower_text(s: Seq<char>) -> Seq<char> {
    s.map_values(|c: char| ascii_lower(c))
}

/// 32 characters in groups of 8, 4, 4, 4 and 12 with hyphens between them.
pub open spec fn grouped(h: Seq<char>) -> Seq<char> {
    h.subrange(0, 8) + seq!['-'] + h.subrange(8, 12) + seq!['-'] + h.subrange(12, 16) + seq!['-']
        + h.subrange(16, 20) + seq!['-'] + h.subrange(20, 32)
}

/// A hyphenated UUID of either case, in lower case.
pub open spec fn hyphenated_reading(s: Seq<char>) -> Option<Seq<char>> {
    if s.len() == 36 && forall|i: int|
        0 <= i < 36 ==> if hyphen_at(i) {
            #[trigger] s[i] == '-'
        } else {
            is_hex(s[i])
        } {
        Some(ascii_lower_text(s))
    } else {
        None
    }
}

/// What `s` says as a UUID, in lower-case hyphenated form: 32 hexadecimal
/// digits, or a hyphenated UUID that may stand in braces or behind `urn:uuid:`.
pub open spec fn uuid_reading(s: Seq<char>) -> Option<Seq<char>> {
    if s.len() == 32 {
        if forall|i: int| 0 <= i < 32 ==> is_hex(#[trigger] s[i]) {
            Some(grouped(ascii_lower_text(s)))
        } else {
            None
        }
    } else if s.len() == 36 {
        hyphenated_reading(s)
    } else if s.len() == 38 && s[0] == '{' && s[37] == '}' {
        hyphenated_reading(s.subrange(1, 37))
    } else if s.len() == 45 && ascii_lower_text(s.take(9)) == "urn:uuid:"@ {
        hyphenated_reading(s.skip(9))
    } else {
        None
    }
}

/// `uuid::Uuid::parse_str`, its result written out by `Uuid`'s `Display`: reads
/// the simple, hyphenated, braced and URN forms of a UUID, hexadecimal digits
/// and the URN prefix in either case, and gives it back in lower-case
/// hyphenated form; anything else is refused.
#[verifier::external_body]
fn read_uuid(s: &str) -> (r: Option<String>)
    ensures
        crate::text::optional_text(r) == uuid_reading(s@),
{
    uuid::Uuid::parse_str(s).ok().map(|u| u.to_string())
}

/// What MD5 gives for these bytes.
pub uninterp spec fn md5_digest(bytes: Seq<u8>) -> Seq<u8>;

/// `md5::Md5::digest`: the MD5 digest of the bytes, 16 bytes that depend on
/// nothing else.
#[verifier::external_body]
pub(crate) fn md5_of(bytes: &[u8]) -> (r: Vec<u8>)
    ensures
        r@ == md5_digest(bytes@),
        r@.len() == 16,
{
    Md5::digest(bytes).to_vec()
}

/// Bytes in lower-case hexadecimal, two digits each.
pub open spec fn hex(bytes: Seq<u8>) -> Seq<char>
    decreases bytes.len(),
{
    if bytes.len() == 0 {
        Seq::empty()
    } else {
        hex(bytes.drop_last()).push(digit(bytes.last() as int / 16)).push(
            digit(bytes.last() as int % 16),
        )
    }
}

proof fn lemma_hex(bytes: Seq<u8>)
    ensures
        hex(bytes).len() == 2 * bytes.len(),
        forall|i: int| 0 <= i < hex(bytes).len() ==> is_lower_hex(#[trigger] hex(bytes)[i]),
    decreases bytes.len(),
{
    if bytes.len() > 0 {
        lemma_hex(bytes.drop_last());
    }
}

/// Grouping 32 lower-case hexadecimal digits gives a UUID.
proof fn lemma_grouped_is_uuid(h: Seq<char>)
    requires
        h.len() == 32,
        forall|i: int| 0 <= i < 32 ==> is_lower_hex(#[trigger] h[i]),
    ensures
        is_uuid(grouped(h)),
{
    let g = grouped(h);
    assert forall|i: int| 0 <= i < 36 implies if hyphen_at(i) {
        #[trigger] g[i] == '-'
    } else {
        is_lower_hex(g[i])
    } by {
        if i < 8 {
            assert(g[i] == h[i]);
        } else if 8 < i < 13 {
            assert(g[i] == h[i - 1]);
        } else if 13 < i < 18 {
            assert(g[i] == h[i - 2]);
        } else if 18 < i < 23 {
            assert(g[i] == h[i - 3]);
        } else if 23 < i {
            assert(g[i] == h[i - 4]);
        }
    }
}

proof fn lemma_lower_hex(c: char)
    requires
        is_hex(c),
    ensures
        is_lower_hex(ascii_lower(c)),
        is_lower_hex(c) ==> ascii_lower(c) == c,
{
    if 'A' <= c <= 'F' {
        assert(((c as u32) + 32) as char as u32 == c as u32 + 32);
    }
}

/// What is read as a UUID has the shape of one.
pub proof fn lemma_reading_is_uuid(s: Seq<char>)
    ensures
        uuid_reading(s) matches Some(t) ==> is_uuid(t),
        is_uuid(s) ==> uuid_reading(s) == Some(s),
{
    if s.len() == 32 && uuid_reading(s) is Some {
        let h = ascii_lower_text(s);
        assert forall|i: int| 0 <= i < 32 implies is_lower_hex(#[trigger] h[i]) by {
            assert(is_hex(s[i]));
            lemma_lower_hex(s[i]);
        }
        lemma_grouped_is_uuid(h);
    }
    lemma_hyphenated_reading(s);
    if s.len() == 38 {
        lemma_hyphenated_reading(s.subrange(1, 37));
    }
    if s.len() == 45 {
        lemma_hyphenated_reading(s.skip(9));
    }
}

proof fn lemma_hyphenated_reading(s: Seq<char>)
    ensures
        hyphenated_reading(s) matches Some(t) ==> is_uuid(t),
        is_uuid(s) ==> hyphenated_reading(s) == Some(s),
{
    if hyphenated_reading(s) is Some {
        let t = ascii_lower_text(s);
        assert forall|i: int| 0 <= i < 36 implies if hyphen_at(i) {
            #[trigger] t[i] == '-'
        } else {
            is_lower_hex(t[i])
        } by {
            assert(s[i] == s[i]);
            if !hyphen_at(i) {
                lemma_lower_hex(s[i]);
            }
        }
    }
    if is_uuid(s) {
        assert forall|i: int| 0 <= i < 36 implies if hyphen_at(i) {
            #[trigger] s[i] == '-'
        } else {
            is_hex(s[i])
        } by {}
        assert forall|i: int| 0 <= i < 36 implies ascii_lower(#[trigger] s[i]) == s[i] by {
            if !hyphen_at(i) {
                lemma_lower_hex(s[i]);
            }
        }
        assert(ascii_lower_text(s) =~= s);
    }
}

/// `id` without a leading `mem_`.
pub open spec fn without_prefix(id: Seq<char>) -> Seq<char> {
    if id.len() >= 4 && id.take(4) == ID_PREFIX@ {
        id.skip(4)
    } else {
        id
    }
}

/// The id of a memory's point: the UUID in the memory id if there is one, else
/// the MD5 digest of the whole memory id in the shape of one.
pub open spec fn point_uuid(memory_id: Seq<char>) -> Seq<char> {
    match uuid_reading(without_prefix(memory_id)) {
        Some(u) => u,
        None => grouped(hex(md5_digest(encode_utf8(memory_id)))),
    }
}

/// A 16-byte digest in the shape of a UUID.
pub fn uuid_from_digest(digest: &Vec<u8>) -> (r: String)
    requires
        digest@.len() == 16,
    ensures
        r@ == grouped(hex(digest@)),
        is_uuid(r@),
{
    let mut h: Vec<char> = Vec::new();
    let mut i: usize = 0;
    while i < digest.len()
        invariant
            i <= digest.len(),
            h@ == hex(digest@.take(i as int)),
        decreases digest.len() - i,
    {
        let b = digest[i];
        assert(digest@.take(i + 1).drop_last() =~= digest@.take(i as int));
        h.push(digit_char(b / 16));
        h.push(digit_char(b % 16));
        i += 1;
    }
    assert(digest@.take(16) =~= digest@);
    proof {
        lemma_hex(digest@);
        lemma_grouped_is_uuid(hex(digest@));
    }
    let mut r = text_between(&h, 0, 8);
    r.push('-');
    r.append(text_between(&h, 8, 12).as_str());
    r.push('-');
    r.append(text_between(&h, 12, 16).as_str());
    r.push('-');
    r.append(text_between(&h, 16, 20).as_str());
    r.push('-');
    r.append(text_between(&h, 20, 32).as_str());
    assert(r@ =~= grouped(h@));
    r
}

/// Point ids of the index must be UUIDs. Memory ids are `mem_<uuid>`: the
/// prefix is stripped to reuse the UUID; any other id is hashed into one.
pub fn uuid_to_ulid(memory_id: &str) -> (r: String)
    ensures
        r@ == point_uuid(memory_id@),
        is_uuid(r@),
        is_new_id(memory_id@) ==> memory_id@ == ID_PREFIX@ + r@,
{
    let chars = chars_of(memory_id);
    proof {
        reveal_strlit("mem_");
    }
    let mut stripped = chars.len() >= 4;
    if stripped {
        let head = text_between(&chars, 0, 4);
        stripped = head == ID_PREFIX.to_string();
        assert(chars@.subrange(0, 4) =~= chars@.take(4));
    }
    let rest = if stripped {
        text_between(&chars, 4, chars.len())
    } else {
        memory_id.to_string()
    };
    assert(stripped ==> rest@ =~= memory_id@.skip(4));
    assert(rest@ == without_prefix(memory_id@));
    proof {
        lemma_reading_is_uuid(rest@);
        lemma_new_id_reading(memory_id@);
    }
    match read_uuid(rest.as_str()) {
        Some(u) => u,
        None => uuid_from_digest(&md5_of(memory_id.as_bytes())),
    }
}

/// The UUID of a fresh id is what its point id reads.
proof fn lemma_new_id_reading(id: Seq<char>)
    ensures
        is_new_id(id) ==> without_prefix(id) == id.skip(4) && uuid_reading(id.skip(4)) == Some(
            id.skip(4),
        ) && id == ID_PREFIX@ + id.skip(4),
{
    if is_new_id(id) {
        reveal_strlit("mem_");
        let u = choose|u: Seq<char>| #[trigger] is_random_uuid(u) && id == ID_PREFIX@ + u;
        assert(id.skip(4) =~= u);
        assert(id.take(4) =~= ID_PREFIX@);
        lemma_reading_is_uuid(u);
    }
}

/// Two different fresh memory ids have different point ids.
pub proof fn law_fresh_ids_have_own_points(a: Seq<char>, b: Seq<char>)
    requires
        is_new_id(a),
        is_new_id(b),
        a != b,
    ensures
        point_uuid(a) != point_uuid(b),
{
    lemma_new_id_reading(a);
    lemma_new_id_reading(b);
}

/// What is read as a UUID does not begin like a memory id.
proof fn lemma_uuids_have_no_prefix(u: Seq<char>)
    requires
        uuid_reading(u) is Some,
    ensures
        without_prefix(u) == u,
        without_prefix(ID_PREFIX@ + u) == u,
{
    reveal_strlit("mem_");
    reveal_strlit("urn:uuid:");
    assert(u[0] != 'm') by {
        if u.len() == 32 {
            assert(is_hex(u[0]));
        } else if u.len() == 36 {
            assert(is_hex(u[0]));
        } else if u.len() == 45 {
            assert(ascii_lower_text(u.take(9))[0] == 'u');
            assert(ascii_lower(u[0]) == 'u');
        }
    }
    if u.take(4) == ID_PREFIX@ {
        assert(u.take(4)[0] == 'm');
    }
    assert((ID_PREFIX@ + u).take(4) =~= ID_PREFIX@);
    assert((ID_PREFIX@ + u).skip(4) =~= u);
}

/// A UUID in any form is its own point id, with the prefix of a memory id or
/// without it.
pub proof fn law_uuids_are_their_points(u: Seq<char>)
    requires
        uuid_reading(u) is Some,
    ensures
        point_uuid(ID_PREFIX@ + u) == uuid_reading(u)->0,
        point_uuid(u) == uuid_reading(u)->0,
{
    lemma_uuids_have_no_prefix(u);
}

/// Different UUIDs never share a point, in whichever form and with the prefix
/// or without it.
pub proof fn law_different_uuids_have_own_points(a: Seq<char>, b: Seq<char>)
    requires
        uuid_reading(a) is Some,
        uuid_reading(b) is Some,
        uuid_reading(a) != uuid_reading(b),
    ensures
        point_uuid(a) != point_uuid(b),
        point_uuid(ID_PREFIX@ + a) != point_uuid(ID_PREFIX@ + b),
        point_uuid(ID_PREFIX@ + a) != point_uuid(b),
{
    law_uuids_are_their_points(a);
    law_uuids_are_their_points(b);
}

/// A point id is its own point id.
pub proof fn law_point_ids_are_stable(memory_id: Seq<char>)
    ensures
        is_uuid(point_uuid(memory_id)) ==> point_uuid(point_uuid(memory_id)) == point_uuid(
            memory_id,
        ),
{
    let u = point_uuid(memory_id);
    if is_uuid(u) {
        reveal_strlit("mem_");
        assert(u[0] != 'm');
        assert(ID_PREFIX@[0] == 'm');
        if u.take(4) == ID_PREFIX@ {
            assert(u.take(4)[0] == 'm');
        }
        lemma_reading_is_uuid(u);
    }
}

// ---- order of scores -------------------------------------------------------

/// Whether a bit pattern is that of "not a number".
pub open spec fn is_nan(bits: u32) -> bool {
    bits % 0x8000_0000 > 0x7f80_0000
}

/// The place of a single-precision number among all of them, by its bit
/// pattern: numbers compare as their places do, and the two zeros share one.
pub open spec fn place(bits: u32) -> int {
    if bits < 0x8000_0000 {
        bits as int
    } else {
        0x8000_0000 - bits
    }
}

/// The place of a single-precision number among all of them.
pub fn score_place(bits: u32) -> (r: i64)
    ensures
        r == place(bits),
{
    if bits < 0x8000_0000 {
        bits as i64
    } else {
        0x8000_0000 - bits as i64
    }
}

/// Whether `a` comes before `b` in a search result: by score, the highest
/// first, and by age where the scores are equal.
pub open spec fn outranks(scores: Seq<u32>, a: int, b: int) -> bool {
    place(scores[a]) > place(scores[b]) || (place(scores[a]) == place(scores[b]) && a < b)
}

/// Whether every score is a number.
pub open spec fn no_nan(scores: Seq<u32>) -> bool {
    forall|i: int| 0 <= i < scores.len() ==> !is_nan(#[trigger] scores[i])
}

/// Whether `order` lists the points `0..n`, each once.
pub open spec fn lists_all(order: Seq<int>, n: int) -> bool {
    &&& order.len() == n
    &&& order.no_duplicates()
    &&& forall|i: int| 0 <= i < n ==> 0 <= #[trigger] order[i] < n
}

/// Whether `order` lists the points `0..n`, each once, best first.
pub open spec fn is_ranking(order: Seq<int>, scores: Seq<u32>, n: int) -> bool {
    &&& order.len() == n
    &&& forall|i: int| 0 <= i < n ==> 0 <= #[trigger] order[i] < n
    &&& forall|i: int, j: int|
        #![trigger order[i], order[j]]
        0 <= i < j < n ==> outranks(scores, order[i], order[j])
}

/// The indices of a list of machine integers.
pub open spec fn indices(list: Seq<usize>) -> Seq<int> {
    list.map_values(|i: usize| i as int)
}

/// The points by score, best first; of equal scores the older comes first.
pub fn rank(scores: &Vec<u32>) -> (r: Vec<usize>)
    ensures
        is_ranking(indices(r@), scores@, scores@.len() as int),
{
    let mut order: Vec<usize> = Vec::new();
    let mut n: usize = 0;
    while n < scores.len()
        invariant
            n <= scores.len(),
            is_ranking(indices(order@), scores@, n as int),
        decreases scores.len() - n,
    {
        let key = score_place(scores[n]);
        let ghost before = indices(order@);
        assert forall|k: int| 0 <= k < order.len() implies 0 <= #[trigger] order@[k] < n by {
            assert(before[k] == order@[k]);
        }
        let mut at: usize = 0;
        while at < order.len() && score_place(scores[order[at]]) >= key
            invariant
                n < scores.len(),
                at <= order.len(),
                before == indices(order@),
                is_ranking(before, scores@, n as int),
                key == place(scores@[n as int]),
                forall|k: int| 0 <= k < order.len() ==> 0 <= #[trigger] order@[k] < n,
                forall|k: int| 0 <= k < at ==> outranks(scores@, #[trigger] before[k], n as int),
            decreases order.len() - at,
        {
            assert(before[at as int] == order@[at as int]);
            at += 1;
        }
        order.insert(at, n);
        proof {
            let after = indices(order@);
            assert(after =~= before.insert(at as int, n as int));
            if at < before.len() {
                assert(outranks(scores@, n as int, before[at as int]));
            }
            assert forall|i: int| 0 <= i < n + 1 implies 0 <= #[trigger] after[i] < n + 1 by {
                if i < at {
                    assert(after[i] == before[i]);
                } else if i > at {
                    assert(after[i] == before[i - 1]);
                }
            }
            assert forall|i: int, j: int|
                #![trigger after[i], after[j]]
                0 <= i < j < n + 1 implies outranks(scores@, after[i], after[j]) by {
                let p = if i < at { i } else { i - 1 };
                let q = if j < at { j } else { j - 1 };
                if i == at {
                    assert(after[j] == before[q]);
                    if q > at {
                        assert(outranks(scores@, before[at as int], before[q]));
                    }
                } else if j == at {
                    assert(after[i] == before[i]);
                } else {
                    assert(after[i] == before[p]);
                    assert(after[j] == before[q]);
                }
            }
        }
        n += 1;
    }
    order
}

/// There is one ranking of given scores.
pub proof fn law_ranking_is_unique(a: Seq<int>, b: Seq<int>, scores: Seq<u32>, n: int)
    requires
        is_ranking(a, scores, n),
        is_ranking(b, scores, n),
    ensures
        a == b,
{
    assert forall|k: int| 0 <= k < n implies a[k] == b[k] by {
        lemma_rankings_agree(a, b, scores, n, k);
    }
    assert(a =~= b);
}

/// Two rankings that agree up to `k` agree at `k`.
proof fn lemma_rankings_agree(a: Seq<int>, b: Seq<int>, scores: Seq<u32>, n: int, k: int)
    requires
        is_ranking(a, scores, n),
        is_ranking(b, scores, n),
        0 <= k < n,
    ensures
        a[k] == b[k],
    decreases k,
{
    assert forall|i: int| 0 <= i < k implies a[i] == b[i] by {
        lemma_rankings_agree(a, b, scores, n, i);
    }
    lemma_ranking_covers(a, scores, n, b[k]);
    lemma_ranking_covers(b, scores, n, a[k]);
    let i = choose|i: int| 0 <= i < n && a[i] == b[k];
    let j = choose|j: int| 0 <= j < n && b[j] == a[k];
    if i < k {
        assert(outranks(scores, b[i], b[k]));
    }
    if j < k {
        assert(outranks(scores, a[j], a[k]));
    }
    if i > k && j > k {
        assert(outranks(scores, a[k], a[i]));
        assert(outranks(scores, b[k], b[j]));
    }
}

/// A ranking lists every point once.
pub proof fn lemma_ranking_lists_all(order: Seq<int>, scores: Seq<u32>, n: int)
    requires
        is_ranking(order, scores, n),
    ensures
        lists_all(order, n),
{
    assert forall|i: int, j: int|
        0 <= i < order.len() && 0 <= j < order.len() && i != j implies order[i] != order[j] by {
        if i < j {
            assert(outranks(scores, order[i], order[j]));
        } else {
            assert(outranks(scores, order[j], order[i]));
        }
    }
}

/// A list of all points holds every one of them.
pub proof fn lemma_lists_all(order: Seq<int>, n: int, x: int)
    requires
        lists_all(order, n),
        0 <= x < n,
    ensures
        exists|i: int| 0 <= i < n && #[trigger] order[i] == x,
{
    order.unique_seq_to_set();
    let all = vstd::set_lib::set_int_range(0, n);
    vstd::set_lib::lemma_int_range(0, n);
    assert(order.to_set().subset_of(all)) by {
        assert forall|y: int| order.to_set().contains(y) implies all.contains(y) by {
            let i = choose|i: int| 0 <= i < order.len() && order[i] == y;
            assert(0 <= order[i] < n);
        }
    }
    vstd::set_lib::lemma_subset_equality(order.to_set(), all);
    assert(order.to_set().contains(x));
}

/// A ranking holds every point.
proof fn lemma_ranking_covers(order: Seq<int>, scores: Seq<u32>, n: int, x: int)
    requires
        is_ranking(order, scores, n),
        0 <= x < n,
    ensures
        exists|i: int| 0 <= i < n && #[trigger] order[i] == x,
{
    lemma_ranking_lists_all(order, scores, n);
    lemma_lists_all(order, n, x);
}

// ---- an index in memory ----------------------------------------------------

/// The position of the first point of a memory; the length if there is none.
pub open spec fn position_of(index: Seq<PointView>, memory_id: Seq<char>) -> int
    decreases index.len(),
{
    if index.len() == 0 {
        0
    } else if index[0].memory_id == memory_id {
        0
    } else {
        1 + position_of(index.skip(1), memory_id)
    }
}

/// The index with a memory's point replaced, or added at the end.
pub open spec fn upserted(index: Seq<PointView>, point: PointView) -> Seq<PointView> {
    let at = position_of(index, point.memory_id);
    if at < index.len() {
        index.update(at, point)
    } else {
        index.push(point)
    }
}

/// The index without a memory's points.
pub open spec fn unindexed(index: Seq<PointView>, memory_id: Seq<char>) -> Seq<PointView> {
    index.filter(|p: PointView| p.memory_id != memory_id)
}

/// Whether no memory has two points.
pub open spec fn one_point_each(index: Seq<PointView>) -> bool {
    forall|i: int, j: int|
        #![trigger index[i], index[j]]
        0 <= i < j < index.len() ==> index[i].memory_id != index[j].memory_id
}

/// The hit for a point.
pub open spec fn hit_of(index: Seq<PointView>, scores: Seq<u32>, i: int) -> HitView {
    HitView { memory_id: index[i].memory_id, score: scores[i] }
}

/// Whether a hit is that of a point of the index.
pub open spec fn is_hit_on(hit: HitView, index: Seq<PointView>, scores: Seq<u32>) -> bool {
    exists|i: int| 0 <= i < index.len() && #[trigger] hit_of(index, scores, i) == hit
}

/// Whether `found` holds `top_k` points of the index, each once, or all of them
/// if there are fewer.
pub open spec fn is_selection(
    found: Seq<HitView>,
    index: Seq<PointView>,
    scores: Seq<u32>,
    top_k: int,
) -> bool {
    exists|order: Seq<int>| #[trigger]
        lists_all(order, index.len() as int) && {
            let k = if top_k < index.len() { top_k } else { index.len() as int };
            found == order.take(k).map_values(|i: int| hit_of(index, scores, i))
        }
}

/// Whether `found` is the result of a search: the `top_k` best points by
/// `scores`, or all of them if there are fewer.
pub open spec fn is_search_result(
    found: Seq<HitView>,
    index: Seq<PointView>,
    scores: Seq<u32>,
    top_k: int,
) -> bool {
    exists|order: Seq<int>| #[trigger]
        is_ranking(order, scores, index.len() as int) && {
            let k = if top_k < index.len() { top_k } else { index.len() as int };
            found == order.take(k).map_values(|i: int| hit_of(index, scores, i))
        }
}

/// Whether `list` holds the embedding models of an index, each once and in
/// ascending order.
pub open spec fn are_models_of(list: Seq<Seq<char>>, index: Seq<PointView>) -> bool {
    &&& crate::text::ascending(list)
    &&& forall|m: Seq<char>| #[trigger]
        list.contains(m) <==> exists|i: int| 0 <= i < index.len() && (#[trigger] index[i]).model == m
}

/// `position_of` is the first position of the memory's points.
pub proof fn lemma_position_of(index: Seq<PointView>, memory_id: Seq<char>)
    ensures
        0 <= position_of(index, memory_id) <= index.len(),
        position_of(index, memory_id) < index.len() ==> index[position_of(
            index,
            memory_id,
        )].memory_id == memory_id,
        forall|i: int|
            0 <= i < position_of(index, memory_id) ==> (#[trigger] index[i]).memory_id
                != memory_id,
    decreases index.len(),
{
    if index.len() > 0 && index[0].memory_id != memory_id {
        lemma_position_of(index.skip(1), memory_id);
        let p = position_of(index.skip(1), memory_id);
        if p < index.skip(1).len() {
            assert(index.skip(1)[p] == index[p + 1]);
        }
        assert forall|i: int|
            0 <= i < position_of(index, memory_id) implies (#[trigger] index[i]).memory_id
            != memory_id by {
            if i > 0 {
                assert(index.skip(1)[i - 1] == index[i]);
            }
        }
    }
}

/// Vectors kept in memory.
pub struct InMemoryVectorStore {
    points: Vec<VectorRecord>,
}

impl View for InMemoryVectorStore {
    type V = Seq<PointView>;

    closed spec fn view(&self) -> Seq<PointView> {
        points(self.points@)
    }
}

impl Default for InMemoryVectorStore {
    fn default() -> (r: Self)
        ensures
            r@ == Seq::<PointView>::empty(),
    {
        InMemoryVectorStore::new()
    }
}

impl InMemoryVectorStore {
    /// An index without points.
    pub fn new() -> (r: Self)
        ensures
            r@ == Seq::<PointView>::empty(),
            one_point_each(r@),
    {
        let r = InMemoryVectorStore { points: Vec::new() };
        assert(r@ =~= Seq::<PointView>::empty());
        r
    }

    /// Replaces the point of a memory, or adds one.
    pub fn upsert(&mut self, record: &VectorRecord)
        ensures
            final(self)@ == upserted(old(self)@, record@),
            one_point_each(old(self)@) ==> one_point_each(final(self)@),
    {
        let ghost before = self@;
        proof {
            lemma_position_of(before, record@.memory_id);
            lemma_upserted_one_each(before, record@);
        }
        let mut i: usize = 0;
        while i < self.points.len()
            invariant
                i <= self.points.len(),
                self@ == before,
                forall|k: int| 0 <= k < i ==> (#[trigger] before[k]).memory_id
                    != record@.memory_id,
                0 <= position_of(before, record@.memory_id) <= before.len(),
            ensures
                i <= self.points.len(),
                self@ == before,
                forall|k: int| 0 <= k < i ==> (#[trigger] before[k]).memory_id
                    != record@.memory_id,
                i < self.points.len() ==> before[i as int].memory_id == record@.memory_id,
            decreases self.points.len() - i,
        {
            assert(before[i as int] == self.points@[i as int]@);
            if self.points[i].memory_id == record.memory_id {
                break;
            }
            i += 1;
        }
        let ghost at = position_of(before, record@.memory_id);
        assert(i == at) by {
            if i < at {
                assert(before[i as int].memory_id != record@.memory_id);
            }
            if at < i {
                assert(before[at].memory_id != record@.memory_id);
            }
        }
        if i < self.points.len() {
            self.points.set(i, record.clone());
            assert(self@ =~= before.update(at, record@));
        } else {
            self.points.push(record.clone());
            assert(self@ =~= before.push(record@));
        }
    }

    /// The `top_k` points with the best scores, where `scores` holds the
    /// similarity of each point, oldest point first. Where a score is not a
    /// number the order is left open.
    pub fn search(&self, scores: &Vec<u32>, top_k: usize) -> (r: Vec<VectorSearchHit>)
        requires
            scores@.len() == self@.len(),
        ensures
            is_selection(hits(r@), self@, scores@, top_k as int),
            no_nan(scores@) ==> is_search_result(hits(r@), self@, scores@, top_k as int),
    {
        let order = rank(scores);
        let n = if top_k < order.len() {
            top_k
        } else {
            order.len()
        };
        let ghost ranked = indices(order@).take(n as int).map_values(
            |i: int| hit_of(self@, scores@, i),
        );
        let mut r: Vec<VectorSearchHit> = Vec::new();
        let mut i: usize = 0;
        while i < n
            invariant
                i <= n <= order.len(),
                scores@.len() == self@.len(),
                is_ranking(indices(order@), scores@, scores@.len() as int),
                ranked == indices(order@).take(n as int).map_values(
                    |i: int| hit_of(self@, scores@, i),
                ),
                hits(r@) =~= ranked.take(i as int),
            decreases n - i,
        {
            let at = order[i];
            assert(indices(order@)[i as int] == at);
            let ghost before = hits(r@);
            let hit = VectorSearchHit {
                memory_id: self.points[at].memory_id.clone(),
                score: scores[at],
            };
            assert(self@[at as int] == self.points@[at as int]@);
            r.push(hit);
            assert(hits(r@) =~= before.push(hit@));
            assert(ranked[i as int] == hit@);
            i += 1;
        }
        assert(hits(r@) =~= ranked);
        proof {
            lemma_ranking_lists_all(indices(order@), scores@, scores@.len() as int);
        }
        r
    }

    /// Removes the points of a memory.
    pub fn delete(&mut self, memory_id: &str)
        ensures
            final(self)@ == unindexed(old(self)@, memory_id@),
            one_point_each(old(self)@) ==> one_point_each(final(self)@),
    {
        let ghost before = self@;
        let wanted = memory_id.to_string();
        let ghost keep = |p: PointView| p.memory_id != memory_id@;
        proof {
            reveal(Seq::filter);
            assert(before.take(0).filter(keep) =~= Seq::<PointView>::empty());
            lemma_unindexed_one_each(before, memory_id@);
        }
        let mut kept: Vec<VectorRecord> = Vec::new();
        let mut i: usize = 0;
        while i < self.points.len()
            invariant
                i <= self.points.len(),
                self@ == before,
                wanted@ == memory_id@,
                keep == (|p: PointView| p.memory_id != memory_id@),
                points(kept@) == before.take(i as int).filter(keep),
            decreases self.points.len() - i,
        {
            let point = &self.points[i];
            proof {
                assert(before[i as int] == point@);
                lemma_filter_push(before.take(i as int), point@, keep);
                assert(before.take(i + 1) =~= before.take(i as int).push(point@));
            }
            if point.memory_id != wanted {
                let ghost old_points = points(kept@);
                kept.push(point.clone());
                assert(points(kept@) =~= old_points.push(point@));
            }
            i += 1;
        }
        assert(before.take(before.len() as int) =~= before);
        self.points = kept;
    }

    /// Removes every point.
    pub fn delete_all(&mut self)
        ensures
            final(self)@ == Seq::<PointView>::empty(),
    {
        self.points = Vec::new();
        assert(self@ =~= Seq::<PointView>::empty());
    }

    /// The number of points.
    pub fn count(&self) -> (r: u64)
        ensures
            r == self@.len(),
    {
        self.points.len() as u64
    }

    /// The point at a position, oldest first.
    pub fn point(&self, i: usize) -> (r: Option<&VectorRecord>)
        ensures
            match r {
                Some(p) => i < self@.len() && p@ == self@[i as int],
                None => i >= self@.len(),
            },
    {
        if i < self.points.len() {
            Some(&self.points[i])
        } else {
            None
        }
    }

    /// The embedding models of the points, each once, in ascending order.
    pub fn models(&self) -> (r: Vec<String>)
        ensures
            are_models_of(crate::text::texts(r@), self@),
    {
        let mut names: Vec<String> = Vec::new();
        assert(crate::text::texts(names@) =~= Seq::<Seq<char>>::empty());
        let mut i: usize = 0;
        while i < self.points.len()
            invariant
                i <= self.points.len(),
                are_models_of(crate::text::texts(names@), self@.take(i as int)),
            decreases self.points.len() - i,
        {
            let ghost before = crate::text::texts(names@);
            let ghost shorter = self@.take(i as int);
            let ghost longer = self@.take(i + 1);
            let model = &self.points[i].model;
            insert_name(&mut names, model);
            proof {
                let after = crate::text::texts(names@);
                assert(self@[i as int] == self.points@[i as int]@);
                assert forall|m: Seq<char>| #[trigger]
                    after.contains(m) <==> exists|k: int|
                        0 <= k < longer.len() && (#[trigger] longer[k]).model == m by {
                    if after.contains(m) {
                        if before.contains(m) {
                            let k = choose|k: int|
                                0 <= k < shorter.len() && (#[trigger] shorter[k]).model == m;
                            assert(longer[k].model == m);
                        } else {
                            assert(longer[i as int].model == m);
                        }
                    }
                    if exists|k: int| 0 <= k < longer.len() && (#[trigger] longer[k]).model == m {
                        let k = choose|k: int|
                            0 <= k < longer.len() && (#[trigger] longer[k]).model == m;
                        if k < i {
                            assert(shorter[k].model == m);
                            assert(before.contains(m));
                        }
                    }
                }
            }
            i += 1;
        }
        assert(self@.take(self@.len() as int) =~= self@);
        names
    }
}

/// Replacing or adding a point keeps one point per memory.
pub proof fn lemma_upserted_one_each(index: Seq<PointView>, point: PointView)
    ensures
        one_point_each(index) ==> one_point_each(upserted(index, point)),
{
    if one_point_each(index) {
        let at = position_of(index, point.memory_id);
        let after = upserted(index, point);
        lemma_position_of(index, point.memory_id);
        assert forall|i: int, j: int|
            #![trigger after[i], after[j]]
            0 <= i < j < after.len() implies after[i].memory_id != after[j].memory_id by {
            if j < index.len() {
                assert(index[i].memory_id != index[j].memory_id);
            } else {
                assert(index[i].memory_id != point.memory_id);
            }
        }
    }
}

/// Removing points keeps one point per memory.
pub proof fn lemma_unindexed_one_each(index: Seq<PointView>, memory_id: Seq<char>)
    ensures
        one_point_each(index) ==> one_point_each(unindexed(index, memory_id)),
    decreases index.len(),
{
    let keep = |p: PointView| p.memory_id != memory_id;
    if one_point_each(index) && index.len() > 0 {
        let rest = index.drop_last();
        let last = index.last();
        assert(rest.push(last) =~= index);
        assert(one_point_each(rest)) by {
            assert forall|i: int, j: int|
                #![trigger rest[i], rest[j]]
                0 <= i < j < rest.len() implies rest[i].memory_id != rest[j].memory_id by {
                assert(index[i].memory_id != index[j].memory_id);
            }
        }
        lemma_unindexed_one_each(rest, memory_id);
        lemma_filter_push(rest, last, keep);
        let f = rest.filter(keep);
        assert forall|i: int| 0 <= i < f.len() implies (#[trigger] f[i]).memory_id
            != last.memory_id by {
            assert(f.contains(f[i]));
            lemma_filter_contains(rest, keep, f[i]);
            let k = choose|k: int| 0 <= k < rest.len() && rest[k] == f[i];
            assert(index[k].memory_id != index[index.len() - 1].memory_id);
        }
    } else {
        reveal(Seq::filter);
    }
}

/// After an upsert the memory has exactly the new point.
pub proof fn law_upsert_is_read_back(index: Seq<PointView>, point: PointView)
    requires
        one_point_each(index),
    ensures
        upserted(index, point).contains(point),
        forall|i: int|
            0 <= i < upserted(index, point).len() && (#[trigger] upserted(
                index,
                point,
            )[i]).memory_id == point.memory_id ==> upserted(index, point)[i] == point,
{
    let at = position_of(index, point.memory_id);
    let after = upserted(index, point);
    lemma_position_of(index, point.memory_id);
    lemma_upserted_one_each(index, point);
    assert(after[at] == point);
    assert forall|i: int|
        0 <= i < after.len() && (#[trigger] after[i]).memory_id
            == point.memory_id implies after[i] == point by {
        if i < at {
            assert(after[i].memory_id != after[at].memory_id);
        } else if at < i {
            assert(after[at].memory_id != after[i].memory_id);
        }
    }
}

/// An upsert leaves the points of other memories as they are.
pub proof fn law_upsert_leaves_others(index: Seq<PointView>, point: PointView, other: PointView)
    requires
        other.memory_id != point.memory_id,
    ensures
        upserted(index, point).contains(other) <==> index.contains(other),
{
    let at = position_of(index, point.memory_id);
    let after = upserted(index, point);
    lemma_position_of(index, point.memory_id);
    if index.contains(other) {
        let k = choose|k: int| 0 <= k < index.len() && index[k] == other;
        assert(after[k] == other);
    }
    if after.contains(other) {
        let k = choose|k: int| 0 <= k < after.len() && after[k] == other;
        assert(k != at);
        assert(index[k] == other);
    }
}

/// Writing the same point a second time changes nothing.
pub proof fn law_upsert_is_idempotent(index: Seq<PointView>, point: PointView)
    ensures
        upserted(upserted(index, point), point) == upserted(index, point),
{
    let at = position_of(index, point.memory_id);
    let after = upserted(index, point);
    lemma_position_of(index, point.memory_id);
    lemma_position_of(after, point.memory_id);
    let again = position_of(after, point.memory_id);
    assert(after[at] == point);
    assert(again <= at) by {
        if at < again {
            assert(after[at].memory_id != point.memory_id);
        }
    }
    if again < at {
        assert(index[again].memory_id != point.memory_id);
        assert(after[again] == index[again]);
    }
    assert(after.update(at, point) =~= after);
}

/// A removed memory has no point, and removing leaves the points of others.
pub proof fn law_delete_removes_one_memory(
    index: Seq<PointView>,
    memory_id: Seq<char>,
    point: PointView,
)
    ensures
        unindexed(index, memory_id).contains(point) <==> index.contains(point) && point.memory_id
            != memory_id,
{
    lemma_filter_contains(index, |p: PointView| p.memory_id != memory_id, point);
}

/// A search gives at most `top_k` hits, never more than there are points, and
/// every hit is the score of a point of the index.
pub proof fn law_search_is_bounded(
    found: Seq<HitView>,
    index: Seq<PointView>,
    scores: Seq<u32>,
    top_k: int,
)
    requires
        is_search_result(found, index, scores, top_k),
        0 <= top_k,
    ensures
        found.len() == if top_k < index.len() {
            top_k
        } else {
            index.len() as int
        },
        forall|j: int|
            0 <= j < found.len() ==> is_hit_on(#[trigger] found[j], index, scores),
        forall|i: int, j: int|
            #![trigger found[i], found[j]]
            0 <= i < j < found.len() ==> place(found[i].score) >= place(found[j].score),
{
    let n = index.len() as int;
    let order = choose|order: Seq<int>| #[trigger]
        is_ranking(order, scores, n) && {
            let k = if top_k < n { top_k } else { n };
            found == order.take(k).map_values(|i: int| hit_of(index, scores, i))
        };
    assert forall|j: int| 0 <= j < found.len() implies is_hit_on(
        #[trigger] found[j],
        index,
        scores,
    ) by {
        assert(0 <= order[j] < n);
        assert(hit_of(index, scores, order[j]) == found[j]);
    }
    assert forall|i: int, j: int|
        #![trigger found[i], found[j]]
        0 <= i < j < found.len() implies place(found[i].score) >= place(found[j].score) by {
        assert(outranks(scores, order[i], order[j]));
    }
}

/// What a search leaves out is no better than what it found.
pub proof fn law_search_finds_the_best(
    found: Seq<HitView>,
    index: Seq<PointView>,
    scores: Seq<u32>,
    top_k: int,
    left_out: int,
)
    requires
        is_search_result(found, index, scores, top_k),
        0 <= top_k,
        0 <= left_out < index.len(),
        forall|j: int|
            0 <= j < found.len() ==> #[trigger] found[j] != hit_of(index, scores, left_out),
    ensures
        forall|j: int|
            0 <= j < found.len() ==> place((#[trigger] found[j]).score) >= place(
                scores[left_out],
            ),
{
    let n = index.len() as int;
    let k = if top_k < n { top_k } else { n };
    let order = choose|order: Seq<int>| #[trigger]
        is_ranking(order, scores, n) && {
            let k = if top_k < n { top_k } else { n };
            found == order.take(k).map_values(|i: int| hit_of(index, scores, i))
        };
    lemma_ranking_covers(order, scores, n, left_out);
    let p = choose|p: int| 0 <= p < n && #[trigger] order[p] == left_out;
    if p < k {
        assert(found[p] == hit_of(index, scores, left_out));
    }
    assert forall|j: int| 0 <= j < found.len() implies place((#[trigger] found[j]).score) >= place(
        scores[left_out],
    ) by {
        assert(outranks(scores, order[j], order[p]));
    }
}

} // verus!
