//! What JSON documents hold, what an endpoint's answer is read as, and how the
//! trigrams of a text are counted.
use crate::embeddings::{
    answered_vector, bucket, held, is_received, lossy_text, lower_case, occurrences, quoted,
    trigram_count, window_buckets, without_end_slashes, EmbeddingBackend, EmbeddingError,
    EmbeddingResult, EndpointEmbedding,
};
use crate::json::{first_field, json_document, numbers, Json, JsonView};
use crate::text::decimal;
use crate::vectors::md5_digest;
use vstd::prelude::*;
use vstd::string::*;
use vstd::utf8::*;

verus! {

// ---- JSON ------------------------------------------------------------------

/// A field is looked up by its name: one more field at the end is found if it has
/// the name and no field before it has. What is no object has no fields.
pub proof fn law_fields_are_found_by_name(
    fields: Seq<(Seq<char>, JsonView)>,
    name: Seq<char>,
    value: JsonView,
    key: Seq<char>,
    other: JsonView,
)
    ensures
        JsonView::Object(Seq::empty()).field(key) is None,
        JsonView::Object(fields.push((name, value))).field(key) == match JsonView::Object(
            fields,
        ).field(key) {
            Some(v) => Some(v),
            None => if name == key {
                Some(value)
            } else {
                None
            },
        },
        !(other is Object) ==> other.field(key) is None,
{
    lemma_first_field_push(fields, name, value, key);
}

proof fn lemma_first_field_push(
    fields: Seq<(Seq<char>, JsonView)>,
    name: Seq<char>,
    value: JsonView,
    key: Seq<char>,
)
    ensures
        first_field(fields.push((name, value)), key) == match first_field(fields, key) {
            Some(v) => Some(v),
            None => if name == key {
                Some(value)
            } else {
                None
            },
        },
    decreases fields.len(),
{
    let all = fields.push((name, value));
    if fields.len() == 0 {
        assert(all.skip(1) =~= Seq::<(Seq<char>, JsonView)>::empty());
        reveal_with_fuel(first_field, 2);
    } else {
        assert(all[0] == fields[0]);
        assert(all.skip(1) =~= fields.skip(1).push((name, value)));
        lemma_first_field_push(fields.skip(1), name, value, key);
    }
}

/// An item is looked up by its place. What is no array has no items.
pub proof fn law_items_are_found_by_place(items: Seq<JsonView>, i: int, other: JsonView)
    ensures
        0 <= i < items.len() ==> JsonView::Array(items).item(i) == Some(items[i]),
        !(0 <= i < items.len()) ==> JsonView::Array(items).item(i) is None,
        !(other is Array) ==> other.item(i) is None,
{
}

/// The numbers of an array follow its items: one more item at the end adds its
/// number, if it is one.
pub proof fn law_numbers_follow_the_items(items: Seq<JsonView>, item: JsonView)
    ensures
        numbers(Seq::empty()) == Seq::<u64>::empty(),
        item matches JsonView::Number(Some(n)) ==> numbers(items.push(item)) == numbers(
            items,
        ).push(n),
        !(item is Number) || item->Number_0 is None ==> numbers(items.push(item)) == numbers(items),
{
    assert(items.push(item).drop_last() =~= items);
    assert(items.push(item).last() == item);
}

/// The contents of a document show every part of it, in order.
pub proof fn law_documents_show_their_parts(json: Json)
    ensures
        json is Null ==> json.contents() is Null,
        json matches Json::Bool(b) ==> json.contents() == JsonView::Bool(b),
        json matches Json::Number(n) ==> json.contents() == JsonView::Number(n),
        json matches Json::Text(s) ==> json.contents() == JsonView::Text(s@),
        json matches Json::Array(list) ==> (json.contents() matches JsonView::Array(items)
            && items.len() == list@.len() && forall|i: int|
            0 <= i < items.len() ==> #[trigger] items[i] == list@[i].contents()),
        json matches Json::Object(list) ==> (json.contents() matches JsonView::Object(fields)
            && fields.len() == list@.len() && forall|i: int|
            0 <= i < fields.len() ==> (#[trigger] fields[i]).0 == list@[i].0@ && fields[i].1
                == list@[i].1.contents()),
{
    reveal_with_fuel(Json::contents, 2);
}

// ---- an endpoint's answer --------------------------------------------------

/// The numbers as items of an array.
pub open spec fn as_items(vector: Seq<u64>) -> Seq<JsonView> {
    vector.map_values(|n: u64| JsonView::Number(Some(n)))
}

proof fn lemma_numbers_of_items(vector: Seq<u64>)
    ensures
        numbers(as_items(vector)) == vector,
    decreases vector.len(),
{
    if vector.len() == 0 {
        assert(numbers(as_items(vector)) =~= vector);
    } else {
        lemma_numbers_of_items(vector.drop_last());
        assert(as_items(vector).drop_last() =~= as_items(vector.drop_last()));
        assert(as_items(vector).last() == JsonView::Number(Some(vector.last())));
        assert(numbers(as_items(vector)) =~= vector);
    }
}

/// An answer whose first item of "data" has the vector as its "embedding" is read
/// as that vector, whatever other items there are.
pub proof fn law_answered_vector_is_read_back(vector: Seq<u64>, more: Seq<JsonView>)
    ensures
        ({
            let first = JsonView::Object(
                seq![("embedding"@, JsonView::Array(as_items(vector)))],
            );
            let data = JsonView::Array(seq![first] + more);
            answered_vector(JsonView::Object(seq![("data"@, data)])) == Some(vector)
        }),
{
    lemma_numbers_of_items(vector);
    let first = JsonView::Object(seq![("embedding"@, JsonView::Array(as_items(vector)))]);
    let data = JsonView::Array(seq![first] + more);
    assert((seq![first] + more)[0] == first);
    assert(data.item(0) == Some(first));
    assert(first.field("embedding"@) == Some(JsonView::Array(as_items(vector))));
    assert(JsonView::Object(seq![("data"@, data)]).field("data"@) == Some(data));
}

/// An answer holds an embedding exactly if its "data" is an array that is not
/// empty, and the "embedding" of the first item is an array, whose numbers it is.
pub proof fn law_answers_with_a_vector(answer: JsonView)
    ensures
        answered_vector(answer) is Some <==> {
            &&& answer.field("data"@) is Some
            &&& answer.field("data"@)->0 is Array
            &&& answer.field("data"@)->0->Array_0.len() > 0
            &&& answer.field("data"@)->0->Array_0[0].field("embedding"@) is Some
            &&& answer.field("data"@)->0->Array_0[0].field("embedding"@)->0 is Array
        },
        answered_vector(answer) matches Some(v) ==> v == numbers(
            answer.field("data"@)->0->Array_0[0].field("embedding"@)->0->Array_0,
        ),
{
}

/// A successful answer with an embedding is the embedding, under the name of the
/// model; one without, one that is no document, and one that broke off are errors
/// of their own.
pub proof fn law_successful_answers(
    r: Result<EndpointEmbedding, EmbeddingError>,
    model: Seq<char>,
    status: u16,
    body: Result<Vec<u8>, String>,
)
    requires
        is_received(r, model, status, body),
        200 <= status <= 299,
    ensures
        r is Ok <==> (body matches Ok(bytes) && json_document(bytes@) is Ok && answered_vector(
            json_document(bytes@)->Ok_0,
        ) is Some),
        r matches Ok(e) ==> e.model@ == model && Some(e.vector@) == answered_vector(
            json_document(body->Ok_0@)->Ok_0,
        ),
        body matches Err(detail) ==> (r matches Err(EmbeddingError::Unreadable { detail: d }) && d@
            == detail@),
        body matches Ok(bytes) ==> (json_document(bytes@) matches Err(why) ==> (r matches Err(
            EmbeddingError::Undecodable { detail: d },
        ) && d@ == why)),
        (body matches Ok(bytes) && json_document(bytes@) is Ok && answered_vector(
            json_document(bytes@)->Ok_0,
        ) is None) ==> r == Err::<EndpointEmbedding, EmbeddingError>(EmbeddingError::NoVector),
{
}

/// An answer without success is an error with the status, the model and the text
/// of the answer, which is empty where the answer broke off.
pub proof fn law_answers_without_success(
    r: Result<EndpointEmbedding, EmbeddingError>,
    model: Seq<char>,
    status: u16,
    body: Result<Vec<u8>, String>,
)
    requires
        is_received(r, model, status, body),
        status < 200 || status > 299,
    ensures
        r matches Err(EmbeddingError::Endpoint { status: s, model: m, body: text }) && s == status
            && m@ == model && (body is Err ==> text@.len() == 0) && (body matches Ok(bytes)
            ==> text@ == lossy_text(bytes@) && (valid_utf8(bytes@) ==> text@ == decode_utf8(
            bytes@,
        ))),
{
}

/// An answer of up to 200 characters is quoted whole; of a longer one the first
/// 200 are, and an ellipsis.
pub proof fn law_long_answers_are_cut(start: Seq<char>, rest: Seq<char>)
    ensures
        start.len() <= 200 ==> quoted(start) == start,
        start.len() == 200 && rest.len() > 0 ==> quoted(start + rest) == start.push('\u{2026}'),
{
    if start.len() == 200 && rest.len() > 0 {
        assert((start + rest).take(200) =~= start);
    }
}

/// A slash at the end does not matter; an address without one is left alone.
pub proof fn law_end_slashes_do_not_matter(s: Seq<char>)
    ensures
        without_end_slashes(s.push('/')) == without_end_slashes(s),
        s.len() == 0 || s[s.len() - 1] != '/' ==> without_end_slashes(s) == s,
{
    assert(s.push('/').drop_last() =~= s);
}

/// The words for a failure hold everything that it is about.
pub proof fn law_words_for_embedding_errors(error: EmbeddingError)
    ensures
        error matches EmbeddingError::Endpoint { status, model, body } ==> error.words()
            == "embedding endpoint error "@ + decimal(status as nat) + " for model \""@ + model@
            + "\": "@ + quoted(body@),
        error matches EmbeddingError::Unreadable { detail } ==> error.words() == detail@,
        error matches EmbeddingError::Undecodable { detail } ==> error.words()
            == "error decoding response body: "@ + detail@,
        error is NoVector ==> error.words() == "embedding endpoint returned no embedding vector"@,
        error is NoLocalVector ==> error.words() == "fastembed returned no vectors"@,
{
}

// ---- trigrams --------------------------------------------------------------

/// A bucket is what is left of the first two bytes of a digest, the first one the
/// higher, after division by the number of buckets.
pub proof fn law_buckets_are_remainders(digest: Seq<u8>, dims: int)
    requires
        dims > 0,
    ensures
        0 <= bucket(digest, dims) < dims,
        exists|q: int|
            256 * digest[0] + digest[1] == #[trigger] (q * dims) + bucket(digest, dims),
{
    let n = digest[0] as int * 256 + digest[1] as int;
    vstd::arithmetic::div_mod::lemma_fundamental_div_mod(n, dims);
    vstd::arithmetic::div_mod::lemma_mod_bound(n, dims);
    let q = n / dims;
    assert(q * dims == dims * q) by (nonlinear_arith);
    assert(256 * digest[0] + digest[1] == (q * dims) + bucket(digest, dims));
}

/// One more item in a list is one more occurrence of it, and none of any other.
pub proof fn law_occurrences_are_counted(list: Seq<usize>, item: usize, b: int)
    ensures
        occurrences(Seq::empty(), b) == 0,
        item == b ==> occurrences(list.push(item), b) == occurrences(list, b) + 1,
        item != b ==> occurrences(list.push(item), b) == occurrences(list, b),
{
    assert(list.push(item).drop_last() =~= list);
}

/// A bucket counts up to 16777216 and stays there.
pub proof fn law_full_buckets_stay_full(count: nat)
    ensures
        held(0) == 0,
        count < 16_777_216 ==> held(count + 1) == held(count) + 1,
        count >= 16_777_216 ==> held(count) == 16_777_216,
{
}

/// Every byte but the first two ends a window of three bytes, which falls into
/// the bucket of its digest.
pub proof fn law_windows_follow_the_bytes(bytes: Seq<u8>, b: u8, dims: int)
    ensures
        bytes.len() < 3 ==> window_buckets(bytes, dims).len() == 0,
        bytes.len() >= 2 ==> window_buckets(bytes.push(b), dims) == window_buckets(
            bytes,
            dims,
        ).push(
            bucket(
                md5_digest(seq![bytes[bytes.len() - 2], bytes[bytes.len() - 1], b]),
                dims,
            ) as usize,
        ),
{
    if bytes.len() >= 2 {
        let all = bytes.push(b);
        let n = bytes.len() as int;
        assert(all.subrange(n - 2, n + 1) =~= seq![bytes[n - 2], bytes[n - 1], b]);
        assert forall|i: int| 0 <= i < n - 2 implies #[trigger] all.subrange(i, i + 3)
            == bytes.subrange(i, i + 3) by {
            assert(all.subrange(i, i + 3) =~= bytes.subrange(i, i + 3));
        }
        let last = bucket(md5_digest(seq![bytes[n - 2], bytes[n - 1], b]), dims) as usize;
        let longer = window_buckets(all, dims);
        let shorter = window_buckets(bytes, dims).push(last);
        assert(longer.len() == shorter.len());
        assert forall|i: int| 0 <= i < longer.len() implies longer[i] == shorter[i] by {
            if i < n - 2 {
                assert(all.subrange(i, i + 3) == bytes.subrange(i, i + 3));
            }
        }
        assert(longer =~= shorter);
    }
}

/// The count of a bucket is that of the windows of the text in lower case that
/// fall into it, as far as a bucket counts.
pub proof fn law_trigrams_are_counted(text: Seq<char>, dims: int, b: int)
    ensures
        ({
            let all = occurrences(window_buckets(encode_utf8(lower_case(text)), dims), b);
            &&& all <= 16_777_216 ==> trigram_count(text, dims, b) == all
            &&& all > 16_777_216 ==> trigram_count(text, dims, b) == 16_777_216
        }),
{
}

// ---- models ----------------------------------------------------------------

/// The model of an endpoint is the one that it was configured with; the local
/// one has a name of its own.
pub proof fn law_models_have_names(backend: EmbeddingBackend, result: EmbeddingResult)
    ensures
        backend matches EmbeddingBackend::OpenAICompatible(e) ==> backend.model_name() == e@.model,
        backend is Local ==> backend.model_name() == "bge-small-en-v1.5"@,
        result@.vector == result.vector@,
        result@.model == result.model@,
{
}

} // verus!
