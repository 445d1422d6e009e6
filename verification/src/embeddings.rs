//! Embedding providers:
//! - a local semantic model, which needs no network at inference time,
//! - an OpenAI-compatible `/embeddings` endpoint that the user configures,
//! - hash embeddings, a deterministic stand-in without semantics.
//!
//! What a provider asks for and what it makes of the answer is decided here;
//! sending and number crunching in floating point are left to the caller.
use crate::json::{numbers, parse_json, Json, JsonView};
use crate::text::{chars_of, clone_optional, decimal, decimal_text, joined, optional_text};
use crate::vectors::{md5_digest, md5_of};
use vstd::prelude::*;
use vstd::string::*;
use vstd::utf8::*;

verus! {

/// A text's embedding.
#[derive(Debug)]
pub struct EmbeddingResult {
    /// bit patterns of the single-precision components
    pub vector: Vec<u32>,
    pub model: String,
}

/// The contents of an [`EmbeddingResult`].
pub struct EmbeddingView {
    pub vector: Seq<u32>,
    pub model: Seq<char>,
}

impl View for EmbeddingResult {
    type V = EmbeddingView;

    open spec fn view(&self) -> EmbeddingView {
        EmbeddingView { vector: self.vector@, model: self.model@ }
    }
}

/// Why there is no embedding.
#[derive(Debug, PartialEq)]
pub enum EmbeddingError {
    /// the endpoint answered with a status that is no success
    Endpoint { status: u16, model: String, body: String },
    /// the endpoint's answer broke off
    Unreadable { detail: String },
    /// the endpoint's answer is no JSON document
    Undecodable { detail: String },
    /// the endpoint's answer holds no embedding
    NoVector,
    /// the local model gave nothing back
    NoLocalVector,
}

/// The longest part of an answer that an error message quotes, in characters.
pub const QUOTED_CHARS: usize = 200;

/// The beginning of an answer, with an ellipsis where something is left out.
pub open spec fn quoted(body: Seq<char>) -> Seq<char> {
    if body.len() > QUOTED_CHARS {
        body.take(QUOTED_CHARS as int).push('\u{2026}')
    } else {
        body
    }
}

impl EmbeddingError {
    /// What went wrong, in words.
    pub open spec fn words(self) -> Seq<char> {
        match self {
            EmbeddingError::Endpoint { status, model, body } => "embedding endpoint error "@
                + decimal(status as nat) + " for model \""@ + model@ + "\": "@ + quoted(body@),
            EmbeddingError::Unreadable { detail } => detail@,
            EmbeddingError::Undecodable { detail } => "error decoding response body: "@ + detail@,
            EmbeddingError::NoVector => "embedding endpoint returned no embedding vector"@,
            EmbeddingError::NoLocalVector => "fastembed returned no vectors"@,
        }
    }

    /// What went wrong, in words.
    pub fn message(&self) -> (r: String)
        ensures
            r@ == self.words(),
    {
        match self {
            EmbeddingError::Endpoint { status, model, body } => {
                let number = decimal_text(*status as u64);
                let mut r = joined("embedding endpoint error ", number.as_str());
                r.append(" for model \"");
                r.append(model.as_str());
                r.append("\": ");
                let short = quote(body.as_str());
                r.append(short.as_str());
                r
            },
            EmbeddingError::Unreadable { detail } => detail.clone(),
            EmbeddingError::Undecodable { detail } => joined(
                "error decoding response body: ",
                detail.as_str(),
            ),
            EmbeddingError::NoVector => {
                "embedding endpoint returned no embedding vector".to_string()
            },
            EmbeddingError::NoLocalVector => "fastembed returned no vectors".to_string(),
        }
    }
}

/// The beginning of an answer, with an ellipsis where something is left out.
pub fn quote(body: &str) -> (r: String)
    ensures
        r@ == quoted(body@),
{
    let chars = chars_of(body);
    if chars.len() > QUOTED_CHARS {
        let mut r = crate::text::text_between(&chars, 0, QUOTED_CHARS);
        assert(chars@.subrange(0, 200) =~= chars@.take(200));
        r.push('\u{2026}');
        r
    } else {
        body.to_string()
    }
}

// ---- OpenAI-compatible endpoint --------------------------------------------

/// What to send to an `/embeddings` endpoint: a JSON object with the fields
/// "model" and "input", and the `Authorization` header if there is one.
#[derive(Debug, PartialEq)]
pub struct EmbeddingRequest {
    pub url: String,
    pub model: String,
    pub input: String,
    pub authorization: Option<String>,
}

/// `s` without the slashes at its end.
pub open spec fn without_end_slashes(s: Seq<char>) -> Seq<char>
    decreases s.len(),
{
    if s.len() > 0 && s.last() == '/' {
        without_end_slashes(s.drop_last())
    } else {
        s
    }
}

/// Takes the slashes off the end.
pub fn trim_end_slashes(s: &str) -> (r: String)
    ensures
        r@ == without_end_slashes(s@),
{
    let chars = chars_of(s);
    let mut n: usize = chars.len();
    assert(s@.take(n as int) =~= s@);
    while n > 0 && chars[n - 1] == '/'
        invariant
            chars@ == s@,
            n <= chars.len(),
            without_end_slashes(s@) == without_end_slashes(s@.take(n as int)),
        decreases n,
    {
        assert(s@.take(n as int).drop_last() =~= s@.take(n - 1));
        assert(s@.take(n as int).last() == '/');
        n -= 1;
    }
    proof {
        if n > 0 {
            assert(s@.take(n as int).last() == chars@[n - 1]);
        }
        assert(chars@.subrange(0, n as int) =~= s@.take(n as int));
    }
    crate::text::text_between(&chars, 0, n)
}

/// An endpoint's embedding before it is rounded to single precision.
#[derive(Debug, PartialEq)]
pub struct EndpointEmbedding {
    /// bit patterns of the double-precision components
    pub vector: Vec<u64>,
    pub model: String,
}

/// The text in bytes, with U+FFFD for what is no UTF-8.
pub uninterp spec fn lossy_text(bytes: Seq<u8>) -> Seq<char>;

/// `String::from_utf8_lossy`: the text in the bytes. Where the bytes are UTF-8
/// it is the text that they encode; what stands for malformed parts depends on
/// the bytes alone.
#[verifier::external_body]
fn text_in_bytes(bytes: &[u8]) -> (r: String)
    ensures
        r@ == lossy_text(bytes@),
        valid_utf8(bytes@) ==> r@ == decode_utf8(bytes@),
{
    String::from_utf8_lossy(bytes).into_owned()
}

/// The contents of an [`OpenAICompatibleEmbeddings`].
pub struct EndpointView {
    pub baseurl: Seq<char>,
    pub apikey: Option<Seq<char>>,
    pub model: Seq<char>,
}

/// An OpenAI-compatible `/embeddings` endpoint.
pub struct OpenAICompatibleEmbeddings {
    baseurl: String,
    apikey: Option<String>,
    model: String,
}

impl View for OpenAICompatibleEmbeddings {
    type V = EndpointView;

    closed spec fn view(&self) -> EndpointView {
        EndpointView {
            baseurl: self.baseurl@,
            apikey: optional_text(self.apikey),
            model: self.model@,
        }
    }
}

/// The embedding in an endpoint's answer: the numbers in the field "embedding"
/// of the first item of the field "data".
pub open spec fn answered_vector(answer: JsonView) -> Option<Seq<u64>> {
    match answer.field("data"@) {
        Some(data) => match data.item(0) {
            Some(first) => match first.field("embedding"@) {
                Some(JsonView::Array(items)) => Some(numbers(items)),
                _ => None,
            },
            None => None,
        },
        None => None,
    }
}

/// The embedding in an endpoint's answer, as bit patterns of double-precision
/// numbers.
pub fn vector_in_answer(answer: &Json) -> (r: Option<Vec<u64>>)
    ensures
        match r {
            Some(v) => answered_vector(answer.contents()) == Some(v@),
            None => answered_vector(answer.contents()) is None,
        },
{
    match answer.field("data") {
        Some(data) => match data.item(0) {
            Some(first) => match first.field("embedding") {
                Some(embedding) => embedding.numbers(),
                None => None,
            },
            None => None,
        },
        None => None,
    }
}

impl OpenAICompatibleEmbeddings {
    /// An endpoint; an empty key means that there is none.
    pub fn new(baseurl: &str, apikey: &str, model: &str) -> (r: Self)
        ensures
            r@ == (EndpointView {
                baseurl: baseurl@,
                apikey: if apikey@.len() == 0 {
                    None
                } else {
                    Some(apikey@)
                },
                model: model@,
            }),
    {
        OpenAICompatibleEmbeddings {
            baseurl: baseurl.to_string(),
            apikey: if apikey.is_empty() {
                None
            } else {
                Some(apikey.to_string())
            },
            model: model.to_string(),
        }
    }

    /// The model, recorded with each vector.
    pub fn model(&self) -> (r: String)
        ensures
            r@ == self@.model,
    {
        self.model.clone()
    }

    /// What to post in order to embed `text`.
    pub fn request(&self, text: &str) -> (r: EmbeddingRequest)
        ensures
            r.url@ == without_end_slashes(self@.baseurl) + "/embeddings"@,
            r.model@ == self@.model,
            r.input@ == text@,
            optional_text(r.authorization) == match self@.apikey {
                Some(key) => Some("Bearer "@ + key),
                None => None,
            },
    {
        let mut url = trim_end_slashes(self.baseurl.as_str());
        url.append("/embeddings");
        let authorization = match &self.apikey {
            Some(key) => Some(joined("Bearer ", key.as_str())),
            None => None,
        };
        EmbeddingRequest { url, model: self.model.clone(), input: text.to_string(), authorization }
    }

    /// Whether an HTTP status means success.
    pub fn is_success(status: u16) -> (r: bool)
        ensures
            r == (200 <= status < 300),
    {
        200 <= status && status < 300
    }

    /// What an answer without success says.
    pub fn refused(&self, status: u16, body: &str) -> (r: EmbeddingError)
        ensures
            r matches EmbeddingError::Endpoint { status: s, model: m, body: b } && s == status
                && m@ == self@.model && b@ == body@,
    {
        EmbeddingError::Endpoint { status, model: self.model.clone(), body: body.to_string() }
    }

    /// What a reply with this status and body means; `Err` is why the body
    /// could not be read.
    pub fn received(&self, status: u16, body: Result<Vec<u8>, String>) -> (r: Result<
        EndpointEmbedding,
        EmbeddingError,
    >)
        ensures
            is_received(r, self@.model, status, body),
    {
        if !Self::is_success(status) {
            let text = match &body {
                Ok(bytes) => text_in_bytes(bytes.as_slice()),
                Err(_) => String::new(),
            };
            assert(body is Err ==> text@ =~= Seq::<char>::empty());
            return Err(self.refused(status, text.as_str()));
        }
        match body {
            Ok(bytes) => match Self::answered(bytes.as_slice()) {
                Ok(vector) => Ok(EndpointEmbedding { vector, model: self.model.clone() }),
                Err(e) => Err(e),
            },
            Err(detail) => Err(EmbeddingError::Unreadable { detail }),
        }
    }

    /// The embedding in a successful answer, as bit patterns of
    /// double-precision numbers.
    pub fn answered(body: &[u8]) -> (r: Result<Vec<u64>, EmbeddingError>)
        ensures
            match crate::json::json_document(body@) {
                Ok(answer) => match answered_vector(answer) {
                    Some(v) => r matches Ok(w) && w@ == v,
                    None => r == Err::<Vec<u64>, EmbeddingError>(EmbeddingError::NoVector),
                },
                Err(e) => r matches Err(EmbeddingError::Undecodable { detail }) && detail@ == e,
            },
    {
        match parse_json(body) {
            Ok(answer) => match vector_in_answer(&answer) {
                Some(v) => Ok(v),
                None => Err(EmbeddingError::NoVector),
            },
            Err(detail) => Err(EmbeddingError::Undecodable { detail }),
        }
    }
}

/// Whether `r` is what an endpoint with `model` gave: an error with the status
/// and the answer where the status is no success, else the embedding in the
/// answer. An answer that broke off is empty in the first case and an error in
/// the second.
pub open spec fn is_received(
    r: Result<EndpointEmbedding, EmbeddingError>,
    model: Seq<char>,
    status: u16,
    body: Result<Vec<u8>, String>,
) -> bool {
    if !(200 <= status < 300) {
        r matches Err(EmbeddingError::Endpoint { status: s, model: m, body: b }) && s == status
            && m@ == model && match body {
            Ok(bytes) => {
                &&& b@ == lossy_text(bytes@)
                &&& valid_utf8(bytes@) ==> b@ == decode_utf8(bytes@)
            },
            Err(_) => b@ == Seq::<char>::empty(),
        }
    } else {
        match body {
            Ok(bytes) => match crate::json::json_document(bytes@) {
                Ok(answer) => match answered_vector(answer) {
                    Some(v) => r matches Ok(e) && e.vector@ == v && e.model@ == model,
                    None => r == Err::<EndpointEmbedding, EmbeddingError>(
                        EmbeddingError::NoVector,
                    ),
                },
                Err(e) => r matches Err(EmbeddingError::Undecodable { detail }) && detail@ == e,
            },
            Err(e) => r matches Err(EmbeddingError::Unreadable { detail }) && detail@ == e@,
        }
    }
}

// ---- local model -----------------------------------------------------------

/// The local semantic model (bge-small-en-v1.5, 384 dimensions).
pub struct LocalEmbeddings {
    cache_dir: Option<String>,
}

impl View for LocalEmbeddings {
    type V = Option<Seq<char>>;

    closed spec fn view(&self) -> Option<Seq<char>> {
        optional_text(self.cache_dir)
    }
}

impl LocalEmbeddings {
    /// The local model, with the directory in which its files are kept.
    pub fn new(cache_dir: Option<String>) -> (r: Self)
        ensures
            r@ == optional_text(cache_dir),
    {
        LocalEmbeddings { cache_dir }
    }

    /// The directory in which the model's files are kept.
    pub fn cache_dir(&self) -> (r: Option<String>)
        ensures
            optional_text(r) == self@,
    {
        clone_optional(&self.cache_dir)
    }

    /// The model, recorded with each vector.
    pub fn model(&self) -> (r: String)
        ensures
            r@ == "bge-small-en-v1.5"@,
    {
        "bge-small-en-v1.5".to_string()
    }

    /// The embedding of the one text that the model was given.
    pub fn embedded(&self, vectors: Vec<Vec<u32>>) -> (r: Result<EmbeddingResult, EmbeddingError>)
        ensures
            if vectors@.len() == 0 {
                r == Err::<EmbeddingResult, EmbeddingError>(EmbeddingError::NoLocalVector)
            } else {
                r matches Ok(e) && e@ == (EmbeddingView {
                    vector: vectors@[0]@,
                    model: "bge-small-en-v1.5"@,
                })
            },
    {
        if vectors.len() == 0 {
            Err(EmbeddingError::NoLocalVector)
        } else {
            Ok(
                EmbeddingResult {
                    vector: crate::vectors::clone_bits(&vectors[0]),
                    model: self.model(),
                },
            )
        }
    }
}

// ---- hash embeddings -------------------------------------------------------

/// The text in lower case.
pub uninterp spec fn lower_case(s: Seq<char>) -> Seq<char>;

/// `str::to_lowercase`: the text in lower case by Unicode's rules, which depend
/// on the text alone.
#[verifier::external_body]
fn to_lower(s: &str) -> (r: String)
    ensures
        r@ == lower_case(s@),
{
    s.to_lowercase()
}

/// The largest count that a bucket holds: a single-precision counter stops
/// growing there.
pub const FULL_BUCKET: u32 = 16_777_216;

/// The bucket, out of `dims`, of a digest's first two bytes.
pub open spec fn bucket(digest: Seq<u8>, dims: int) -> int {
    (digest[0] as int * 256 + digest[1] as int) % dims
}

/// The bucket of a digest.
pub fn bucket_of(digest: &Vec<u8>, dims: usize) -> (r: usize)
    requires
        digest@.len() >= 2,
        dims > 0,
    ensures
        r == bucket(digest@, dims as int),
        r < dims,
{
    (digest[0] as usize * 256 + digest[1] as usize) % dims
}

/// How often `b` occurs in a list.
pub open spec fn occurrences(list: Seq<usize>, b: int) -> nat
    decreases list.len(),
{
    if list.len() == 0 {
        0
    } else {
        occurrences(list.drop_last(), b) + if list.last() == b {
            1nat
        } else {
            0nat
        }
    }
}

/// A count, cut off at what a bucket holds.
pub open spec fn held(count: nat) -> nat {
    if count < FULL_BUCKET {
        count
    } else {
        FULL_BUCKET as nat
    }
}

/// How often each of `dims` buckets occurs in a list.
pub fn tally(buckets: &Vec<usize>, dims: usize) -> (r: Vec<u32>)
    requires
        forall|i: int| 0 <= i < buckets@.len() ==> #[trigger] buckets@[i] < dims,
    ensures
        r@.len() == dims,
        forall|b: int| 0 <= b < dims ==> #[trigger] r@[b] == held(occurrences(buckets@, b)),
{
    let mut counts: Vec<u32> = Vec::new();
    let mut k: usize = 0;
    while k < dims
        invariant
            k <= dims,
            counts@.len() == k,
            forall|b: int| 0 <= b < k ==> #[trigger] counts@[b] == 0,
        decreases dims - k,
    {
        counts.push(0);
        k += 1;
    }
    let mut i: usize = 0;
    while i < buckets.len()
        invariant
            i <= buckets.len(),
            counts@.len() == dims,
            forall|j: int| 0 <= j < buckets@.len() ==> #[trigger] buckets@[j] < dims,
            forall|b: int|
                0 <= b < dims ==> #[trigger] counts@[b] == held(
                    occurrences(buckets@.take(i as int), b),
                ),
        decreases buckets.len() - i,
    {
        let at = buckets[i];
        let count = counts[at];
        assert(buckets@.take(i + 1).drop_last() =~= buckets@.take(i as int));
        if count < FULL_BUCKET {
            counts.set(at, count + 1);
        }
        i += 1;
    }
    assert(buckets@.take(buckets.len() as int) =~= buckets@);
    counts
}

/// How often the first `n` buckets occur in a list, together.
pub open spec fn total_occurrences(list: Seq<usize>, n: int) -> nat
    decreases n,
{
    if n <= 0 {
        0
    } else {
        total_occurrences(list, n - 1) + occurrences(list, n - 1)
    }
}

/// Every window is counted in one bucket: the counts of all buckets add up to
/// the number of windows.
pub proof fn law_every_window_is_counted(list: Seq<usize>, dims: int)
    requires
        forall|i: int| 0 <= i < list.len() ==> #[trigger] list[i] < dims,
    ensures
        dims >= 0 ==> total_occurrences(list, dims) == list.len(),
    decreases list.len(),
{
    if list.len() == 0 {
        lemma_no_occurrences(list, dims);
    } else {
        let rest = list.drop_last();
        assert forall|i: int| 0 <= i < rest.len() implies #[trigger] rest[i] < dims by {
            assert(list[i] < dims);
        }
        law_every_window_is_counted(rest, dims);
        assert(list[list.len() - 1] < dims);
        lemma_one_more_occurrence(list, dims);
    }
}

proof fn lemma_no_occurrences(list: Seq<usize>, n: int)
    requires
        list.len() == 0,
    ensures
        total_occurrences(list, n) == 0,
    decreases n,
{
    if n > 0 {
        lemma_no_occurrences(list, n - 1);
    }
}

proof fn lemma_one_more_occurrence(list: Seq<usize>, n: int)
    requires
        list.len() > 0,
    ensures
        total_occurrences(list, n) == total_occurrences(list.drop_last(), n) + if list.last() < n {
            1nat
        } else {
            0nat
        },
    decreases n,
{
    if n > 0 {
        lemma_one_more_occurrence(list, n - 1);
    }
}

/// The buckets of the three-byte windows of a byte sequence, in order.
pub open spec fn window_buckets(bytes: Seq<u8>, dims: int) -> Seq<usize> {
    if bytes.len() < 3 {
        Seq::empty()
    } else {
        Seq::new(
            (bytes.len() - 2) as nat,
            |i: int| bucket(md5_digest(bytes.subrange(i, i + 3)), dims) as usize,
        )
    }
}

/// How often each of `dims` buckets is hit by the three-byte windows of a byte
/// sequence. There must be a bucket if there is a window.
pub fn count_windows(bytes: &[u8], dims: usize) -> (r: Vec<u32>)
    requires
        dims > 0 || bytes@.len() < 3,
    ensures
        r@.len() == dims,
        forall|b: int|
            0 <= b < dims ==> #[trigger] r@[b] == held(
                occurrences(window_buckets(bytes@, dims as int), b),
            ),
{
    let ghost all = window_buckets(bytes@, dims as int);
    let mut buckets: Vec<usize> = Vec::new();
    let mut i: usize = 0;
    while i < bytes.len() && bytes.len() - i >= 3
        invariant
            i <= bytes@.len(),
            all == window_buckets(bytes@, dims as int),
            bytes@.len() >= 3 ==> dims > 0,
            buckets@.len() == i,
            i <= all.len(),
            forall|j: int| 0 <= j < i ==> #[trigger] buckets@[j] == all[j],
            forall|j: int| 0 <= j < i ==> #[trigger] buckets@[j] < dims,
        decreases bytes@.len() - i,
    {
        let window = vstd::slice::slice_subrange(bytes, i, i + 3);
        let digest = md5_of(window);
        buckets.push(bucket_of(&digest, dims));
        i += 1;
    }
    assert(buckets@ =~= all);
    tally(&buckets, dims)
}

/// How often a bucket is hit by the trigrams of a text in lower case.
pub open spec fn trigram_count(text: Seq<char>, dims: int, b: int) -> nat {
    held(occurrences(window_buckets(encode_utf8(lower_case(text)), dims), b))
}

/// A list holds what stands at its positions at least once.
proof fn lemma_occurs(list: Seq<usize>, i: int)
    requires
        0 <= i < list.len(),
    ensures
        occurrences(list, list[i] as int) >= 1,
    decreases list.len(),
{
    if i < list.len() - 1 {
        lemma_occurs(list.drop_last(), i);
    }
}

/// Every count is zero exactly when the text in lower case is shorter than a
/// trigram; any other text hits a bucket.
pub proof fn law_only_short_texts_count_nothing(text: Seq<char>, dims: usize)
    requires
        dims > 0,
    ensures
        (forall|b: int| 0 <= b < dims ==> #[trigger] trigram_count(text, dims as int, b) == 0)
            <==> encode_utf8(lower_case(text)).len() < 3,
{
    let bytes = encode_utf8(lower_case(text));
    let list = window_buckets(bytes, dims as int);
    if bytes.len() >= 3 {
        let first = bucket(md5_digest(bytes.subrange(0, 3)), dims as int);
        assert(0 <= first < dims) by {
            vstd::arithmetic::div_mod::lemma_mod_bound(
                md5_digest(bytes.subrange(0, 3))[0] as int * 256 + md5_digest(
                    bytes.subrange(0, 3),
                )[1] as int,
                dims as int,
            );
        }
        assert(list[0] == first);
        lemma_occurs(list, 0);
        assert(trigram_count(text, dims as int, first) >= 1);
    }
}

/// Texts that are the same in lower case have the same counts.
pub proof fn law_case_does_not_matter(text: Seq<char>, other: Seq<char>, dims: int, b: int)
    requires
        lower_case(text) == lower_case(other),
    ensures
        trigram_count(text, dims, b) == trigram_count(other, dims, b),
{
}

/// A hash embedding before it is scaled to length one.
#[derive(Debug)]
pub struct HashEmbedding {
    /// how often each bucket was hit
    pub counts: Vec<u32>,
    pub model: String,
}

/// Deterministic local embedding: hashes the trigrams of a text into a fixed
/// number of buckets. Not semantically meaningful.
pub struct HashEmbeddings {
    dims: usize,
}

impl View for HashEmbeddings {
    type V = nat;

    closed spec fn view(&self) -> nat {
        self.dims as nat
    }
}

impl HashEmbeddings {
    /// Hash embeddings with `dims` dimensions.
    pub fn new(dims: usize) -> (r: Self)
        ensures
            r@ == dims,
    {
        HashEmbeddings { dims }
    }

    /// The model, recorded with each vector.
    pub fn model(&self) -> (r: String)
        ensures
            r@ == "local-hash-"@ + decimal(self@),
    {
        let number = decimal_text(self.dims as u64);
        joined("local-hash-", number.as_str())
    }

    /// Counts the trigrams of the text in lower case, byte by byte. There must
    /// be a bucket if there is a trigram.
    pub fn embed(&self, text: &str) -> (r: HashEmbedding)
        requires
            self@ > 0 || encode_utf8(lower_case(text@)).len() < 3,
        ensures
            r.model@ == "local-hash-"@ + decimal(self@),
            r.counts@.len() == self@,
            forall|b: int|
                0 <= b < self@ ==> #[trigger] r.counts@[b] == trigram_count(text@, self@ as int, b),
    {
        let lower = to_lower(text);
        HashEmbedding {
            counts: count_windows(lower.as_str().as_bytes(), self.dims),
            model: self.model(),
        }
    }

    /// Counts the trigrams of the text if there are buckets for them.
    pub fn try_embed(&self, text: &str) -> (r: Option<HashEmbedding>)
        ensures
            r is None <==> self@ == 0 && encode_utf8(lower_case(text@)).len() >= 3,
            r matches Some(e) ==> e.model@ == "local-hash-"@ + decimal(self@) && e.counts@.len()
                == self@ && forall|b: int|
                0 <= b < self@ ==> #[trigger] e.counts@[b] == trigram_count(text@, self@ as int, b),
    {
        if self.dims == 0 {
            let lower = to_lower(text);
            if lower.as_str().as_bytes().len() >= 3 {
                return None;
            }
        }
        Some(self.embed(text))
    }
}

// ---- selection -------------------------------------------------------------

/// What the user configured.
pub struct EmbeddingsConfig {
    pub provider: EmbeddingsProviderKind,
    pub baseurl: Option<String>,
    pub apikey: Option<String>,
    pub model: Option<String>,
}

#[derive(Debug, Clone, Copy, PartialEq, Eq, Structural)]
pub enum EmbeddingsProviderKind {
    Local,
    OpenAICompatible,
}

/// The provider that a configuration selects.
pub enum EmbeddingBackend {
    OpenAICompatible(OpenAICompatibleEmbeddings),
    Local(LocalEmbeddings),
}

impl EmbeddingBackend {
    /// The name of the model.
    pub open spec fn model_name(self) -> Seq<char> {
        match self {
            EmbeddingBackend::OpenAICompatible(e) => e@.model,
            EmbeddingBackend::Local(_) => "bge-small-en-v1.5"@,
        }
    }

    /// The name of the model.
    pub fn model(&self) -> (r: String)
        ensures
            r@ == self.model_name(),
    {
        match self {
            EmbeddingBackend::OpenAICompatible(e) => e.model(),
            EmbeddingBackend::Local(e) => e.model(),
        }
    }
}

/// Selects the provider: the endpoint if it is asked for and both its address
/// and its model are known, the local model otherwise.
pub fn create_embedding_provider(config: &EmbeddingsConfig, cache_dir: Option<String>) -> (r:
    EmbeddingBackend)
    ensures
        if config.provider == EmbeddingsProviderKind::OpenAICompatible && config.baseurl is Some
            && config.model is Some {
            r matches EmbeddingBackend::OpenAICompatible(e) && e@ == (EndpointView {
                baseurl: config.baseurl->0@,
                apikey: match config.apikey {
                    Some(key) => if key@.len() == 0 {
                        None
                    } else {
                        Some(key@)
                    },
                    None => None,
                },
                model: config.model->0@,
            })
        } else {
            r matches EmbeddingBackend::Local(e) && e@ == optional_text(cache_dir)
        },
{
    if config.provider == EmbeddingsProviderKind::OpenAICompatible {
        if let (Some(baseurl), Some(model)) = (&config.baseurl, &config.model) {
            let apikey = match &config.apikey {
                Some(key) => key.clone(),
                None => String::new(),
            };
            return EmbeddingBackend::OpenAICompatible(
                OpenAICompatibleEmbeddings::new(baseurl.as_str(), apikey.as_str(), model.as_str()),
            );
        }
    }
    EmbeddingBackend::Local(LocalEmbeddings::new(cache_dir))
}

} // verus!
