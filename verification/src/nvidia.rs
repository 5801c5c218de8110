//! What the embedding and reranking models are asked, and what their answers say.

use crate::adapters::{base64_form, base64_text};
use crate::json::{insert, list, member_views, object, Json, JsonView};
use crate::model::views;
use crate::order::{in_order, law_ordered, ordered, sort, Ranked};
use crate::score::Score;
use crate::text::{is_blank, lower, lowered, same_text, texts, trimmed};
use vstd::prelude::*;
use vstd::string::StringExecFns;

verus! {

/// The most bytes that a page image may have.
pub const MAX_IMAGE_BYTES: usize = 26_214_400;

/// How relevant the reranker finds a passage: as it says it, and normalized.
#[derive(Clone, Copy, Debug)]
pub struct RerankScore {
    pub logit: Score,
    pub normalized: Score,
}

/// What the reranker says of the passage with the index.
#[derive(Clone, Copy, Debug)]
pub struct RankingItem {
    pub index: usize,
    pub logit: Score,
    pub normalized: Score,
}

/// What the reranker answers.
#[derive(Debug)]
pub struct RankingResponse {
    pub rankings: Vec<RankingItem>,
}

/// The last thing that the reranker says of the passage with the index.
pub open spec fn score_of(rankings: Seq<RankingItem>, index: int) -> Option<RerankScore>
    decreases rankings.len(),
{
    if rankings.len() == 0 {
        None
    } else if rankings.last().index == index {
        Some(
            RerankScore { logit: rankings.last().logit, normalized: rankings.last().normalized },
        )
    } else {
        score_of(rankings.drop_last(), index)
    }
}

/// The reranker says something of each passage.
pub open spec fn all_scored(rankings: Seq<RankingItem>, expected: nat) -> bool {
    forall|i: int| 0 <= i < expected ==> (#[trigger] score_of(rankings, i)) is Some
}

/// Why the answer of a model cannot be used.
#[derive(Clone, Copy, Debug, PartialEq, Eq, Structural)]
pub enum ModelError {
    MissingPassages,
    EmptyEmbeddings,
    WrongEmbeddingCount { received: usize, expected: usize },
    ImageTooLarge,
}

/// The words for why the answer of a model cannot be used.
pub open spec fn model_fault_text(error: ModelError) -> Seq<char> {
    match error {
        ModelError::MissingPassages => {
            "NVIDIA ranking response omitted one or more passages"@
        },
        ModelError::EmptyEmbeddings => "NVIDIA embedding response was empty"@,
        ModelError::WrongEmbeddingCount { received, expected } => "NVIDIA returned "@
            + crate::text::decimal(received as nat) + " embeddings for "@ + crate::text::decimal(
            expected as nat,
        ) + " images"@,
        ModelError::ImageTooLarge => "page image exceeds NVIDIA's 25 MiB limit"@,
    }
}

impl ModelError {
    /// The error in words.
    pub fn message(&self) -> (r: String)
        ensures
            r@ == model_fault_text(*self),
    {
        match self {
            ModelError::MissingPassages => {
                "NVIDIA ranking response omitted one or more passages".to_owned()
            },
            ModelError::EmptyEmbeddings => "NVIDIA embedding response was empty".to_owned(),
            ModelError::WrongEmbeddingCount { received, expected } => {
                let mut text = "NVIDIA returned ".to_owned();
                text.append(&crate::text::decimal_text(*received as u64));
                text.append(" embeddings for ");
                text.append(&crate::text::decimal_text(*expected as u64));
                text.append(" images");
                text
            },
            ModelError::ImageTooLarge => {
                "page image exceeds NVIDIA's 25 MiB limit".to_owned()
            },
        }
    }
}

fn find_score(rankings: &Vec<RankingItem>, index: usize) -> (r: Option<RerankScore>)
    ensures
        r == score_of(rankings@, index as int),
{
    let mut i: usize = rankings.len();
    assert(rankings@.take(i as int) =~= rankings@);
    while i > 0
        invariant
            i <= rankings@.len(),
            score_of(rankings@, index as int) == score_of(rankings@.take(i as int), index as int),
        decreases i,
    {
        assert(rankings@.take(i as int).drop_last() =~= rankings@.take(i - 1));
        let item = rankings[i - 1];
        if item.index == index {
            return Some(RerankScore { logit: item.logit, normalized: item.normalized });
        }
        i -= 1;
    }
    None
}

/// The scores of the passages in the order of the passages, if the answer has one for
/// each.
pub fn ordered_rerank_scores(response: RankingResponse, expected: usize) -> (r: Result<
    Vec<RerankScore>,
    ModelError,
>)
    ensures
        match r {
            Ok(scores) => {
                &&& all_scored(response.rankings@, expected as nat)
                &&& scores@.len() == expected
                &&& forall|i: int|
                    0 <= i < expected ==> Some(#[trigger] scores@[i]) == score_of(
                        response.rankings@,
                        i,
                    )
            },
            Err(error) => error == ModelError::MissingPassages && !all_scored(
                response.rankings@,
                expected as nat,
            ),
        },
{
    let mut scores: Vec<RerankScore> = Vec::new();
    let mut i: usize = 0;
    while i < expected
        invariant
            i <= expected,
            scores@.len() == i,
            all_scored(response.rankings@, i as nat),
            forall|j: int|
                0 <= j < i ==> Some(#[trigger] scores@[j]) == score_of(response.rankings@, j),
        decreases expected - i,
    {
        match find_score(&response.rankings, i) {
            Some(score) => scores.push(score),
            None => {
                assert(score_of(response.rankings@, i as int) is None);
                return Err(ModelError::MissingPassages);
            },
        }
        i += 1;
    }
    Ok(scores)
}

/// An embedding by the index of its input and its position in the answer.
#[derive(Clone, Copy, Debug)]
pub struct IndexedEmbedding {
    pub index: usize,
    pub position: usize,
}

impl View for IndexedEmbedding {
    type V = (usize, usize);

    open spec fn view(&self) -> (usize, usize) {
        (self.index, self.position)
    }
}

impl Ranked for IndexedEmbedding {
    open spec fn before(a: (usize, usize), b: (usize, usize)) -> bool {
        a.0 < b.0
    }

    fn comes_before(&self, other: &IndexedEmbedding) -> (r: bool) {
        self.index < other.index
    }

    proof fn lemma_chain(a: (usize, usize), b: (usize, usize), c: (usize, usize)) {
    }

    proof fn lemma_one_way(a: (usize, usize), b: (usize, usize)) {
    }
}

/// The indices with their positions.
pub open spec fn positioned(indices: Seq<usize>) -> Seq<(usize, usize)> {
    Seq::new(indices.len(), |i: int| (indices[i], i as usize))
}

fn number_positions(indices: &Vec<usize>) -> (r: Vec<IndexedEmbedding>)
    ensures
        views(r@) == positioned(indices@),
{
    let mut out: Vec<IndexedEmbedding> = Vec::new();
    let mut i: usize = 0;
    while i < indices.len()
        invariant
            i <= indices@.len(),
            out@.len() == i,
            forall|j: int| 0 <= j < i ==> (#[trigger] out@[j])@ == (indices@[j], j as usize),
        decreases indices@.len() - i,
    {
        out.push(IndexedEmbedding { index: indices[i], position: i });
        i += 1;
    }
    assert(views(out@) =~= positioned(indices@));
    out
}

/// The positions of the embeddings in the order of their inputs, if there are as many
/// as inputs.
pub fn embedding_order(indices: &Vec<usize>, expected: usize) -> (r: Result<Vec<usize>, ModelError>)
    ensures
        match r {
            Ok(order) => indices@.len() == expected && order@.len() == expected && forall|i: int|
                0 <= i < expected ==> #[trigger] order@[i] == ordered::<IndexedEmbedding>(
                    positioned(indices@),
                )[i].1,
            Err(error) => indices@.len() != expected && error == (
            ModelError::WrongEmbeddingCount {
                received: indices@.len() as usize,
                expected,
            }),
        },
{
    if indices.len() != expected {
        return Err(ModelError::WrongEmbeddingCount { received: indices.len(), expected });
    }
    let sorted = sort(number_positions(indices));
    let ghost items = sorted@;
    proof {
        law_ordered::<IndexedEmbedding>(positioned(indices@));
        assert(views(items).len() == expected);
    }
    let mut order: Vec<usize> = Vec::new();
    for item in it: sorted
        invariant
            it.seq() == items,
            order@.len() == it.index(),
            forall|j: int| 0 <= j < order@.len() ==> #[trigger] order@[j] == items[j].position,
    {
        order.push(item.position);
    }
    assert forall|i: int| 0 <= i < expected implies #[trigger] order@[i] == ordered::<
        IndexedEmbedding,
    >(positioned(indices@))[i].1 by {
        assert(views(items)[i] == items[i]@);
    }
    Ok(order)
}

/// The embeddings come out by the index of their input: no later one has a lesser
/// index than an earlier one, and each embedding comes out once.
pub proof fn law_embeddings_follow_their_inputs(indices: Seq<usize>)
    ensures
        in_order::<IndexedEmbedding>(ordered::<IndexedEmbedding>(positioned(indices))),
        ordered::<IndexedEmbedding>(positioned(indices)).to_multiset() == positioned(
            indices,
        ).to_multiset(),
{
    law_ordered::<IndexedEmbedding>(positioned(indices));
}

/// The position of an embedding has the least index, and none before it has.
pub open spec fn least_at(indices: Seq<usize>, at: int) -> bool {
    &&& 0 <= at < indices.len()
    &&& forall|i: int| 0 <= i < indices.len() ==> indices[at] <= #[trigger] indices[i]
    &&& forall|i: int| 0 <= i < at ==> indices[at] < #[trigger] indices[i]
}

/// The position of the embedding with the least index, the first of those, if there
/// is one.
pub fn first_embedding(indices: &Vec<usize>) -> (r: Result<usize, ModelError>)
    ensures
        match r {
            Ok(at) => least_at(indices@, at as int),
            Err(error) => indices@.len() == 0 && error == ModelError::EmptyEmbeddings,
        },
{
    if indices.len() == 0 {
        return Err(ModelError::EmptyEmbeddings);
    }
    let mut best: usize = 0;
    let mut i: usize = 1;
    while i < indices.len()
        invariant
            1 <= i <= indices@.len(),
            best < i,
            forall|j: int| 0 <= j < i ==> indices@[best as int] <= #[trigger] indices@[j],
            forall|j: int| 0 <= j < best ==> indices@[best as int] < #[trigger] indices@[j],
        decreases indices@.len() - i,
    {
        if indices[i] < indices[best] {
            best = i;
        }
        i += 1;
    }
    Ok(best)
}

/// The media type of an image, by the extension of its file.
pub open spec fn media_type(extension: Seq<char>) -> Seq<char> {
    if lowered(extension) == "png"@ {
        "image/png"@
    } else if lowered(extension) == "webp"@ {
        "image/webp"@
    } else {
        "image/jpeg"@
    }
}

/// The data URL of an image that is not too large.
pub open spec fn image_url_of(extension: Seq<char>, bytes: Seq<u8>) -> Option<Seq<char>> {
    if bytes.len() <= MAX_IMAGE_BYTES {
        Some("data:"@ + media_type(extension) + ";base64,"@ + base64_form(bytes))
    } else {
        None
    }
}

/// The image as a data URL, if it is not too large.
pub fn image_data_url(extension: &str, bytes: &Vec<u8>) -> (r: Result<String, ModelError>)
    ensures
        match r {
            Ok(url) => bytes@.len() <= MAX_IMAGE_BYTES && url@ == "data:"@ + media_type(
                extension@,
            ) + ";base64,"@ + base64_form(bytes@),
            Err(error) => bytes@.len() > MAX_IMAGE_BYTES && error == ModelError::ImageTooLarge,
        },
        match r {
            Ok(url) => image_url_of(extension@, bytes@) == Some(url@),
            Err(_) => image_url_of(extension@, bytes@) is None,
        },
{
    if bytes.len() > MAX_IMAGE_BYTES {
        return Err(ModelError::ImageTooLarge);
    }
    let plain = lower(extension);
    let mime = if same_text(&plain, "png") {
        "image/png"
    } else if same_text(&plain, "webp") {
        "image/webp"
    } else {
        "image/jpeg"
    };
    let mut url = "data:".to_owned();
    url.append(mime);
    url.append(";base64,");
    url.append(&base64_text(bytes.as_slice()));
    Ok(url)
}

/// A page as a model sees it: its text and the data URL of its image.
#[derive(Debug)]
pub struct PageInput {
    pub text: String,
    pub image: String,
}

/// What a `PageInput` holds.
#[verifier::ext_equal]
pub struct PageInputView {
    pub text: Seq<char>,
    pub image: Seq<char>,
}

impl View for PageInput {
    type V = PageInputView;

    open spec fn view(&self) -> PageInputView {
        PageInputView { text: self.text@, image: self.image@ }
    }
}

/// How a page is embedded: with its text where it has one.
pub open spec fn modality_of(text: Seq<char>) -> Seq<char> {
    if trimmed(text).len() == 0 {
        "image"@
    } else {
        "text_image"@
    }
}

/// How a page is embedded: with its text where it has one.
pub fn modality(text: &str) -> (r: &'static str)
    ensures
        r@ == modality_of(text@),
{
    if is_blank(text) {
        "image"
    } else {
        "text_image"
    }
}

/// What is embedded of a page: its image, behind its text where it has one.
pub open spec fn input_of(page: PageInputView) -> Seq<char> {
    if trimmed(page.text).len() == 0 {
        page.image
    } else {
        page.text + " "@ + page.image
    }
}

/// A request for embeddings.
pub open spec fn embed_request(
    model: Seq<char>,
    input: Seq<JsonView>,
    input_type: Seq<char>,
    modality: JsonView,
) -> JsonView {
    JsonView::Object(
        seq![
            ("model"@, JsonView::Text(model)),
            ("input"@, JsonView::List(input)),
            ("input_type"@, JsonView::Text(input_type)),
            ("modality"@, modality),
            ("embedding_type"@, JsonView::Text("float"@)),
            ("encoding_format"@, JsonView::Text("float"@)),
            ("truncate"@, JsonView::Text("END"@)),
        ],
    )
}

fn embed_payload(model: &str, input: Vec<Json>, input_type: &str, modality: Json) -> (r: Json)
    ensures
        r@ == embed_request(model@, views(input@), input_type@, modality@),
{
    let ghost wanted = embed_request(model@, views(input@), input_type@, modality@);
    let mut members: Vec<(String, Json)> = Vec::new();
    insert(&mut members, "model", Json::from_text(model));
    insert(&mut members, "input", list(input));
    insert(&mut members, "input_type", Json::from_text(input_type));
    insert(&mut members, "modality", modality);
    insert(&mut members, "embedding_type", Json::from_text("float"));
    insert(&mut members, "encoding_format", Json::from_text("float"));
    insert(&mut members, "truncate", Json::from_text("END"));
    assert(member_views(members@) =~= wanted->Object_0);
    object(members)
}

/// A request for the embedding of a question.
pub open spec fn question_request(model: Seq<char>, query: Seq<char>) -> JsonView {
    embed_request(model, seq![JsonView::Text(query)], "query"@, JsonView::Text("text"@))
}

/// The request for the embedding of a question.
pub fn embed_query_payload(model: &str, query: &str) -> (r: Json)
    ensures
        r@ == embed_request(
            model@,
            seq![JsonView::Text(query@)],
            "query"@,
            JsonView::Text("text"@),
        ),
        r@ == question_request(model@, query@),
{
    let mut input: Vec<Json> = Vec::new();
    input.push(Json::from_text(query));
    assert(views(input@) =~= seq![JsonView::Text(query@)]);
    embed_payload(model, input, "query", Json::from_text("text"))
}

/// What is embedded of each page.
pub open spec fn page_inputs(pages: Seq<PageInputView>) -> Seq<JsonView> {
    Seq::new(pages.len(), |i: int| JsonView::Text(input_of(pages[i])))
}

/// How each page is embedded.
pub open spec fn page_modalities(pages: Seq<PageInputView>) -> Seq<JsonView> {
    Seq::new(pages.len(), |i: int| JsonView::Text(modality_of(pages[i].text)))
}

/// A request for the embeddings of pages.
pub open spec fn pages_request(model: Seq<char>, pages: Seq<PageInputView>) -> JsonView {
    embed_request(
        model,
        page_inputs(pages),
        "passage"@,
        JsonView::List(page_modalities(pages)),
    )
}

/// The request for the embeddings of pages.
pub fn embed_pages_payload(model: &str, pages: &Vec<PageInput>) -> (r: Json)
    ensures
        r@ == embed_request(
            model@,
            page_inputs(views(pages@)),
            "passage"@,
            JsonView::List(page_modalities(views(pages@))),
        ),
        r@ == pages_request(model@, views(pages@)),
{
    let ghost all = views(pages@);
    let mut input: Vec<Json> = Vec::new();
    let mut modalities: Vec<Json> = Vec::new();
    let mut i: usize = 0;
    while i < pages.len()
        invariant
            i <= pages@.len(),
            all == views(pages@),
            input@.len() == i,
            modalities@.len() == i,
            forall|j: int|
                0 <= j < i ==> (#[trigger] input@[j])@ == JsonView::Text(input_of(all[j])),
            forall|j: int|
                0 <= j < i ==> (#[trigger] modalities@[j])@ == JsonView::Text(
                    modality_of(all[j].text),
                ),
        decreases pages@.len() - i,
    {
        let kind = modality(&pages[i].text);
        let content = if is_blank(&pages[i].text) {
            pages[i].image.clone()
        } else {
            let mut content = pages[i].text.clone();
            content.append(" ");
            content.append(&pages[i].image);
            content
        };
        input.push(Json::Text(content));
        modalities.push(Json::from_text(kind));
        i += 1;
    }
    assert(views(input@) =~= page_inputs(all));
    assert(views(modalities@) =~= page_modalities(all));
    embed_payload(model, input, "passage", list(modalities))
}

/// The texts as JSON, one by one.
pub open spec fn text_items(values: Seq<Seq<char>>) -> Seq<JsonView> {
    Seq::new(values.len(), |i: int| JsonView::Text(values[i]))
}

/// A request for the embeddings of images, given as data URLs.
pub open spec fn images_request(model: Seq<char>, images: Seq<Seq<char>>) -> JsonView {
    embed_request(model, text_items(images), "passage"@, JsonView::Text("image"@))
}

/// The request for the embeddings of images, given as data URLs.
pub fn embed_images_payload(model: &str, images: &Vec<String>) -> (r: Json)
    ensures
        r@ == embed_request(
            model@,
            text_items(texts(images@)),
            "passage"@,
            JsonView::Text("image"@),
        ),
        r@ == images_request(model@, texts(images@)),
{
    let mut input: Vec<Json> = Vec::new();
    let mut i: usize = 0;
    while i < images.len()
        invariant
            i <= images@.len(),
            input@.len() == i,
            forall|j: int| 0 <= j < i ==> (#[trigger] input@[j])@ == JsonView::Text(images@[j]@),
        decreases images@.len() - i,
    {
        input.push(Json::from_text(&images[i]));
        i += 1;
    }
    assert(views(input@) =~= text_items(texts(images@)));
    embed_payload(model, input, "passage", Json::from_text("image"))
}

/// A passage of text.
pub open spec fn text_passage_of(text: Seq<char>) -> JsonView {
    JsonView::Object(seq![("text"@, JsonView::Text(text))])
}

/// A page as a passage: with its text where it has one.
pub open spec fn page_passage_of(page: PageInputView) -> JsonView {
    if trimmed(page.text).len() == 0 {
        JsonView::Object(seq![("image"@, JsonView::Text(page.image))])
    } else {
        JsonView::Object(
            seq![("text"@, JsonView::Text(page.text)), ("image"@, JsonView::Text(page.image))],
        )
    }
}

/// A passage of text.
pub fn text_passage(text: &str) -> (r: Json)
    ensures
        r@ == text_passage_of(text@),
{
    let mut members: Vec<(String, Json)> = Vec::new();
    insert(&mut members, "text", Json::from_text(text));
    assert(member_views(members@) =~= seq![("text"@, JsonView::Text(text@))]);
    object(members)
}

/// A page as a passage: with its text where it has one.
pub fn page_passage(page: &PageInput) -> (r: Json)
    ensures
        r@ == page_passage_of(page@),
{
    let mut members: Vec<(String, Json)> = Vec::new();
    if !is_blank(&page.text) {
        insert(&mut members, "text", Json::from_text(&page.text));
    }
    insert(&mut members, "image", Json::from_text(&page.image));
    assert(member_views(members@) =~= page_passage_of(page@)->Object_0);
    object(members)
}

/// A request for the ranking of passages.
pub open spec fn rerank_request(
    model: Seq<char>,
    query: Seq<char>,
    passages: Seq<JsonView>,
) -> JsonView {
    JsonView::Object(
        seq![
            ("model"@, JsonView::Text(model)),
            ("query"@, text_passage_of(query)),
            ("passages"@, JsonView::List(passages)),
            ("truncate"@, JsonView::Text("END"@)),
        ],
    )
}

/// The request for the ranking of passages.
pub fn rerank_payload(model: &str, query: &str, passages: Vec<Json>) -> (r: Json)
    ensures
        r@ == rerank_request(model@, query@, views(passages@)),
{
    let ghost wanted = rerank_request(model@, query@, views(passages@));
    let mut members: Vec<(String, Json)> = Vec::new();
    insert(&mut members, "model", Json::from_text(model));
    insert(&mut members, "query", text_passage(query));
    insert(&mut members, "passages", list(passages));
    insert(&mut members, "truncate", Json::from_text("END"));
    assert(member_views(members@) =~= wanted->Object_0);
    object(members)
}

} // verus!
