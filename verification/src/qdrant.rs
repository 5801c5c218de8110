//! The vector database: what is stored of each page, what is asked, and how the
//! answers are ranked.

use crate::adapters::{json_text, name_uuid, uuid_v5};
use crate::citations::{csl_json, csl_of};
use crate::domain::{
    identity_of, year_of, PageRecord, PageRecordView, PdfArtifact, PdfArtifactView, WorkRecord,
    WorkRecordView,
};
use crate::json::{
    count, field, field_of, floating, floating_at, insert, item, items_at, list, member_in,
    member_views, object, seen, unsigned, unsigned_at, unsigned_json, Json, JsonView,
};
use crate::model::{views, Duplicate};
use crate::nvidia::{modality, modality_of};
use crate::order::{in_order, law_ordered, ordered, sort, Ranked};
use crate::render::PAGE_NAMESPACE;
use crate::score::{Score, ZERO};
use crate::text::{decimal, decimal_text, replace, replaced};
use vstd::prelude::*;
use vstd::string::StringExecFns;

verus! {

/// A page that answers a query.
#[derive(Debug)]
pub struct SearchResult {
    pub page_id: String,
    pub work_id: String,
    pub page_number: u32,
    pub vector_score: Score,
    pub rerank_score: Score,
    pub citation: Json,
    pub pdf_url: String,
    pub pdf_path: String,
    pub pdf_sha256: String,
    pub pdf_license: String,
    pub image_path: String,
}

/// What a `SearchResult` holds.
#[verifier::ext_equal]
pub struct SearchResultView {
    pub page_id: Seq<char>,
    pub work_id: Seq<char>,
    pub page_number: u32,
    pub vector_score: Score,
    pub rerank_score: Score,
    pub citation: JsonView,
    pub pdf_url: Seq<char>,
    pub pdf_path: Seq<char>,
    pub pdf_sha256: Seq<char>,
    pub pdf_license: Seq<char>,
    pub image_path: Seq<char>,
}

impl View for SearchResult {
    type V = SearchResultView;

    open spec fn view(&self) -> SearchResultView {
        SearchResultView {
            page_id: self.page_id@,
            work_id: self.work_id@,
            page_number: self.page_number,
            vector_score: self.vector_score,
            rerank_score: self.rerank_score,
            citation: self.citation@,
            pdf_url: self.pdf_url@,
            pdf_path: self.pdf_path@,
            pdf_sha256: self.pdf_sha256@,
            pdf_license: self.pdf_license@,
            image_path: self.image_path@,
        }
    }
}

impl Duplicate for SearchResult {
    fn duplicate(&self) -> (r: SearchResult) {
        SearchResult {
            page_id: self.page_id.clone(),
            work_id: self.work_id.clone(),
            page_number: self.page_number,
            vector_score: self.vector_score,
            rerank_score: self.rerank_score,
            citation: self.citation.duplicate(),
            pdf_url: self.pdf_url.clone(),
            pdf_path: self.pdf_path.clone(),
            pdf_sha256: self.pdf_sha256.clone(),
            pdf_license: self.pdf_license.clone(),
            image_path: self.image_path.clone(),
        }
    }
}


/// Why the vector database cannot be used.
#[derive(Clone, Copy, Debug, PartialEq, Eq, Structural)]
pub enum QdrantError {
    UnreadableSize,
    WrongSize { size: u64, expected: usize },
    CountMismatch,
    MissingArtifact,
    WrongDimension { expected: usize },
}

/// The words for why the vector database cannot be used.
pub open spec fn qdrant_fault_text(error: QdrantError) -> Seq<char> {
    match error {
        QdrantError::UnreadableSize => "unable to read existing Qdrant vector size"@,
        QdrantError::WrongSize { size, expected } => "Qdrant collection vector size is "@ + decimal(
            size as nat,
        ) + ", expected "@ + decimal(expected as nat) + "; use a new collection or re-ingest"@,
        QdrantError::CountMismatch => "page/vector count mismatch"@,
        QdrantError::MissingArtifact => {
            "one or more indexed pages are missing the preserved PDF artifact metadata"@
        },
        QdrantError::WrongDimension { expected } => {
            "NVIDIA embedding dimension does not match QDRANT_VECTOR_SIZE="@ + decimal(
                expected as nat,
            )
        },
    }
}

impl QdrantError {
    /// The error in words.
    pub fn message(&self) -> (r: String)
        ensures
            r@ == qdrant_fault_text(*self),
    {
        match self {
            QdrantError::UnreadableSize => {
                "unable to read existing Qdrant vector size".to_owned()
            },
            QdrantError::WrongSize { size, expected } => {
                let mut text = "Qdrant collection vector size is ".to_owned();
                text.append(&decimal_text(*size));
                text.append(", expected ");
                text.append(&decimal_text(*expected as u64));
                text.append("; use a new collection or re-ingest");
                text
            },
            QdrantError::CountMismatch => "page/vector count mismatch".to_owned(),
            QdrantError::MissingArtifact => {
                "one or more indexed pages are missing the preserved PDF artifact metadata".to_owned()
            },
            QdrantError::WrongDimension { expected } => {
                let mut text =
                    "NVIDIA embedding dimension does not match QDRANT_VECTOR_SIZE=".to_owned();
                text.append(&decimal_text(*expected as u64));
                text
            },
        }
    }
}

/// The address of a collection.
pub open spec fn collection_address(base: Seq<char>, collection: Seq<char>) -> Seq<char> {
    base + "/collections/"@ + collection
}

/// The address of the collection, or of what lies below it.
pub fn collection_url(base: &str, collection: &str, below: &str) -> (r: String)
    ensures
        r@ == collection_address(base@, collection@) + below@,
{
    let mut url = base.to_owned();
    url.append("/collections/");
    url.append(collection);
    url.append(below);
    url
}

/// The layout of a collection: one vector for the content of a page.
pub open spec fn collection_layout(vector_size: u64) -> JsonView {
    JsonView::Object(
        seq![
            (
                "vectors"@,
                JsonView::Object(
                    seq![
                        (
                            "content"@,
                            JsonView::Object(
                                seq![
                                    ("size"@, unsigned_json(vector_size)),
                                    ("distance"@, JsonView::Text("Cosine"@)),
                                    ("on_disk"@, JsonView::Bool(true)),
                                ],
                            ),
                        ),
                    ],
                ),
            ),
            ("on_disk_payload"@, JsonView::Bool(true)),
        ],
    )
}

/// The layout of a collection: one vector for the content of a page.
pub fn collection_payload(vector_size: usize) -> (r: Json)
    ensures
        r@ == collection_layout(vector_size as u64),
{
    let mut content: Vec<(String, Json)> = Vec::new();
    insert(&mut content, "size", Json::from_unsigned(vector_size as u64));
    insert(&mut content, "distance", Json::from_text("Cosine"));
    insert(&mut content, "on_disk", Json::Bool(true));
    let mut vectors: Vec<(String, Json)> = Vec::new();
    let ghost inner = member_views(content@);
    assert(inner =~= seq![
        ("size"@, unsigned_json(vector_size as u64)),
        ("distance"@, JsonView::Text("Cosine"@)),
        ("on_disk"@, JsonView::Bool(true)),
    ]);
    insert(&mut vectors, "content", object(content));
    assert(member_views(vectors@) =~= seq![("content"@, JsonView::Object(inner))]);
    let mut members: Vec<(String, Json)> = Vec::new();
    insert(&mut members, "vectors", object(vectors));
    insert(&mut members, "on_disk_payload", Json::Bool(true));
    assert(member_views(members@) =~= collection_layout(vector_size as u64)->Object_0);
    object(members)
}

/// The fields by which pages are often filtered, and their kinds.
pub fn payload_indices() -> (r: Vec<(String, String)>)
    ensures
        crate::discovery::pair_views(r@) == seq![
            ("work_id"@, "keyword"@),
            ("record_type"@, "keyword"@),
            ("citation.DOI"@, "keyword"@),
            ("publication_year"@, "integer"@),
            ("quality.tier"@, "keyword"@),
        ],
{
    let mut out: Vec<(String, String)> = Vec::new();
    out.push(("work_id".to_owned(), "keyword".to_owned()));
    out.push(("record_type".to_owned(), "keyword".to_owned()));
    out.push(("citation.DOI".to_owned(), "keyword".to_owned()));
    out.push(("publication_year".to_owned(), "integer".to_owned()));
    out.push(("quality.tier".to_owned(), "keyword".to_owned()));
    assert(crate::discovery::pair_views(out@) =~= seq![
        ("work_id"@, "keyword"@),
        ("record_type"@, "keyword"@),
        ("citation.DOI"@, "keyword"@),
        ("publication_year"@, "integer"@),
        ("quality.tier"@, "keyword"@),
    ]);
    out
}

/// The size of the vectors that a collection reports.
pub open spec fn reported_size(value: JsonView) -> Option<u64> {
    unsigned_at(
        field_of(
            field_of(
                field_of(
                    field_of(
                        field_of(field_of(Some(value), "result"@), "config"@),
                        "params"@,
                    ),
                    "vectors"@,
                ),
                "content"@,
            ),
            "size"@,
        ),
    )
}

/// The collection reports the size that is expected.
pub open spec fn collection_fits(value: JsonView, expected: usize) -> bool {
    reported_size(value) == Some(expected as u64)
}

/// Whether the collection holds vectors of the expected size.
pub fn check_collection(value: &Json, expected: usize) -> (r: Result<(), QdrantError>)
    ensures
        r == (match reported_size(value@) {
            Some(size) => if size == expected {
                Ok::<(), QdrantError>(())
            } else {
                Err(QdrantError::WrongSize { size, expected })
            },
            None => Err(QdrantError::UnreadableSize),
        }),
        r is Ok <==> collection_fits(value@, expected),
{
    let params = field(field(field(Some(value), "result"), "config"), "params");
    match unsigned(field(field(field(params, "vectors"), "content"), "size")) {
        Some(size) => {
            if size == expected as u64 {
                Ok(())
            } else {
                Err(QdrantError::WrongSize { size, expected })
            }
        },
        None => Err(QdrantError::UnreadableSize),
    }
}

/// Something of the preserved PDF is not known.
pub open spec fn artifact_incomplete(artifact: PdfArtifactView) -> bool {
    artifact.path.len() == 0 || artifact.sha256.len() == 0 || artifact.url.len() == 0
}

/// Some page belongs to a PDF of which something is not known.
pub open spec fn any_incomplete(
    pages: Seq<(PageRecordView, WorkRecordView, PdfArtifactView)>,
) -> bool {
    exists|i: int| 0 <= i < pages.len() && artifact_incomplete((#[trigger] pages[i]).2)
}

/// There is a vector for each page, and each page belongs to a PDF that is known.
pub open spec fn pages_storable(
    pages: Seq<(PageRecordView, WorkRecordView, PdfArtifactView)>,
    vectors: nat,
) -> bool {
    pages.len() == vectors && !any_incomplete(pages)
}

/// Whether the pages can be stored with as many vectors.
pub fn check_pages(pages: &Vec<(PageRecord, WorkRecord, PdfArtifact)>, vectors: usize) -> (r:
    Result<(), QdrantError>)
    ensures
        r == (if pages@.len() != vectors {
            Err::<(), QdrantError>(QdrantError::CountMismatch)
        } else if any_incomplete(views(pages@)) {
            Err(QdrantError::MissingArtifact)
        } else {
            Ok(())
        }),
        r is Ok <==> pages_storable(views(pages@), vectors as nat),
{
    if pages.len() != vectors {
        return Err(QdrantError::CountMismatch);
    }
    let ghost all = views(pages@);
    let mut i: usize = 0;
    while i < pages.len()
        invariant
            i <= pages@.len(),
            pages@.len() == vectors,
            all == views(pages@),
            forall|j: int| 0 <= j < i ==> !artifact_incomplete((#[trigger] all[j]).2),
        decreases pages@.len() - i,
    {
        assert(all[i as int].2 == pages@[i as int].2@);
        if pages[i].2.path.as_str().is_empty() || pages[i].2.sha256.as_str().is_empty()
            || pages[i].2.url.as_str().is_empty() {
            return Err(QdrantError::MissingArtifact);
        }
        i += 1;
    }
    Ok(())
}

/// Whether every vector has the expected number of dimensions.
pub fn check_dimensions(dimensions: &Vec<usize>, expected: usize) -> (r: Result<(), QdrantError>)
    ensures
        match r {
            Ok(()) => forall|i: int|
                0 <= i < dimensions@.len() ==> #[trigger] dimensions@[i] == expected,
            Err(error) => error == (QdrantError::WrongDimension { expected }) && exists|i: int|
                0 <= i < dimensions@.len() && #[trigger] dimensions@[i] != expected,
        },
{
    let mut i: usize = 0;
    while i < dimensions.len()
        invariant
            i <= dimensions@.len(),
            forall|j: int| 0 <= j < i ==> #[trigger] dimensions@[j] == expected,
        decreases dimensions@.len() - i,
    {
        if dimensions[i] != expected {
            assert(dimensions@[i as int] != expected);
            return Err(QdrantError::WrongDimension { expected });
        }
        i += 1;
    }
    Ok(())
}

/// The identifier of a point: a UUID made of the corpus and the page.
pub open spec fn point_id_of(corpus_id: Seq<char>, page_id: Seq<char>) -> Seq<char> {
    uuid_v5(PAGE_NAMESPACE, corpus_id + "\u{1f}"@ + page_id)
}

/// The identifier of a point.
pub fn point_id(corpus_id: &str, page_id: &str) -> (r: String)
    ensures
        r@ == point_id_of(corpus_id@, page_id@),
{
    let mut name = corpus_id.to_owned();
    name.append("\u{1f}");
    name.append(page_id);
    name_uuid(PAGE_NAMESPACE, &name)
}

/// The citation key of an indexed work.
pub open spec fn index_key(work: WorkRecordView) -> Seq<char> {
    replaced(identity_of(work), ":/"@, "-"@)
}

/// The number as JSON, or null where there is none.
pub open spec fn year_json(year: Option<u32>) -> JsonView {
    match year {
        Some(value) => unsigned_json(value as u64),
        None => JsonView::Null,
    }
}

/// What is stored of a page: enough to cite it on its own.
pub open spec fn page_payload_of(
    corpus_id: Seq<char>,
    embed_model: Seq<char>,
    page: PageRecordView,
    work: WorkRecordView,
    artifact: PdfArtifactView,
    canonical: JsonView,
    quality: JsonView,
) -> JsonView {
    JsonView::Object(
        seq![
            ("schema_version"@, JsonView::Text(work.schema_version)),
            ("record_type"@, JsonView::Text("pdf_page"@)),
            ("corpus_id"@, JsonView::Text(corpus_id)),
            ("page_id"@, JsonView::Text(page.page_id)),
            ("work_id"@, JsonView::Text(page.work_id)),
            ("page_number"@, unsigned_json(page.page_number as u64)),
            ("image_path"@, JsonView::Text(page.image_path)),
            ("image_sha256"@, JsonView::Text(page.image_sha256)),
            ("page_text"@, JsonView::Text(page.page_text)),
            ("embedding_model"@, JsonView::Text(embed_model)),
            ("embedding_modality"@, JsonView::Text(modality_of(page.page_text))),
            ("citation"@, csl_of(work, index_key(work))),
            ("publication_year"@, year_json(year_of(work))),
            ("canonical_record"@, canonical),
            ("quality"@, quality),
            ("pdf_url"@, JsonView::Text(artifact.url)),
            ("pdf_path"@, JsonView::Text(artifact.path)),
            ("pdf_sha256"@, JsonView::Text(artifact.sha256)),
            ("pdf_license"@, JsonView::Text(artifact.license)),
        ],
    )
}

/// What is stored of a page. The last two are the work and its assessment as JSON.
pub fn page_payload(
    corpus_id: &str,
    embed_model: &str,
    page: &PageRecord,
    record: &WorkRecord,
    artifact: &PdfArtifact,
    canonical: Json,
    quality: Json,
) -> (r: Json)
    ensures
        r@ == page_payload_of(
            corpus_id@,
            embed_model@,
            page@,
            record@,
            artifact@,
            canonical@,
            quality@,
        ),
{
    let ghost wanted = page_payload_of(
        corpus_id@,
        embed_model@,
        page@,
        record@,
        artifact@,
        canonical@,
        quality@,
    );
    let key = replace(&record.identity(), ":/", "-");
    let year = match record.year() {
        Some(year) => Json::from_unsigned(year as u64),
        None => Json::Null,
    };
    let mut members: Vec<(String, Json)> = Vec::new();
    insert(&mut members, "schema_version", Json::from_text(&record.schema_version));
    insert(&mut members, "record_type", Json::from_text("pdf_page"));
    insert(&mut members, "corpus_id", Json::from_text(corpus_id));
    insert(&mut members, "page_id", Json::from_text(&page.page_id));
    insert(&mut members, "work_id", Json::from_text(&page.work_id));
    insert(&mut members, "page_number", Json::from_unsigned(page.page_number as u64));
    insert(&mut members, "image_path", Json::from_text(&page.image_path));
    insert(&mut members, "image_sha256", Json::from_text(&page.image_sha256));
    insert(&mut members, "page_text", Json::from_text(&page.page_text));
    insert(&mut members, "embedding_model", Json::from_text(embed_model));
    insert(&mut members, "embedding_modality", Json::from_text(modality(&page.page_text)));
    insert(&mut members, "citation", csl_json(record, &key));
    insert(&mut members, "publication_year", year);
    insert(&mut members, "canonical_record", canonical);
    insert(&mut members, "quality", quality);
    insert(&mut members, "pdf_url", Json::from_text(&artifact.url));
    insert(&mut members, "pdf_path", Json::from_text(&artifact.path));
    insert(&mut members, "pdf_sha256", Json::from_text(&artifact.sha256));
    insert(&mut members, "pdf_license", Json::from_text(&artifact.license));
    assert(member_views(members@) =~= wanted->Object_0);
    object(members)
}

/// A point: the payload of a page under its vector.
pub open spec fn point_of(id: Seq<char>, vector: JsonView, payload: JsonView) -> JsonView {
    JsonView::Object(
        seq![
            ("id"@, JsonView::Text(id)),
            ("vector"@, JsonView::Object(seq![("content"@, vector)])),
            ("payload"@, payload),
        ],
    )
}

/// A point: the payload of a page under its vector.
pub fn point(corpus_id: &str, page_id: &str, vector: Json, payload: Json) -> (r: Json)
    ensures
        r@ == point_of(point_id_of(corpus_id@, page_id@), vector@, payload@),
{
    let ghost wanted = point_of(point_id_of(corpus_id@, page_id@), vector@, payload@);
    let ghost inner = vector@;
    let mut content: Vec<(String, Json)> = Vec::new();
    insert(&mut content, "content", vector);
    assert(member_views(content@) =~= seq![("content"@, inner)]);
    let mut members: Vec<(String, Json)> = Vec::new();
    insert(&mut members, "id", Json::Text(point_id(corpus_id, page_id)));
    insert(&mut members, "vector", object(content));
    insert(&mut members, "payload", payload);
    assert(member_views(members@) =~= wanted->Object_0);
    object(members)
}

/// The filter that only points of the corpus pass.
pub open spec fn corpus_filter(corpus_id: Seq<char>) -> JsonView {
    JsonView::Object(
        seq![
            (
                "must"@,
                JsonView::List(
                    seq![
                        JsonView::Object(
                            seq![
                                ("key"@, JsonView::Text("corpus_id"@)),
                                (
                                    "match"@,
                                    JsonView::Object(seq![("value"@, JsonView::Text(corpus_id))]),
                                ),
                            ],
                        ),
                    ],
                ),
            ),
        ],
    )
}

/// A search for the points of a corpus that are nearest to a vector.
pub open spec fn search_request(vector: JsonView, corpus_id: Seq<char>, limit: u64) -> JsonView {
    JsonView::Object(
        seq![
            ("query"@, vector),
            ("using"@, JsonView::Text("content"@)),
            ("filter"@, corpus_filter(corpus_id)),
            ("limit"@, unsigned_json(limit)),
            ("with_payload"@, JsonView::Bool(true)),
            ("with_vector"@, JsonView::Bool(false)),
        ],
    )
}

fn filter_json(corpus_id: &str) -> (r: Json)
    ensures
        r@ == corpus_filter(corpus_id@),
{
    let mut value: Vec<(String, Json)> = Vec::new();
    insert(&mut value, "value", Json::from_text(corpus_id));
    assert(member_views(value@) =~= seq![("value"@, JsonView::Text(corpus_id@))]);
    let mut condition: Vec<(String, Json)> = Vec::new();
    insert(&mut condition, "key", Json::from_text("corpus_id"));
    insert(&mut condition, "match", object(value));
    let ghost inner = seq![
        ("key"@, JsonView::Text("corpus_id"@)),
        ("match"@, JsonView::Object(seq![("value"@, JsonView::Text(corpus_id@))])),
    ];
    assert(member_views(condition@) =~= inner);
    let mut conditions: Vec<Json> = Vec::new();
    conditions.push(object(condition));
    assert(views(conditions@) =~= seq![JsonView::Object(inner)]);
    let mut members: Vec<(String, Json)> = Vec::new();
    insert(&mut members, "must", list(conditions));
    assert(member_views(members@) =~= corpus_filter(corpus_id@)->Object_0);
    object(members)
}

/// How many candidates a search asks for: those that are wanted, and no fewer than results.
pub open spec fn candidates_asked(top_k: usize, candidate_limit: usize) -> u64 {
    if candidate_limit >= top_k {
        candidate_limit as u64
    } else {
        top_k as u64
    }
}

/// The search for the points of the corpus that are nearest to the vector: as many as
/// candidates are wanted, and no fewer than results are.
pub fn search_payload(vector: Json, corpus_id: &str, top_k: usize, candidate_limit: usize) -> (r:
    Json)
    ensures
        r@ == search_request(
            vector@,
            corpus_id@,
            if candidate_limit >= top_k {
                candidate_limit as u64
            } else {
                top_k as u64
            },
        ),
        r@ == search_request(vector@, corpus_id@, candidates_asked(top_k, candidate_limit)),
{
    let limit: usize = if candidate_limit >= top_k {
        candidate_limit
    } else {
        top_k
    };
    let ghost wanted = search_request(vector@, corpus_id@, limit as u64);
    let mut members: Vec<(String, Json)> = Vec::new();
    insert(&mut members, "query", vector);
    insert(&mut members, "using", Json::from_text("content"));
    insert(&mut members, "filter", filter_json(corpus_id));
    insert(&mut members, "limit", Json::from_unsigned(limit as u64));
    insert(&mut members, "with_payload", Json::Bool(true));
    insert(&mut members, "with_vector", Json::Bool(false));
    assert(member_views(members@) =~= wanted->Object_0);
    object(members)
}

/// The points that an answer holds.
pub open spec fn points_in(value: JsonView) -> Seq<JsonView> {
    let result = field_of(Some(value), "result"@);
    if field_of(result, "points"@) is Some {
        items_at(field_of(result, "points"@))
    } else {
        items_at(result)
    }
}

/// The list of points of an answer.
pub fn found_points<'a>(value: &'a Json) -> (r: Option<&'a Json>)
    ensures
        items_at(seen(r)) == points_in(value@),
{
    let result = field(Some(value), "result");
    let points = field(result, "points");
    if points.is_some() {
        points
    } else {
        result
    }
}

/// The value as text: that of a string or number, else its JSON.
pub open spec fn shown(value: Option<JsonView>) -> Seq<char> {
    match value {
        Some(JsonView::Text(text)) => text,
        Some(JsonView::Number(number)) => number.text,
        Some(other) => json_text(other),
        None => Seq::empty(),
    }
}

/// The value as text: that of a string or number, else its JSON.
pub fn value_as_string(value: Option<&Json>) -> (r: String)
    ensures
        r@ == shown(seen(value)),
{
    match value {
        Some(Json::Text(text)) => text.clone(),
        Some(Json::Number(number)) => number.text.clone(),
        Some(other) => other.to_text(),
        None => String::new(),
    }
}

/// The value, or null.
pub open spec fn or_null(value: Option<JsonView>) -> JsonView {
    match value {
        Some(json) => json,
        None => JsonView::Null,
    }
}

/// The page that a point tells of, with the score of the reranker.
pub open spec fn result_of(point: JsonView, rerank_score: Score) -> SearchResultView {
    let payload = field_of(Some(point), "payload"@);
    SearchResultView {
        page_id: if field_of(payload, "page_id"@) is Some {
            shown(field_of(payload, "page_id"@))
        } else {
            shown(field_of(Some(point), "id"@))
        },
        work_id: shown(field_of(payload, "work_id"@)),
        page_number: match unsigned_at(field_of(payload, "page_number"@)) {
            Some(number) => number as u32,
            None => 0,
        },
        vector_score: match floating_at(field_of(Some(point), "score"@)) {
            Some(score) => score,
            None => Score::from_bits(ZERO),
        },
        rerank_score,
        citation: or_null(field_of(payload, "citation"@)),
        pdf_url: shown(field_of(payload, "pdf_url"@)),
        pdf_path: shown(field_of(payload, "pdf_path"@)),
        pdf_sha256: shown(field_of(payload, "pdf_sha256"@)),
        pdf_license: shown(field_of(payload, "pdf_license"@)),
        image_path: shown(field_of(payload, "image_path"@)),
    }
}

/// The page that a point tells of, with the score of the reranker.
pub fn search_result(point: &Json, rerank_score: Score) -> (r: SearchResult)
    ensures
        r@ == result_of(point@, rerank_score),
{
    let payload = field(Some(point), "payload");
    let local_id = field(payload, "page_id");
    let page_id = if local_id.is_some() {
        value_as_string(local_id)
    } else {
        value_as_string(field(Some(point), "id"))
    };
    let page_number: u32 = match unsigned(field(payload, "page_number")) {
        Some(number) => number as u32,
        None => 0,
    };
    let vector_score = match floating(field(Some(point), "score")) {
        Some(score) => score,
        None => Score::from_bits(ZERO),
    };
    let citation = match field(payload, "citation") {
        Some(value) => value.duplicate(),
        None => Json::Null,
    };
    SearchResult {
        page_id,
        work_id: value_as_string(field(payload, "work_id")),
        page_number,
        vector_score,
        rerank_score,
        citation,
        pdf_url: value_as_string(field(payload, "pdf_url")),
        pdf_path: value_as_string(field(payload, "pdf_path")),
        pdf_sha256: value_as_string(field(payload, "pdf_sha256")),
        pdf_license: value_as_string(field(payload, "pdf_license")),
        image_path: value_as_string(field(payload, "image_path")),
    }
}

impl Ranked for SearchResult {
    open spec fn before(a: SearchResultView, b: SearchResultView) -> bool {
        b.rerank_score.total_rank() < a.rerank_score.total_rank() || (b.rerank_score.total_rank()
            == a.rerank_score.total_rank() && b.vector_score.total_rank()
            < a.vector_score.total_rank())
    }

    fn comes_before(&self, other: &SearchResult) -> (r: bool) {
        other.rerank_score.precedes(&self.rerank_score) || (!self.rerank_score.precedes(
            &other.rerank_score,
        ) && other.vector_score.precedes(&self.vector_score))
    }

    proof fn lemma_chain(a: SearchResultView, b: SearchResultView, c: SearchResultView) {
    }

    proof fn lemma_one_way(a: SearchResultView, b: SearchResultView) {
    }
}

/// The pages that the points tell of, as far as there are scores.
pub open spec fn scored_results(
    points: Seq<JsonView>,
    scores: Seq<Score>,
) -> Seq<SearchResultView> {
    let n = if points.len() <= scores.len() {
        points.len()
    } else {
        scores.len()
    };
    Seq::new(n, |i: int| result_of(points[i], scores[i]))
}

/// The first of the items, no more than the limit.
pub open spec fn first_items<T>(items: Seq<T>, limit: nat) -> Seq<T> {
    if items.len() <= limit {
        items
    } else {
        items.take(limit as int)
    }
}

/// The best of the pages that the points tell of: by the score of the reranker, then
/// by that of the vector.
pub open spec fn ranking_of(
    points: Seq<JsonView>,
    scores: Seq<Score>,
    top_k: nat,
) -> Seq<SearchResultView> {
    first_items(ordered::<SearchResult>(scored_results(points, scores)), top_k)
}

/// The best of the pages that the points tell of, no more than wanted.
pub fn rank_results(points: Option<&Json>, scores: &Vec<Score>, top_k: usize) -> (r: Vec<
    SearchResult,
>)
    ensures
        views(r@) == ranking_of(items_at(seen(points)), scores@, top_k as nat),
{
    let ghost all = items_at(seen(points));
    let total: usize = count(points);
    let n: usize = if total <= scores.len() {
        total
    } else {
        scores.len()
    };
    let mut results: Vec<SearchResult> = Vec::new();
    let mut i: usize = 0;
    while i < n
        invariant
            i <= n,
            n <= total,
            n <= scores@.len(),
            total == all.len(),
            all == items_at(seen(points)),
            results@.len() == i,
            forall|j: int| 0 <= j < i ==> (#[trigger] results@[j])@ == result_of(all[j], scores@[j]),
        decreases n - i,
    {
        if let Some(value) = item(points, i) {
            results.push(search_result(value, scores[i]));
        }
        i += 1;
    }
    assert(views(results@) =~= scored_results(all, scores@));
    let mut sorted = sort(results);
    let ghost whole = views(sorted@);
    if sorted.len() > top_k {
        sorted.truncate(top_k);
        assert(views(sorted@) =~= whole.take(top_k as int));
    }
    sorted
}

/// The answers come best first: no later page has a better score than an earlier one,
/// and there are never more of them than wanted.
pub proof fn law_results_are_ranked(points: Seq<JsonView>, scores: Seq<Score>, top_k: nat)
    ensures
        in_order::<SearchResult>(ranking_of(points, scores, top_k)),
        ranking_of(points, scores, top_k).len() <= top_k,
{
    let whole = ordered::<SearchResult>(scored_results(points, scores));
    law_ordered::<SearchResult>(scored_results(points, scores));
    let kept = ranking_of(points, scores, top_k);
    assert forall|i: int, j: int| 0 <= i < j < kept.len() implies !SearchResult::before(
        #[trigger] kept[j],
        #[trigger] kept[i],
    ) by {
        assert(kept[i] == whole[i]);
        assert(kept[j] == whole[j]);
    }
}

/// Every search is bound to its corpus, and every page carries the corpus by which
/// searches find it.
pub proof fn law_searches_stay_in_their_corpus(
    vector: JsonView,
    corpus_id: Seq<char>,
    limit: u64,
    embed_model: Seq<char>,
    page: PageRecordView,
    record: WorkRecordView,
    artifact: PdfArtifactView,
    canonical: JsonView,
    quality: JsonView,
)
    ensures
        search_request(vector, corpus_id, limit).member("filter"@) == Some(
            corpus_filter(corpus_id),
        ),
        page_payload_of(
            corpus_id,
            embed_model,
            page,
            record,
            artifact,
            canonical,
            quality,
        ).member("corpus_id"@) == Some(JsonView::Text(corpus_id)),
{
    reveal_with_fuel(member_in, 4);
    reveal_strlit("query");
    reveal_strlit("using");
    reveal_strlit("filter");
    reveal_strlit("schema_version");
    reveal_strlit("record_type");
    reveal_strlit("corpus_id");
    assert("query"@.len() != "filter"@.len() && "using"@.len() != "filter"@.len());
    assert("schema_version"@.len() != "corpus_id"@.len());
    assert("record_type"@.len() != "corpus_id"@.len());
    let search = search_request(vector, corpus_id, limit)->Object_0;
    assert(search.skip(1)[0] == search[1] && search.skip(1).skip(1)[0] == search[2]);
    let payload = page_payload_of(
        corpus_id,
        embed_model,
        page,
        record,
        artifact,
        canonical,
        quality,
    )->Object_0;
    assert(payload.skip(1)[0] == payload[1] && payload.skip(1).skip(1)[0] == payload[2]);
}

} // verus!
