//! What is stored of a page, what is asked of the vector database, and what comes back.

use crate::citations::csl_of;
use crate::domain::{year_of, PageRecordView, PdfArtifactView, WorkRecordView};
use crate::json::{field_of, lemma_member_at, unsigned_json, JsonNumberView, JsonView};
use crate::nvidia::modality_of;
use crate::order::law_ordered;
use crate::qdrant::{
    candidates_asked, collection_fits, collection_layout, corpus_filter, index_key, page_payload_of,
    pages_storable, point_id_of, point_of, points_in, ranking_of, reported_size, result_of,
    scored_results, search_request, year_json, SearchResult, SearchResultView,
};
use crate::score::Score;
use vstd::prelude::*;

verus! {

/// What is stored of a page holds, each under its own name, what is known of the page,
/// of its work and of the PDF.
pub proof fn law_a_page_is_stored_whole(
    corpus_id: Seq<char>,
    embed_model: Seq<char>,
    page: PageRecordView,
    work: WorkRecordView,
    artifact: PdfArtifactView,
    canonical: JsonView,
    quality: JsonView,
)
    ensures
        ({
            let stored = page_payload_of(corpus_id, embed_model, page, work, artifact, canonical, quality);
            &&& stored.member("schema_version"@) == Some(JsonView::Text(work.schema_version))
            &&& stored.member("record_type"@) == Some(JsonView::Text("pdf_page"@))
            &&& stored.member("corpus_id"@) == Some(JsonView::Text(corpus_id))
            &&& stored.member("page_id"@) == Some(JsonView::Text(page.page_id))
            &&& stored.member("work_id"@) == Some(JsonView::Text(page.work_id))
            &&& stored.member("page_number"@) == Some(unsigned_json(page.page_number as u64))
            &&& stored.member("image_path"@) == Some(JsonView::Text(page.image_path))
            &&& stored.member("image_sha256"@) == Some(JsonView::Text(page.image_sha256))
            &&& stored.member("page_text"@) == Some(JsonView::Text(page.page_text))
            &&& stored.member("embedding_model"@) == Some(JsonView::Text(embed_model))
            &&& stored.member("citation"@) == Some(csl_of(work, index_key(work)))
            &&& year_of(work) matches Some(year) ==> stored.member("publication_year"@) == Some(
                unsigned_json(year as u64),
            )
            &&& year_of(work) is None ==> stored.member("publication_year"@) == Some(JsonView::Null)
            &&& stored.member("canonical_record"@) == Some(canonical)
            &&& stored.member("quality"@) == Some(quality)
            &&& stored.member("pdf_url"@) == Some(JsonView::Text(artifact.url))
            &&& stored.member("pdf_path"@) == Some(JsonView::Text(artifact.path))
            &&& stored.member("pdf_sha256"@) == Some(JsonView::Text(artifact.sha256))
            &&& stored.member("pdf_license"@) == Some(JsonView::Text(artifact.license))
        }),
{
    let stored = page_payload_of(corpus_id, embed_model, page, work, artifact, canonical, quality);
    let members = stored->Object_0;
    reveal_strlit("schema_version");
    reveal_strlit("record_type");
    reveal_strlit("corpus_id");
    reveal_strlit("page_id");
    reveal_strlit("work_id");
    reveal_strlit("page_number");
    reveal_strlit("image_path");
    reveal_strlit("image_sha256");
    reveal_strlit("page_text");
    reveal_strlit("embedding_model");
    reveal_strlit("embedding_modality");
    reveal_strlit("citation");
    reveal_strlit("publication_year");
    reveal_strlit("canonical_record");
    reveal_strlit("quality");
    reveal_strlit("pdf_url");
    reveal_strlit("pdf_path");
    reveal_strlit("pdf_sha256");
    reveal_strlit("pdf_license");
    assert("schema_version"@.len() == 14);
    assert("record_type"@.len() == 11);
    assert("corpus_id"@.len() == 9);
    assert("page_id"@.len() == 7);
    assert("work_id"@.len() == 7);
    assert("page_number"@.len() == 11);
    assert("image_path"@.len() == 10);
    assert("image_sha256"@.len() == 12);
    assert("page_text"@.len() == 9);
    assert("embedding_model"@.len() == 15);
    assert("embedding_modality"@.len() == 18);
    assert("citation"@.len() == 8);
    assert("publication_year"@.len() == 16);
    assert("canonical_record"@.len() == 16);
    assert("quality"@.len() == 7);
    assert("pdf_url"@.len() == 7);
    assert("pdf_path"@.len() == 8);
    assert("pdf_sha256"@.len() == 10);
    assert("pdf_license"@.len() == 11);
    assert(stored.member("schema_version"@) == Some(JsonView::Text(work.schema_version))) by {
        lemma_member_at(members, "schema_version"@, 0);
    }
    assert(stored.member("record_type"@) == Some(JsonView::Text("pdf_page"@))) by {
        lemma_member_at(members, "record_type"@, 1);
    }
    assert(stored.member("corpus_id"@) == Some(JsonView::Text(corpus_id))) by {
        lemma_member_at(members, "corpus_id"@, 2);
    }
    assert(stored.member("page_id"@) == Some(JsonView::Text(page.page_id))) by {
        lemma_member_at(members, "page_id"@, 3);
    }
    assert(stored.member("work_id"@) == Some(JsonView::Text(page.work_id))) by {
        assert("page_id"@[0] != "work_id"@[0]);
        lemma_member_at(members, "work_id"@, 4);
    }
    assert(stored.member("page_number"@) == Some(unsigned_json(page.page_number as u64))) by {
        assert("record_type"@[0] != "page_number"@[0]);
        lemma_member_at(members, "page_number"@, 5);
    }
    assert(stored.member("image_path"@) == Some(JsonView::Text(page.image_path))) by {
        lemma_member_at(members, "image_path"@, 6);
    }
    assert(stored.member("image_sha256"@) == Some(JsonView::Text(page.image_sha256))) by {
        lemma_member_at(members, "image_sha256"@, 7);
    }
    assert(stored.member("page_text"@) == Some(JsonView::Text(page.page_text))) by {
        assert("corpus_id"@[0] != "page_text"@[0]);
        lemma_member_at(members, "page_text"@, 8);
    }
    assert(stored.member("embedding_model"@) == Some(JsonView::Text(embed_model))) by {
        lemma_member_at(members, "embedding_model"@, 9);
    }
    assert(stored.member("embedding_modality"@) == Some(JsonView::Text(modality_of(page.page_text)))) by {
        lemma_member_at(members, "embedding_modality"@, 10);
    }
    assert(stored.member("citation"@) == Some(csl_of(work, index_key(work)))) by {
        lemma_member_at(members, "citation"@, 11);
    }
    assert(stored.member("publication_year"@) == Some(year_json(year_of(work)))) by {
        lemma_member_at(members, "publication_year"@, 12);
    }
    assert(stored.member("canonical_record"@) == Some(canonical)) by {
        assert("publication_year"@[0] != "canonical_record"@[0]);
        lemma_member_at(members, "canonical_record"@, 13);
    }
    assert(stored.member("quality"@) == Some(quality)) by {
        assert("page_id"@[0] != "quality"@[0]);
        assert("work_id"@[0] != "quality"@[0]);
        lemma_member_at(members, "quality"@, 14);
    }
    assert(stored.member("pdf_url"@) == Some(JsonView::Text(artifact.url))) by {
        assert("page_id"@[1] != "pdf_url"@[1]);
        assert("work_id"@[0] != "pdf_url"@[0]);
        assert("quality"@[0] != "pdf_url"@[0]);
        lemma_member_at(members, "pdf_url"@, 15);
    }
    assert(stored.member("pdf_path"@) == Some(JsonView::Text(artifact.path))) by {
        assert("citation"@[0] != "pdf_path"@[0]);
        lemma_member_at(members, "pdf_path"@, 16);
    }
    assert(stored.member("pdf_sha256"@) == Some(JsonView::Text(artifact.sha256))) by {
        assert("image_path"@[0] != "pdf_sha256"@[0]);
        lemma_member_at(members, "pdf_sha256"@, 17);
    }
    assert(stored.member("pdf_license"@) == Some(JsonView::Text(artifact.license))) by {
        assert("record_type"@[0] != "pdf_license"@[0]);
        assert("page_number"@[1] != "pdf_license"@[1]);
        lemma_member_at(members, "pdf_license"@, 18);
    }
}

/// A stored page comes back as itself: the answer that is read from a point with what is
/// stored of a page names that page, its work, its number and its image, its citation,
/// and the PDF that it was taken from, with the score that the reranker gave it.
pub proof fn law_stored_pages_come_back(
    point: JsonView,
    rerank_score: Score,
    corpus_id: Seq<char>,
    embed_model: Seq<char>,
    page: PageRecordView,
    work: WorkRecordView,
    artifact: PdfArtifactView,
    canonical: JsonView,
    quality: JsonView,
)
    requires
        point.member("payload"@) == Some(
            page_payload_of(corpus_id, embed_model, page, work, artifact, canonical, quality),
        ),
    ensures
        ({
            let found = result_of(point, rerank_score);
            &&& found.page_id == page.page_id
            &&& found.work_id == page.work_id
            &&& found.page_number == page.page_number
            &&& found.image_path == page.image_path
            &&& found.citation == csl_of(work, index_key(work))
            &&& found.pdf_url == artifact.url
            &&& found.pdf_path == artifact.path
            &&& found.pdf_sha256 == artifact.sha256
            &&& found.pdf_license == artifact.license
            &&& found.rerank_score == rerank_score
        }),
{
    law_a_page_is_stored_whole(
        corpus_id,
        embed_model,
        page,
        work,
        artifact,
        canonical,
        quality,
    );
}

/// The score of the vector is the one that the database gives, and the point is known by
/// its own identifier where nothing is stored of its page.
pub proof fn law_a_point_has_its_score(
    point: JsonView,
    rerank_score: Score,
    id: Seq<char>,
    number: JsonNumberView,
    score: Score,
)
    requires
        point.member("score"@) == Some(JsonView::Number(number)),
        number.floating == Some(score),
        point.member("id"@) == Some(JsonView::Text(id)),
    ensures
        result_of(point, rerank_score).vector_score == score,
        result_of(point, rerank_score).rerank_score == rerank_score,
        field_of(point.member("payload"@), "page_id"@) is None ==> result_of(
            point,
            rerank_score,
        ).page_id == id,
{
}

/// A point that is written for a page holds what is stored of it, under its identifier
/// and with its vector.
pub proof fn law_a_point_holds_its_page(id: Seq<char>, vector: JsonView, payload: JsonView)
    ensures
        ({
            let made = point_of(id, vector, payload);
            &&& made.member("id"@) == Some(JsonView::Text(id))
            &&& field_of(made.member("vector"@), "content"@) == Some(vector)
            &&& made.member("payload"@) == Some(payload)
        }),
{
    let made = point_of(id, vector, payload);
    let members = made->Object_0;
    let inner = members[1].1->Object_0;
    lemma_member_at(inner, "content"@, 0);
    reveal_strlit("id");
    reveal_strlit("vector");
    reveal_strlit("payload");
    assert("id"@.len() == 2);
    assert("vector"@.len() == 6);
    assert("payload"@.len() == 7);
    assert(made.member("id"@) == Some(members[0].1)) by {
        lemma_member_at(members, "id"@, 0);
    }
    assert(made.member("vector"@) == Some(members[1].1)) by {
        lemma_member_at(members, "vector"@, 1);
    }
    assert(made.member("payload"@) == Some(members[2].1)) by {
        lemma_member_at(members, "payload"@, 2);
    }
}

/// A search asks for as many points as it is told to, the nearest to its vector among
/// the vectors of page contents, with what is stored of them.
pub proof fn law_a_search_asks_for_its_vector(vector: JsonView, corpus_id: Seq<char>, limit: u64)
    ensures
        ({
            let made = search_request(vector, corpus_id, limit);
            &&& made.member("query"@) == Some(vector)
            &&& made.member("using"@) == Some(JsonView::Text("content"@))
            &&& made.member("filter"@) == Some(corpus_filter(corpus_id))
            &&& made.member("limit"@) == Some(unsigned_json(limit))
            &&& made.member("with_payload"@) == Some(JsonView::Bool(true))
            &&& made.member("with_vector"@) == Some(JsonView::Bool(false))
        }),
{
    let made = search_request(vector, corpus_id, limit);
    let members = made->Object_0;
    reveal_strlit("query");
    reveal_strlit("using");
    reveal_strlit("filter");
    reveal_strlit("limit");
    reveal_strlit("with_payload");
    reveal_strlit("with_vector");
    assert("query"@.len() == 5);
    assert("using"@.len() == 5);
    assert("filter"@.len() == 6);
    assert("limit"@.len() == 5);
    assert("with_payload"@.len() == 12);
    assert("with_vector"@.len() == 11);
    assert(made.member("query"@) == Some(members[0].1)) by {
        lemma_member_at(members, "query"@, 0);
    }
    assert(made.member("using"@) == Some(members[1].1)) by {
        assert("query"@[0] != "using"@[0]);
        lemma_member_at(members, "using"@, 1);
    }
    assert(made.member("filter"@) == Some(members[2].1)) by {
        lemma_member_at(members, "filter"@, 2);
    }
    assert(made.member("limit"@) == Some(members[3].1)) by {
        assert("query"@[0] != "limit"@[0]);
        assert("using"@[0] != "limit"@[0]);
        lemma_member_at(members, "limit"@, 3);
    }
    assert(made.member("with_payload"@) == Some(members[4].1)) by {
        lemma_member_at(members, "with_payload"@, 4);
    }
    assert(made.member("with_vector"@) == Some(members[5].1)) by {
        lemma_member_at(members, "with_vector"@, 5);
    }
}

/// What a search demands of a point: the name of a member and the value that it has to
/// have.
pub open spec fn demanded(filter: JsonView) -> Option<(Option<JsonView>, Option<JsonView>)> {
    match filter.member("must"@) {
        Some(JsonView::List(conditions)) => if conditions.len() == 1 {
            Some(
                (
                    conditions[0].member("key"@),
                    field_of(conditions[0].member("match"@), "value"@),
                ),
            )
        } else {
            None
        },
        _ => None,
    }
}

/// A search finds the pages of its own corpus and no others: what it demands is there in
/// what is stored of a page exactly where the page was stored for that corpus.
pub proof fn law_searches_find_their_own_corpus(
    searched: Seq<char>,
    corpus_id: Seq<char>,
    embed_model: Seq<char>,
    page: PageRecordView,
    work: WorkRecordView,
    artifact: PdfArtifactView,
    canonical: JsonView,
    quality: JsonView,
)
    ensures
        demanded(corpus_filter(searched)) matches Some((Some(JsonView::Text(key)), value)) && value
            is Some && (page_payload_of(corpus_id, embed_model, page, work, artifact, canonical, quality).member(key) == value <==> corpus_id == searched),
{
    law_a_page_is_stored_whole(
        corpus_id,
        embed_model,
        page,
        work,
        artifact,
        canonical,
        quality,
    );
    let filter = corpus_filter(searched);
    let members = filter->Object_0;
    lemma_member_at(members, "must"@, 0);
    let condition = members[0].1->List_0[0];
    let parts = condition->Object_0;
    reveal_strlit("key");
    reveal_strlit("match");
    assert("key"@.len() == 3);
    assert("match"@.len() == 5);
    lemma_member_at(parts, "key"@, 0);
    lemma_member_at(parts, "match"@, 1);
    lemma_member_at(parts[1].1->Object_0, "value"@, 0);
    assert(condition.member("key"@) == Some(JsonView::Text("corpus_id"@)));
    assert(field_of(condition.member("match"@), "value"@) == Some(JsonView::Text(searched)));
}

/// A collection that was made for vectors of a size is known again by that size.
pub proof fn law_a_collection_reports_its_size(answer: JsonView, size: u64)
    requires
        field_of(field_of(answer.member("result"@), "config"@), "params"@) == Some(
            collection_layout(size),
        ),
    ensures
        reported_size(answer) == Some(size),
{
    let layout = collection_layout(size)->Object_0;
    lemma_member_at(layout, "vectors"@, 0);
    let vectors = layout[0].1->Object_0;
    lemma_member_at(vectors, "content"@, 0);
    lemma_member_at(vectors[0].1->Object_0, "size"@, 0);
}

/// The points of an answer are those that it lists, directly or as its points.
pub proof fn law_the_listed_points_are_found(answer: JsonView, points: Seq<JsonView>)
    ensures
        answer.member("result"@) == Some(JsonView::List(points)) ==> points_in(answer) == points,
        field_of(answer.member("result"@), "points"@) == Some(JsonView::List(points)) ==> points_in(
            answer,
        ) == points,
{
}

/// The answer at one place is better than the one at another: the reranker scores it
/// higher, or as high and the vector is nearer.
pub open spec fn better(a: SearchResultView, b: SearchResultView) -> bool {
    ||| a.rerank_score.total_rank() > b.rerank_score.total_rank()
    ||| a.rerank_score.total_rank() == b.rerank_score.total_rank() && a.vector_score.total_rank()
        > b.vector_score.total_rank()
}

/// The answers and the rest are what the points tell, and none of the rest is better than
/// an answer.
pub open spec fn left_behind(
    points: Seq<JsonView>,
    scores: Seq<Score>,
    answers: Seq<SearchResultView>,
    rest: Seq<SearchResultView>,
) -> bool {
    &&& (answers + rest).to_multiset() == Seq::new(
        points.len(),
        |k: int| result_of(points[k], scores[k]),
    ).to_multiset()
    &&& forall|i: int, j: int|
        0 <= i < answers.len() && 0 <= j < rest.len() ==> !better(
            #[trigger] rest[j],
            #[trigger] answers[i],
        )
}

/// There are as many answers as are wanted and can be given, each is read from a point
/// with the score that belongs to it, and no later one is better than an earlier one, nor is any that
/// does not answer better than one that does.
pub proof fn law_the_best_pages_answer(points: Seq<JsonView>, scores: Seq<Score>, top_k: nat)
    requires
        points.len() == scores.len(),
    ensures
        ({
            let answers = ranking_of(points, scores, top_k);
            &&& answers.len() == if points.len() <= top_k {
                points.len()
            } else {
                top_k
            }
            &&& forall|i: int|
                0 <= i < answers.len() ==> exists|k: int|
                    0 <= k < points.len() && #[trigger] answers[i] == #[trigger] result_of(
                        points[k],
                        scores[k],
                    )
            &&& forall|i: int, j: int|
                0 <= i < j < answers.len() ==> !better(#[trigger] answers[j], #[trigger] answers[i])
            &&& exists|rest: Seq<SearchResultView>| #[trigger] left_behind(points, scores, answers, rest)
        }),
{
    let all = scored_results(points, scores);
    let sorted = crate::order::ordered::<SearchResult>(all);
    let answers = ranking_of(points, scores, top_k);
    law_ordered::<SearchResult>(all);
    assert forall|i: int| 0 <= i < answers.len() implies exists|k: int|
        0 <= k < points.len() && #[trigger] answers[i] == #[trigger] result_of(
            points[k],
            scores[k],
        ) by {
        assert(answers[i] == sorted[i]);
        broadcast use vstd::seq_lib::group_to_multiset_ensures;

        assert(sorted.contains(sorted[i]));
        assert(sorted.to_multiset().count(sorted[i]) > 0);
        assert(all.contains(sorted[i]));
        let k = choose|k: int| 0 <= k < all.len() && all[k] == sorted[i];
        assert(answers[i] == result_of(points[k], scores[k]));
    }
    assert forall|i: int, j: int| 0 <= i < j < answers.len() implies !better(
        #[trigger] answers[j],
        #[trigger] answers[i],
    ) by {
        assert(answers[i] == sorted[i] && answers[j] == sorted[j]);
    }
    let rest = sorted.skip(answers.len() as int);
    assert(answers + rest =~= sorted);
    assert(all =~= Seq::new(points.len(), |k: int| result_of(points[k], scores[k])));
    assert forall|i: int, j: int| 0 <= i < answers.len() && 0 <= j < rest.len() implies !better(
        #[trigger] rest[j],
        #[trigger] answers[i],
    ) by {
        assert(answers[i] == sorted[i] && rest[j] == sorted[answers.len() + j]);
    }
    assert(left_behind(points, scores, answers, rest));
}

/// A search asks for as many candidates as are wanted and for no fewer than results, and
/// for one of these numbers exactly.
pub proof fn law_enough_candidates_are_asked_for(top_k: usize, candidate_limit: usize)
    ensures
        candidates_asked(top_k, candidate_limit) >= top_k,
        candidates_asked(top_k, candidate_limit) >= candidate_limit,
        candidates_asked(top_k, candidate_limit) == top_k || candidates_asked(
            top_k,
            candidate_limit,
        ) == candidate_limit,
{
}

/// Pages are stored exactly where there is a vector for each of them and of each of their
/// PDFs the address, the path and the digest are known.
pub proof fn law_only_traceable_pages_are_stored(
    pages: Seq<(PageRecordView, WorkRecordView, PdfArtifactView)>,
    vectors: nat,
)
    ensures
        pages_storable(pages, vectors) <==> pages.len() == vectors && forall|i: int|
            0 <= i < pages.len() ==> (#[trigger] pages[i]).2.url.len() > 0 && pages[i].2.path.len()
                > 0 && pages[i].2.sha256.len() > 0,
{
    if pages_storable(pages, vectors) {
        assert forall|i: int| 0 <= i < pages.len() implies (#[trigger] pages[i]).2.url.len() > 0
            && pages[i].2.path.len() > 0 && pages[i].2.sha256.len() > 0 by {
            assert(!crate::qdrant::artifact_incomplete(pages[i].2));
        }
    }
    if forall|i: int|
        0 <= i < pages.len() ==> (#[trigger] pages[i]).2.url.len() > 0 && pages[i].2.path.len() > 0
            && pages[i].2.sha256.len() > 0 {
        if crate::qdrant::any_incomplete(pages) {
            let i = choose|i: int|
                0 <= i < pages.len() && crate::qdrant::artifact_incomplete((#[trigger] pages[i]).2);
            assert(false);
        }
    }
}

/// A collection that was made for vectors of a size fits that size and no other.
pub proof fn law_a_collection_fits_its_size(answer: JsonView, size: u64, expected: usize)
    requires
        field_of(field_of(answer.member("result"@), "config"@), "params"@) == Some(
            collection_layout(size),
        ),
    ensures
        collection_fits(answer, expected) <==> size == expected,
{
    law_a_collection_reports_its_size(answer, size);
}

/// A collection compares vectors of page contents by the cosine, and keeps vectors and pages
/// on disk.
pub proof fn law_collections_compare_by_the_cosine(size: u64)
    ensures
        ({
            let made = collection_layout(size);
            let content = field_of(made.member("vectors"@), "content"@);
            &&& field_of(content, "size"@) == Some(unsigned_json(size))
            &&& field_of(content, "distance"@) == Some(JsonView::Text("Cosine"@))
            &&& field_of(content, "on_disk"@) == Some(JsonView::Bool(true))
            &&& made.member("on_disk_payload"@) == Some(JsonView::Bool(true))
        }),
{
    let layout = collection_layout(size)->Object_0;
    reveal_strlit("vectors");
    reveal_strlit("on_disk_payload");
    reveal_strlit("size");
    reveal_strlit("distance");
    reveal_strlit("on_disk");
    assert("vectors"@.len() == 7 && "on_disk_payload"@.len() == 15);
    assert("size"@.len() == 4 && "distance"@.len() == 8 && "on_disk"@.len() == 7);
    lemma_member_at(layout, "vectors"@, 0);
    lemma_member_at(layout, "on_disk_payload"@, 1);
    let vectors = layout[0].1->Object_0;
    lemma_member_at(vectors, "content"@, 0);
    let content = vectors[0].1->Object_0;
    lemma_member_at(content, "size"@, 0);
    lemma_member_at(content, "distance"@, 1);
    lemma_member_at(content, "on_disk"@, 2);
}

/// A page is known in the database by its corpus and its identifier.
pub proof fn law_points_are_named_by_corpus_and_page(corpus_id: Seq<char>, page_id: Seq<char>)
    ensures
        point_id_of(corpus_id, page_id) == crate::adapters::uuid_v5(
            0x264e_568e_093f_4cf1_877e_a1c2_b56b_1eb6,
            corpus_id + "\u{1f}"@ + page_id,
        ),
{
}

} // verus!
