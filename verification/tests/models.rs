//! Requests to the models and to the vector database, and their answers.

use litmine::domain::{PageRecord, PdfArtifact, WorkRecord};
use litmine::json::{field, item, text, unsigned, Json, JsonNumber};
use litmine::nvidia::{
    embed_images_payload, embed_pages_payload, embed_query_payload, embedding_order,
    first_embedding, image_data_url, modality, ordered_rerank_scores, page_passage, rerank_payload,
    text_passage, ModelError, PageInput, RankingItem, RankingResponse, MAX_IMAGE_BYTES,
};
use litmine::qdrant::{
    check_collection, check_dimensions, check_pages, collection_payload, collection_url,
    found_points, page_payload, payload_indices, point, point_id, rank_results, search_payload,
    value_as_string, QdrantError,
};
use litmine::render::{
    page_directory, page_id, page_path, page_record, page_records, render_size, RenderedPage,
};
use litmine::score::Score;
use litmine::util::{sha256_bytes, StreamDigest};
use serde_json::Value;

fn score(value: f64) -> Score {
    Score::from_bits(value.to_bits())
}

fn number(value: Score) -> f64 {
    f64::from_bits(value.bits)
}

fn sigmoid(value: f64) -> f64 {
    if value >= 0.0 {
        1.0 / (1.0 + (-value).exp())
    } else {
        let exponential = value.exp();
        exponential / (1.0 + exponential)
    }
}

fn ranking(index: usize, logit: f64) -> RankingItem {
    RankingItem { index, logit: score(logit), normalized: score(sigmoid(logit)) }
}

fn json_of(value: Value) -> Json {
    match value {
        Value::Null => Json::Null,
        Value::Bool(value) => Json::Bool(value),
        Value::Number(number) => Json::Number(JsonNumber {
            text: number.to_string(),
            unsigned: number.as_u64(),
            signed: number.as_i64(),
            floating: number.as_f64().map(|value| Score::from_bits(value.to_bits())),
        }),
        Value::String(value) => Json::Text(value),
        Value::Array(items) => Json::List(items.into_iter().map(json_of).collect()),
        Value::Object(members) => Json::Object(
            members.into_iter().map(|(key, value)| (key, json_of(value))).collect(),
        ),
    }
}

fn parse(source: &str) -> Json {
    json_of(serde_json::from_str(source).unwrap())
}

#[test]
fn preserves_raw_and_sigmoid_rerank_scores_in_passage_order() {
    let scores = ordered_rerank_scores(
        RankingResponse {
            rankings: vec![ranking(1, -3.0), ranking(0, 2.0)],
        },
        2,
    )
    .unwrap();
    assert_eq!(number(scores[0].logit), 2.0);
    assert_eq!(number(scores[0].normalized), sigmoid(2.0));
    assert_eq!(number(scores[1].logit), -3.0);
    assert_eq!(number(scores[1].normalized), sigmoid(-3.0));
}

#[test]
fn rejects_incomplete_rerank_responses() {
    let error = ordered_rerank_scores(
        RankingResponse {
            rankings: vec![ranking(0, 1.0)],
        },
        2,
    )
    .unwrap_err();
    assert!(error.message().contains("omitted one or more passages"));
}

#[test]
fn later_rankings_and_strange_indices() {
    let response = RankingResponse {
        rankings: vec![ranking(0, 1.0), ranking(7, 9.0), ranking(0, 3.0)],
    };
    let scores = ordered_rerank_scores(response, 1).unwrap();
    assert_eq!(scores.len(), 1);
    assert_eq!(number(scores[0].logit), 3.0);
}

#[test]
fn embeddings_follow_their_inputs() {
    assert_eq!(embedding_order(&vec![2, 0, 1], 3).unwrap(), [1, 2, 0]);
    assert_eq!(
        embedding_order(&vec![0], 2).unwrap_err().message(),
        "NVIDIA returned 1 embeddings for 2 images"
    );
    assert_eq!(first_embedding(&vec![3, 1, 2]).unwrap(), 1);
    assert!(matches!(first_embedding(&vec![]), Err(ModelError::EmptyEmbeddings)));
}

#[test]
fn images_become_data_urls() {
    assert_eq!(image_data_url("PNG", &b"abc".to_vec()).unwrap(), "data:image/png;base64,YWJj");
    assert_eq!(image_data_url("webp", &b"ab".to_vec()).unwrap(), "data:image/webp;base64,YWI=");
    assert_eq!(image_data_url("", &vec![]).unwrap(), "data:image/jpeg;base64,");
    assert!(matches!(
        image_data_url("jpg", &vec![0; MAX_IMAGE_BYTES + 1]),
        Err(ModelError::ImageTooLarge)
    ));
}

#[test]
fn model_requests_are_exact() {
    assert_eq!(
        parsed(&embed_query_payload("m", "q").to_text()),
        parsed(&concat_text(&[
            r#"{"model":"m","input":["q"],"input_type":"query","modality":"text","#,
            r#""embedding_type":"float","encoding_format":"float","truncate":"END"}"#,
        ]))
    );
    let pages = vec![
        PageInput { text: " ".into(), image: "data:a".into() },
        PageInput { text: "words".into(), image: "data:b".into() },
    ];
    let payload = embed_pages_payload("m", &pages);
    assert_eq!(text(item(field(Some(&payload), "modality"), 0)), "image");
    assert_eq!(text(item(field(Some(&payload), "modality"), 1)), "text_image");
    assert_eq!(text(item(field(Some(&payload), "input"), 0)), "data:a");
    assert_eq!(text(item(field(Some(&payload), "input"), 1)), "words data:b");
    assert_eq!(modality("\n"), "image");
    let passages = vec![text_passage("t"), page_passage(&pages[0]), page_passage(&pages[1])];
    assert_eq!(
        parsed(&rerank_payload("m", "q", passages).to_text()),
        parsed(&concat_text(&[
            r#"{"model":"m","query":{"text":"q"},"passages":[{"text":"t"},{"image":"data:a"},"#,
            r#"{"text":"words","image":"data:b"}],"truncate":"END"}"#,
        ]))
    );
}

fn parsed(text: &str) -> Value {
    serde_json::from_str(text).unwrap()
}

fn concat_text(parts: &[&str]) -> String {
    parts.concat()
}

fn rendered(text: Option<&str>, bytes: &[u8]) -> RenderedPage {
    let mut image = StreamDigest::new();
    assert!(image.take_chunk(bytes));
    RenderedPage { native_text: text.map(str::to_owned), image, width: 10, height: 20 }
}

#[test]
fn pages_keep_their_identifiers() {
    let first = page_records("/a", "w", vec![rendered(None, b"1"), rendered(Some("x"), b"2")]);
    let second = page_records("/b", "w", vec![rendered(Some("y"), b"3"), rendered(None, b"4")]);
    assert_eq!(first.len(), 2);
    for (at, (before, after)) in first.iter().zip(&second).enumerate() {
        assert_eq!(before.page_id, after.page_id);
        assert_eq!((before.page_number, after.page_number), (at as u32 + 1, at as u32 + 1));
        assert_ne!(before.image_path, after.image_path);
        assert_ne!(before.image_sha256, after.image_sha256);
        assert!(before.indexed_at.is_none());
    }
    assert_eq!(first[1].image_sha256, sha256_bytes(b"2"));
    assert_ne!(first[0].page_id, first[1].page_id);
}

#[test]
fn images_are_embedded_alone() {
    let payload = embed_images_payload("m", &vec!["data:a".into(), "data:b".into()]);
    assert_eq!(
        parsed(&payload.to_text()),
        parsed(&concat_text(&[
            r#"{"model":"m","input":["data:a","data:b"],"input_type":"passage","#,
            r#""modality":"image","embedding_type":"float","encoding_format":"float","#,
            r#""truncate":"END"}"#,
        ]))
    );
}

fn page(work_id: &str) -> PageRecord {
    page_record("/c", work_id, 3, rendered(Some("  a\u{0}b "), b"image"))
}

#[test]
fn pages_have_stable_names() {
    let record = page("doi:10.1000/x");
    assert_eq!(record.page_text, "a b");
    assert_eq!(record.image_path, page_path("/c", "doi:10.1000/x", 3));
    assert!(record.image_path.starts_with(&page_directory("/c", "doi:10.1000/x")));
    assert!(record.image_path.ends_with("/00003.jpg"));
    assert_eq!(record.page_id, page_id("doi:10.1000/x", 3));
    assert_eq!(record.page_id.len(), 36);
    assert_eq!(record.page_id.as_bytes()[14], b'5');
    assert_ne!(page_id("doi:10.1000/x", 3), page_id("doi:10.1000/x", 4));
    assert_eq!(render_size(144), (1224, 2016));
    assert_eq!(render_size(72), (1000, 1400));
}

#[test]
fn points_belong_to_a_corpus() {
    let id = page_id("w", 1);
    assert_ne!(point_id("one", &id), point_id("two", &id));
    assert_eq!(point_id("one", &id), point_id("one", &id));
    let search = search_payload(Json::List(vec![]), "one", 5, 3);
    assert_eq!(unsigned(field(Some(&search), "limit")), Some(5));
    let condition = item(field(field(Some(&search), "filter"), "must"), 0);
    assert_eq!(text(field(condition, "key")), "corpus_id");
    assert_eq!(text(field(field(condition, "match"), "value")), "one");
}

#[test]
fn pages_are_stored_with_their_source() {
    let mut record = WorkRecord::new("crossref", "10.1000/x");
    record.ids.insert("doi".into(), "10.1000/x".into());
    record.issued.date_parts = vec![vec![2024]];
    let artifact = PdfArtifact {
        url: "https://a/x.pdf".into(),
        path: "/c/pdfs/x.pdf".into(),
        sha256: "digest".into(),
        license: "cc-by".into(),
    };
    let payload = page_payload(
        "corpus",
        "model",
        &page("doi:10.1000/x"),
        &record,
        &artifact,
        Json::Null,
        Json::Null,
    );
    let whole = Some(&payload);
    assert_eq!(text(field(whole, "corpus_id")), "corpus");
    assert_eq!(text(field(whole, "embedding_modality")), "text_image");
    assert_eq!(text(field(field(whole, "citation"), "id")), "doi-10.1000-x");
    assert_eq!(unsigned(field(whole, "publication_year")), Some(2024));
    assert_eq!(text(field(whole, "pdf_sha256")), "digest");
    let stored = point("corpus", "page", Json::List(vec![]), payload);
    assert_eq!(text(field(Some(&stored), "id")), point_id("corpus", "page"));
    let pages = vec![(page("w"), record, artifact)];
    assert!(check_pages(&pages, 1).is_ok());
    assert!(matches!(check_pages(&pages, 2), Err(QdrantError::CountMismatch)));
}

#[test]
fn pages_without_a_pdf_are_not_stored() {
    let artifact = PdfArtifact {
        url: String::new(),
        path: "/c/pdfs/x.pdf".into(),
        sha256: "digest".into(),
        license: String::new(),
    };
    let pages = vec![(page("w"), WorkRecord::new("a", "1"), artifact)];
    assert!(matches!(check_pages(&pages, 1), Err(QdrantError::MissingArtifact)));
}

#[test]
fn collections_are_checked() {
    assert_eq!(
        collection_url("http://q", "c", "/points"),
        "http://q/collections/c/points"
    );
    assert_eq!(
        parsed(&collection_payload(2048).to_text()),
        parsed(&concat_text(&[
            r#"{"vectors":{"content":{"size":2048,"distance":"Cosine","on_disk":true}},"#,
            r#""on_disk_payload":true}"#,
        ]))
    );
    assert_eq!(payload_indices().len(), 5);
    let reply = parse(r#"{"result":{"config":{"params":{"vectors":{"content":{"size":4}}}}}}"#);
    assert!(check_collection(&reply, 4).is_ok());
    assert_eq!(
        check_collection(&reply, 8).unwrap_err().message(),
        "Qdrant collection vector size is 4, expected 8; use a new collection or re-ingest"
    );
    assert!(matches!(check_collection(&parse("{}"), 4), Err(QdrantError::UnreadableSize)));
    assert!(check_dimensions(&vec![4, 4], 4).is_ok());
    assert_eq!(
        check_dimensions(&vec![4, 3], 4).unwrap_err().message(),
        "NVIDIA embedding dimension does not match QDRANT_VECTOR_SIZE=4"
    );
}

#[test]
fn results_are_ranked() {
    let reply = parse(
        r#"{"result":{"points":[
            {"id":"a","score":0.9,"payload":{"page_id":"pa","work_id":"w1","page_number":1}},
            {"id":7,"score":0.8,"payload":{"page_id":"pb","work_id":"w2","page_number":2}},
            {"id":"c","score":0.95,"payload":{"page_id":"pc","work_id":"w3","page_number":3}}
        ]}}"#,
    );
    let points = found_points(&reply);
    let results = rank_results(points, &vec![score(0.5), score(0.7), score(0.5)], 10);
    let order: Vec<&str> = results.iter().map(|result| result.work_id.as_str()).collect();
    assert_eq!(order, ["w2", "w3", "w1"]);
    assert_eq!(number(results[0].vector_score), 0.8);
    assert_eq!(rank_results(points, &vec![score(0.5), score(0.7), score(0.5)], 1).len(), 1);
    let plain = parse(r#"{"result":[{"id":"a"}]}"#);
    assert_eq!(rank_results(found_points(&plain), &vec![score(1.0)], 5).len(), 1);
    assert_eq!(value_as_string(Some(&parse(r#"{"b":[1,"x"]}"#))), r#"{"b":[1,"x"]}"#);
    assert_eq!(value_as_string(None), "");
}
