//! The state of a corpus.

use litmine::domain::{PageRecord, RawSourceRecord, WorkRecord};
use litmine::json::Json;
use litmine::score::Score;
use litmine::state::{CatalogFilters, State, StateError};
use litmine::util::sha256_bytes;

const NOW: &str = "2026-07-20T00:00:00Z";

fn score(value: f64) -> Score {
    Score::from_bits(value.to_bits())
}

fn state() -> State {
    State::new("/corpus".into(), "corpus-id".into())
}

fn work(doi: &str, priority: f64) -> WorkRecord {
    let mut record = WorkRecord::new("crossref", doi);
    record.ids.insert("doi".into(), doi.into());
    record.title = "A paper".into();
    record.quality.priority_score = score(priority);
    record
}

fn page(id: &str, work_id: &str, page_number: u32) -> PageRecord {
    PageRecord {
        page_id: id.into(),
        work_id: work_id.into(),
        page_number,
        image_path: "/corpus/pages/page.jpg".into(),
        image_sha256: "image-sha256".into(),
        page_text: "Native PDF text".into(),
        width: 100,
        height: 200,
        indexed_at: None,
    }
}

fn response(source: &str, id: &str, value: &str) -> RawSourceRecord {
    RawSourceRecord {
        source: source.into(),
        source_id: id.into(),
        retrieved_at: NOW.into(),
        raw: Json::Object(vec![("title".into(), Json::from_text(value))]),
    }
}

fn filters() -> CatalogFilters {
    CatalogFilters {
        statuses: vec![],
        year_from: None,
        year_to: None,
        min_quality_score: None,
        title_contains: None,
        limit: 10,
    }
}

#[test]
fn carries_original_pdf_provenance_into_indexing_records() {
    let mut state = state();
    let mut record = WorkRecord::new("test", "10.1000/test");
    record.ids.insert("doi".into(), "10.1000/test".into());
    record.title = "A paper".into();
    let work_id = state.upsert_work(&record, "selected", NOW.into()).unwrap();
    let pdf_path = "/corpus/pdfs/paper.pdf";
    state.mark_downloaded(
        &work_id,
        "https://example.org/paper.pdf",
        pdf_path,
        "pdf-sha256",
        "https://creativecommons.org/licenses/by/4.0/",
        NOW.into(),
    );
    state
        .replace_pages(
            &work_id,
            vec![PageRecord {
                page_id: "page-id".into(),
                work_id: work_id.clone(),
                page_number: 1,
                image_path: "/corpus/pages/page.jpg".into(),
                image_sha256: "image-sha256".into(),
                page_text: "Native PDF text".into(),
                width: 100,
                height: 200,
                indexed_at: None,
            }],
            NOW.into(),
        )
        .unwrap();
    let pages = state.pages_for_indexing().unwrap();
    assert_eq!(pages.len(), 1);
    assert_eq!(pages[0].0.page_text, "Native PDF text");
    assert_eq!(pages[0].2.sha256, "pdf-sha256");
    assert_eq!(pages[0].2.path, pdf_path);
    assert!(state.workspace().starts_with('/'));
}

#[test]
fn catalog_and_inspect_query_sqlite_without_reading_export_archives() {
    let mut state = state();
    let mut record = WorkRecord::new("crossref", "10.1000/live");
    record.ids.insert("doi".into(), "10.1000/live".into());
    record.title = "Live database record".into();
    record.work_type = "article-journal".into();
    record.container_title = "Journal of Tests".into();
    record.issued.date_parts = vec![vec![2025]];
    record.quality.score = score(88.0);
    record.quality.relevance_score = score(0.8);
    record.quality.priority_score = score(0.9);
    let work_id = state.upsert_work(&record, "selected", NOW.into()).unwrap();
    state
        .store_raw(
            &work_id,
            RawSourceRecord {
                source: "crossref".into(),
                source_id: "10.1000/live".into(),
                retrieved_at: "2026-07-20T00:00:00Z".into(),
                raw: Json::Object(vec![("title".into(), Json::from_text("raw provider record"))]),
            },
        )
        .unwrap();
    let page = || PageRecord {
        page_id: "page-live".into(),
        work_id: work_id.clone(),
        page_number: 3,
        image_path: "/corpus/pages/page-live.jpg".into(),
        image_sha256: "page-sha".into(),
        page_text: "Text that must not leak through metadata inspection".into(),
        width: 100,
        height: 200,
        indexed_at: None,
    };
    state.replace_pages(&work_id, vec![page()], NOW.into()).unwrap();
    state.mark_pages_indexed(&vec![page()], NOW);

    let catalog = state
        .catalog(&CatalogFilters {
            statuses: vec!["indexed".into()],
            year_from: Some(2025),
            year_to: Some(2025),
            min_quality_score: Some(score(80.0)),
            title_contains: Some("live database".into()),
            limit: 10,
        })
        .unwrap();
    assert_eq!(catalog.len(), 1);
    assert_eq!(catalog[0].title, "Live database record");

    let details = state.inspect_work(&work_id).unwrap().unwrap();
    assert_eq!(details.provenance_records.len(), 1);
    assert_eq!(details.pages[0].page_number, 3);
    let serialized = format!("{details:?}");
    assert!(!serialized.contains("page_text"));
    assert!(!serialized.contains("raw_json"));
    assert!(!serialized.contains("Stale archive-only record"));
    assert!(!serialized.contains("Text that must not leak through metadata inspection"));
}

#[test]
fn stored_works_are_read_back() {
    let mut state = state();
    let work_id = state.upsert_work(&work("10.1000/A", 0.5), "discovered", NOW.into()).unwrap();
    assert_eq!(work_id, "doi:10.1000/a");
    assert_eq!(state.get_work(&work_id).unwrap().unwrap().title, "A paper");
    assert!(state.get_work("doi:10.1000/b").unwrap().is_none());
    let row = state.stored_work(&work_id).unwrap();
    assert_eq!((row.status.as_str(), row.updated_at.as_str()), ("discovered", NOW));
    let mut strange = work("10.1000/n", 0.5);
    strange.quality.priority_score = score(f64::NAN);
    assert!(matches!(
        state.upsert_work(&strange, "discovered", NOW.into()),
        Err(StateError::UnorderedScore)
    ));
}

#[test]
fn storing_again_keeps_progress() {
    let mut state = state();
    let id = state.upsert_work(&work("10.1000/a", 0.5), "selected", NOW.into()).unwrap();
    state.mark_downloaded(&id, "https://a/x.pdf", "/corpus/x.pdf", "digest", "cc-by", NOW.into());
    state.upsert_work(&work("10.1000/a", 0.5), "discovered", "later".into()).unwrap();
    let row = state.stored_work(&id).unwrap();
    assert_eq!(row.status, "downloaded");
    assert_eq!(state.pdf_for_work(&id).as_deref(), Some("/corpus/x.pdf"));
}

#[test]
fn works_come_by_priority() {
    let mut state = state();
    state.upsert_work(&work("10.1000/low", 0.1), "selected", NOW.into()).unwrap();
    state.upsert_work(&work("10.1000/high", 0.9), "rejected", NOW.into()).unwrap();
    let all = state.all_works().unwrap();
    assert_eq!(all[0].0, "doi:10.1000/high");
    assert_eq!(all[1].2, "selected");
    let chosen = state.works_with_statuses(&vec!["selected".into()]).unwrap();
    assert_eq!(chosen.len(), 1);
    assert_eq!(chosen[0].0, "doi:10.1000/low");
    let summary = state.summary();
    assert_eq!(summary.len(), 2);
    assert!(summary.iter().all(|entry| entry.count == 1));
}

#[test]
fn responses_replace_those_with_their_key() {
    let mut state = state();
    let id = state.upsert_work(&work("10.1000/a", 0.5), "selected", NOW.into()).unwrap();
    state.store_raw(&id, response("crossref", "1", "old")).unwrap();
    state.store_raw(&id, response("openalex", "1", "other")).unwrap();
    state.store_raw(&id, response("crossref", "1", "new")).unwrap();
    let rows = state.stored_sources(&id);
    assert_eq!(rows.len(), 2);
    assert!(rows.iter().any(|row| row.raw.as_ref().unwrap().to_text() == r#"{"title":"new"}"#));
    assert!(!rows.iter().any(|row| row.raw.as_ref().unwrap().to_text() == r#"{"title":"old"}"#));
    assert!(matches!(
        state.store_raw("doi:10.1000/none", response("crossref", "2", "x")),
        Err(StateError::UnknownWork)
    ));
}

#[test]
fn pages_do_not_clash() {
    let mut state = state();
    let id = state.upsert_work(&work("10.1000/a", 0.5), "downloaded", NOW.into()).unwrap();
    let other = state.upsert_work(&work("10.1000/b", 0.5), "downloaded", NOW.into()).unwrap();
    state.replace_pages(&id, vec![page("1", &id, 1), page("2", &id, 2)], NOW.into()).unwrap();
    assert!(matches!(
        state.replace_pages(&other, vec![page("1", &other, 1)], NOW.into()),
        Err(StateError::DuplicatePage)
    ));
    assert!(matches!(
        state.replace_pages(&other, vec![page("3", "unknown", 1)], NOW.into()),
        Err(StateError::UnknownWork)
    ));
    state.replace_pages(&id, vec![page("1", &id, 1)], NOW.into()).unwrap();
    assert_eq!(state.stored_pages().len(), 1);
    assert_eq!(state.stored_work(&id).unwrap().page_count, 1);
    assert_eq!(state.stored_work(&id).unwrap().status, "rendered");
}

#[test]
fn works_are_indexed_with_their_last_page() {
    let mut state = state();
    let id = state.upsert_work(&work("10.1000/a", 0.5), "downloaded", NOW.into()).unwrap();
    state.replace_pages(&id, vec![page("1", &id, 1), page("2", &id, 2)], NOW.into()).unwrap();
    state.mark_pages_indexed(&vec![page("1", &id, 1)], NOW);
    assert_eq!(state.stored_work(&id).unwrap().status, "rendered");
    assert_eq!(state.pages_for_indexing().unwrap().len(), 1);
    state.mark_pages_indexed(&vec![page("2", &id, 2)], NOW);
    assert_eq!(state.stored_work(&id).unwrap().status, "indexed");
    let status = &state.artifact_statuses()[0];
    assert_eq!((status.stored_page_count, status.indexed_page_count), (2, 2));
}

#[test]
fn an_adopted_corpus_is_indexed_anew() {
    let mut state = state();
    let id = state.upsert_work(&work("10.1000/a", 0.5), "downloaded", NOW.into()).unwrap();
    state.replace_pages(&id, vec![page("1", &id, 1)], NOW.into()).unwrap();
    state.mark_pages_indexed(&vec![page("1", &id, 1)], NOW);
    state.adopt_corpus("another".into(), NOW);
    assert_eq!(state.corpus_id(), "another");
    assert_eq!(state.stored_work(&id).unwrap().status, "rendered");
    assert_eq!(state.pages_for_indexing().unwrap().len(), 1);
}

#[test]
fn errors_and_waits_are_marked() {
    let mut state = state();
    let id = state.upsert_work(&work("10.1000/a", 0.5), "selected", NOW.into()).unwrap();
    state.mark_error(&id, "download", "HTTP 404", NOW.into());
    let row = state.stored_work(&id).unwrap();
    assert_eq!(row.status, "error:download");
    assert_eq!(row.last_error.as_deref(), Some("HTTP 404"));
    state.mark_awaiting_manual_download(&id, NOW.into());
    let row = state.stored_work(&id).unwrap();
    assert_eq!(row.status, "awaiting-manual-download");
    assert_eq!(row.last_error, None);
}

#[test]
fn catalogs_are_filtered_and_limited() {
    let mut state = state();
    for i in 0..4 {
        let mut record = work(&format!("10.1000/{i}"), 0.1 * i as f64);
        record.issued.date_parts = vec![vec![2020 + i]];
        record.quality.score = score(50.0 + 10.0 * i as f64);
        state.upsert_work(&record, "selected", NOW.into()).unwrap();
    }
    let mut narrow = filters();
    narrow.year_from = Some(2021);
    narrow.min_quality_score = Some(score(70.0));
    assert_eq!(state.catalog(&narrow).unwrap().len(), 2);
    narrow.limit = 1;
    assert_eq!(state.catalog(&narrow).unwrap().len(), 1);
    narrow.limit = 0;
    assert!(matches!(state.catalog(&narrow), Err(StateError::NoLimit)));
    let mut reversed = filters();
    reversed.year_from = Some(2022);
    reversed.year_to = Some(2021);
    assert!(matches!(state.catalog(&reversed), Err(StateError::YearsReversed)));
    let mut high = filters();
    high.min_quality_score = Some(score(101.0));
    assert_eq!(
        state.catalog(&high).unwrap_err().message(),
        "min_quality_score must be between 0 and 100"
    );
    assert!(state.inspect_work("doi:none").unwrap().is_none());
}

#[test]
fn states_are_restored_where_they_cohere() {
    let mut state = state();
    let id = state.upsert_work(&work("10.1000/a", 0.5), "downloaded", NOW.into()).unwrap();
    state.store_raw(&id, response("crossref", "1", "x")).unwrap();
    state.replace_pages(&id, vec![page("1", &id, 1)], NOW.into()).unwrap();
    let rows = || vec![state.stored_work(&id).unwrap()];
    let restored = State::restore(
        "/corpus".into(),
        "corpus-id".into(),
        rows(),
        state.stored_sources(&id),
        state.stored_pages(),
    )
    .unwrap();
    assert_eq!(restored.all_works().unwrap().len(), 1);
    assert!(State::restore(
        "/corpus".into(),
        "corpus-id".into(),
        vec![],
        vec![],
        state.stored_pages(),
    )
    .is_none());
    let mut unreadable = rows();
    unreadable[0].record = None;
    let broken =
        State::restore("/corpus".into(), "id".into(), unreadable, vec![], vec![]).unwrap();
    assert!(matches!(broken.all_works(), Err(StateError::UnreadableRecord)));
}

#[test]
fn plans_are_kept_by_their_digest() {
    let (digest, active, archive) = state().plan_files(&b"{}".to_vec());
    assert_eq!(digest, sha256_bytes(b"{}"));
    assert_eq!(active, "/corpus/metadata/research-plan.json");
    assert_eq!(archive, format!("/corpus/metadata/plans/{digest}.json"));
}
