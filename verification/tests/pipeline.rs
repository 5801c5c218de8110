//! The stages of the pipeline.

use litmine::citations::CitationAudit;
use litmine::discovery::DiscoveredWork;
use litmine::domain::{
    AgentCandidate, FullTextCandidate, PageRecord, RawSourceRecord, ResearchPlan, WorkRecord,
    GOOGLE_SCHOLAR_LIBRARY_ACCESS_FLAG, MANUAL_FULLTEXT_ENABLED_FLAG, REQUIRES_MANUAL_PDF_FLAG,
};
use litmine::download::{
    import_manual_pdf, pdf_destination, DownloadedPdf, FileFacts, PdfStream, USER_SUPPLIED_LICENSE,
};
use litmine::json::{field, text, Json};
use litmine::model::Duplicate;
use litmine::pipeline::{
    absorb_discovered, apply_scores, automatic_outcome, build_corpus_audit, check_discovery,
    check_query, chunk_end, citation_audit, collect_resolution, download_step, eligible_works,
    enrich_selected, export, formal_lookup_doi, import_candidate, import_outcome, next_lookup,
    prepare_for_screening, refresh_formal_record, resolve_agent_candidate, screening_passages,
    select_works, settle_download, settle_render, works_to_download, works_to_render,
    works_to_screen, zero_selection_diagnostic, CandidateProgress, DownloadOutcome,
    DownloadReport, DownloadStep, LookupOutcome, LookupSource, PdfCheck, RelevanceFigures,
    RelevanceScore, RenderOutcome, ScreenedWork,
};
use litmine::score::Score;
use litmine::state::{State, StateError};
use litmine::table::TextMap;
use litmine::util::sha256_bytes;

const NOW: &str = "2026-01-01T00:00:00Z";

fn score(value: f64) -> Score {
    Score::from_bits(value.to_bits())
}

fn state() -> State {
    State::new("/corpus".into(), "corpus-id".into())
}

fn raw(source: &str, source_id: &str) -> RawSourceRecord {
    RawSourceRecord {
        source: source.to_owned(),
        source_id: source_id.to_owned(),
        retrieved_at: NOW.to_owned(),
        raw: Json::Object(vec![("source".into(), Json::from_text(source))]),
    }
}

fn discovered(record: WorkRecord, source: &str, source_id: &str) -> DiscoveredWork {
    DiscoveredWork { record, raw_records: vec![raw(source, source_id)] }
}

fn work(doi: &str) -> WorkRecord {
    let mut record = WorkRecord::new("crossref", doi);
    record.ids.insert("doi".into(), doi.into());
    record.title = "A paper".into();
    record
}

fn plan() -> ResearchPlan {
    ResearchPlan {
        research_question: "question".into(),
        queries: vec!["query".into()],
        inclusion_criteria: vec![],
        exclusion_criteria: vec![],
        date_from: None,
        date_to: None,
        languages: vec![],
        sources: vec!["crossref".into()],
        include_preprints: false,
        include_paywalled: true,
        use_google_scholar_library_access: false,
        target_papers: 2,
        min_quality_score: score(0.0),
        min_relevance_score: score(0.0),
    }
}

fn screened(doi: &str, priority: f64, accepted: bool) -> ScreenedWork {
    let mut record = work(doi);
    record.quality.priority_score = score(priority);
    record.quality.accepted = accepted;
    ScreenedWork { work_id: record.identity(), record }
}

fn candidate() -> AgentCandidate {
    AgentCandidate {
        task_id: "task".to_owned(),
        query: "query".to_owned(),
        source: "crossref".to_owned(),
        title: "A formally published study".to_owned(),
        doi: Some("10.1000/formal".to_owned()),
        arxiv_id: Some("2401.00001".to_owned()),
        openalex_id: None,
        landing_url: None,
        evidence_urls: vec!["https://doi.org/10.1000/formal".to_owned()],
        discovered_at: "2026-01-01T00:00:00Z".to_owned(),
    }
}

#[test]
fn refreshes_rejected_doi_backed_arxiv_records_for_rescreening() {
    let mut state = state();

    let mut preprint = WorkRecord::new("arxiv", "1904.08064v3");
    preprint.ids.insert("arxiv".into(), "1904.08064v3".into());
    preprint
        .ids
        .insert("doi".into(), "10.1016/j.eswa.2020.113680".into());
    preprint.title = "Forecasting with time series imaging".into();
    preprint.abstract_text = "Richer repository abstract for screening.".into();
    preprint.work_type = "preprint".into();
    preprint.container_title = "arXiv".into();
    preprint.quality.rejection_reasons = vec!["preprints excluded by research plan".into()];
    preprint.fulltext_candidates.push(FullTextCandidate {
        url: "https://arxiv.org/pdf/1904.08064v3".into(),
        source: "arxiv".into(),
        authorized: true,
        ..FullTextCandidate::default()
    });
    state.upsert_work(&preprint, "rejected", NOW.into()).unwrap();

    let mut formal = WorkRecord::new("crossref", "10.1016/j.eswa.2020.113680");
    formal
        .ids
        .insert("doi".into(), "10.1016/j.eswa.2020.113680".into());
    formal.title = "Forecasting with time series imaging".into();
    formal.work_type = "article-journal".into();
    formal.container_title = "Expert Systems with Applications".into();
    formal.issued.date_parts = vec![vec![2020, 12, 15]];
    formal.url = "https://doi.org/10.1016/j.eswa.2020.113680".into();

    let mut calls = Vec::new();
    let mut promoted = 0;
    for (work_id, record) in works_to_screen(&state).unwrap() {
        if let Some(doi) = formal_lookup_doi(&record) {
            calls.push(doi.clone());
            let found = discovered(formal.duplicate(), "crossref", "10.1016/j.eswa.2020.113680");
            let outcome = LookupOutcome::Found(found);
            if refresh_formal_record(&mut state, &work_id, record, &doi, outcome, NOW).unwrap() {
                promoted += 1;
            }
        }
    }

    assert_eq!(promoted, 1);
    assert_eq!(calls, ["10.1016/j.eswa.2020.113680"]);
    let works = state.all_works().unwrap();
    assert_eq!(works.len(), 1);
    assert_eq!(works[0].0, "doi:10.1016/j.eswa.2020.113680");
    assert_eq!(works[0].2, "discovered");
    assert_eq!(works[0].1.work_type, "article-journal");
    assert_eq!(
        works[0].1.container_title,
        "Expert Systems with Applications"
    );
    assert_eq!(works[0].1.ids.get("arxiv").unwrap(), "1904.08064v3");
    assert!(
        works[0]
            .1
            .fulltext_candidates
            .iter()
            .any(|candidate| candidate.source == "arxiv" && candidate.authorized)
    );
}

#[test]
fn resolves_and_merges_every_supplied_candidate_identifier() {
    let mut crossref = WorkRecord::new("crossref", "10.1000/formal");
    crossref
        .ids
        .insert("doi".to_owned(), "10.1000/formal".to_owned());
    crossref.title = "A formally published study".to_owned();
    crossref.work_type = "article-journal".to_owned();
    crossref.container_title = "Journal of Evidence".to_owned();
    crossref.publisher = "Scholarly Publisher".to_owned();

    let mut arxiv = WorkRecord::new("arxiv", "2401.00001v2");
    arxiv
        .ids
        .insert("doi".to_owned(), "10.1000/formal".to_owned());
    arxiv
        .ids
        .insert("arxiv".to_owned(), "2401.00001v2".to_owned());
    arxiv.title = "A formally published study".to_owned();
    arxiv.abstract_text = "The repository supplies the screening abstract.".to_owned();
    arxiv.work_type = "preprint".to_owned();
    arxiv.fulltext_candidates.push(FullTextCandidate {
        url: "https://arxiv.org/pdf/2401.00001v2".to_owned(),
        source: "arxiv".to_owned(),
        authorized: true,
        ..FullTextCandidate::default()
    });

    let candidate = AgentCandidate {
        task_id: "task".to_owned(),
        query: "query".to_owned(),
        source: "crossref".to_owned(),
        title: "A formally published study".to_owned(),
        doi: Some("10.1000/formal".to_owned()),
        arxiv_id: Some("2401.00001".to_owned()),
        openalex_id: None,
        landing_url: None,
        evidence_urls: vec!["https://doi.org/10.1000/formal".to_owned()],
        discovered_at: "2026-01-01T00:00:00Z".to_owned(),
    };

    let mut calls = Vec::new();
    let mut progress = CandidateProgress::new();
    while let Some(lookup) = next_lookup(&candidate, &progress) {
        let id = lookup.identifier.clone();
        let outcome = match lookup.source {
            LookupSource::Arxiv => {
                calls.push(format!("arxiv:{id}"));
                LookupOutcome::Found(discovered(arxiv.duplicate(), "arxiv", "2401.00001v2"))
            }
            LookupSource::Crossref => {
                calls.push(format!("crossref:{id}"));
                LookupOutcome::Found(discovered(crossref.duplicate(), "crossref", "10.1000/formal"))
            }
            LookupSource::OpenAlex => {
                calls.push(format!("openalex:{id}"));
                LookupOutcome::NotFound
            }
            LookupSource::OpenAlexByDoi => {
                calls.push(format!("openalex-doi:{id}"));
                LookupOutcome::Failed
            }
        };
        progress = collect_resolution(progress, &lookup, outcome, NOW);
    }
    let merged = resolve_agent_candidate(progress).unwrap();

    assert_eq!(merged.record.ids.get("doi").unwrap(), "10.1000/formal");
    assert_eq!(merged.record.ids.get("arxiv").unwrap(), "2401.00001v2");
    assert_eq!(merged.record.work_type, "article-journal");
    assert_eq!(merged.record.container_title, "Journal of Evidence");
    assert_eq!(
        merged.record.abstract_text,
        "The repository supplies the screening abstract."
    );
    assert!(
        merged
            .record
            .fulltext_candidates
            .iter()
            .any(|candidate| candidate.source == "arxiv" && candidate.authorized)
    );
    assert!(
        merged
            .record
            .provenance
            .iter()
            .any(|source| source.source == "crossref")
    );
    assert!(
        merged
            .record
            .provenance
            .iter()
            .any(|source| source.source == "arxiv")
    );
    assert!(
        merged
            .raw_records
            .iter()
            .any(|raw| raw.source == "resolution"
                && raw.source_id == "openalex:10.1000/formal"
                && text(field(Some(&raw.raw), "status")) == "lookup_failed")
    );
    assert!(calls.contains(&"arxiv:2401.00001".to_owned()));
    assert!(calls.contains(&"crossref:10.1000/formal".to_owned()));
    assert!(calls.contains(&"openalex-doi:10.1000/formal".to_owned()));
}

fn figures(scores: &[f64], threshold: f64) -> RelevanceFigures {
    let minimum = scores.iter().copied().fold(f64::INFINITY, f64::min);
    let maximum = scores.iter().copied().fold(f64::NEG_INFINITY, f64::max);
    let mean = scores.iter().sum::<f64>() / scores.len() as f64;
    RelevanceFigures {
        minimum: format!("{minimum:.6}"),
        mean: format!("{mean:.6}"),
        maximum: format!("{maximum:.6}"),
        threshold: format!("{threshold:.6}"),
    }
}

#[test]
fn zero_selection_diagnostic_recommends_calibration() {
    let scores = [0.002083, 0.030157, 0.005980];
    let message = zero_selection_diagnostic(3, score(0.35), &figures(&scores, 0.35));
    assert!(message.contains("max=0.030157"));
    assert!(message.contains("configured threshold=0.350000"));
    assert!(message.contains("min_relevance_score to 0.0"));
    assert!(message.contains("labeled positives and negatives"));
}

#[test]
fn zero_selection_diagnostic_tells_the_causes_apart() {
    let none = zero_selection_diagnostic(0, score(0.35), &figures(&[], 0.35));
    assert!(none.contains("none passed the hard academic-value gates"));
    let rank_only = zero_selection_diagnostic(2, score(0.0), &figures(&[0.5, 0.25], 0.0));
    assert_eq!(
        rank_only,
        [
            "screening selected zero papers despite rank-only relevance screening of 2 eligible ",
            "records (sigmoid relevance min=0.250000, mean=0.375000, max=0.500000); inspect ",
            "target_papers, post-resolution retraction checks, and stored rejection reasons",
        ]
        .concat()
    );
}

fn facts(bytes: &[u8]) -> FileFacts {
    let mut contents = PdfStream::new();
    contents.take_chunk(bytes, u64::MAX).unwrap();
    FileFacts {
        symbolic_link: false,
        regular: true,
        length: bytes.len() as u64,
        contents,
    }
}

fn round(state: &mut State, file: Option<&[u8]>) -> DownloadReport {
    let mut report = DownloadReport::default();
    let workspace = state.workspace().to_owned();
    for (work_id, record) in works_to_download(state).unwrap() {
        let outcome = match download_step(&workspace, &work_id, &record, file.is_some()) {
            DownloadStep::ImportManual => {
                let imported = import_manual_pdf(
                    &workspace,
                    &work_id,
                    &record,
                    1024,
                    facts(file.unwrap()),
                )
                .map_err(|error| error.message());
                import_outcome(&workspace, &work_id, imported)
            }
            DownloadStep::AwaitManual(request) => DownloadOutcome::AwaitingManual(request),
            DownloadStep::Automatic => {
                automatic_outcome(&workspace, &work_id, &record, Err("HTTP 404".into()))
            }
        };
        settle_download(state, &mut report, &work_id, outcome, file.is_some(), NOW).unwrap();
    }
    report
}

#[test]
fn queues_and_resumes_a_user_supplied_pdf() {
    let mut state = state();
    let mut record = WorkRecord::new("crossref", "10.1000/manual");
    record.ids.insert("doi".into(), "10.1000/manual".into());
    record.title = "A subscription article".into();
    record.url = "https://publisher.example/article".into();
    record
        .flags
        .insert(MANUAL_FULLTEXT_ENABLED_FLAG.into(), true);
    record.flags.insert(REQUIRES_MANUAL_PDF_FLAG.into(), true);
    let work_id = state.upsert_work(&record, "selected", NOW.into()).unwrap();

    let waiting = round(&mut state, None);

    assert_eq!(waiting.downloaded, 0);
    assert_eq!(waiting.manual_downloads.len(), 1);
    assert!(waiting.failures.is_empty());
    assert_eq!(state.all_works().unwrap()[0].2, "awaiting-manual-download");

    let resumed = round(&mut state, Some(b"%PDF-1.7\nmanual pipeline test"));

    assert_eq!(resumed.downloaded, 1);
    assert!(resumed.manual_downloads.is_empty());
    assert!(resumed.failures.is_empty());
    let details = state.inspect_work(&work_id).unwrap().unwrap();
    assert_eq!(details.summary.status, "downloaded");
    assert_eq!(details.pdf_artifact.unwrap().license, USER_SUPPLIED_LICENSE);
    assert!(
        details
            .provenance_records
            .iter()
            .any(|source| source.source == "manual-pdf")
    );
}

#[test]
fn failed_downloads_are_marked_by_stage() {
    let mut state = state();
    let id = state.upsert_work(&work("10.1000/a"), "selected", NOW.into()).unwrap();
    let report = round(&mut state, None);
    assert_eq!(report.failures[0].error, "HTTP 404");
    assert_eq!(state.stored_work(&id).unwrap().status, "error:download");
    let mut record = work("10.1000/a");
    record.flags.insert(MANUAL_FULLTEXT_ENABLED_FLAG.into(), true);
    state.upsert_work(&record, "selected", NOW.into()).unwrap();
    let report = round(&mut state, Some(b"<html>"));
    assert_eq!(
        report.failures[0].error,
        format!(
            "validate user-supplied PDF at {}; replace it with the correct PDF and retry: {}",
            pdf_destination("/corpus", &id),
            "user-supplied file is not a PDF (missing %PDF- signature)"
        )
    );
    assert_eq!(state.stored_work(&id).unwrap().status, "error:manual-download");
    let report = round(&mut state, None);
    assert_eq!(
        report.manual_downloads[0].reason,
        "automatic authorized download failed: HTTP 404"
    );
}

#[test]
fn discoveries_are_merged_with_what_is_known() {
    let mut state = state();
    let id = absorb_discovered(
        &mut state,
        discovered(work("10.1000/a"), "crossref", "10.1000/a"),
        NOW,
    )
    .unwrap();
    let mut richer = work("10.1000/A");
    richer.abstract_text = "An abstract".into();
    let again =
        absorb_discovered(&mut state, discovered(richer, "openalex", "W1"), NOW).unwrap();
    assert_eq!(id, again);
    let record = state.get_work(&id).unwrap().unwrap();
    assert_eq!(record.abstract_text, "An abstract");
    assert_eq!(state.stored_sources(&id).len(), 2);
}

#[test]
fn a_lookup_that_fails_is_kept() {
    let mut state = state();
    let id = state.upsert_work(&work("10.1000/a"), "rejected", NOW.into()).unwrap();
    for outcome in [LookupOutcome::NotFound, LookupOutcome::Failed] {
        let record = work("10.1000/a");
        assert!(
            !refresh_formal_record(&mut state, &id, record, "10.1000/a", outcome, NOW).unwrap()
        );
    }
    let rows = state.stored_sources(&id);
    assert_eq!(rows.len(), 1);
    assert_eq!(rows[0].source_id, "crossref:10.1000/a");
    assert_eq!(text(field(rows[0].raw.as_ref(), "status")), "lookup_failed");
    assert_eq!(formal_lookup_doi(&work("10.1000/a")), None);
    let outcome = LookupOutcome::NotFound;
    assert!(matches!(
        refresh_formal_record(&mut state, "unknown", work("10.1000/a"), "10.1000/a", outcome, NOW),
        Err(StateError::UnknownWork)
    ));
}

#[test]
fn screening_sets_the_flags() {
    let record = prepare_for_screening(work("10.1000/a"), &plan());
    assert!(*record.flags.get(MANUAL_FULLTEXT_ENABLED_FLAG).unwrap());
    assert!(*record.flags.get(REQUIRES_MANUAL_PDF_FLAG).unwrap());
    assert!(!*record.flags.get(GOOGLE_SCHOLAR_LIBRARY_ACCESS_FLAG).unwrap());
    let mut open = work("10.1000/a");
    open.fulltext_candidates.push(FullTextCandidate { authorized: true, ..Default::default() });
    let record = prepare_for_screening(open, &plan());
    assert!(!*record.flags.get(REQUIRES_MANUAL_PDF_FLAG).unwrap());
}

#[test]
fn only_works_that_passed_are_reranked() {
    let mut works = vec![
        screened("10.1000/a", 0.0, true),
        screened("10.1000/b", 0.0, false),
        screened("10.1000/c", 0.0, true),
    ];
    let indices = eligible_works(&works, 0, 3);
    assert_eq!(indices, [0, 2]);
    assert_eq!(screening_passages(&works, &indices).len(), 2);
    let given = |priority: f64| RelevanceScore {
        logit: score(1.0),
        normalized: score(0.5),
        priority: score(priority),
    };
    apply_scores(&mut works, &indices, &vec![given(0.3), given(0.7)], &plan());
    assert_eq!(f64::from_bits(works[0].record.quality.priority_score.bits), 0.3);
    assert_eq!(f64::from_bits(works[2].record.quality.priority_score.bits), 0.7);
    assert!(works[1].record.quality.relevance_logit.is_none());
    assert_eq!(chunk_end(0, 32, 40), 32);
    assert_eq!(chunk_end(32, 32, 40), 40);
}

#[test]
fn the_best_are_selected() {
    let works = vec![
        screened("10.1000/a", 0.1, true),
        screened("10.1000/b", 0.9, true),
        screened("10.1000/c", 0.95, false),
        screened("10.1000/d", 0.5, true),
    ];
    let (chosen, selected) = select_works(works, 2);
    assert_eq!(selected, 2);
    let order: Vec<(String, String)> = chosen
        .iter()
        .map(|entry| (entry.record.identity(), entry.status.clone()))
        .collect();
    let expected = [
        ("doi:10.1000/c", "rejected"),
        ("doi:10.1000/b", "selected"),
        ("doi:10.1000/d", "selected"),
        ("doi:10.1000/a", "rejected"),
    ];
    assert_eq!(order, expected.map(|(id, status)| (id.to_owned(), status.to_owned())));
    assert!(!chosen[3].record.quality.accepted);
    assert_eq!(
        chosen[3].record.quality.rejection_reasons,
        ["outside configured target_papers cap"]
    );
    assert!(chosen[0].record.quality.rejection_reasons.is_empty());
}

#[test]
fn enrichment_rejects_retracted_works() {
    let mut state = state();
    let id = state.upsert_work(&work("10.1000/a"), "selected", NOW.into()).unwrap();
    let mut retracted = work("10.1000/a");
    retracted.flags.insert("is_retracted".into(), true);
    let found = LookupOutcome::Found(discovered(retracted, "crossref", "10.1000/a"));
    assert!(enrich_selected(&mut state, work("10.1000/a"), found, NOW).unwrap());
    let row = state.stored_work(&id).unwrap();
    assert_eq!(row.status, "rejected");
    assert_eq!(
        row.record.unwrap().quality.rejection_reasons,
        ["retracted or withdrawn record found during citation enrichment"]
    );
    assert!(!enrich_selected(&mut state, work("10.1000/b"), LookupOutcome::Failed, NOW).unwrap());
    let found = LookupOutcome::Found(discovered(work("10.1000/b"), "crossref", "10.1000/b"));
    assert!(!enrich_selected(&mut state, work("10.1000/b"), found, NOW).unwrap());
    assert_eq!(state.stored_work("doi:10.1000/b").unwrap().status, "selected");
}

fn page(work_id: &str) -> PageRecord {
    PageRecord {
        page_id: format!("{work_id}-1"),
        work_id: work_id.into(),
        page_number: 1,
        image_path: "/corpus/pages/1.jpg".into(),
        image_sha256: "digest".into(),
        page_text: String::new(),
        width: 1,
        height: 1,
        indexed_at: None,
    }
}

#[test]
fn rendering_is_settled() {
    let mut state = state();
    let id = state.upsert_work(&work("10.1000/a"), "downloaded", NOW.into()).unwrap();
    let error = |state: &State| state.stored_work("doi:10.1000/a").unwrap().last_error;
    assert!(!settle_render(&mut state, &id, RenderOutcome::NoPdf, NOW).unwrap());
    assert_eq!(error(&state).as_deref(), Some("downloaded record has no PDF path"));
    assert!(!settle_render(&mut state, &id, RenderOutcome::Pages(vec![]), NOW).unwrap());
    assert_eq!(error(&state).as_deref(), Some("PDF contained no renderable pages"));
    let failed = RenderOutcome::Failed("broken".into());
    assert!(!settle_render(&mut state, &id, failed, NOW).unwrap());
    assert_eq!(works_to_render(&state, false).unwrap().len(), 1);
    assert!(settle_render(&mut state, &id, RenderOutcome::Pages(vec![page(&id)]), NOW).unwrap());
    assert_eq!(works_to_render(&state, false).unwrap().len(), 0);
    assert_eq!(works_to_render(&state, true).unwrap().len(), 1);
}

#[test]
fn requests_for_nothing_are_refused() {
    assert!(check_discovery(1).is_ok());
    assert_eq!(check_discovery(0).unwrap_err().message(), "max_candidates must be positive");
    assert!(check_query(1, 1).is_ok());
    assert_eq!(
        check_query(0, 1).unwrap_err().message(),
        "top_k and candidate_limit must be positive"
    );
}

fn indexed(license: &str) -> State {
    let mut state = state();
    let id = state.upsert_work(&work("10.1000/a"), "selected", NOW.into()).unwrap();
    state.mark_downloaded(&id, "https://a/x.pdf", "/corpus/x.pdf", "digest", license, NOW.into());
    state.replace_pages(&id, vec![page(&id)], NOW.into()).unwrap();
    state.mark_pages_indexed(&vec![page(&id)], NOW);
    state
}

fn complete() -> CitationAudit {
    CitationAudit { total_records: 1, complete_records: 1, incomplete_records: vec![] }
}

fn issues(state: &State, check: Option<PdfCheck>) -> Vec<String> {
    let mut checks = TextMap::new();
    if let Some(check) = check {
        checks.insert("doi:10.1000/a".into(), check);
    }
    let report = build_corpus_audit(state, complete(), &checks).unwrap();
    assert_eq!(report.clean, report.artifact_issues.is_empty());
    report.artifact_issues.into_iter().flat_map(|entry| entry.issues).collect()
}

#[test]
fn audits_name_what_is_amiss() {
    let state = indexed("cc-by");
    assert!(issues(&state, Some(PdfCheck::Hashed("digest".into()))).is_empty());
    assert_eq!(
        issues(&state, Some(PdfCheck::Hashed("other".into()))),
        ["preserved PDF SHA-256 does not match"]
    );
    assert_eq!(issues(&state, None), ["preserved PDF file is missing"]);
    assert_eq!(
        issues(&state, Some(PdfCheck::Unreadable("denied".into()))),
        ["could not hash preserved PDF: denied"]
    );
    assert_eq!(
        issues(&indexed(""), Some(PdfCheck::Hashed("digest".into()))),
        ["PDF has no explicit reuse-license metadata"]
    );
    assert_eq!(
        issues(&indexed(USER_SUPPLIED_LICENSE), Some(PdfCheck::Hashed("digest".into()))),
        ["user-supplied PDF has no established reuse license; do not redistribute it"]
    );
}

#[test]
fn audits_name_what_is_still_to_be_done() {
    for (status, expected) in [
        ("discovered", "candidate has not been screened"),
        ("selected", "selected work has not been downloaded"),
        ("awaiting-manual-download", "waiting for the user to supply a lawfully accessed PDF"),
    ] {
        let mut state = state();
        state.upsert_work(&work("10.1000/a"), status, NOW.into()).unwrap();
        assert_eq!(issues(&state, None), [expected]);
    }
    let mut rejected = state();
    rejected.upsert_work(&work("10.1000/a"), "rejected", NOW.into()).unwrap();
    assert!(issues(&rejected, None).is_empty());
    let mut failed = state();
    let id = failed.upsert_work(&work("10.1000/a"), "selected", NOW.into()).unwrap();
    failed.mark_error(&id, "download", "", NOW.into());
    assert_eq!(issues(&failed, None), ["pipeline failed: no error detail was retained"]);
    let mut bare = work("10.1000/a");
    bare.provenance.clear();
    let mut unknown = state();
    unknown.upsert_work(&bare, "downloaded", NOW.into()).unwrap();
    assert_eq!(
        issues(&unknown, None),
        [
            "canonical record has no metadata provenance",
            "preserved PDF artifact metadata is incomplete",
            "PDF has no explicit reuse-license metadata",
            "downloaded PDF has not been rendered",
        ]
    );
}

#[test]
fn exports_leave_out_rejected_works() {
    let mut state = indexed("cc-by");
    state.upsert_work(&work("10.1000/b"), "rejected", NOW.into()).unwrap();
    state.upsert_work(&work("10.1000/c"), "discovered", NOW.into()).unwrap();
    let (works, library, report) = export(&state, &TextMap::new()).unwrap();
    assert_eq!(works.len(), 1);
    assert_eq!(library.keys.len(), 1);
    assert_eq!(report.citation.total_records, 1);
    assert!(!report.clean);
    assert_eq!(citation_audit(&state, &TextMap::new()).unwrap().citation.total_records, 2);
}

#[test]
fn unknown_candidates_are_reported() {
    let mut progress = CandidateProgress::new();
    let mut order = Vec::new();
    while let Some(lookup) = next_lookup(&candidate(), &progress) {
        order.push(lookup.source);
        let outcome = match lookup.source {
            LookupSource::Crossref => LookupOutcome::Failed,
            _ => LookupOutcome::NotFound,
        };
        progress = collect_resolution(progress, &lookup, outcome, NOW);
    }
    assert_eq!(
        order,
        [LookupSource::Arxiv, LookupSource::Crossref, LookupSource::OpenAlexByDoi]
    );
    assert_eq!(progress.failures.len(), 2);
    assert_eq!(
        resolve_agent_candidate(progress).unwrap_err(),
        [
            "subagent candidate could not be resolved: arxiv:2401.00001 was not found; ",
            "crossref:10.1000/formal lookup failed",
        ]
        .concat()
    );
    assert_eq!(
        resolve_agent_candidate(CandidateProgress::new()).unwrap_err(),
        [
            "subagent candidate could not be resolved: ",
            "no valid identifier produced an authoritative record",
        ]
        .concat()
    );
}

#[test]
fn a_found_doi_leads_on() {
    let mut plain = candidate();
    plain.doi = None;
    plain.openalex_id = Some("W1".into());
    let mut progress = CandidateProgress::new();
    let mut order = Vec::new();
    while let Some(lookup) = next_lookup(&plain, &progress) {
        order.push(lookup.identifier.clone());
        let found = discovered(work("10.1000/Found"), "x", &lookup.identifier);
        progress = collect_resolution(progress, &lookup, LookupOutcome::Found(found), NOW);
    }
    assert_eq!(order, ["2401.00001", "W1", "10.1000/found"]);
    let precedences: Vec<u8> =
        progress.resolutions.iter().map(|resolution| resolution.precedence).collect();
    assert_eq!(precedences, [2, 1, 0]);
    let merged = resolve_agent_candidate(progress).unwrap();
    let ids: Vec<&str> = merged.raw_records.iter().map(|raw| raw.source_id.as_str()).collect();
    assert_eq!(ids, ["10.1000/found", "W1", "2401.00001"]);
}

#[test]
fn candidates_are_imported_once() {
    let mut state = state();
    let mut seen = Vec::new();
    let found = || discovered(work("10.1000/formal"), "crossref", "10.1000/formal");
    assert!(import_candidate(&mut state, &mut seen, &candidate(), 1, found(), NOW).unwrap());
    assert!(!import_candidate(&mut state, &mut seen, &candidate(), 2, found(), NOW).unwrap());
    assert_eq!(seen, ["doi:10.1000/formal"]);
    let rows = state.stored_sources("doi:10.1000/formal");
    assert_eq!(rows.len(), 2);
    let kept = rows.iter().find(|row| row.source == "subagent").unwrap();
    assert_eq!(kept.source_id, "task:1");
    assert_eq!(text(field(kept.raw.as_ref(), "arxiv_id")), "2401.00001");
}

#[test]
fn downloaded_files_are_kept_as_they_came() {
    let mut state = state();
    let id = state.upsert_work(&work("10.1000/a"), "selected", NOW.into()).unwrap();
    let pdf = DownloadedPdf {
        url: "https://a/x.pdf".into(),
        path: "/corpus/x.pdf".into(),
        sha256: "digest".into(),
        license: "cc-by".into(),
        user_supplied: false,
    };
    let outcome = automatic_outcome("/corpus", &id, &work("10.1000/a"), Ok(pdf));
    let mut report = DownloadReport::default();
    settle_download(&mut state, &mut report, &id, outcome, false, NOW).unwrap();
    assert_eq!(report.downloaded, 1);
    let row = state.stored_work(&id).unwrap();
    assert_eq!(row.pdf_license.as_deref(), Some("cc-by"));
    assert!(state.stored_sources(&id).is_empty());
}

#[test]
fn candidates_leave_a_response_only() {
    let mut state = state();
    let mut seen = Vec::new();
    let found = discovered(work("10.1000/formal"), "crossref", "10.1000/formal");
    import_candidate(&mut state, &mut seen, &candidate(), 1, found, NOW).unwrap();
    let record = state.get_work("doi:10.1000/formal").unwrap().unwrap();
    assert_eq!(record.title, "A paper");
    assert!(record.ids.get("arxiv").is_none());
    assert!(record.provenance.iter().all(|source| source.source != "subagent"));
}

#[test]
fn open_plans_never_ask_the_user() {
    let mut open = plan();
    open.include_paywalled = false;
    let mut record = work("10.1000/a");
    record.flags.insert(REQUIRES_MANUAL_PDF_FLAG.into(), true);
    let record = prepare_for_screening(record, &open);
    for file_present in [false, true] {
        assert!(matches!(
            download_step("/corpus", "doi:10.1000/a", &record, file_present),
            DownloadStep::Automatic
        ));
    }
}

#[test]
fn works_of_one_priority_keep_their_order() {
    let works = ["10.1000/c", "10.1000/a", "10.1000/b"]
        .map(|doi| screened(doi, 0.5, true))
        .into_iter()
        .collect();
    let (chosen, _) = select_works(works, 1);
    let order: Vec<String> = chosen.iter().map(|entry| entry.record.identity()).collect();
    assert_eq!(order, ["doi:10.1000/c", "doi:10.1000/a", "doi:10.1000/b"]);
    assert_eq!(chosen[0].status, "selected");
}
