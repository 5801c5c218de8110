//! Plans, works and candidates.

use litmine::domain::{
    authors_match, default_quality, default_relevance, default_sources, default_target,
    default_work_type, schema_version, AgentCandidate, Author, CandidateError, FullTextCandidate,
    PlanError, ResearchPlan, WorkRecord,
};
use litmine::model::Duplicate;
use litmine::score::Score;

fn score(value: f64) -> Score {
    Score::from_bits(value.to_bits())
}

fn plan() -> ResearchPlan {
    ResearchPlan {
        research_question: "question".into(),
        queries: vec!["query".into()],
        inclusion_criteria: vec![],
        exclusion_criteria: vec![],
        date_from: None,
        date_to: None,
        languages: vec![],
        sources: default_sources(),
        include_preprints: false,
        include_paywalled: false,
        use_google_scholar_library_access: false,
        target_papers: default_target(),
        min_quality_score: default_quality(),
        min_relevance_score: default_relevance(),
    }
}

fn candidate() -> AgentCandidate {
    AgentCandidate {
        task_id: "task".into(),
        query: "query".into(),
        source: "openalex".into(),
        title: "title".into(),
        doi: Some("10.1000/x".into()),
        arxiv_id: None,
        openalex_id: None,
        landing_url: None,
        evidence_urls: vec!["https://example.org/record".into()],
        discovered_at: "2026-01-01T00:00:00Z".into(),
    }
}

#[test]
fn authors_match_both_ways_and_by_more_than_blanks() {
    let named = |given: &str, family: &str, literal: &str, orcid: Option<&str>| Author {
        given: given.into(),
        family: family.into(),
        literal: literal.into(),
        orcid: orcid.map(str::to_owned),
        ..Author::default()
    };
    let authors = [
        named("Ada", "Chen", "", None),
        named("", "", "Ada Chen", None),
        named(" ", "", "\t", None),
        named("", "", "", None),
        named("", "", " ", Some("0000-0001")),
        named("Bo", "Li", "", Some(" 0000-0001 ")),
        named("", "", "", Some("0000-0002")),
    ];
    for a in &authors {
        for b in &authors {
            assert_eq!(authors_match(a, b), authors_match(b, a));
        }
    }
    assert!(authors_match(&authors[0], &authors[1]));
    assert!(!authors_match(&authors[2], &authors[3]));
    assert!(!authors_match(&authors[3], &authors[3]));
    assert!(authors_match(&authors[4], &authors[5]));
    assert!(!authors_match(&authors[4], &authors[6]));
}

#[test]
fn prefers_doi_as_identity() {
    let mut record = WorkRecord::new("test", "one");
    record
        .ids
        .insert("doi".into(), "https://doi.org/10.1000/ABC".into());
    assert_eq!(record.identity(), "doi:10.1000/abc");
}

#[test]
fn uses_unversioned_arxiv_id_as_identity() {
    let mut record = WorkRecord::new("arxiv", "2401.00001v2");
    record.ids.insert("arxiv".into(), "2401.00001v2".into());
    assert_eq!(record.identity(), "arxiv:2401.00001");
    assert_eq!(record.ids.get("arxiv").unwrap(), "2401.00001v2");
}

#[test]
fn merging_keeps_richer_metadata() {
    let mut left = WorkRecord::new("openalex", "W1");
    left.title = "Short".into();
    left.authors.push(Author {
        given: "Ada".into(),
        family: "Chen".into(),
        literal: "Ada Chen".into(),
        affiliations: vec!["University A".into()],
        ..Author::default()
    });
    let mut right = WorkRecord::new("crossref", "10.1000/x");
    right.title = "A much more complete scholarly title".into();
    right.metrics.cited_by_count = 20;
    right.authors.push(Author {
        given: "Ada".into(),
        family: "Chen".into(),
        literal: "Ada Chen".into(),
        orcid: Some("https://orcid.org/0000-0000-0000-0001".into()),
        affiliations: vec!["Institute B".into()],
        ..Author::default()
    });
    left.flags.insert("is_retracted".into(), true);
    right.flags.insert("is_retracted".into(), false);
    let merged = left.merge(right);
    assert_eq!(merged.metrics.cited_by_count, 20);
    assert_eq!(merged.provenance.len(), 2);
    assert!(*merged.flags.get("is_retracted").unwrap());
    assert_eq!(merged.authors.len(), 1);
    assert!(merged.authors[0].orcid.is_some());
    assert_eq!(merged.authors[0].affiliations.len(), 2);
}

#[test]
fn rejects_agent_candidates_without_a_valid_identifier() {
    let candidate = AgentCandidate {
        task_id: "task".into(),
        query: "query".into(),
        source: "openalex".into(),
        title: "title".into(),
        doi: None,
        arxiv_id: None,
        openalex_id: Some("not-openalex".into()),
        landing_url: None,
        evidence_urls: vec!["https://example.org/record".into()],
        discovered_at: "2026-01-01T00:00:00Z".into(),
    };
    assert!(candidate.validate().is_err());
}

#[test]
fn defaults_to_rank_only_relevance_screening() {
    let plan = ResearchPlan {
        research_question: "question".into(),
        queries: vec!["query".into()],
        date_from: None,
        date_to: None,
        ..plan()
    };
    assert_eq!(f64::from_bits(plan.min_relevance_score.bits), 0.0);
}

#[test]
fn defaults_of_plans_and_records() {
    assert_eq!(default_target(), 200);
    assert_eq!(f64::from_bits(default_quality().bits), 60.0);
    assert_eq!(default_sources(), ["openalex", "crossref", "arxiv"]);
    assert_eq!(default_work_type(), "article");
    assert_eq!(schema_version(), "1.0");
    let record = WorkRecord::new("crossref", "10.1000/x");
    assert_eq!(record.work_type, "article");
    assert_eq!(record.schema_version, "1.0");
    assert_eq!(record.provenance.len(), 1);
    assert_eq!(record.provenance[0].source_id, "10.1000/x");
}

#[test]
fn plans_are_checked_in_order() {
    assert!(ResearchPlan::load(plan()).is_ok());
    let mut faulty = plan();
    faulty.research_question = "  ".into();
    assert!(matches!(ResearchPlan::load(faulty), Err(PlanError::MissingQuestion)));
    let mut faulty = plan();
    faulty.queries = vec![" ".into(), "".into()];
    assert!(matches!(ResearchPlan::load(faulty), Err(PlanError::MissingQueries)));
    let mut faulty = plan();
    faulty.sources = vec!["crossref".into(), "scopus".into()];
    let error = ResearchPlan::load(faulty).unwrap_err();
    assert!(error.message().contains("scopus"));
    let mut faulty = plan();
    faulty.date_from = Some("2024-13-01".into());
    assert!(matches!(ResearchPlan::load(faulty), Err(PlanError::MalformedDateFrom)));
    let mut faulty = plan();
    faulty.date_to = Some("2024".into());
    assert!(matches!(ResearchPlan::load(faulty), Err(PlanError::MalformedDateTo)));
    let mut faulty = plan();
    faulty.target_papers = 0;
    assert!(matches!(ResearchPlan::load(faulty), Err(PlanError::NoTarget)));
    let mut faulty = plan();
    faulty.date_from = Some("2025-01-02".into());
    faulty.date_to = Some("2025-01-01".into());
    assert!(matches!(ResearchPlan::load(faulty), Err(PlanError::DatesReversed)));
    let mut faulty = plan();
    faulty.min_quality_score = score(100.5);
    assert!(matches!(ResearchPlan::load(faulty), Err(PlanError::QualityOutOfRange)));
    let mut faulty = plan();
    faulty.min_relevance_score = score(f64::NAN);
    assert!(matches!(ResearchPlan::load(faulty), Err(PlanError::RelevanceOutOfRange)));
}

#[test]
fn loading_a_plan_cleans_its_lists() {
    let mut given = plan();
    given.queries = vec![" a  b ".into(), "A B".into(), "".into()];
    given.research_question = " What  now? ".into();
    given.languages = vec!["en".into(), "EN ".into()];
    let loaded = ResearchPlan::load(given).unwrap();
    assert_eq!(loaded.queries, ["a b"]);
    assert_eq!(loaded.research_question, "What now?");
    assert_eq!(loaded.languages, ["en"]);
}

#[test]
fn candidates_are_checked_in_order() {
    assert!(candidate().validate().is_ok());
    let mut faulty = candidate();
    faulty.query = "\t".into();
    assert!(matches!(faulty.validate(), Err(CandidateError::MissingFields)));
    let mut faulty = candidate();
    faulty.doi = Some("nonsense".into());
    assert!(matches!(faulty.validate(), Err(CandidateError::MissingIdentifier)));
    let mut faulty = candidate();
    faulty.evidence_urls = vec![];
    assert!(matches!(faulty.validate(), Err(CandidateError::MissingEvidence)));
    let mut faulty = candidate();
    faulty.evidence_urls = vec!["not a url".into()];
    assert!(matches!(faulty.validate(), Err(CandidateError::InvalidUrl)));
    let mut faulty = candidate();
    faulty.landing_url = Some("ftp://example.org/x".into());
    assert!(matches!(faulty.validate(), Err(CandidateError::UrlNotHttp)));
    let mut faulty = candidate();
    faulty.discovered_at = "yesterday".into();
    assert!(matches!(faulty.validate(), Err(CandidateError::InvalidTimestamp)));
    assert!(!CandidateError::InvalidTimestamp.message().is_empty());
}

#[test]
fn identities_fall_back_to_titles() {
    let mut record = WorkRecord::new("crossref", "x");
    record.title = "Café: A Study".into();
    record.issued.date_parts = vec![vec![2024]];
    record.authors.push(Author { family: "Chen".into(), ..Author::default() });
    let same = record.duplicate();
    assert_eq!(record.identity(), same.identity());
    assert_eq!(record.identity(), "title:cafeastudy:2024:chen");
    let mut openalex = record.duplicate();
    openalex.ids.insert("openalex".into(), "https://openalex.org/w5".into());
    assert_eq!(openalex.identity(), "openalex:w5");
    openalex.ids.insert("arxiv".into(), "arXiv:2401.00001v7".into());
    assert_eq!(openalex.identity(), "arxiv:2401.00001");
}

#[test]
fn merging_promotes_a_preprint_to_its_formal_version() {
    let mut preprint = WorkRecord::new("arxiv", "2401.00001");
    preprint.work_type = "preprint".into();
    preprint.container_title = "arXiv".into();
    preprint.ids.insert("arxiv".into(), "2401.00001".into());
    let mut formal = WorkRecord::new("crossref", "10.1000/x");
    formal.work_type = "article-journal".into();
    formal.container_title = "Journal".into();
    formal.title = "T".into();
    formal.ids.insert("doi".into(), "10.1000/x".into());
    let merged = preprint.merge(formal);
    assert_eq!(merged.work_type, "article-journal");
    assert_eq!(merged.container_title, "Journal");
    assert_eq!(merged.ids.get("arxiv").unwrap(), "2401.00001");
    assert_eq!(merged.ids.get("doi").unwrap(), "10.1000/x");
}

#[test]
fn merging_keeps_every_full_text_once() {
    let place = |url: &str, authorized: bool| FullTextCandidate {
        url: url.into(),
        authorized,
        ..FullTextCandidate::default()
    };
    let mut left = WorkRecord::new("a", "1");
    left.fulltext_candidates = vec![place("https://x/1.pdf", false)];
    let mut right = WorkRecord::new("b", "2");
    right.fulltext_candidates = vec![place("https://x/1.pdf", true), place("https://x/2.pdf", false)];
    let merged = left.merge(right);
    assert_eq!(merged.fulltext_candidates.len(), 2);
    assert!(merged.fulltext_candidates[0].authorized);
    assert!(merged.has_authorized_fulltext());
    assert_eq!(merged.provenance.len(), 2);
}

#[test]
fn queries_and_passages_name_what_they_hold() {
    let mut given = plan();
    given.inclusion_criteria = vec!["peer reviewed".into()];
    given.exclusion_criteria = vec!["editorials".into(), "news".into()];
    assert_eq!(
        given.screening_query(),
        "question\nInclude: peer reviewed\nExclude: editorials; news"
    );
    let mut record = WorkRecord::new("a", "1");
    record.title = "A title".into();
    record.abstract_text = "An abstract".into();
    assert_eq!(
        record.screening_passage(),
        "Title: A title\nYear: unknown\nType: article\nVenue: \nAbstract: An abstract"
    );
}
