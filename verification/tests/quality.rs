//! The academic value of works.

use litmine::domain::{
    Author, FullTextCandidate, QualityAssessment, ResearchPlan, WorkRecord,
};
use litmine::quality::{
    add_relevance, assess, citation_age, count_points, counted_relevance, tier, CitationEvidence,
};
use litmine::score::Score;

fn score(value: f64) -> Score {
    Score::from_bits(value.to_bits())
}

fn number(value: Score) -> f64 {
    f64::from_bits(value.bits)
}

fn evidence(total: f64) -> CitationEvidence {
    CitationEvidence { total: score(total), signals: vec!["citations".into()] }
}

fn plan() -> ResearchPlan {
    ResearchPlan {
        research_question: "question".into(),
        queries: vec!["query".into()],
        inclusion_criteria: vec![],
        exclusion_criteria: vec![],
        date_from: None,
        date_to: None,
        languages: vec![],
        sources: vec!["crossref".into()],
        include_preprints: false,
        include_paywalled: false,
        use_google_scholar_library_access: false,
        target_papers: 10,
        min_quality_score: score(40.0),
        min_relevance_score: score(0.2),
    }
}

fn good() -> WorkRecord {
    let mut record = WorkRecord::new("crossref", "10.1000/x");
    record.title = "A survey of things".into();
    record.abstract_text = "Abstract".into();
    record.authors.push(Author { literal: "Ada Chen".into(), ..Author::default() });
    record.issued.date_parts = vec![vec![2020]];
    record.work_type = "article-journal".into();
    record.container_title = "Journal".into();
    record.ids.insert("doi".into(), "10.1000/x".into());
    record.fulltext_candidates.push(FullTextCandidate {
        authorized: true,
        ..FullTextCandidate::default()
    });
    record
}

fn reasons(record: &WorkRecord, plan: &ResearchPlan) -> Vec<String> {
    assess(record, plan, 2026, evidence(70.0), "now".into()).rejection_reasons
}

#[test]
fn retracted_work_never_passes() {
    let mut record = WorkRecord::new("test", "one");
    record.title = "A credible study".into();
    record.abstract_text = "Abstract".into();
    record.authors.push(Author::default());
    record.issued.date_parts = vec![vec![2020]];
    record.flags.insert("is_retracted".into(), true);
    record.fulltext_candidates.push(FullTextCandidate {
        authorized: true,
        ..FullTextCandidate::default()
    });
    assert!(!assess(&record, &plan(), 2026, evidence(100.0), "now".into()).accepted);
}

#[test]
fn news_slides_and_posters_never_pass() {
    for work_type in ["news", "slides", "poster", "presentation", "newspaper-article"] {
        let mut record = good();
        record.work_type = work_type.into();
        let found = assess(&record, &plan(), 2026, evidence(100.0), "now".into());
        assert!(!found.accepted);
        assert_eq!(
            found.rejection_reasons,
            [format!("unsupported scholarly type: {work_type}")]
        );
        let ranked = add_relevance(found, score(9.0), score(1.0), score(1.0), &plan());
        assert!(!ranked.accepted);
        assert_eq!(count_points(&record, &plan()).metadata, 5 + 7 + 5 + 8 + 8 + 5);
    }
}

#[test]
fn relevance_keeps_the_raw_logit_and_normalized_score() {
    let assessment = QualityAssessment {
        score: score(80.0),
        accepted: true,
        ..QualityAssessment::default()
    };
    let priority = score(0.029312 * 0.55 + 0.8 * 0.45);
    let ranked = add_relevance(assessment, score(-3.5), score(0.029312), priority, &plan());
    assert_eq!(ranked.relevance_logit.map(number), Some(-3.5));
    assert_eq!(number(ranked.relevance_score), 0.029312);
    assert!(!ranked.accepted);
}

#[test]
fn points_are_counted_by_kind() {
    let points = count_points(&good(), &plan());
    assert_eq!(points.metadata, 5 + 7 + 5 + 8 + 20 + 8 + 5);
    assert_eq!(points.synthesis, 7);
    assert_eq!(points.fulltext, 5);
    let bare = WorkRecord::new("a", "1");
    let points = count_points(&bare, &plan());
    assert_eq!((points.metadata, points.synthesis, points.fulltext), (7, 0, 0));
}

#[test]
fn a_good_work_passes_with_its_signals() {
    let result = assess(&good(), &plan(), 2026, evidence(70.0), "now".into());
    assert!(result.accepted);
    assert_eq!(number(result.score), 70.0);
    assert_eq!(result.tier, "B");
    assert_eq!(
        result.signals,
        [
            "scholarly-type:article-journal:+20",
            "persistent-identifier:doi:+8",
            "venue-metadata:+5",
            "citations",
            "evidence-synthesis:+7",
            "authorized-fulltext:+5",
        ]
    );
    assert_eq!(result.screened_at, "now");
}

#[test]
fn a_missing_abstract_is_a_signal_only() {
    let mut record = good();
    record.abstract_text = " ".into();
    let result = assess(&record, &plan(), 2026, evidence(70.0), "now".into());
    assert!(result.accepted);
    assert_eq!(result.signals[0], "screening-abstract-unavailable:+0");
}

#[test]
fn every_fault_is_named() {
    let mut record = good();
    record.flags.insert("is_paratext".into(), true);
    assert_eq!(reasons(&record, &plan()), ["paratext rather than a scholarly work"]);
    let mut record = good();
    record.title = String::new();
    assert_eq!(reasons(&record, &plan()), ["missing title"]);
    let mut record = good();
    record.authors.clear();
    assert_eq!(reasons(&record, &plan()), ["missing identifiable authorship"]);
    let mut record = good();
    record.issued.date_parts.clear();
    assert_eq!(reasons(&record, &plan()), ["missing publication year"]);
    let mut record = good();
    record.issued.date_parts = vec![vec![2028]];
    assert_eq!(
        reasons(&record, &plan()),
        ["publication year is implausibly far in the future"]
    );
    let mut dated = plan();
    dated.date_from = Some("2021-01-01".into());
    assert_eq!(reasons(&good(), &dated), ["publication year outside research plan"]);
    let mut german = plan();
    german.languages = vec!["de".into()];
    let mut record = good();
    record.language = "en-US".into();
    assert_eq!(reasons(&record, &german), ["language excluded by research plan"]);
    record.language = "DE-at".into();
    assert!(reasons(&record, &german).is_empty());
    let mut record = good();
    record.work_type = "preprint".into();
    assert_eq!(reasons(&record, &plan()), ["preprints excluded by research plan"]);
    record.work_type = "dataset".into();
    assert_eq!(reasons(&record, &plan()), ["unsupported scholarly type: dataset"]);
    let mut record = good();
    record.ids.insert("doi".into(), "nonsense".into());
    assert_eq!(reasons(&record, &plan()), ["missing valid persistent identifier"]);
    let mut record = good();
    record.fulltext_candidates.clear();
    assert_eq!(reasons(&record, &plan()), ["no authorized open-access PDF candidate"]);
    let mut paywalled = plan();
    paywalled.include_paywalled = true;
    assert!(reasons(&record, &paywalled).is_empty());
    let low = assess(&good(), &plan(), 2026, evidence(39.9), "now".into());
    assert_eq!(low.rejection_reasons, ["below configured academic-value threshold"]);
}

#[test]
fn scores_stay_within_bounds() {
    let high = assess(&good(), &plan(), 2026, evidence(130.0), "now".into());
    assert_eq!(number(high.score), 100.0);
    assert_eq!(tier(score(80.0)), "A");
    assert_eq!(tier(score(79.9)), "B");
    assert_eq!(tier(score(64.9)), "C");
    assert_eq!(tier(score(49.9)), "D");
    assert_eq!(number(counted_relevance(score(1.5))), 1.0);
    assert_eq!(number(counted_relevance(score(-0.5))), 0.0);
    assert_eq!(number(counted_relevance(score(0.25))), 0.25);
}

#[test]
fn ages_are_at_least_a_year() {
    assert_eq!(citation_age(&good(), 2026), 6);
    assert_eq!(citation_age(&good(), 2020), 1);
    assert_eq!(citation_age(&good(), 2010), 1);
}

#[test]
fn accepted_works_meet_both_thresholds() {
    let start = || QualityAssessment { score: score(80.0), ..QualityAssessment::default() };
    let ranked = add_relevance(start(), score(1.0), score(0.5), score(0.6), &plan());
    assert!(ranked.accepted);
    assert_eq!(number(ranked.priority_score), 0.6);
    let ranked = add_relevance(start(), score(1.0), score(0.1), score(0.6), &plan());
    assert_eq!(ranked.rejection_reasons, ["below configured relevance threshold"]);
    let mut low = start();
    low.score = score(10.0);
    assert!(!add_relevance(low, score(1.0), score(0.5), score(0.6), &plan()).accepted);
}

#[test]
fn totals_order_scores() {
    let values = [f64::NEG_INFINITY, -1.0, -0.0, 0.0, 0.5, 1.0, f64::INFINITY, f64::NAN];
    for i in 0..values.len() {
        for j in 0..values.len() {
            let expected = values[i].total_cmp(&values[j]).is_lt();
            assert_eq!(score(values[i]).precedes(&score(values[j])), expected);
            assert_eq!(score(values[i]).is_less(&score(values[j])), values[i] < values[j]);
            assert_eq!(score(values[i]).is_at_most(&score(values[j])), values[i] <= values[j]);
        }
    }
}
