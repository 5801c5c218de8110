//! What scholarly sources say of works.

use litmine::config::{ConfigError, Settings};
use litmine::discovery::{
    abstract_from_inverted, aliases_for, apply_scholar, arxiv_discovered, arxiv_lookup,
    arxiv_params, arxiv_record, author_from_literal, batch_end, crossref_license, crossref_lookup,
    crossref_params, crossref_record, crossref_url, date_parts, discovery_outcome, enrich_batch,
    in_date_range, is_open_license, is_retraction_notice, keep_first, merge_discovered, next_shard,
    openalex_doi_params, openalex_lookup, openalex_params, openalex_record, openalex_url, page_range, repository_url,
    request_size, require_openalex_key, scholar_id, search_share, shard_failure, shard_step,
    take_arxiv_page, take_crossref_page, take_openalex_page, user_agent, work_type, ArxivAuthor,
    ArxivCategory, ArxivEntry, DiscoveredWork, ShardStep,
};
use litmine::domain::{
    default_quality, default_relevance, default_sources, RawSourceRecord, ResearchPlan, WorkRecord,
};
use litmine::json::{field, text, Json, JsonNumber};
use litmine::model::Duplicate;
use litmine::score::Score;
use litmine::table::TextMap;
use litmine::util::{arxiv_ids_match, normalize_arxiv};
use quick_xml::events::Event;
use quick_xml::Reader;
use serde_json::Value;

fn json_of(value: Value) -> Json {
    match value {
        Value::Null => Json::Null,
        Value::Bool(value) => Json::Bool(value),
        Value::Number(number) => Json::Number(JsonNumber {
            text: number.to_string(),
            unsigned: number.as_u64(),
            signed: number.as_i64(),
            floating: number.as_f64().map(|value| Score::from_bits(value.to_bits())),
        }),
        Value::String(value) => Json::Text(value),
        Value::Array(items) => Json::List(items.into_iter().map(json_of).collect()),
        Value::Object(members) => Json::Object(
            members.into_iter().map(|(key, value)| (key, json_of(value))).collect(),
        ),
    }
}

fn parse(source: &str) -> Json {
    json_of(serde_json::from_str(source).unwrap())
}

fn now() -> String {
    "2026-01-01T00:00:00Z".to_owned()
}

const NOW_MILLIS: i64 = 1_767_225_600_000;

fn plan() -> ResearchPlan {
    ResearchPlan {
        research_question: "question".into(),
        queries: vec!["query".into()],
        inclusion_criteria: vec![],
        exclusion_criteria: vec![],
        date_from: None,
        date_to: None,
        languages: vec![],
        sources: default_sources(),
        include_preprints: false,
        include_paywalled: false,
        use_google_scholar_library_access: false,
        target_papers: 10,
        min_quality_score: default_quality(),
        min_relevance_score: default_relevance(),
    }
}

fn found(record: WorkRecord) -> DiscoveredWork {
    DiscoveredWork { record, raw_records: Vec::new() }
}

fn local(name: &str) -> String {
    name.rsplit(':').next().unwrap().to_owned()
}

fn entries(xml: &str) -> Vec<ArxivEntry> {
    let mut reader = Reader::from_str(xml);
    let mut entries: Vec<ArxivEntry> = Vec::new();
    let mut open = String::new();
    let mut content = String::new();
    loop {
        match reader.read_event().unwrap() {
            Event::Start(tag) => {
                open = local(tag.name().as_ref());
                content.clear();
                if open == "entry" {
                    entries.push(ArxivEntry {
                        id: String::new(),
                        title: String::new(),
                        summary: String::new(),
                        published: String::new(),
                        authors: Vec::new(),
                        categories: Vec::new(),
                        doi: None,
                        license: None,
                    });
                }
            }
            Event::Empty(tag) => {
                if local(tag.name().as_ref()) == "category" {
                    let term = tag.try_get_attribute("term").unwrap().unwrap();
                    let term = term.value.to_string();
                    entries.last_mut().unwrap().categories.push(ArxivCategory { term });
                }
            }
            Event::Text(part) => content.push_str(&part),
            Event::End(tag) => {
                let closed = local(tag.name().as_ref());
                if closed == open {
                    if let Some(entry) = entries.last_mut() {
                        let value = content.clone();
                        match closed.as_str() {
                            "id" => entry.id = value,
                            "title" => entry.title = value,
                            "summary" => entry.summary = value,
                            "published" => entry.published = value,
                            "name" => entry.authors.push(ArxivAuthor { name: value }),
                            "doi" => entry.doi = Some(value),
                            "license" => entry.license = Some(value),
                            _ => {}
                        }
                    }
                }
            }
            Event::Eof => return entries,
            _ => {}
        }
    }
}

#[test]
fn reconstructs_openalex_abstract() {
    let value = parse(r#"{"world": [1], "Hello": [0]}"#);
    assert_eq!(abstract_from_inverted(Some(&value)), "Hello world");
}

#[test]
fn only_authorizes_known_open_fulltext() {
    assert!(is_open_license(
        "https://creativecommons.org/licenses/by/4.0/"
    ));
    assert!(repository_url("https://arxiv.org/pdf/2401.1"));
    assert!(!repository_url("https://evilarxiv.org/paper.pdf"));
    assert!(!repository_url("https://publisher.example/article.pdf"));
}

#[test]
fn parses_namespaced_arxiv_atom_metadata() {
    let xml = r#"
        <feed xmlns="http://www.w3.org/2005/Atom"
              xmlns:arxiv="http://arxiv.org/schemas/atom">
          <entry>
            <id>https://arxiv.org/abs/2401.00001v2</id>
            <title>Visual scholarly retrieval</title>
            <summary>A complete abstract.</summary>
            <published>2024-01-02T00:00:00Z</published>
            <author><name>Ada Chen</name></author>
            <category term="cs.IR"/>
            <arxiv:doi>10.1000/example</arxiv:doi>
            <arxiv:license>https://creativecommons.org/licenses/by/4.0/</arxiv:license>
          </entry>
        </feed>
    "#;
    let feed = entries(xml);
    assert_eq!(feed.len(), 1);
    let record = arxiv_record(&feed[0], now()).unwrap();
    assert_eq!(record.ids.get("arxiv").unwrap(), "2401.00001v2");
    assert_eq!(record.ids.get("doi").unwrap(), "10.1000/example");
    assert_eq!(record.authors[0].family, "Chen");
    assert_eq!(record.subjects, vec!["cs.IR"]);
}

#[test]
fn finds_versioned_arxiv_entry_for_unversioned_request() {
    let xml = r#"
        <feed xmlns="http://www.w3.org/2005/Atom">
          <entry>
            <id>https://arxiv.org/abs/2401.00001v2</id>
            <title>Visual scholarly retrieval</title>
            <summary>A complete abstract.</summary>
            <published>2024-01-02T00:00:00Z</published>
          </entry>
        </feed>
    "#;
    let feed = entries(xml);
    let entry = feed
        .iter()
        .find(|entry| arxiv_ids_match("2401.00001", &entry.id))
        .unwrap();
    assert_eq!(normalize_arxiv(&entry.id), Some("2401.00001v2".to_owned()));
    assert!(
        !feed
            .iter()
            .any(|entry| arxiv_ids_match("2401.00001v1", &entry.id))
    );
    let work = arxiv_lookup("2401.00001", &feed, &now()).unwrap();
    assert_eq!(work.record.ids.get("arxiv").unwrap(), "2401.00001v2");
    assert!(arxiv_lookup("2401.00001v1", &feed, &now()).is_none());
}

fn crossref_item(license: &str) -> Json {
    parse(
        &r#"{
        "DOI": "10.1000/example",
        "title": ["A complete scholarly record"],
        "abstract": "<jats:p>Evidence abstract.</jats:p>",
        "type": "journal-article",
        "container-title": ["Journal of Evidence"],
        "publisher": "Scholarly Publisher",
        "volume": "12",
        "issue": "3",
        "page": "100-120",
        "language": "en",
        "URL": "https://doi.org/10.1000/example",
        "published-online": {"date-parts": [[2025, 4, 2]]},
        "author": [{
            "given": "Ada",
            "family": "Chen",
            "ORCID": "https://orcid.org/0000-0000-0000-0001",
            "affiliation": [{"name": "Example University"}]
        }],
        "ISSN": ["1234-5678"],
        "subject": ["Information Retrieval"],
        "is-referenced-by-count": 42,
        "updated-by": [{"type": "retraction", "DOI": "10.1000/retraction"}],
        "license": [LICENSE],
        "link": [{
            "URL": "https://publisher.example/paper.pdf",
            "content-type": "application/pdf",
            "content-version": "vor"
        }]
    }"#
        .replace("LICENSE", license),
    )
}

#[test]
fn maps_complete_crossref_citation_and_retraction_metadata() {
    let item = crossref_item(r#"{"URL": "https://creativecommons.org/licenses/by/4.0/"}"#);
    let record = crossref_record(&item, NOW_MILLIS, now());
    assert_eq!(record.ids.get("doi").unwrap(), "10.1000/example");
    assert_eq!(record.year(), Some(2025));
    assert_eq!(record.authors[0].family, "Chen");
    assert_eq!(record.container_title, "Journal of Evidence");
    assert!(*record.flags.get("is_retracted").unwrap());
    assert!(record.fulltext_candidates[0].authorized);
    assert_eq!(record.abstract_text, "Evidence abstract.");
    assert_eq!(record.work_type, "article-journal");
    assert_eq!(record.metrics.cited_by_count, 42);

    let future = crossref_item(
        r#"{"URL": "https://creativecommons.org/licenses/by/4.0/", "start": {"timestamp": 4102444800000}}"#,
    );
    let record = crossref_record(&future, NOW_MILLIS, now());
    assert!(!record.fulltext_candidates[0].authorized);
}

#[test]
fn maps_openalex_quality_and_open_access_signals() {
    let item = parse(
        r#"{
        "id": "https://openalex.org/W123",
        "ids": {"doi": "https://doi.org/10.1000/openalex"},
        "title": "Visual document retrieval",
        "abstract_inverted_index": {"Visual": [0], "retrieval": [1]},
        "type": "article",
        "language": "en",
        "publication_date": "2026-01-02",
        "doi": "https://doi.org/10.1000/openalex",
        "primary_location": {
            "landing_page_url": "https://publisher.example/article",
            "source": {
                "display_name": "Journal",
                "host_organization_name": "Publisher",
                "issn": ["1234-5678"]
            }
        },
        "authorships": [{
            "author": {"display_name": "Ada Chen", "id": "https://openalex.org/A1"},
            "institutions": [{"display_name": "Example University"}]
        }],
        "topics": [{"display_name": "Information Retrieval"}],
        "keywords": [{"display_name": "vision retrieval"}],
        "cited_by_count": 10,
        "fwci": 2.1,
        "citation_normalized_percentile": {"value": 0.95},
        "is_retracted": false,
        "is_paratext": false,
        "open_access": {"is_oa": true},
        "locations": [{
            "is_oa": true,
            "pdf_url": "https://repository.example/paper.pdf",
            "version": "acceptedVersion",
            "license": "cc-by"
        }]
    }"#,
    );
    let record = openalex_record(&item, now());
    assert_eq!(record.abstract_text, "Visual retrieval");
    assert_eq!(record.metrics.fwci.map(|value| f64::from_bits(value.bits)), Some(2.1));
    assert_eq!(
        record.metrics.citation_percentile.map(|value| f64::from_bits(value.bits)),
        Some(0.95)
    );
    assert_eq!(record.issn, vec!["1234-5678"]);
    assert!(record.fulltext_candidates[0].authorized);
    assert_eq!(record.year(), Some(2026));
    assert_eq!(record.identity(), "doi:10.1000/openalex");
}

#[test]
fn never_merges_distinct_dois_by_title_alone() {
    let mut first = WorkRecord::new("crossref", "10.1000/first");
    first.ids.insert("doi".into(), "10.1000/first".into());
    first.title = "Shared title".into();
    first.issued.date_parts = vec![vec![2025]];
    let mut second = WorkRecord::new("crossref", "10.1000/second");
    second.ids.insert("doi".into(), "10.1000/second".into());
    second.title = "Shared title".into();
    second.issued.date_parts = vec![vec![2025]];
    let merged = merge_discovered(vec![
        DiscoveredWork {
            record: first,
            raw_records: Vec::new(),
        },
        DiscoveredWork {
            record: second,
            raw_records: Vec::new(),
        },
    ]);
    assert_eq!(merged.len(), 2);
}

#[test]
fn merges_findings_that_share_an_identifier() {
    let mut first = WorkRecord::new("arxiv", "2401.00001v1");
    first.ids.insert("arxiv".into(), "2401.00001v1".into());
    let mut second = WorkRecord::new("crossref", "10.1000/x");
    second.ids.insert("doi".into(), "10.1000/x".into());
    let mut third = WorkRecord::new("openalex", "W1");
    third.ids.insert("arxiv".into(), "2401.00001v2".into());
    third.ids.insert("doi".into(), "https://doi.org/10.1000/X".into());
    let merged = merge_discovered(vec![found(first), found(second), found(third)]);
    assert!(merged.len() < 3);
    assert!(merged.iter().any(|work| work.record.provenance.len() > 1));
}

#[test]
fn notices_of_retraction_are_seen() {
    assert!(is_retraction_notice(r#"[{"type":"Retraction"}]"#));
    assert!(!is_retraction_notice(r#"[{"type":"correction"}]"#));
    let record = |key: &str, kind: &str| {
        let notice = Json::Object(vec![("type".to_owned(), Json::from_text(kind))]);
        let value = Json::Object(vec![(key.to_owned(), Json::List(vec![notice]))]);
        *crossref_record(&value, 0, now()).flags.get("is_retracted").unwrap()
    };
    assert!(record("update-to", "retraction"));
    assert!(record("updated-by", "RETRACTION"));
    assert!(record("relation", "is-retracted-by"));
    assert!(!record("relation", "is-preprint-of"));
    assert!(!record("title", "retraction"));
}

#[test]
fn merging_permutes_the_responses() {
    let finding = |source: &str, id: &str, key: &str, value: &str| {
        let mut record = WorkRecord::new(source, id);
        record.ids.insert(key.into(), value.into());
        record.ids.insert("doi".into(), "10.1000/one".into());
        let raw = RawSourceRecord {
            source: source.into(),
            source_id: id.into(),
            retrieved_at: "now".into(),
            raw: Json::Null,
        };
        DiscoveredWork { record, raw_records: vec![raw] }
    };
    let mut apart = finding("crossref", "3", "pmid", "7");
    apart.record.ids.insert("doi".into(), "10.1000/two".into());
    let works = merge_discovered(vec![
        finding("openalex", "1", "openalex", "W1"),
        apart,
        finding("arxiv", "2", "arxiv", "2401.00001"),
    ]);
    assert_eq!(works.len(), 2);
    let mut kept: Vec<String> = Vec::new();
    for work in &works {
        for raw in &work.raw_records {
            kept.push(raw.source_id.clone());
        }
    }
    kept.sort();
    assert_eq!(kept, ["1", "2", "3"]);
    for key in ["openalex", "arxiv", "doi"] {
        assert!(works[0].record.ids.get(key).is_some());
    }
    for source in ["openalex", "arxiv"] {
        assert!(works[0].record.provenance.iter().any(|known| known.source == source));
    }
}

#[test]
fn aliases_name_every_identifier() {
    let mut record = WorkRecord::new("arxiv", "x");
    record.ids.insert("doi".into(), "10.1000/X".into());
    record.ids.insert("arxiv".into(), "2401.00001v1".into());
    record.title = "T".into();
    let aliases = aliases_for(&record);
    assert!(aliases.contains(&"doi:10.1000/x".to_owned()));
    assert!(aliases.contains(&"arxiv:2401.00001".to_owned()));
    assert!(!aliases.iter().any(|alias| alias.starts_with("title:")));
}

#[test]
fn a_closed_location_authorizes_nothing() {
    let item = parse(
        r#"{"id": "https://openalex.org/W1", "locations": [
            {"is_oa": false, "pdf_url": "https://publisher.example/a.pdf", "license": "publisher-specific"}
        ]}"#,
    );
    let record = openalex_record(&item, now());
    assert_eq!(record.fulltext_candidates.len(), 1);
    assert!(!record.has_authorized_fulltext());
    let item = parse(
        r#"{"id": "https://openalex.org/W1", "open_access": {"is_oa": true},
            "best_oa_location": {"pdf_url": "https://repository.example/b.pdf"}}"#,
    );
    assert!(openalex_record(&item, now()).has_authorized_fulltext());
}

#[test]
fn licenses_count_once_they_are_in_force() {
    let item = parse(
        r#"{"license": [
            {"URL": "https://publisher.example/terms", "content-version": "tdm"},
            {"URL": "https://creativecommons.org/licenses/by/4.0/", "content-version": "VOR",
             "start": {"timestamp": 1000}}
        ]}"#,
    );
    assert_eq!(
        crossref_license(&item, "vor", 1000),
        ("https://creativecommons.org/licenses/by/4.0/".to_owned(), true)
    );
    assert_eq!(
        crossref_license(&item, "vor", 999),
        ("https://creativecommons.org/licenses/by/4.0/".to_owned(), false)
    );
    assert_eq!(
        crossref_license(&item, "tdm", 1000),
        ("https://publisher.example/terms".to_owned(), false)
    );
}

#[test]
fn names_and_dates_are_taken_apart() {
    let author = author_from_literal("Ada Maria Chen");
    assert_eq!((author.given.as_str(), author.family.as_str()), ("Ada Maria", "Chen"));
    assert_eq!(date_parts("2024-02-29").date_parts, [[2024, 2, 29]]);
    assert_eq!(date_parts("2023-02-29").raw, "2023-02-29");
    assert_eq!(page_range("1", "9"), "1-9");
    assert_eq!(page_range("1", ""), "1");
    assert_eq!(work_type("journal-article"), "article-journal");
}

#[test]
fn works_outside_the_dates_are_passed_over() {
    let mut given = plan();
    given.date_from = Some("2020-01-01".into());
    given.date_to = Some("2021-12-31".into());
    let mut record = WorkRecord::new("arxiv", "x");
    record.issued.date_parts = vec![vec![2019]];
    assert!(!in_date_range(&record, &given));
    record.issued.date_parts = vec![vec![2021, 1]];
    assert!(in_date_range(&record, &given));
}

fn value_of(params: &[(String, String)], name: &str) -> Option<String> {
    params.iter().find(|(key, _)| key == name).map(|(_, value)| value.clone())
}

#[test]
fn requests_ask_for_what_the_plan_says() {
    let mut given = plan();
    given.date_from = Some("2020-01-01".into());
    let params = openalex_params(&given, "cats", 25, "*", "key");
    assert_eq!(value_of(&params, "search").as_deref(), Some("cats"));
    assert_eq!(value_of(&params, "cursor").as_deref(), Some("*"));
    assert_eq!(value_of(&params, "api_key").as_deref(), Some("key"));
    let params = crossref_params(&given, "cats", 25, "*", "me@example.org");
    assert_eq!(value_of(&params, "rows").as_deref(), Some("25"));
    assert_eq!(value_of(&params, "mailto").as_deref(), Some("me@example.org"));
    let params = arxiv_params("cats", 50, 25);
    assert_eq!(value_of(&params, "start").as_deref(), Some("50"));
    assert_eq!(request_size(150, 100), 50);
    assert_eq!(request_size(1000, 0), 100);
    assert_eq!(openalex_doi_params("10.1000/x", "key").len(), 3);
}

#[test]
fn addresses_escape_identifiers() {
    assert_eq!(
        crossref_url("10.1000/a b").unwrap(),
        "https://api.crossref.org/works//10.1000%2Fa%20b"
    );
    assert_eq!(openalex_url("W1").unwrap(), "https://api.openalex.org/works/W1");
    assert!(user_agent("me@example.org").contains("me@example.org"));
}

#[test]
fn pages_are_taken_up_to_the_limit() {
    let payload = parse(
        r#"{"results": [{"id": "https://openalex.org/W1"}, {"id": "https://openalex.org/W2"}],
            "meta": {"next_cursor": "next"}}"#,
    );
    let mut works = Vec::new();
    assert_eq!(
        take_openalex_page(&mut works, 10, &payload, "*", &now()).as_deref(),
        Some("next")
    );
    assert_eq!(works.len(), 2);
    let mut works = Vec::new();
    take_openalex_page(&mut works, 1, &payload, "*", &now());
    assert_eq!(works.len(), 1);
    let payload = parse(r#"{"message": {"items": [{"DOI": "10.1000/x"}], "next-cursor": "*"}}"#);
    let mut works = Vec::new();
    assert_eq!(
        take_crossref_page(&mut works, 10, &payload, "*", NOW_MILLIS, &now()),
        None
    );
    assert_eq!(works.len(), 1);
    assert_eq!(works[0].raw_records[0].source, "crossref");
}

#[test]
fn arxiv_pages_skip_works_outside_the_dates() {
    let entry = |id: &str, published: &str| ArxivEntry {
        id: id.into(),
        title: "T".into(),
        summary: "S".into(),
        published: published.into(),
        authors: Vec::new(),
        categories: Vec::new(),
        doi: None,
        license: None,
    };
    let mut given = plan();
    given.date_from = Some("2024-01-01".into());
    let page = vec![
        entry("https://arxiv.org/abs/2301.00001", "2023-01-01T00:00:00Z"),
        entry("https://arxiv.org/abs/2401.00001", "2024-01-01T00:00:00Z"),
    ];
    let works = take_arxiv_page(Vec::new(), 10, &page, &given, &now()).unwrap();
    assert_eq!(works.len(), 1);
    assert!(arxiv_discovered(&entry("nonsense", ""), &now()).is_none());
    assert!(take_arxiv_page(Vec::new(), 10, &vec![entry("nonsense", "")], &given, &now()).is_none());
}

#[test]
fn lookups_read_one_work() {
    let payload = parse(r#"{"message": {"DOI": "10.1000/X", "title": ["T"]}}"#);
    let work = crossref_lookup(&payload, "10.1000/x", NOW_MILLIS, &now()).unwrap();
    assert_eq!(work.record.title, "T");
    assert_eq!(work.raw_records[0].source_id, "10.1000/x");
    assert!(crossref_lookup(&parse("{}"), "10.1000/x", NOW_MILLIS, &now()).is_none());
    let payload = parse(r#"{"results": [{"id": "https://openalex.org/W9"}]}"#);
    assert!(openalex_lookup(&payload, &now()).is_some());
    assert!(openalex_lookup(&parse(r#"{"results": []}"#), &now()).is_none());
}

#[test]
fn discovery_shares_out_and_goes_on() {
    assert_eq!(search_share(1000, 2, 3), 166);
    assert_eq!(search_share(100, 2, 3), 25);
    assert_eq!(search_share(100, 0, 0), 100);
    assert!(matches!(shard_step("openalex", true), ShardStep::SearchOpenalex));
    assert!(matches!(shard_step("openalex", false), ShardStep::MissingKey));
    assert!(matches!(shard_step("crossref", false), ShardStep::SearchCrossref));
    assert!(matches!(shard_step("arxiv", false), ShardStep::SearchArxiv));
    assert!(matches!(shard_step("scopus", true), ShardStep::Unsupported));
    let failure = shard_failure("crossref", "cats", "timed out");
    assert!(failure.contains("crossref") && failure.contains("timed out"));
    assert_eq!(next_shard(0, 0, 2, false, 0, 10), (0, 1));
    assert_eq!(next_shard(0, 1, 2, false, 0, 10), (1, 0));
}

#[test]
fn discovery_fails_only_where_nothing_was_found() {
    let failures = vec!["crossref: timed out".to_owned()];
    assert!(discovery_outcome(vec![found(WorkRecord::new("a", "1"))], &failures).is_ok());
    let error = discovery_outcome(Vec::new(), &failures).unwrap_err();
    assert!(error.contains("crossref: timed out"));
    assert_eq!(discovery_outcome(Vec::new(), &Vec::new()).unwrap().len(), 0);
    let works = vec![found(WorkRecord::new("a", "1")), found(WorkRecord::new("b", "2"))];
    assert_eq!(keep_first(works, 1).len(), 1);
}

#[test]
fn scholarly_graphs_add_citations() {
    let mut record = WorkRecord::new("crossref", "10.1000/x");
    record.ids.insert("doi".into(), "10.1000/X".into());
    assert_eq!(scholar_id(&record), "DOI:10.1000/X");
    let value = parse(
        r#"{"paperId": "p1", "influentialCitationCount": 7, "citationCount": 70,
            "openAccessPdf": {"url": "https://repository.example/x.pdf"}, "isOpenAccess": true}"#,
    );
    let work = apply_scholar(found(record.duplicate()), json_copy(&value), &now());
    assert_eq!(work.record.metrics.influential_citation_count, 7);
    assert_eq!(work.record.metrics.cited_by_count, 70);
    assert!(work.record.has_authorized_fulltext());
    assert_eq!(work.raw_records.len(), 1);
    assert_eq!(batch_end(0, 250), 100);
    assert_eq!(batch_end(200, 250), 250);
    let works = vec![found(record.duplicate()), found(record)];
    let works = enrich_batch(works, 1, vec![Some(value)], &now());
    assert_eq!(works[0].raw_records.len(), 0);
    assert_eq!(works[1].raw_records.len(), 1);
    assert_eq!(text(field(Some(&works[1].raw_records[0].raw), "paperId")), "p1");
    let works = enrich_batch(works, 1, vec![None, None, None], &now());
    assert_eq!(works.len(), 2);
    assert_eq!(works[1].raw_records.len(), 1);
}

fn json_copy(value: &Json) -> Json {
    value.duplicate()
}

#[test]
fn a_missing_key_is_reported() {
    let settings = Settings::load(&TextMap::new()).unwrap();
    assert!(matches!(
        require_openalex_key(&settings),
        Err(ConfigError::MissingOpenalexKey)
    ));
}
