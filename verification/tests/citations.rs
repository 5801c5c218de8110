//! Citations in CSL JSON, BibTeX and RIS.

use litmine::citations::{
    audit, bibtex_entry, bibtex_escape, csl_json, export_library, ris_entry, split_page_range,
    unique_key,
};
use litmine::domain::{Author, WorkRecord};
use litmine::json::{field, item, text, Json, JsonNumber};

fn study() -> WorkRecord {
    let mut record = WorkRecord::new("test", "one");
    record.title = "A Study".into();
    record.container_title = "Journal".into();
    record.work_type = "article-journal".into();
    record.authors.push(Author {
        family: "Chen".into(),
        given: "Ada".into(),
        ..Author::default()
    });
    record.issued.date_parts = vec![vec![2025, 2, 1]];
    record.ids.insert("doi".into(), "10.1000/test".into());
    record
}

#[test]
fn csl_retains_core_citation_fields() {
    let mut record = WorkRecord::new("test", "one");
    record.title = "A Study".into();
    record.container_title = "Journal".into();
    record.authors.push(Author {
        family: "Chen".into(),
        given: "Ada".into(),
        ..Author::default()
    });
    record.issued.date_parts = vec![vec![2025, 2, 1]];
    record.ids.insert("doi".into(), "10.1000/test".into());
    let csl = csl_json(&record, "chen2025study");
    assert_eq!(text(field(Some(&csl), "DOI")), "10.1000/test");
    assert_eq!(
        text(field(item(field(Some(&csl), "author"), 0), "family")),
        "Chen"
    );
}

#[test]
fn bibtex_escaping_does_not_corrupt_backslashes() {
    assert_eq!(bibtex_escape(r"A\B_{C}"), r"A\textbackslash{}B\_\{C\}");
}

#[test]
fn csl_of_a_study_is_exact() {
    assert_eq!(
        parsed(&csl_json(&study(), "k").to_text()),
        parsed(&concat_text(&[
            r#"{"id":"k","type":"article-journal","title":"A Study","#,
            r#""author":[{"family":"Chen","given":"Ada"}],"issued":{"date-parts":[[2025,2,1]]},"#,
            r#""container-title":"Journal","DOI":"10.1000/test"}"#,
        ]))
    );
}

fn parsed(text: &str) -> serde_json::Value {
    serde_json::from_str(text).unwrap()
}

fn concat_text(parts: &[&str]) -> String {
    parts.concat()
}

#[test]
fn values_are_written_as_json() {
    assert_eq!(
        Json::from_text("a\"b\\c\n\u{1}é").to_text(),
        "\"a\\\"b\\\\c\\n\\u0001é\""
    );
    let number = |text: &str, unsigned, signed| {
        Json::Number(JsonNumber { text: text.into(), unsigned, signed, floating: None })
    };
    assert_eq!(number("7", Some(7), Some(7)).to_text(), "7");
    assert_eq!(number("-7", None, Some(-7)).to_text(), "-7");
    assert_eq!(number("0.1", None, None).to_text(), "0.1");
    assert_eq!(number("1.0", None, None).to_text(), "1.0");
    let members = vec![
        ("b".to_owned(), Json::from_unsigned(1)),
        ("a".to_owned(), Json::List(vec![Json::from_text("x")])),
    ];
    assert_eq!(Json::Object(members).to_text(), r#"{"a":["x"],"b":1}"#);
    assert_eq!(Json::List(vec![Json::Null, Json::Bool(true)]).to_text(), "[null,true]");
}

#[test]
fn bibtex_fields_come_in_order() {
    assert_eq!(
        bibtex_entry(&study(), "chen2025a"),
        concat_text(&[
            "@article{chen2025a,\n  author = {Chen, Ada},\n  doi = {10.1000/test},\n",
            "  journal = {Journal},\n  title = {A Study},\n  year = {2025}\n}\n",
        ])
    );
    let mut paper = study();
    paper.work_type = "paper-conference".into();
    paper.authors = vec![Author { literal: "A & B Group".into(), ..Author::default() }];
    paper.ids.insert("arxiv".into(), "2401.00001".into());
    let entry = bibtex_entry(&paper, "k");
    assert!(entry.starts_with("@inproceedings{k,\n  archiveprefix = {arXiv},\n"));
    assert!(entry.contains("  author = {\\{A \\& B Group\\}},\n  booktitle = {Journal},\n"));
    assert!(entry.contains("  eprint = {2401.00001},\n"));
}

#[test]
fn ris_lines_come_in_order() {
    let mut record = study();
    record.page = "100 \u{2013} 120".into();
    record.issn = vec!["1234-5678".into()];
    record.keywords = vec!["cats".into()];
    assert_eq!(
        ris_entry(&record),
        concat_text(&[
            "TY  - JOUR\nTI  - A Study\nAU  - Chen, Ada\nPY  - 2025\nJO  - Journal\n",
            "SP  - 100\nEP  - 120\nSN  - 1234-5678\nKW  - cats\nDO  - 10.1000/test\nER  - ",
        ])
    );
}

#[test]
fn page_ranges_split_at_the_first_dash() {
    assert_eq!(split_page_range("  "), None);
    assert_eq!(split_page_range("e12"), Some(("e12".to_owned(), None)));
    assert_eq!(
        split_page_range("1-2-3"),
        Some(("1".to_owned(), Some("2-3".to_owned())))
    );
    assert_eq!(
        split_page_range("5\u{2014}9"),
        Some(("5".to_owned(), Some("9".to_owned())))
    );
}

#[test]
fn keys_are_numbered_where_they_clash() {
    let mut used = Vec::new();
    assert_eq!(unique_key(&study(), &mut used), "chen2025a");
    assert_eq!(unique_key(&study(), &mut used), "chen2025a2");
    assert_eq!(unique_key(&study(), &mut used), "chen2025a3");
    let mut record = WorkRecord::new("test", "two");
    record.title = "42 Ünïque things".into();
    assert_eq!(unique_key(&record, &mut used), "anonymousndunique");
    assert_eq!(used.len(), 4);
}

#[test]
fn exports_hold_every_work() {
    let works = vec![("a".to_owned(), study()), ("b".to_owned(), study())];
    let library = export_library(&works);
    assert_eq!(library.keys, ["chen2025a", "chen2025a2"]);
    assert_eq!(library.csl.len(), 2);
    assert_eq!(
        library.bibtex,
        [bibtex_entry(&study(), "chen2025a"), bibtex_entry(&study(), "chen2025a2")]
            .map(|entry| entry + "\n")
            .concat()
    );
    assert_eq!(library.ris, (ris_entry(&study()) + "\n").repeat(2));
}

#[test]
fn audits_name_what_is_missing() {
    let mut bare = WorkRecord::new("test", "two");
    bare.work_type = "article-journal".into();
    bare.authors.push(Author { family: " ".into(), ..Author::default() });
    let works = vec![("a".to_owned(), study()), ("b".to_owned(), bare)];
    let report = audit(&works);
    assert_eq!(report.total_records, 2);
    assert_eq!(report.complete_records, 1);
    assert_eq!(report.incomplete_records[0].work_id, "b");
    assert_eq!(
        report.incomplete_records[0].missing_fields,
        ["title", "author", "issued", "container-title", "persistent-identifier"]
    );
}
