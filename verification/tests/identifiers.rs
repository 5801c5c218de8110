//! Normal forms of texts and of persistent identifiers.

use litmine::render::normalize_page_text;
use litmine::text::{decimal_text, is_less, parse_unsigned, trim};
use litmine::util::{
    arxiv_base_id, arxiv_ids_match, join_path, normalize_arxiv, normalize_doi, normalize_openalex,
    normalize_space, now, safe_slug, sha256_bytes, strip_markup, title_fingerprint, unique,
};

#[test]
fn normalizes_persistent_identifiers() {
    assert_eq!(
        normalize_doi("https://doi.org/10.1000/ABC. "),
        Some("10.1000/abc".to_owned())
    );
    assert_eq!(
        normalize_arxiv("https://arxiv.org/pdf/2401.00001.pdf"),
        Some("2401.00001".to_owned())
    );
    assert_eq!(normalize_doi("10.1/not-a-doi"), None);
    assert_eq!(normalize_arxiv("not-an-arxiv-id"), None);
    assert_eq!(
        normalize_openalex("https://openalex.org/w12345"),
        Some("W12345".to_owned())
    );
    assert_eq!(normalize_openalex("not-a-work"), None);
}

#[test]
fn matches_unversioned_arxiv_ids_to_current_versions() {
    assert_eq!(
        arxiv_base_id("https://arxiv.org/abs/2401.00001v2"),
        Some("2401.00001".to_owned())
    );
    assert_eq!(
        arxiv_base_id("hep-th/9901001v3"),
        Some("hep-th/9901001".to_owned())
    );
    assert!(arxiv_ids_match(
        "2401.00001",
        "https://arxiv.org/abs/2401.00001v2"
    ));
    assert!(arxiv_ids_match("hep-th/9901001", "hep-th/9901001v3"));
    assert!(arxiv_ids_match("2401.00001v2", "2401.00001v2"));
    assert!(!arxiv_ids_match("2401.00001v1", "2401.00001v2"));
    assert!(!arxiv_ids_match("2401.00001", "2401.00002v1"));
}

#[test]
fn creates_unicode_stable_title_fingerprint() {
    assert_eq!(title_fingerprint("Café: A Study"), "cafeastudy");
}

#[test]
fn normalizes_pdf_control_characters_and_whitespace() {
    assert_eq!(
        normalize_page_text("  Native\u{0000} PDF\r\n text\tlayer  "),
        "Native PDF text layer"
    );
}

#[test]
fn doi_prefixes_and_punctuation_are_dropped() {
    assert_eq!(normalize_doi("doi: 10.1000/x;,"), Some("10.1000/x".to_owned()));
    assert_eq!(normalize_doi("http://dx.doi.org/10.12345/Y"), Some("10.12345/y".to_owned()));
    assert_eq!(normalize_doi("HTTP://DOI.ORG/10.123456789/Z"), Some("10.123456789/z".to_owned()));
    assert_eq!(normalize_doi("10.1234567890/z"), None);
    assert_eq!(normalize_doi("10.1000/"), None);
    assert_eq!(normalize_doi("10.1000/a b"), None);
    assert_eq!(normalize_doi("https://dx.doi.org/10.1000/x"), None);
}

#[test]
fn dois_may_hold_other_scripts() {
    assert_eq!(normalize_doi("10.1000/É"), Some("10.1000/é".to_owned()));
    assert_eq!(normalize_doi("10.١٢٣٤/x"), Some("10.١٢٣٤/x".to_owned()));
    assert_eq!(normalize_doi("10.12x4/x"), None);
    assert_eq!(normalize_doi("10.12é4/x"), None);
}

#[test]
fn normal_forms_denote_themselves() {
    for text in ["https://doi.org/10.1000/ABC. ", "doi:10.5555/(SICI)1-2", "10.1000/x"] {
        let once = normalize_doi(text).unwrap();
        assert_eq!(normalize_doi(&once), Some(once));
    }
    for text in ["arXiv:2401.00001v3", "http://arxiv.org/abs/hep-th/9901001", "2401.0001"] {
        let once = normalize_arxiv(text).unwrap();
        assert_eq!(normalize_arxiv(&once), Some(once));
    }
    for text in ["w1", "https://openalex.org/W99/"] {
        let once = normalize_openalex(text).unwrap();
        assert_eq!(normalize_openalex(&once), Some(once));
    }
}

#[test]
fn openalex_identifiers_are_a_letter_and_digits() {
    assert_eq!(normalize_openalex(" https://openalex.org/works/W7// "), Some("W7".to_owned()));
    assert_eq!(normalize_openalex("W"), None);
    assert_eq!(normalize_openalex("W12x"), None);
    assert_eq!(normalize_openalex("A12"), None);
}

#[test]
fn arxiv_identifiers_of_old_and_of_today() {
    assert_eq!(normalize_arxiv("math.GT/0309136v1"), Some("math.GT/0309136v1".to_owned()));
    assert_eq!(normalize_arxiv("2401.123456"), None);
    assert_eq!(normalize_arxiv("2401.00001v"), None);
    assert_eq!(normalize_arxiv("9math/0309136"), None);
    assert!(arxiv_ids_match("MATH.gt/0309136", "math.GT/0309136v4"));
    assert!(!arxiv_ids_match("not an id", "2401.00001"));
}

#[test]
fn spacing_is_single_and_stable() {
    let once = normalize_space("  a\u{a0}b \n\t c\u{3000}");
    assert_eq!(once, "a b c");
    assert_eq!(normalize_space(&once), once);
    assert_eq!(normalize_space(" \n "), "");
}

#[test]
fn markup_becomes_space() {
    assert_eq!(strip_markup("<jats:p>One<b>two</b>  three</jats:p>"), "One two three");
    assert_eq!(strip_markup("a <> b < c"), "a <> b < c");
    assert_eq!(strip_markup("x<y>z"), "x z");
}

#[test]
fn distinct_texts_keep_their_first_spelling() {
    let given = ["  Deep  Learning ", "deep learning", "", " ", "Öl", "öl", "b"];
    let values = given.iter().map(|value| value.to_string()).collect();
    assert_eq!(unique(&values), ["Deep Learning", "Öl", "b"]);
}

#[test]
fn slugs_are_safe_file_names() {
    assert_eq!(safe_slug("doi:10.1000/Über Straße", "work"), "doi-10-1000-uber-strae");
    assert_eq!(safe_slug("--", "work"), "work");
    assert_eq!(safe_slug("日本", "work"), "work");
    assert_eq!(safe_slug(&"a".repeat(200), "work"), "a".repeat(96));
    assert_eq!(safe_slug("ﬁne", "work"), "fine");
}

#[test]
fn digests_are_hexadecimal() {
    assert_eq!(
        sha256_bytes(b"abc"),
        "ba7816bf8f01cfea414140de5dae2223b00361a396177a9cb410ff61f20015ad"
    );
    assert_eq!(
        sha256_bytes(b""),
        "e3b0c44298fc1c149afbf4c8996fb92427ae41e4649b934ca495991b7852b855"
    );
}

#[test]
fn fingerprints_drop_accents_and_case() {
    assert_eq!(title_fingerprint("  ÉTUDE—No. 5"), "etudeno5");
    assert_eq!(title_fingerprint("Ⅳ ﬁ"), "ivfi");
    assert_eq!(title_fingerprint("Ωmega"), "ωmega");
}

#[test]
fn instants_end_in_the_zone() {
    let instant = now();
    assert_eq!(instant.len(), 20);
    assert!(instant.ends_with('Z'));
}

#[test]
fn paths_join_with_one_slash() {
    assert_eq!(join_path("/a", "b"), "/a/b");
    assert_eq!(join_path("/a/", "b"), "/a/b");
    assert_eq!(join_path("/a", "/b"), "/b");
    assert_eq!(join_path("", "b"), "b");
}

#[test]
fn numbers_and_texts() {
    assert_eq!(decimal_text(0), "0");
    assert_eq!(decimal_text(u64::MAX), "18446744073709551615");
    assert_eq!(parse_unsigned("+42", 100), Some(42));
    assert_eq!(parse_unsigned("101", 100), None);
    assert_eq!(parse_unsigned("", 100), None);
    assert_eq!(trim("\u{2003} x\u{85}"), "x");
    assert!(is_less("abc", "abd") && is_less("ab", "abc") && !is_less("b", "a"));
}
