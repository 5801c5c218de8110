//! Where PDFs may come from, and what is taken for one.

use litmine::domain::{FullTextCandidate, WorkRecord, GOOGLE_SCHOLAR_LIBRARY_ACCESS_FLAG};
use litmine::download::{
    check_declared_length, check_entry, check_redirect, download_agent, download_candidates,
    download_failure, downloaded_pdf, google_scholar_query_url, has_pdf_signature,
    import_manual_pdf, manual_download_request, manual_download_urls, pdf_destination,
    safe_remote_url, FileFacts, ManualPdfError, PdfStream, RedirectError, StreamError, UrlError,
    USER_SUPPLIED_LICENSE,
};
use litmine::util::{sha256_bytes, StreamDigest};

fn contents(bytes: &[u8]) -> PdfStream {
    let mut stream = PdfStream::new();
    for chunk in bytes.chunks(7) {
        stream.take_chunk(chunk, u64::MAX).unwrap();
    }
    stream
}

fn file(bytes: &[u8]) -> FileFacts {
    FileFacts {
        symbolic_link: false,
        regular: true,
        length: bytes.len() as u64,
        contents: contents(bytes),
    }
}

fn manual() -> WorkRecord {
    let mut record = WorkRecord::new("crossref", "10.1000/manual");
    record.ids.insert("doi".into(), "10.1000/manual".into());
    record
}

#[test]
fn blocks_local_download_targets() {
    assert!(safe_remote_url("http://127.0.0.1/paper.pdf").is_err());
    assert!(safe_remote_url("https://arxiv.org/paper.pdf").is_ok());
}

#[test]
fn builds_a_stable_manual_download_handoff() {
    let mut record = WorkRecord::new("crossref", "10.1000/manual");
    record.ids.insert("doi".into(), "10.1000/manual".into());
    record.title = "A subscription article".into();
    record.url = "https://publisher.example/article".into();
    record
        .flags
        .insert(GOOGLE_SCHOLAR_LIBRARY_ACCESS_FLAG.into(), true);

    let request = manual_download_request(
        "/corpus",
        "doi:10.1000/manual",
        &record,
        "manual access required".to_owned(),
    );

    assert_eq!(request.doi.as_deref(), Some("10.1000/manual"));
    assert!(
        request
            .download_urls
            .contains(&"https://publisher.example/article".to_owned())
    );
    assert!(request.destination.ends_with(".pdf"));
    assert!(
        request
            .google_scholar_query_url
            .as_deref()
            .is_some_and(|url| url.contains("10.1000%2Fmanual"))
    );
    assert!(request.instructions.contains("rerun `litmine download`"));
}

#[test]
fn validates_and_hashes_a_user_supplied_pdf() {
    let mut record = WorkRecord::new("crossref", "10.1000/manual");
    record.ids.insert("doi".into(), "10.1000/manual".into());
    let work_id = "doi:10.1000/manual";
    let path = pdf_destination("/corpus", work_id);
    let facts = file(b"%PDF-1.7\nmanual test");

    let artifact = import_manual_pdf("/corpus", work_id, &record, 1024 * 1024, facts).unwrap();

    assert!(artifact.user_supplied);
    assert_eq!(artifact.path, path);
    assert_eq!(artifact.license, USER_SUPPLIED_LICENSE);
    assert!(!artifact.sha256.is_empty());
    assert_eq!(artifact.url, "https://doi.org/10.1000/manual");
}

#[test]
fn only_public_addresses_are_downloaded() {
    assert!(matches!(safe_remote_url("nonsense"), Err(UrlError::Invalid)));
    assert!(matches!(safe_remote_url("ftp://example.org/a"), Err(UrlError::NotHttp)));
    assert!(matches!(safe_remote_url("http://LOCALHOST/a"), Err(UrlError::LocalNetwork)));
    assert!(matches!(safe_remote_url("http://nas.local/a"), Err(UrlError::LocalNetwork)));
    for host in ["10.0.0.1", "172.16.0.1", "192.168.1.1", "169.254.1.1", "0.0.0.0",
        "255.255.255.255", "127.0.0.1"] {
        assert!(matches!(
            safe_remote_url(&format!("http://{host}/a.pdf")),
            Err(UrlError::PrivateNetwork)
        ));
    }
    assert!(safe_remote_url("http://172.32.0.1/a.pdf").is_ok());
    assert!(safe_remote_url("http://[2001:db8::1]/a.pdf").is_ok());
    assert!(!UrlError::NotHttp.message().is_empty());
}

#[test]
fn every_address_of_a_work_is_offered_once() {
    let mut record = manual();
    record.url = " https://publisher.example/a ".into();
    record.ids.insert("openalex".into(), "w5".into());
    record.ids.insert("arxiv".into(), "2401.00001v1".into());
    record.fulltext_candidates = vec![
        FullTextCandidate { url: "https://publisher.example/a".into(), ..Default::default() },
        FullTextCandidate { url: "http://127.0.0.1/a.pdf".into(), ..Default::default() },
    ];
    assert_eq!(
        manual_download_urls(&record),
        [
            "https://publisher.example/a",
            "https://doi.org/10.1000/manual",
            "https://openalex.org/W5",
            "https://arxiv.org/abs/2401.00001v1",
        ]
    );
    assert_eq!(google_scholar_query_url(&record), None);
}

#[test]
fn destinations_tell_works_apart() {
    let path = pdf_destination("/corpus", "doi:10.1000/x");
    let hash = sha256_bytes(b"doi:10.1000/x");
    assert_eq!(path, format!("/corpus/pdfs/doi-10-1000-x-{}.pdf", &hash[..12]));
    assert_ne!(path, pdf_destination("/corpus", "doi:10.1000-x"));
}

#[test]
fn faulty_files_are_named() {
    let import = |facts: FileFacts| import_manual_pdf("/c", "doi:10.1000/manual", &manual(), 30, facts);
    let pdf = b"%PDF-1.7\nx";
    let mut link = file(pdf);
    link.symbolic_link = true;
    assert!(matches!(import(link), Err(ManualPdfError::SymbolicLink)));
    let mut directory = file(pdf);
    directory.regular = false;
    assert!(matches!(import(directory), Err(ManualPdfError::NotAFile)));
    assert!(matches!(import(file(b"")), Err(ManualPdfError::Empty)));
    let large = import(file(&[b'%'; 31])).unwrap_err();
    assert_eq!(
        large.message(),
        "user-supplied PDF is 31 bytes, exceeding the configured maximum of 30"
    );
    assert!(matches!(import(file(b"<html></html>")), Err(ManualPdfError::NotPdf)));
    let nowhere = WorkRecord::new("a", "1");
    assert!(matches!(
        import_manual_pdf("/c", "a", &nowhere, 30, file(pdf)),
        Err(ManualPdfError::NoUrl)
    ));
    assert!(check_entry(false, true, 30, 30).is_ok());
}

#[test]
fn signatures_may_come_late() {
    assert!(has_pdf_signature(&b"\xef\xbb\xbf%PDF-1.4".to_vec()));
    assert!(!has_pdf_signature(&b"%PDF".to_vec()));
    assert!(!has_pdf_signature(&Vec::new()));
}

#[test]
fn chunks_add_up_to_a_limit() {
    let mut stream = PdfStream::new();
    assert_eq!(stream.take_chunk(&[1; 1000], 2000), Ok(()));
    assert_eq!(stream.take_chunk(&[2; 1000], 2000), Ok(()));
    assert_eq!(stream.total(), 2000);
    assert_eq!(stream.take_chunk(&[3], 2000), Err(StreamError::TooLarge));
    assert_eq!(stream.total(), 2000);
    assert_eq!(stream.check(), Err(StreamError::NotPdf));
    let mut all = vec![1_u8; 1000];
    all.extend([2; 1000]);
    assert_eq!(stream.finish(), sha256_bytes(&all));
    let mut late = vec![b' '; 1019];
    late.extend(b"%PDF-");
    assert!(contents(&late).is_signed());
    late.insert(0, b' ');
    assert!(!contents(&late).is_signed());
    assert_eq!(
        StreamError::NotPdf.message(),
        "response is not a PDF (missing %PDF- signature)"
    );
    assert_eq!(
        StreamError::TooLarge.message(),
        "download exceeded configured maximum PDF size"
    );
}

#[test]
fn digests_come_part_by_part() {
    let empty = StreamDigest::new();
    assert_eq!(empty.length(), 0);
    assert_eq!(
        empty.finish(),
        "e3b0c44298fc1c149afbf4c8996fb92427ae41e4649b934ca495991b7852b855"
    );
    let mut digest = StreamDigest::new();
    assert!(digest.take_chunk(b"a"));
    assert!(digest.take_chunk(b"bc"));
    assert_eq!(digest.length(), 3);
    assert_eq!(
        digest.finish(),
        "ba7816bf8f01cfea414140de5dae2223b00361a396177a9cb410ff61f20015ad"
    );
}

#[test]
fn declared_lengths_have_a_limit() {
    assert_eq!(check_declared_length(None, 10), Ok(()));
    assert_eq!(check_declared_length(Some(10), 10), Ok(()));
    let error = check_declared_length(Some(11), 10).unwrap_err();
    assert_eq!(error, StreamError::DeclaredTooLarge { length: 11 });
    assert_eq!(error.message(), "declared PDF size 11 exceeds configured maximum");
}

#[test]
fn redirects_stay_few_and_public() {
    assert_eq!(check_redirect(10, "https://arxiv.org/paper.pdf"), Ok(()));
    assert_eq!(
        check_redirect(11, "https://arxiv.org/paper.pdf"),
        Err(RedirectError::TooMany)
    );
    let error = check_redirect(1, "http://10.0.0.1/paper.pdf").unwrap_err();
    assert_eq!(error.message(), "redirect target is not a public HTTP(S) URL");
    assert_eq!(RedirectError::TooMany.message(), "too many redirects");
    assert_eq!(download_agent("a@b.c"), "AcademicLiteratureMining/0.1 (a@b.c)");
}

#[test]
fn internal_ipv6_targets_are_blocked() {
    for url in ["http://[::1]/a", "http://[::]/a", "http://[fc00::1]/a", "http://[fdff::1]/a"] {
        assert_eq!(safe_remote_url(url), Err(UrlError::PrivateNetwork), "{url}");
    }
    for url in ["http://[2001:db8::1]/a", "http://[fbff::1]/a", "http://[fe00::1]/a", "http://[::2]/a"] {
        assert_eq!(safe_remote_url(url), Ok(()), "{url}");
    }
}

#[test]
fn only_authorized_full_texts_are_downloaded() {
    let mut record = manual();
    record.fulltext_candidates = vec![
        FullTextCandidate { url: "https://a/1".into(), ..Default::default() },
        FullTextCandidate {
            url: "https://a/2".into(),
            license: "cc-by".into(),
            authorized: true,
            ..Default::default()
        },
    ];
    let candidates = download_candidates(&record);
    assert_eq!(candidates.len(), 1);
    let pdf = downloaded_pdf("/c", "w", &candidates[0], contents(b"%PDF-1.7"));
    assert_eq!(pdf.sha256, sha256_bytes(b"%PDF-1.7"));
    assert_eq!((pdf.url.as_str(), pdf.license.as_str()), ("https://a/2", "cc-by"));
    assert!(!pdf.user_supplied);
    assert_eq!(download_failure(&Vec::new()), "no authorized open-access PDF candidate");
    assert_eq!(
        download_failure(&vec!["https://a/2: HTTP 404".into()]),
        "all authorized PDF candidates failed:\nhttps://a/2: HTTP 404"
    );
}
