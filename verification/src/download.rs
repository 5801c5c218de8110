//! Getting PDFs: from which addresses, to which places, and by whose hand.

use crate::adapters::{
    append_query_pair, parse_url, segments_view, sha256, url_parts, url_with_pair,
};
use crate::discovery::{arxiv_in, find_arxiv, find_openalex, openalex_in};
use crate::domain::{
    doi_in, find_doi, FullTextCandidate, FullTextCandidateView, WorkRecord, WorkRecordView,
    GOOGLE_SCHOLAR_LIBRARY_ACCESS_FLAG,
};
use crate::model::{duplicate_option, views, Duplicate};
use crate::quality::{flag_set, is_set};
use crate::text::{
    ascii_lower, chars_of, copy_texts, decimal, decimal_text, ends_with, eq_ignore_ascii_case,
    finishes_with, join, joined, opt_text, same_text, text_in, text_of, texts, trim, trimmed,
};
use crate::util::{
    hexadecimal, join_path, path_of, safe_slug, sha256_bytes, slug, StreamDigest, DIGESTIBLE,
};
use vstd::prelude::*;
use vstd::string::StringExecFns;
use vstd::utf8::encode_utf8;

verus! {

/// The license of a PDF that the user supplied.
pub const USER_SUPPLIED_LICENSE: &'static str = "user-supplied; reuse rights not established";

/// How many bytes of a file are searched for the signature of a PDF.
pub const SIGNATURE_WINDOW: usize = 1024;

/// A PDF that was preserved.
#[derive(Debug)]
pub struct DownloadedPdf {
    pub url: String,
    pub path: String,
    pub sha256: String,
    pub license: String,
    pub user_supplied: bool,
}

/// What a `DownloadedPdf` holds.
#[verifier::ext_equal]
pub struct DownloadedPdfView {
    pub url: Seq<char>,
    pub path: Seq<char>,
    pub sha256: Seq<char>,
    pub license: Seq<char>,
    pub user_supplied: bool,
}

impl View for DownloadedPdf {
    type V = DownloadedPdfView;

    open spec fn view(&self) -> DownloadedPdfView {
        DownloadedPdfView {
            url: self.url@,
            path: self.path@,
            sha256: self.sha256@,
            license: self.license@,
            user_supplied: self.user_supplied,
        }
    }
}

impl Duplicate for DownloadedPdf {
    fn duplicate(&self) -> (r: DownloadedPdf) {
        DownloadedPdf {
            url: self.url.clone(),
            path: self.path.clone(),
            sha256: self.sha256.clone(),
            license: self.license.clone(),
            user_supplied: self.user_supplied,
        }
    }
}

/// What the user is asked to download.
#[derive(Debug)]
pub struct ManualDownloadRequest {
    pub work_id: String,
    pub title: String,
    pub doi: Option<String>,
    pub download_urls: Vec<String>,
    pub google_scholar_query_url: Option<String>,
    pub destination: String,
    pub reason: String,
    pub instructions: String,
}

/// What a `ManualDownloadRequest` holds.
#[verifier::ext_equal]
pub struct ManualDownloadRequestView {
    pub work_id: Seq<char>,
    pub title: Seq<char>,
    pub doi: Option<Seq<char>>,
    pub download_urls: Seq<Seq<char>>,
    pub google_scholar_query_url: Option<Seq<char>>,
    pub destination: Seq<char>,
    pub reason: Seq<char>,
    pub instructions: Seq<char>,
}

impl View for ManualDownloadRequest {
    type V = ManualDownloadRequestView;

    open spec fn view(&self) -> ManualDownloadRequestView {
        ManualDownloadRequestView {
            work_id: self.work_id@,
            title: self.title@,
            doi: opt_text(self.doi),
            download_urls: texts(self.download_urls@),
            google_scholar_query_url: opt_text(self.google_scholar_query_url),
            destination: self.destination@,
            reason: self.reason@,
            instructions: self.instructions@,
        }
    }
}

impl Duplicate for ManualDownloadRequest {
    fn duplicate(&self) -> (r: ManualDownloadRequest) {
        ManualDownloadRequest {
            work_id: self.work_id.clone(),
            title: self.title.clone(),
            doi: duplicate_option(&self.doi),
            download_urls: copy_texts(&self.download_urls),
            google_scholar_query_url: duplicate_option(&self.google_scholar_query_url),
            destination: self.destination.clone(),
            reason: self.reason.clone(),
            instructions: self.instructions.clone(),
        }
    }
}


/// Why an address is not fetched.
#[derive(Clone, Copy, Debug, PartialEq, Eq, Structural)]
pub enum UrlError {
    Invalid,
    NotHttp,
    NoHost,
    LocalNetwork,
    PrivateNetwork,
}

/// The words for why an address is not fetched.
pub open spec fn url_fault_text(error: UrlError) -> Seq<char> {
    match error {
        UrlError::Invalid => "invalid PDF URL"@,
        UrlError::NotHttp => "only HTTP(S) full-text URLs are allowed"@,
        UrlError::NoHost => "URL is missing a host"@,
        UrlError::LocalNetwork => "local network targets are not allowed"@,
        UrlError::PrivateNetwork => "private network targets are not allowed"@,
    }
}

impl UrlError {
    /// The error in words.
    pub fn message(&self) -> (r: String)
        ensures
            r@ == url_fault_text(*self),
    {
        match self {
            UrlError::Invalid => "invalid PDF URL".to_owned(),
            UrlError::NotHttp => "only HTTP(S) full-text URLs are allowed".to_owned(),
            UrlError::NoHost => "URL is missing a host".to_owned(),
            UrlError::LocalNetwork => "local network targets are not allowed".to_owned(),
            UrlError::PrivateNetwork => "private network targets are not allowed".to_owned(),
        }
    }
}

/// The IPv4 address is private, of this host, of the link, of all, or none.
pub open spec fn internal_address(ip: (u8, u8, u8, u8)) -> bool {
    ||| ip.0 == 10
    ||| ip.0 == 172 && 16 <= ip.1 <= 31
    ||| ip.0 == 192 && ip.1 == 168
    ||| ip.0 == 127
    ||| ip.0 == 169 && ip.1 == 254
    ||| ip == (255u8, 255u8, 255u8, 255u8)
    ||| ip == (0u8, 0u8, 0u8, 0u8)
}

/// The IPv6 address is none, of this host, or local to a site.
pub open spec fn internal_segments(ip: Seq<u16>) -> bool {
    ||| ip == seq![0u16, 0u16, 0u16, 0u16, 0u16, 0u16, 0u16, 0u16]
    ||| ip == seq![0u16, 0u16, 0u16, 0u16, 0u16, 0u16, 0u16, 1u16]
    ||| 0xfc00 <= ip[0] <= 0xfdff
}

/// Why an address with these parts is not fetched.
pub open spec fn target_fault(
    scheme: Seq<char>,
    host: Option<Seq<char>>,
    ipv4: Option<(u8, u8, u8, u8)>,
    ipv6: Option<Seq<u16>>,
) -> Option<UrlError> {
    if scheme != "http"@ && scheme != "https"@ {
        Some(UrlError::NotHttp)
    } else if host is None {
        Some(UrlError::NoHost)
    } else if ascii_lower(host->0) == ascii_lower("localhost"@) || finishes_with(
        host->0,
        ".local"@,
    ) {
        Some(UrlError::LocalNetwork)
    } else if ipv4 is Some && internal_address(ipv4->0) {
        Some(UrlError::PrivateNetwork)
    } else if ipv6 is Some && internal_segments(ipv6->0) {
        Some(UrlError::PrivateNetwork)
    } else {
        None
    }
}

/// Why the address is not fetched.
pub open spec fn url_fault_of(url: Seq<char>) -> Option<UrlError> {
    match url_parts(url) {
        Some((scheme, host, ipv4, ipv6)) => target_fault(scheme, host, ipv4, ipv6),
        None => Some(UrlError::Invalid),
    }
}

fn are_internal(ip: &[u16; 8]) -> (r: bool)
    ensures
        r == internal_segments(ip@),
{
    let ghost none = seq![0u16, 0u16, 0u16, 0u16, 0u16, 0u16, 0u16, 0u16];
    let ghost here = seq![0u16, 0u16, 0u16, 0u16, 0u16, 0u16, 0u16, 1u16];
    let leading = ip[0] == 0 && ip[1] == 0 && ip[2] == 0 && ip[3] == 0 && ip[4] == 0 && ip[5] == 0
        && ip[6] == 0;
    assert((leading && ip@[7] == 0) == (ip@ == none)) by {
        if leading && ip@[7] == 0 {
            assert(ip@ =~= none);
        }
    }
    assert((leading && ip@[7] == 1) == (ip@ == here)) by {
        if leading && ip@[7] == 1 {
            assert(ip@ =~= here);
        }
    }
    (leading && ip[7] <= 1) || (0xfc00 <= ip[0] && ip[0] <= 0xfdff)
}

/// Whether an address with these parts may be fetched.
pub fn safe_target(
    scheme: &str,
    host: &Option<String>,
    ipv4: Option<(u8, u8, u8, u8)>,
    ipv6: Option<[u16; 8]>,
) -> (r: Result<(), UrlError>)
    ensures
        match r {
            Ok(()) => target_fault(scheme@, opt_text(*host), ipv4, segments_view(ipv6)) is None,
            Err(error) => target_fault(scheme@, opt_text(*host), ipv4, segments_view(ipv6))
                == Some(error),
        },
{
    if !same_text(scheme, "http") && !same_text(scheme, "https") {
        return Err(UrlError::NotHttp);
    }
    let name = match host {
        Some(name) => name,
        None => {
            return Err(UrlError::NoHost);
        },
    };
    if eq_ignore_ascii_case(name, "localhost") || ends_with(name, ".local") {
        return Err(UrlError::LocalNetwork);
    }
    if let Some((a, b, c, d)) = ipv4 {
        if a == 10 || (a == 172 && 16 <= b && b <= 31) || (a == 192 && b == 168) || a == 127 || (a
            == 169 && b == 254) || (a == 255 && b == 255 && c == 255 && d == 255) || (a == 0 && b
            == 0 && c == 0 && d == 0) {
            return Err(UrlError::PrivateNetwork);
        }
    }
    if let Some(segments) = ipv6 {
        if are_internal(&segments) {
            return Err(UrlError::PrivateNetwork);
        }
    }
    Ok(())
}

/// Whether the address may be fetched: it is public and speaks HTTP.
pub fn safe_remote_url(url: &str) -> (r: Result<(), UrlError>)
    ensures
        match r {
            Ok(()) => url_fault_of(url@) is None,
            Err(error) => url_fault_of(url@) == Some(error),
        },
{
    match parse_url(url) {
        Some(parts) => safe_target(&parts.scheme, &parts.host, parts.ipv4, parts.ipv6),
        None => Err(UrlError::Invalid),
    }
}

/// Why a redirect is not followed.
#[derive(Clone, Copy, Debug, PartialEq, Eq, Structural)]
pub enum RedirectError {
    TooMany,
    NotPublic,
}

/// The words for why a redirect is not followed.
pub open spec fn redirect_fault_text(error: RedirectError) -> Seq<char> {
    match error {
        RedirectError::TooMany => "too many redirects"@,
        RedirectError::NotPublic => "redirect target is not a public HTTP(S) URL"@,
    }
}

impl RedirectError {
    /// The error in words.
    pub fn message(&self) -> (r: &'static str)
        ensures
            r@ == redirect_fault_text(*self),
    {
        match self {
            RedirectError::TooMany => "too many redirects",
            RedirectError::NotPublic => "redirect target is not a public HTTP(S) URL",
        }
    }
}

/// Why a redirect is not followed behind so many addresses.
pub open spec fn redirect_fault(previous: nat, url: Seq<char>) -> Option<RedirectError> {
    if previous > 10 {
        Some(RedirectError::TooMany)
    } else if url_fault_of(url) is Some {
        Some(RedirectError::NotPublic)
    } else {
        None
    }
}

/// Whether a redirect is followed behind so many addresses.
pub fn check_redirect(previous: usize, url: &str) -> (r: Result<(), RedirectError>)
    ensures
        match r {
            Ok(()) => redirect_fault(previous as nat, url@) is None,
            Err(error) => redirect_fault(previous as nat, url@) == Some(error),
        },
{
    if previous > 10 {
        Err(RedirectError::TooMany)
    } else if safe_remote_url(url).is_err() {
        Err(RedirectError::NotPublic)
    } else {
        Ok(())
    }
}

/// How the program names itself to those who hand PDFs out.
pub fn download_agent(contact_email: &str) -> (r: String)
    ensures
        r@ == "AcademicLiteratureMining/0.1 ("@ + contact_email@ + ")"@,
{
    let mut name = "AcademicLiteratureMining/0.1 (".to_owned();
    name.append(contact_email);
    name.append(")");
    name
}

/// The addresses with one more, where it is public and not among them.
pub open spec fn with_url(urls: Seq<Seq<char>>, value: Seq<char>) -> Seq<Seq<char>> {
    let url = trimmed(value);
    if url.len() == 0 || urls.contains(url) || url_fault_of(url) is Some {
        urls
    } else {
        urls.push(url)
    }
}

/// Adds the address, where it is public and not among them.
pub fn push_public_url(urls: &mut Vec<String>, value: &str)
    ensures
        texts(final(urls)@) == with_url(texts(old(urls)@), value@),
{
    let ghost before = texts(urls@);
    let url = trim(value);
    if url.as_str().is_empty() || text_in(&url, urls) {
        return;
    }
    if safe_remote_url(&url).is_ok() {
        let ghost added = url@;
        urls.push(url);
        assert(texts(urls@) =~= before.push(added));
    }
}

/// The addresses with those of the places.
pub open spec fn with_places_urls(
    urls: Seq<Seq<char>>,
    places: Seq<FullTextCandidateView>,
) -> Seq<Seq<char>>
    decreases places.len(),
{
    if places.len() == 0 {
        urls
    } else {
        with_url(with_places_urls(urls, places.drop_last()), places.last().url)
    }
}

/// The addresses with the one that an identifier makes, where there is one.
pub open spec fn with_id_url(
    urls: Seq<Seq<char>>,
    base: Seq<char>,
    id: Option<Seq<char>>,
) -> Seq<Seq<char>> {
    match id {
        Some(value) => with_url(urls, base + value),
        None => urls,
    }
}

/// The addresses at which a user may find the full text of a work.
pub open spec fn manual_urls(work: WorkRecordView) -> Seq<Seq<char>> {
    with_id_url(
        with_id_url(
            with_id_url(
                with_url(with_places_urls(Seq::empty(), work.fulltext_candidates), work.url),
                "https://doi.org/"@,
                doi_in(work.ids),
            ),
            "https://openalex.org/"@,
            openalex_in(work.ids),
        ),
        "https://arxiv.org/abs/"@,
        arxiv_in(work.ids),
    )
}

fn push_id_url(urls: &mut Vec<String>, base: &str, id: &Option<String>)
    ensures
        texts(final(urls)@) == with_id_url(texts(old(urls)@), base@, opt_text(*id)),
{
    if let Some(value) = id {
        let mut url = base.to_owned();
        url.append(value);
        push_public_url(urls, &url);
    }
}

/// The addresses at which a user may find the full text of the work.
pub fn manual_download_urls(record: &WorkRecord) -> (r: Vec<String>)
    ensures
        texts(r@) == manual_urls(record@),
{
    let ghost places = record@.fulltext_candidates;
    let mut urls: Vec<String> = Vec::new();
    let mut i: usize = 0;
    assert(texts(urls@) =~= with_places_urls(Seq::empty(), places.take(0)));
    while i < record.fulltext_candidates.len()
        invariant
            i <= record.fulltext_candidates@.len(),
            places == views(record.fulltext_candidates@),
            texts(urls@) == with_places_urls(Seq::empty(), places.take(i as int)),
        decreases record.fulltext_candidates@.len() - i,
    {
        assert(places.take(i + 1).drop_last() =~= places.take(i as int));
        assert(places.take(i + 1).last() == record.fulltext_candidates@[i as int]@);
        push_public_url(&mut urls, &record.fulltext_candidates[i].url);
        i += 1;
    }
    assert(places.take(places.len() as int) =~= places);
    push_public_url(&mut urls, &record.url);
    push_id_url(&mut urls, "https://doi.org/", &find_doi(&record.ids));
    push_id_url(&mut urls, "https://openalex.org/", &find_openalex(&record.ids));
    push_id_url(&mut urls, "https://arxiv.org/abs/", &find_arxiv(&record.ids));
    urls
}

/// The Google Scholar search for the DOI of a work, where the user allowed it.
pub open spec fn scholar_url(work: WorkRecordView) -> Option<Seq<char>> {
    if flag_set(work.flags, GOOGLE_SCHOLAR_LIBRARY_ACCESS_FLAG@) && doi_in(work.ids) is Some {
        url_with_pair("https://scholar.google.com/scholar"@, "q"@, doi_in(work.ids)->0)
    } else {
        None
    }
}

/// The Google Scholar search for the DOI of the work, where the user allowed it.
pub fn google_scholar_query_url(record: &WorkRecord) -> (r: Option<String>)
    ensures
        opt_text(r) == scholar_url(record@),
{
    if !is_set(&record.flags, GOOGLE_SCHOLAR_LIBRARY_ACCESS_FLAG) {
        return None;
    }
    match find_doi(&record.ids) {
        Some(doi) => {
            proof {
                reveal_strlit("https://scholar.google.com/scholar");
            }
            append_query_pair("https://scholar.google.com/scholar", "q", &doi)
        },
        None => None,
    }
}

/// A name for the files of a work: its slug and the start of its digest.
pub open spec fn file_stem(work_id: Seq<char>) -> Seq<char> {
    slug(work_id, "paper"@) + "-"@ + hexadecimal(sha256(encode_utf8(work_id))).take(12)
}

/// A name for the files of the work.
pub fn stem_of(work_id: &str) -> (r: String)
    ensures
        r@ == file_stem(work_id@),
{
    let digest = chars_of(&sha256_bytes(work_id.as_bytes()));
    assert(digest@.subrange(0, 12) =~= digest@.take(12));
    let mut stem = safe_slug(work_id, "paper");
    stem.append("-");
    stem.append(&text_of(&digest, 0, 12));
    stem
}

/// Where the PDF of a work is preserved.
pub open spec fn destination_of(workspace: Seq<char>, work_id: Seq<char>) -> Seq<char> {
    path_of(path_of(workspace, "pdfs"@), file_stem(work_id) + ".pdf"@)
}

/// Where the PDF of the work is preserved.
pub fn pdf_destination(workspace: &str, work_id: &str) -> (r: String)
    ensures
        r@ == destination_of(workspace@, work_id@),
{
    let mut name = stem_of(work_id);
    name.append(".pdf");
    join_path(&join_path(workspace, "pdfs"), &name)
}

/// What the user is told.
pub open spec fn manual_instructions() -> Seq<char> {
    "Use only lawful publisher or institutional access. Download the PDF yourself, save it at destination exactly, do not bypass access controls, and tell the agent when the file is ready. The agent must rerun `litmine download`, then `render`, `ingest`, and `audit`. User-supplied access does not establish a reuse license."@
}

/// What the user is asked to download, and why.
pub open spec fn manual_request(
    workspace: Seq<char>,
    work_id: Seq<char>,
    work: WorkRecordView,
    reason: Seq<char>,
) -> ManualDownloadRequestView {
    ManualDownloadRequestView {
        work_id,
        title: work.title,
        doi: doi_in(work.ids),
        download_urls: manual_urls(work),
        google_scholar_query_url: scholar_url(work),
        destination: destination_of(workspace, work_id),
        reason,
        instructions: manual_instructions(),
    }
}

/// What the user is asked to download, and why.
pub fn manual_download_request(
    workspace: &str,
    work_id: &str,
    record: &WorkRecord,
    reason: String,
) -> (r: ManualDownloadRequest)
    ensures
        r@ == manual_request(workspace@, work_id@, record@, reason@),
{
    ManualDownloadRequest {
        work_id: work_id.to_owned(),
        title: record.title.clone(),
        doi: find_doi(&record.ids),
        download_urls: manual_download_urls(record),
        google_scholar_query_url: google_scholar_query_url(record),
        destination: pdf_destination(workspace, work_id),
        reason,
        instructions: "Use only lawful publisher or institutional access. Download the PDF yourself, save it at destination exactly, do not bypass access controls, and tell the agent when the file is ready. The agent must rerun `litmine download`, then `render`, `ingest`, and `audit`. User-supplied access does not establish a reuse license.".to_owned(),
    }
}

/// The signature of a PDF stands at the index.
pub open spec fn signature_at(bytes: Seq<u8>, at: int) -> bool {
    0 <= at && at + 5 <= bytes.len() && bytes.subrange(at, at + 5) == seq![
        0x25u8,
        0x50u8,
        0x44u8,
        0x46u8,
        0x2du8,
    ]
}

/// The bytes hold the signature of a PDF.
pub open spec fn signed_as_pdf(bytes: Seq<u8>) -> bool {
    exists|at: int| signature_at(bytes, at)
}

/// Whether the bytes hold the signature of a PDF, `%PDF-`.
pub fn has_pdf_signature(bytes: &Vec<u8>) -> (r: bool)
    ensures
        r == signed_as_pdf(bytes@),
{
    let total: usize = bytes.len();
    let mut i: usize = 0;
    while i < total && total - i >= 5
        invariant
            i <= total,
            total == bytes@.len(),
            forall|j: int| 0 <= j < i ==> !signature_at(bytes@, j),
        decreases total - i,
    {
        let ghost part = bytes@.subrange(i as int, i + 5);
        if bytes[i] == 0x25 && bytes[i + 1] == 0x50 && bytes[i + 2] == 0x44 && bytes[i + 3] == 0x46
            && bytes[i + 4] == 0x2d {
            assert(part =~= seq![0x25u8, 0x50u8, 0x44u8, 0x46u8, 0x2du8]);
            assert(signature_at(bytes@, i as int));
            return true;
        }
        proof {
            if signature_at(bytes@, i as int) {
                assert(part[0] == bytes@[i as int]);
                assert(part[1] == bytes@[i + 1]);
                assert(part[2] == bytes@[i + 2]);
                assert(part[3] == bytes@[i + 3]);
                assert(part[4] == bytes@[i + 4]);
            }
        }
        i += 1;
    }
    false
}

/// Why a file that the user supplied is not taken.
#[derive(Clone, Copy, Debug, PartialEq, Eq, Structural)]
pub enum ManualPdfError {
    SymbolicLink,
    NotAFile,
    Empty,
    TooLarge { length: u64, limit: u64 },
    NotPdf,
    NoUrl,
}

/// The words for why a file that the user supplied is not taken.
pub open spec fn manual_fault_text(error: ManualPdfError) -> Seq<char> {
    match error {
        ManualPdfError::SymbolicLink => {
            "user-supplied PDF must be a regular file, not a symbolic link"@
        },
        ManualPdfError::NotAFile => "user-supplied PDF path is not a regular file"@,
        ManualPdfError::Empty => "user-supplied PDF is empty"@,
        ManualPdfError::TooLarge { length, limit } => "user-supplied PDF is "@ + decimal(
            length as nat,
        ) + " bytes, exceeding the configured maximum of "@ + decimal(limit as nat),
        ManualPdfError::NotPdf => {
            "user-supplied file is not a PDF (missing %PDF- signature)"@
        },
        ManualPdfError::NoUrl => {
            "selected work has no publisher, DOI, repository, or full-text URL"@
        },
    }
}

impl ManualPdfError {
    /// The error in words.
    pub fn message(&self) -> (r: String)
        ensures
            r@ == manual_fault_text(*self),
    {
        match self {
            ManualPdfError::SymbolicLink => {
                "user-supplied PDF must be a regular file, not a symbolic link".to_owned()
            },
            ManualPdfError::NotAFile => {
                "user-supplied PDF path is not a regular file".to_owned()
            },
            ManualPdfError::Empty => "user-supplied PDF is empty".to_owned(),
            ManualPdfError::TooLarge { length, limit } => {
                let mut text = "user-supplied PDF is ".to_owned();
                text.append(&decimal_text(*length));
                text.append(" bytes, exceeding the configured maximum of ");
                text.append(&decimal_text(*limit));
                text
            },
            ManualPdfError::NotPdf => {
                "user-supplied file is not a PDF (missing %PDF- signature)".to_owned()
            },
            ManualPdfError::NoUrl => {
                "selected work has no publisher, DOI, repository, or full-text URL".to_owned()
            },
        }
    }
}

/// What is known of a file.
#[derive(Debug)]
pub struct FileFacts {
    pub symbolic_link: bool,
    pub regular: bool,
    pub length: u64,
    pub contents: PdfStream,
}

/// What of a file is looked at, before it is read.
pub open spec fn entry_fault(
    symbolic_link: bool,
    regular: bool,
    length: u64,
    limit: u64,
) -> Option<ManualPdfError> {
    if symbolic_link {
        Some(ManualPdfError::SymbolicLink)
    } else if !regular {
        Some(ManualPdfError::NotAFile)
    } else if length == 0 {
        Some(ManualPdfError::Empty)
    } else if length > limit {
        Some(ManualPdfError::TooLarge { length, limit })
    } else {
        None
    }
}

/// Why a file is not taken as the PDF of a work.
pub open spec fn manual_fault(
    file: FileFacts,
    work: WorkRecordView,
    limit: u64,
) -> Option<ManualPdfError> {
    if entry_fault(file.symbolic_link, file.regular, file.length, limit) is Some {
        entry_fault(file.symbolic_link, file.regular, file.length, limit)
    } else if !signed_as_pdf(searched(file.contents@)) {
        Some(ManualPdfError::NotPdf)
    } else if manual_urls(work).len() == 0 {
        Some(ManualPdfError::NoUrl)
    } else {
        None
    }
}

/// Whether a file may be read as a PDF that the user supplied.
pub fn check_entry(symbolic_link: bool, regular: bool, length: u64, limit: u64) -> (r: Result<
    (),
    ManualPdfError,
>)
    ensures
        match r {
            Ok(()) => entry_fault(symbolic_link, regular, length, limit) is None,
            Err(error) => entry_fault(symbolic_link, regular, length, limit) == Some(error),
        },
{
    if symbolic_link {
        return Err(ManualPdfError::SymbolicLink);
    }
    if !regular {
        return Err(ManualPdfError::NotAFile);
    }
    if length == 0 {
        return Err(ManualPdfError::Empty);
    }
    if length > limit {
        return Err(ManualPdfError::TooLarge { length, limit });
    }
    Ok(())
}

/// The PDF with the contents that the user supplied for a work.
pub open spec fn supplied_pdf(
    workspace: Seq<char>,
    work_id: Seq<char>,
    work: WorkRecordView,
    contents: Seq<u8>,
) -> DownloadedPdfView {
    DownloadedPdfView {
        url: manual_urls(work)[0],
        path: destination_of(workspace, work_id),
        sha256: hexadecimal(sha256(contents)),
        license: USER_SUPPLIED_LICENSE@,
        user_supplied: true,
    }
}

/// The PDF that the user supplied for a work, if the file is one.
pub fn import_manual_pdf(
    workspace: &str,
    work_id: &str,
    record: &WorkRecord,
    max_pdf_bytes: u64,
    file: FileFacts,
) -> (r: Result<DownloadedPdf, ManualPdfError>)
    ensures
        match r {
            Ok(pdf) => manual_fault(file, record@, max_pdf_bytes) is None && pdf@ == supplied_pdf(
                workspace@,
                work_id@,
                record@,
                file.contents@,
            ),
            Err(error) => manual_fault(file, record@, max_pdf_bytes) == Some(error),
        },
{
    match check_entry(file.symbolic_link, file.regular, file.length, max_pdf_bytes) {
        Ok(()) => {},
        Err(error) => {
            return Err(error);
        },
    }
    if !file.contents.is_signed() {
        return Err(ManualPdfError::NotPdf);
    }
    let urls = manual_download_urls(record);
    if urls.len() == 0 {
        return Err(ManualPdfError::NoUrl);
    }
    assert(texts(urls@)[0] == urls@[0]@);
    Ok(
        DownloadedPdf {
            url: urls[0].clone(),
            path: pdf_destination(workspace, work_id),
            sha256: file.contents.finish(),
            license: USER_SUPPLIED_LICENSE.to_owned(),
            user_supplied: true,
        },
    )
}

/// The first bytes of those that are searched for a signature.
pub open spec fn searched(bytes: Seq<u8>) -> Seq<u8> {
    if bytes.len() <= SIGNATURE_WINDOW {
        bytes
    } else {
        bytes.take(SIGNATURE_WINDOW as int)
    }
}

/// Chunk by chunk the same is received as at once: what a stream holds after some
/// bytes and then more is what it holds after all of them.
pub proof fn law_chunks_add_up(received: Seq<u8>, chunk: Seq<u8>)
    ensures
        searched(searched(received) + chunk) == searched(received + chunk),
{
    assert(searched(searched(received) + chunk) =~= searched(received + chunk));
}

/// Why what comes is not taken for a PDF.
#[derive(Clone, Copy, Debug, PartialEq, Eq, Structural)]
pub enum StreamError {
    DeclaredTooLarge { length: u64 },
    TooLarge,
    NotPdf,
}

/// The words for why what comes is not taken for a PDF.
pub open spec fn stream_fault_text(error: StreamError) -> Seq<char> {
    match error {
        StreamError::DeclaredTooLarge { length } => "declared PDF size "@ + decimal(length as nat)
            + " exceeds configured maximum"@,
        StreamError::TooLarge => "download exceeded configured maximum PDF size"@,
        StreamError::NotPdf => "response is not a PDF (missing %PDF- signature)"@,
    }
}

impl StreamError {
    /// The error in words.
    pub fn message(&self) -> (r: String)
        ensures
            r@ == stream_fault_text(*self),
    {
        match self {
            StreamError::DeclaredTooLarge { length } => {
                let mut text = "declared PDF size ".to_owned();
                text.append(&decimal_text(*length));
                text.append(" exceeds configured maximum");
                text
            },
            StreamError::TooLarge => "download exceeded configured maximum PDF size".to_owned(),
            StreamError::NotPdf => {
                "response is not a PDF (missing %PDF- signature)".to_owned()
            },
        }
    }
}

/// Whether a PDF of the declared length, where one is declared, may come.
pub fn check_declared_length(declared: Option<u64>, limit: u64) -> (r: Result<(), StreamError>)
    ensures
        match r {
            Ok(()) => declared matches Some(length) ==> length <= limit,
            Err(error) => declared matches Some(length) && length > limit && error == (
            StreamError::DeclaredTooLarge { length }),
        },
{
    match declared {
        Some(length) if length > limit => Err(StreamError::DeclaredTooLarge { length }),
        _ => Ok(()),
    }
}

/// What has come of a PDF so far: its digest in the making, and how it begins.
#[derive(Debug)]
pub struct PdfStream {
    digest: StreamDigest,
    start: Vec<u8>,
}

impl View for PdfStream {
    type V = Seq<u8>;

    /// All the bytes that have come.
    closed spec fn view(&self) -> Seq<u8> {
        self.digest@
    }
}

impl PdfStream {
    #[verifier::type_invariant]
    spec fn begins_alike(self) -> bool {
        self.start@ == searched(self.digest@)
    }

    /// Nothing has come yet.
    pub fn new() -> (r: PdfStream)
        ensures
            r@ == Seq::<u8>::empty(),
    {
        let digest = StreamDigest::new();
        let start: Vec<u8> = Vec::new();
        assert(start@ =~= searched(digest@));
        PdfStream { digest, start }
    }

    /// How many bytes have come.
    pub fn total(&self) -> (r: u64)
        ensures
            r == self@.len(),
    {
        self.digest.length()
    }

    /// Takes more bytes in, if they exceed neither the limit nor what has a digest.
    pub fn take_chunk(&mut self, chunk: &[u8], limit: u64) -> (r: Result<(), StreamError>)
        ensures
            match r {
                Ok(()) => {
                    &&& old(self)@.len() + chunk@.len() <= limit
                    &&& old(self)@.len() + chunk@.len() <= DIGESTIBLE
                    &&& final(self)@ == old(self)@ + chunk@
                },
                Err(error) => {
                    &&& error == StreamError::TooLarge
                    &&& old(self)@.len() + chunk@.len() > limit || old(self)@.len() + chunk@.len()
                        > DIGESTIBLE
                    &&& final(self)@ == old(self)@
                },
            },
    {
        proof {
            use_type_invariant(&*self);
        }
        let more: u64 = chunk.len() as u64;
        let total: u64 = self.digest.length();
        if total > limit || more > limit - total || more > DIGESTIBLE - total {
            return Err(StreamError::TooLarge);
        }
        let mut before = PdfStream::new();
        std::mem::swap(self, &mut before);
        let PdfStream { mut digest, mut start } = before;
        let ghost first = start@;
        let ghost received = digest@;
        let _ = digest.take_chunk(chunk);
        let mut i: usize = 0;
        while i < chunk.len() && start.len() < SIGNATURE_WINDOW
            invariant
                i <= chunk@.len(),
                first.len() <= SIGNATURE_WINDOW,
                start@.len() <= SIGNATURE_WINDOW,
                start@ == first + chunk@.take(i as int),
            decreases chunk@.len() - i,
        {
            start.push(chunk[i]);
            i += 1;
            assert(start@ =~= first + chunk@.take(i as int));
        }
        proof {
            assert(chunk@.take(chunk@.len() as int) =~= chunk@);
            assert(start@ =~= searched(first + chunk@));
            law_chunks_add_up(received, chunk@);
        }
        *self = PdfStream { digest, start };
        Ok(())
    }

    /// Whether what came begins like a PDF.
    pub fn is_signed(&self) -> (r: bool)
        ensures
            r == signed_as_pdf(searched(self@)),
    {
        proof {
            use_type_invariant(self);
        }
        has_pdf_signature(&self.start)
    }

    /// Whether what came may be kept as a PDF.
    pub fn check(&self) -> (r: Result<(), StreamError>)
        ensures
            match r {
                Ok(()) => signed_as_pdf(searched(self@)),
                Err(error) => error == StreamError::NotPdf && !signed_as_pdf(searched(self@)),
            },
    {
        if self.is_signed() {
            Ok(())
        } else {
            Err(StreamError::NotPdf)
        }
    }

    /// The digest of all that came, in lowercase hexadecimal.
    pub fn finish(self) -> (r: String)
        ensures
            r@ == hexadecimal(sha256(self@)),
    {
        let PdfStream { digest, start: _ } = self;
        digest.finish()
    }
}

/// The places that are authorized to hand the full text out, in order.
pub open spec fn authorized_places(places: Seq<FullTextCandidateView>) -> Seq<
    FullTextCandidateView,
>
    decreases places.len(),
{
    if places.len() == 0 {
        Seq::empty()
    } else {
        let rest = authorized_places(places.drop_last());
        if places.last().authorized {
            rest.push(places.last())
        } else {
            rest
        }
    }
}

/// The places from which the PDF of the work may be downloaded, in order.
pub fn download_candidates(record: &WorkRecord) -> (r: Vec<FullTextCandidate>)
    ensures
        views(r@) == authorized_places(record@.fulltext_candidates),
{
    let ghost all = record@.fulltext_candidates;
    let mut out: Vec<FullTextCandidate> = Vec::new();
    let mut i: usize = 0;
    assert(views(out@) =~= authorized_places(all.take(0)));
    while i < record.fulltext_candidates.len()
        invariant
            i <= record.fulltext_candidates@.len(),
            all == views(record.fulltext_candidates@),
            views(out@) == authorized_places(all.take(i as int)),
        decreases record.fulltext_candidates@.len() - i,
    {
        assert(all.take(i + 1).drop_last() =~= all.take(i as int));
        assert(all.take(i + 1).last() == record.fulltext_candidates@[i as int]@);
        let ghost before = views(out@);
        if record.fulltext_candidates[i].authorized {
            let place = record.fulltext_candidates[i].duplicate();
            let ghost added = place@;
            out.push(place);
            assert(views(out@) =~= before.push(added));
        }
        i += 1;
    }
    assert(all.take(all.len() as int) =~= all);
    out
}

/// Only authorized places are downloaded from.
pub proof fn law_downloads_are_authorized(places: Seq<FullTextCandidateView>, i: int)
    requires
        0 <= i < authorized_places(places).len(),
    ensures
        authorized_places(places)[i].authorized,
        places.contains(authorized_places(places)[i]),
    decreases places.len(),
{
    if places.len() > 0 {
        let rest = authorized_places(places.drop_last());
        if i < rest.len() {
            law_downloads_are_authorized(places.drop_last(), i);
            let k = choose|k: int|
                0 <= k < places.drop_last().len() && places.drop_last()[k] == rest[i];
            assert(places[k] == rest[i]);
        } else {
            assert(places[places.len() - 1] == authorized_places(places)[i]);
        }
    }
}

/// What is reported where no place handed the full text out.
pub fn download_failure(errors: &Vec<String>) -> (r: String)
    ensures
        r@ == (if errors@.len() == 0 {
            "no authorized open-access PDF candidate"@
        } else {
            "all authorized PDF candidates failed:\n"@ + joined(texts(errors@), "\n"@)
        }),
{
    if errors.len() == 0 {
        return "no authorized open-access PDF candidate".to_owned();
    }
    let mut text = "all authorized PDF candidates failed:\n".to_owned();
    text.append(&join(errors, "\n"));
    text
}

/// The PDF with the contents that a place handed out for a work.
pub open spec fn handed_out(
    workspace: Seq<char>,
    work_id: Seq<char>,
    place: FullTextCandidateView,
    contents: Seq<u8>,
) -> DownloadedPdfView {
    DownloadedPdfView {
        url: place.url,
        path: destination_of(workspace, work_id),
        sha256: hexadecimal(sha256(contents)),
        license: place.license,
        user_supplied: false,
    }
}

/// The PDF of a work that a place handed out.
pub fn downloaded_pdf(
    workspace: &str,
    work_id: &str,
    candidate: &FullTextCandidate,
    contents: PdfStream,
) -> (r: DownloadedPdf)
    ensures
        r@ == (DownloadedPdfView {
            url: candidate@.url,
            path: destination_of(workspace@, work_id@),
            sha256: hexadecimal(sha256(contents@)),
            license: candidate@.license,
            user_supplied: false,
        }),
        r@ == handed_out(workspace@, work_id@, candidate@, contents@),
{
    DownloadedPdf {
        url: candidate.url.clone(),
        path: pdf_destination(workspace, work_id),
        sha256: contents.finish(),
        license: candidate.license.clone(),
        user_supplied: false,
    }
}

} // verus!
