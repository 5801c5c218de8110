//! The records of the corpus: research plans, works, pages and candidates.

use crate::adapters::{
    calendar_date, is_rfc3339, now, parse_date, parse_url, rfc3339_instant, url_parts,
};
use crate::json::{Json, JsonView};
use crate::model::{duplicate_all, duplicate_option, views, Duplicate};
use crate::score::{Score, HUNDRED, ONE, SIXTY, ZERO};
use crate::table::{entries_map, keys_differ, lemma_new_key, TextMap};
use crate::text::{
    ascii_lower, byte_len, copy_texts, decimal, decimal_text, eq_ignore_ascii_case, is_blank,
    is_less, join, joined, lemma_blank, lower, lowered, opt_text, same_text, text_less, texts, trim,
    trimmed,
};
use crate::util::{
    after_last_slash, arxiv_base_id, arxiv_base_of, arxiv_of, distinct, doi_of, fingerprint,
    last_segment, lemma_blank_fingerprint, normalize_arxiv, normalize_doi, normalize_openalex,
    normalize_space, openalex_of, spaced, title_fingerprint, unique,
};
use vstd::prelude::*;
use vstd::string::StringExecFns;
use vstd::utf8::is_ascii_chars;

verus! {

/// The version of the record's layout.
pub const SCHEMA_VERSION: &'static str = "1.0";

/// The flag of a work whose PDF the user may fetch through a library affiliation.
pub const GOOGLE_SCHOLAR_LIBRARY_ACCESS_FLAG: &'static str = "google_scholar_library_access";

/// The flag of a work whose PDF the user may supply.
pub const MANUAL_FULLTEXT_ENABLED_FLAG: &'static str = "manual_fulltext_enabled";

/// The flag of a work whose PDF the user has to supply.
pub const REQUIRES_MANUAL_PDF_FLAG: &'static str = "requires_manual_pdf";

/// What to search for, and what to keep.
#[derive(Debug)]
pub struct ResearchPlan {
    pub research_question: String,
    pub queries: Vec<String>,
    pub inclusion_criteria: Vec<String>,
    pub exclusion_criteria: Vec<String>,
    pub date_from: Option<String>,
    pub date_to: Option<String>,
    pub languages: Vec<String>,
    pub sources: Vec<String>,
    pub include_preprints: bool,
    pub include_paywalled: bool,
    pub use_google_scholar_library_access: bool,
    pub target_papers: usize,
    pub min_quality_score: Score,
    pub min_relevance_score: Score,
}

/// What a `ResearchPlan` holds.
#[verifier::ext_equal]
pub struct ResearchPlanView {
    pub research_question: Seq<char>,
    pub queries: Seq<Seq<char>>,
    pub inclusion_criteria: Seq<Seq<char>>,
    pub exclusion_criteria: Seq<Seq<char>>,
    pub date_from: Option<Seq<char>>,
    pub date_to: Option<Seq<char>>,
    pub languages: Seq<Seq<char>>,
    pub sources: Seq<Seq<char>>,
    pub include_preprints: bool,
    pub include_paywalled: bool,
    pub use_google_scholar_library_access: bool,
    pub target_papers: usize,
    pub min_quality_score: Score,
    pub min_relevance_score: Score,
}

impl View for ResearchPlan {
    type V = ResearchPlanView;

    open spec fn view(&self) -> ResearchPlanView {
        ResearchPlanView {
            research_question: self.research_question@,
            queries: texts(self.queries@),
            inclusion_criteria: texts(self.inclusion_criteria@),
            exclusion_criteria: texts(self.exclusion_criteria@),
            date_from: opt_text(self.date_from),
            date_to: opt_text(self.date_to),
            languages: texts(self.languages@),
            sources: texts(self.sources@),
            include_preprints: self.include_preprints,
            include_paywalled: self.include_paywalled,
            use_google_scholar_library_access: self.use_google_scholar_library_access,
            target_papers: self.target_papers,
            min_quality_score: self.min_quality_score,
            min_relevance_score: self.min_relevance_score,
        }
    }
}

impl Duplicate for ResearchPlan {
    fn duplicate(&self) -> (r: ResearchPlan) {
        ResearchPlan {
            research_question: self.research_question.clone(),
            queries: copy_texts(&self.queries),
            inclusion_criteria: copy_texts(&self.inclusion_criteria),
            exclusion_criteria: copy_texts(&self.exclusion_criteria),
            date_from: duplicate_option(&self.date_from),
            date_to: duplicate_option(&self.date_to),
            languages: copy_texts(&self.languages),
            sources: copy_texts(&self.sources),
            include_preprints: self.include_preprints,
            include_paywalled: self.include_paywalled,
            use_google_scholar_library_access: self.use_google_scholar_library_access,
            target_papers: self.target_papers,
            min_quality_score: self.min_quality_score,
            min_relevance_score: self.min_relevance_score,
        }
    }
}

/// A person or body that wrote a work.
#[derive(Debug)]
pub struct Author {
    pub given: String,
    pub family: String,
    pub literal: String,
    pub orcid: Option<String>,
    pub affiliations: Vec<String>,
    pub ids: TextMap<String>,
}

/// What a `Author` holds.
#[verifier::ext_equal]
pub struct AuthorView {
    pub given: Seq<char>,
    pub family: Seq<char>,
    pub literal: Seq<char>,
    pub orcid: Option<Seq<char>>,
    pub affiliations: Seq<Seq<char>>,
    pub ids: Map<Seq<char>, Seq<char>>,
}

impl View for Author {
    type V = AuthorView;

    open spec fn view(&self) -> AuthorView {
        AuthorView {
            given: self.given@,
            family: self.family@,
            literal: self.literal@,
            orcid: opt_text(self.orcid),
            affiliations: texts(self.affiliations@),
            ids: self.ids@,
        }
    }
}

impl Duplicate for Author {
    fn duplicate(&self) -> (r: Author) {
        Author {
            given: self.given.clone(),
            family: self.family.clone(),
            literal: self.literal.clone(),
            orcid: duplicate_option(&self.orcid),
            affiliations: copy_texts(&self.affiliations),
            ids: self.ids.duplicate(),
        }
    }
}

/// An author of whom nothing is known.
pub open spec fn no_author() -> AuthorView {
    AuthorView {
        given: Seq::empty(),
        family: Seq::empty(),
        literal: Seq::empty(),
        orcid: None,
        affiliations: Seq::empty(),
        ids: Map::empty(),
    }
}

impl Default for Author {
    fn default() -> (r: Author)
        ensures
            r@ == no_author(),
    {
        Author {
            given: String::new(),
            family: String::new(),
            literal: String::new(),
            orcid: None,
            affiliations: Vec::new(),
            ids: TextMap::new(),
        }
    }
}

/// A date: year, month and day as far as they are known, and the text it was read from.
#[derive(Debug)]
pub struct DateParts {
    pub date_parts: Vec<Vec<u32>>,
    pub raw: String,
}

/// What a `DateParts` holds.
#[verifier::ext_equal]
pub struct DatePartsView {
    pub date_parts: Seq<Seq<u32>>,
    pub raw: Seq<char>,
}

impl View for DateParts {
    type V = DatePartsView;

    open spec fn view(&self) -> DatePartsView {
        DatePartsView {
            date_parts: views(self.date_parts@),
            raw: self.raw@,
        }
    }
}

impl Duplicate for DateParts {
    fn duplicate(&self) -> (r: DateParts) {
        DateParts {
            date_parts: duplicate_all(&self.date_parts),
            raw: self.raw.clone(),
        }
    }
}

/// A date of which nothing is known.
pub open spec fn no_date() -> DatePartsView {
    DatePartsView {
        date_parts: Seq::empty(),
        raw: Seq::empty(),
    }
}

impl Default for DateParts {
    fn default() -> (r: DateParts)
        ensures
            r@ == no_date(),
    {
        DateParts {
            date_parts: Vec::new(),
            raw: String::new(),
        }
    }
}

/// A place where the full text of a work may be had.
#[derive(Debug)]
pub struct FullTextCandidate {
    pub url: String,
    pub source: String,
    pub version: String,
    pub license: String,
    pub content_type: String,
    pub authorized: bool,
}

/// What a `FullTextCandidate` holds.
#[verifier::ext_equal]
pub struct FullTextCandidateView {
    pub url: Seq<char>,
    pub source: Seq<char>,
    pub version: Seq<char>,
    pub license: Seq<char>,
    pub content_type: Seq<char>,
    pub authorized: bool,
}

impl View for FullTextCandidate {
    type V = FullTextCandidateView;

    open spec fn view(&self) -> FullTextCandidateView {
        FullTextCandidateView {
            url: self.url@,
            source: self.source@,
            version: self.version@,
            license: self.license@,
            content_type: self.content_type@,
            authorized: self.authorized,
        }
    }
}

impl Duplicate for FullTextCandidate {
    fn duplicate(&self) -> (r: FullTextCandidate) {
        FullTextCandidate {
            url: self.url.clone(),
            source: self.source.clone(),
            version: self.version.clone(),
            license: self.license.clone(),
            content_type: self.content_type.clone(),
            authorized: self.authorized,
        }
    }
}

/// A place of which nothing is known.
pub open spec fn no_candidate() -> FullTextCandidateView {
    FullTextCandidateView {
        url: Seq::empty(),
        source: Seq::empty(),
        version: Seq::empty(),
        license: Seq::empty(),
        content_type: Seq::empty(),
        authorized: false,
    }
}

impl Default for FullTextCandidate {
    fn default() -> (r: FullTextCandidate)
        ensures
            r@ == no_candidate(),
    {
        FullTextCandidate {
            url: String::new(),
            source: String::new(),
            version: String::new(),
            license: String::new(),
            content_type: String::new(),
            authorized: false,
        }
    }
}

/// How often a work has been cited.
#[derive(Clone, Copy, Debug)]
pub struct Metrics {
    pub cited_by_count: u64,
    pub influential_citation_count: u64,
    pub fwci: Option<Score>,
    pub citation_percentile: Option<Score>,
}

/// No citations are known.
pub open spec fn no_metrics() -> Metrics {
    Metrics {
        cited_by_count: 0,
        influential_citation_count: 0,
        fwci: None,
        citation_percentile: None,
    }
}

impl Default for Metrics {
    fn default() -> (r: Metrics)
        ensures
            r == no_metrics(),
    {
        Metrics {
            cited_by_count: 0,
            influential_citation_count: 0,
            fwci: None,
            citation_percentile: None,
        }
    }
}

/// What screening found of a work.
#[derive(Debug)]
pub struct QualityAssessment {
    pub score: Score,
    pub tier: String,
    pub relevance_score: Score,
    pub relevance_logit: Option<Score>,
    pub priority_score: Score,
    pub accepted: bool,
    pub signals: Vec<String>,
    pub rejection_reasons: Vec<String>,
    pub screened_at: String,
}

/// What a `QualityAssessment` holds.
#[verifier::ext_equal]
pub struct QualityAssessmentView {
    pub score: Score,
    pub tier: Seq<char>,
    pub relevance_score: Score,
    pub relevance_logit: Option<Score>,
    pub priority_score: Score,
    pub accepted: bool,
    pub signals: Seq<Seq<char>>,
    pub rejection_reasons: Seq<Seq<char>>,
    pub screened_at: Seq<char>,
}

impl View for QualityAssessment {
    type V = QualityAssessmentView;

    open spec fn view(&self) -> QualityAssessmentView {
        QualityAssessmentView {
            score: self.score,
            tier: self.tier@,
            relevance_score: self.relevance_score,
            relevance_logit: self.relevance_logit,
            priority_score: self.priority_score,
            accepted: self.accepted,
            signals: texts(self.signals@),
            rejection_reasons: texts(self.rejection_reasons@),
            screened_at: self.screened_at@,
        }
    }
}

impl Duplicate for QualityAssessment {
    fn duplicate(&self) -> (r: QualityAssessment) {
        QualityAssessment {
            score: self.score,
            tier: self.tier.clone(),
            relevance_score: self.relevance_score,
            relevance_logit: self.relevance_logit,
            priority_score: self.priority_score,
            accepted: self.accepted,
            signals: copy_texts(&self.signals),
            rejection_reasons: copy_texts(&self.rejection_reasons),
            screened_at: self.screened_at.clone(),
        }
    }
}

/// Nothing was found yet.
pub open spec fn no_assessment() -> QualityAssessmentView {
    QualityAssessmentView {
        score: Score::from_bits(ZERO),
        tier: Seq::empty(),
        relevance_score: Score::from_bits(ZERO),
        relevance_logit: None,
        priority_score: Score::from_bits(ZERO),
        accepted: false,
        signals: Seq::empty(),
        rejection_reasons: Seq::empty(),
        screened_at: Seq::empty(),
    }
}

impl Default for QualityAssessment {
    fn default() -> (r: QualityAssessment)
        ensures
            r@ == no_assessment(),
    {
        QualityAssessment {
            score: Score::from_bits(ZERO),
            tier: String::new(),
            relevance_score: Score::from_bits(ZERO),
            relevance_logit: None,
            priority_score: Score::from_bits(ZERO),
            accepted: false,
            signals: Vec::new(),
            rejection_reasons: Vec::new(),
            screened_at: String::new(),
        }
    }
}

/// Where and when metadata of a work was read.
#[derive(Debug)]
pub struct ProvenanceSource {
    pub source: String,
    pub source_id: String,
    pub retrieved_at: String,
}

/// What a `ProvenanceSource` holds.
#[verifier::ext_equal]
pub struct ProvenanceSourceView {
    pub source: Seq<char>,
    pub source_id: Seq<char>,
    pub retrieved_at: Seq<char>,
}

impl View for ProvenanceSource {
    type V = ProvenanceSourceView;

    open spec fn view(&self) -> ProvenanceSourceView {
        ProvenanceSourceView {
            source: self.source@,
            source_id: self.source_id@,
            retrieved_at: self.retrieved_at@,
        }
    }
}

impl Duplicate for ProvenanceSource {
    fn duplicate(&self) -> (r: ProvenanceSource) {
        ProvenanceSource {
            source: self.source.clone(),
            source_id: self.source_id.clone(),
            retrieved_at: self.retrieved_at.clone(),
        }
    }
}

/// A source of which nothing is known.
pub open spec fn no_provenance() -> ProvenanceSourceView {
    ProvenanceSourceView {
        source: Seq::empty(),
        source_id: Seq::empty(),
        retrieved_at: Seq::empty(),
    }
}

impl Default for ProvenanceSource {
    fn default() -> (r: ProvenanceSource)
        ensures
            r@ == no_provenance(),
    {
        ProvenanceSource {
            source: String::new(),
            source_id: String::new(),
            retrieved_at: String::new(),
        }
    }
}

/// A scholarly work.
#[derive(Debug)]
pub struct WorkRecord {
    pub schema_version: String,
    pub ids: TextMap<String>,
    pub title: String,
    pub abstract_text: String,
    pub authors: Vec<Author>,
    pub issued: DateParts,
    pub work_type: String,
    pub container_title: String,
    pub publisher: String,
    pub volume: String,
    pub issue: String,
    pub page: String,
    pub article_number: String,
    pub language: String,
    pub keywords: Vec<String>,
    pub subjects: Vec<String>,
    pub issn: Vec<String>,
    pub isbn: Vec<String>,
    pub url: String,
    pub fulltext_candidates: Vec<FullTextCandidate>,
    pub metrics: Metrics,
    pub flags: TextMap<bool>,
    pub quality: QualityAssessment,
    pub provenance: Vec<ProvenanceSource>,
}

/// What a `WorkRecord` holds.
#[verifier::ext_equal]
pub struct WorkRecordView {
    pub schema_version: Seq<char>,
    pub ids: Map<Seq<char>, Seq<char>>,
    pub title: Seq<char>,
    pub abstract_text: Seq<char>,
    pub authors: Seq<AuthorView>,
    pub issued: DatePartsView,
    pub work_type: Seq<char>,
    pub container_title: Seq<char>,
    pub publisher: Seq<char>,
    pub volume: Seq<char>,
    pub issue: Seq<char>,
    pub page: Seq<char>,
    pub article_number: Seq<char>,
    pub language: Seq<char>,
    pub keywords: Seq<Seq<char>>,
    pub subjects: Seq<Seq<char>>,
    pub issn: Seq<Seq<char>>,
    pub isbn: Seq<Seq<char>>,
    pub url: Seq<char>,
    pub fulltext_candidates: Seq<FullTextCandidateView>,
    pub metrics: Metrics,
    pub flags: Map<Seq<char>, bool>,
    pub quality: QualityAssessmentView,
    pub provenance: Seq<ProvenanceSourceView>,
}

impl View for WorkRecord {
    type V = WorkRecordView;

    open spec fn view(&self) -> WorkRecordView {
        WorkRecordView {
            schema_version: self.schema_version@,
            ids: self.ids@,
            title: self.title@,
            abstract_text: self.abstract_text@,
            authors: views(self.authors@),
            issued: self.issued@,
            work_type: self.work_type@,
            container_title: self.container_title@,
            publisher: self.publisher@,
            volume: self.volume@,
            issue: self.issue@,
            page: self.page@,
            article_number: self.article_number@,
            language: self.language@,
            keywords: texts(self.keywords@),
            subjects: texts(self.subjects@),
            issn: texts(self.issn@),
            isbn: texts(self.isbn@),
            url: self.url@,
            fulltext_candidates: views(self.fulltext_candidates@),
            metrics: self.metrics,
            flags: self.flags@,
            quality: self.quality@,
            provenance: views(self.provenance@),
        }
    }
}

impl Duplicate for WorkRecord {
    fn duplicate(&self) -> (r: WorkRecord) {
        WorkRecord {
            schema_version: self.schema_version.clone(),
            ids: self.ids.duplicate(),
            title: self.title.clone(),
            abstract_text: self.abstract_text.clone(),
            authors: duplicate_all(&self.authors),
            issued: self.issued.duplicate(),
            work_type: self.work_type.clone(),
            container_title: self.container_title.clone(),
            publisher: self.publisher.clone(),
            volume: self.volume.clone(),
            issue: self.issue.clone(),
            page: self.page.clone(),
            article_number: self.article_number.clone(),
            language: self.language.clone(),
            keywords: copy_texts(&self.keywords),
            subjects: copy_texts(&self.subjects),
            issn: copy_texts(&self.issn),
            isbn: copy_texts(&self.isbn),
            url: self.url.clone(),
            fulltext_candidates: duplicate_all(&self.fulltext_candidates),
            metrics: self.metrics,
            flags: self.flags.duplicate(),
            quality: self.quality.duplicate(),
            provenance: duplicate_all(&self.provenance),
        }
    }
}

/// A response of a source, as it came.
#[derive(Debug)]
pub struct RawSourceRecord {
    pub source: String,
    pub source_id: String,
    pub retrieved_at: String,
    pub raw: Json,
}

/// What a `RawSourceRecord` holds.
#[verifier::ext_equal]
pub struct RawSourceRecordView {
    pub source: Seq<char>,
    pub source_id: Seq<char>,
    pub retrieved_at: Seq<char>,
    pub raw: JsonView,
}

impl View for RawSourceRecord {
    type V = RawSourceRecordView;

    open spec fn view(&self) -> RawSourceRecordView {
        RawSourceRecordView {
            source: self.source@,
            source_id: self.source_id@,
            retrieved_at: self.retrieved_at@,
            raw: self.raw@,
        }
    }
}

impl Duplicate for RawSourceRecord {
    fn duplicate(&self) -> (r: RawSourceRecord) {
        RawSourceRecord {
            source: self.source.clone(),
            source_id: self.source_id.clone(),
            retrieved_at: self.retrieved_at.clone(),
            raw: self.raw.duplicate(),
        }
    }
}

/// A rendered page of a work.
#[derive(Debug)]
pub struct PageRecord {
    pub page_id: String,
    pub work_id: String,
    pub page_number: u32,
    pub image_path: String,
    pub image_sha256: String,
    pub page_text: String,
    pub width: u32,
    pub height: u32,
    pub indexed_at: Option<String>,
}

/// What a `PageRecord` holds.
#[verifier::ext_equal]
pub struct PageRecordView {
    pub page_id: Seq<char>,
    pub work_id: Seq<char>,
    pub page_number: u32,
    pub image_path: Seq<char>,
    pub image_sha256: Seq<char>,
    pub page_text: Seq<char>,
    pub width: u32,
    pub height: u32,
    pub indexed_at: Option<Seq<char>>,
}

impl View for PageRecord {
    type V = PageRecordView;

    open spec fn view(&self) -> PageRecordView {
        PageRecordView {
            page_id: self.page_id@,
            work_id: self.work_id@,
            page_number: self.page_number,
            image_path: self.image_path@,
            image_sha256: self.image_sha256@,
            page_text: self.page_text@,
            width: self.width,
            height: self.height,
            indexed_at: opt_text(self.indexed_at),
        }
    }
}

impl Duplicate for PageRecord {
    fn duplicate(&self) -> (r: PageRecord) {
        PageRecord {
            page_id: self.page_id.clone(),
            work_id: self.work_id.clone(),
            page_number: self.page_number,
            image_path: self.image_path.clone(),
            image_sha256: self.image_sha256.clone(),
            page_text: self.page_text.clone(),
            width: self.width,
            height: self.height,
            indexed_at: duplicate_option(&self.indexed_at),
        }
    }
}

/// The preserved PDF of a work.
#[derive(Debug)]
pub struct PdfArtifact {
    pub url: String,
    pub path: String,
    pub sha256: String,
    pub license: String,
}

/// What a `PdfArtifact` holds.
#[verifier::ext_equal]
pub struct PdfArtifactView {
    pub url: Seq<char>,
    pub path: Seq<char>,
    pub sha256: Seq<char>,
    pub license: Seq<char>,
}

impl View for PdfArtifact {
    type V = PdfArtifactView;

    open spec fn view(&self) -> PdfArtifactView {
        PdfArtifactView {
            url: self.url@,
            path: self.path@,
            sha256: self.sha256@,
            license: self.license@,
        }
    }
}

impl Duplicate for PdfArtifact {
    fn duplicate(&self) -> (r: PdfArtifact) {
        PdfArtifact {
            url: self.url.clone(),
            path: self.path.clone(),
            sha256: self.sha256.clone(),
            license: self.license.clone(),
        }
    }
}

/// A work that a search worker reports.
#[derive(Debug)]
pub struct AgentCandidate {
    pub task_id: String,
    pub query: String,
    pub source: String,
    pub title: String,
    pub doi: Option<String>,
    pub arxiv_id: Option<String>,
    pub openalex_id: Option<String>,
    pub landing_url: Option<String>,
    pub evidence_urls: Vec<String>,
    pub discovered_at: String,
}

/// What a `AgentCandidate` holds.
#[verifier::ext_equal]
pub struct AgentCandidateView {
    pub task_id: Seq<char>,
    pub query: Seq<char>,
    pub source: Seq<char>,
    pub title: Seq<char>,
    pub doi: Option<Seq<char>>,
    pub arxiv_id: Option<Seq<char>>,
    pub openalex_id: Option<Seq<char>>,
    pub landing_url: Option<Seq<char>>,
    pub evidence_urls: Seq<Seq<char>>,
    pub discovered_at: Seq<char>,
}

impl View for AgentCandidate {
    type V = AgentCandidateView;

    open spec fn view(&self) -> AgentCandidateView {
        AgentCandidateView {
            task_id: self.task_id@,
            query: self.query@,
            source: self.source@,
            title: self.title@,
            doi: opt_text(self.doi),
            arxiv_id: opt_text(self.arxiv_id),
            openalex_id: opt_text(self.openalex_id),
            landing_url: opt_text(self.landing_url),
            evidence_urls: texts(self.evidence_urls@),
            discovered_at: self.discovered_at@,
        }
    }
}

/// Why a research plan cannot be used.
#[derive(Debug)]
pub enum PlanError {
    MissingQuestion,
    MissingQueries,
    UnsupportedSource(String),
    MalformedDateFrom,
    MalformedDateTo,
    NoTarget,
    DatesReversed,
    QualityOutOfRange,
    RelevanceOutOfRange,
}

/// What a `PlanError` holds.
#[verifier::ext_equal]
pub enum PlanFault {
    MissingQuestion,
    MissingQueries,
    UnsupportedSource(Seq<char>),
    MalformedDateFrom,
    MalformedDateTo,
    NoTarget,
    DatesReversed,
    QualityOutOfRange,
    RelevanceOutOfRange,
}

impl View for PlanError {
    type V = PlanFault;

    open spec fn view(&self) -> PlanFault {
        match self {
            PlanError::MissingQuestion => PlanFault::MissingQuestion,
            PlanError::MissingQueries => PlanFault::MissingQueries,
            PlanError::UnsupportedSource(source) => PlanFault::UnsupportedSource(source@),
            PlanError::MalformedDateFrom => PlanFault::MalformedDateFrom,
            PlanError::MalformedDateTo => PlanFault::MalformedDateTo,
            PlanError::NoTarget => PlanFault::NoTarget,
            PlanError::DatesReversed => PlanFault::DatesReversed,
            PlanError::QualityOutOfRange => PlanFault::QualityOutOfRange,
            PlanError::RelevanceOutOfRange => PlanFault::RelevanceOutOfRange,
        }
    }
}

/// The words for a fault of a plan.
pub open spec fn plan_fault_text(fault: PlanFault) -> Seq<char> {
    match fault {
        PlanFault::MissingQuestion => "research_question is required"@,
        PlanFault::MissingQueries => "queries must contain at least one query"@,
        PlanFault::UnsupportedSource(source) => "unsupported discovery source: "@ + source,
        PlanFault::MalformedDateFrom => "date_from must use YYYY-MM-DD"@,
        PlanFault::MalformedDateTo => "date_to must use YYYY-MM-DD"@,
        PlanFault::NoTarget => "target_papers must be positive"@,
        PlanFault::DatesReversed => "date_from must not be later than date_to"@,
        PlanFault::QualityOutOfRange => "min_quality_score must be between 0 and 100"@,
        PlanFault::RelevanceOutOfRange => "min_relevance_score must be between 0 and 1"@,
    }
}

impl PlanError {
    /// The error in words.
    pub fn message(&self) -> (r: String)
        ensures
            r@ == plan_fault_text(self@),
    {
        match self {
            PlanError::MissingQuestion => "research_question is required".to_owned(),
            PlanError::MissingQueries => "queries must contain at least one query".to_owned(),
            PlanError::UnsupportedSource(source) => {
                let mut text = "unsupported discovery source: ".to_owned();
                text.append(source);
                text
            },
            PlanError::MalformedDateFrom => "date_from must use YYYY-MM-DD".to_owned(),
            PlanError::MalformedDateTo => "date_to must use YYYY-MM-DD".to_owned(),
            PlanError::NoTarget => "target_papers must be positive".to_owned(),
            PlanError::DatesReversed => "date_from must not be later than date_to".to_owned(),
            PlanError::QualityOutOfRange => {
                "min_quality_score must be between 0 and 100".to_owned()
            },
            PlanError::RelevanceOutOfRange => {
                "min_relevance_score must be between 0 and 1".to_owned()
            },
        }
    }
}

/// A source that can be searched.
pub open spec fn supported_source(source: Seq<char>) -> bool {
    source == "openalex"@ || source == "crossref"@ || source == "arxiv"@
}

/// The first source that cannot be searched.
pub open spec fn unsupported_source(sources: Seq<Seq<char>>) -> Option<Seq<char>>
    decreases sources.len(),
{
    if sources.len() == 0 {
        None
    } else if !supported_source(sources[0]) {
        Some(sources[0])
    } else {
        unsupported_source(sources.skip(1))
    }
}

/// The first fault of a plan, given whether its dates are calendar dates.
pub open spec fn plan_fault(
    plan: ResearchPlanView,
    from_valid: bool,
    to_valid: bool,
) -> Option<PlanFault> {
    if plan.research_question.len() == 0 {
        Some(PlanFault::MissingQuestion)
    } else if plan.queries.len() == 0 {
        Some(PlanFault::MissingQueries)
    } else if unsupported_source(plan.sources) is Some {
        Some(PlanFault::UnsupportedSource(unsupported_source(plan.sources)->0))
    } else if plan.date_from is Some && !from_valid {
        Some(PlanFault::MalformedDateFrom)
    } else if plan.date_to is Some && !to_valid {
        Some(PlanFault::MalformedDateTo)
    } else if plan.target_papers == 0 {
        Some(PlanFault::NoTarget)
    } else if plan.date_from is Some && plan.date_to is Some && text_less(
        plan.date_to->0,
        plan.date_from->0,
    ) {
        Some(PlanFault::DatesReversed)
    } else if !plan.min_quality_score.within(Score::from_bits(ZERO), Score::from_bits(HUNDRED)) {
        Some(PlanFault::QualityOutOfRange)
    } else if !plan.min_relevance_score.within(Score::from_bits(ZERO), Score::from_bits(ONE)) {
        Some(PlanFault::RelevanceOutOfRange)
    } else {
        None
    }
}

/// The date is a calendar date, or there is none.
pub open spec fn date_valid(date: Option<Seq<char>>) -> bool {
    date matches Some(value) ==> calendar_date(value) is Some
}

/// The plan with its texts in normal form.
pub open spec fn normal_plan(plan: ResearchPlanView) -> ResearchPlanView {
    ResearchPlanView {
        research_question: spaced(plan.research_question),
        queries: distinct(plan.queries),
        inclusion_criteria: distinct(plan.inclusion_criteria),
        exclusion_criteria: distinct(plan.exclusion_criteria),
        languages: distinct(plan.languages),
        ..plan
    }
}

/// The question with the criteria, a line for each kind that there is.
pub open spec fn screening_query_of(plan: ResearchPlanView) -> Seq<char> {
    let wanted = if plan.inclusion_criteria.len() == 0 {
        Seq::empty()
    } else {
        "\nInclude: "@ + joined(plan.inclusion_criteria, "; "@)
    };
    let unwanted = if plan.exclusion_criteria.len() == 0 {
        Seq::empty()
    } else {
        "\nExclude: "@ + joined(plan.exclusion_criteria, "; "@)
    };
    plan.research_question + wanted + unwanted
}

fn find_unsupported(sources: &Vec<String>) -> (r: Option<String>)
    ensures
        opt_text(r) == unsupported_source(texts(sources@)),
{
    let ghost all = texts(sources@);
    let mut i: usize = 0;
    assert(all.skip(0) =~= all);
    while i < sources.len()
        invariant
            i <= sources@.len(),
            all == texts(sources@),
            unsupported_source(all) == unsupported_source(all.skip(i as int)),
        decreases sources@.len() - i,
    {
        assert(all.skip(i as int)[0] == sources@[i as int]@);
        assert(all.skip(i as int).skip(1) =~= all.skip(i + 1));
        let source = sources[i].as_str();
        if !(same_text(source, "openalex") || same_text(source, "crossref") || same_text(
            source,
            "arxiv",
        )) {
            return Some(sources[i].clone());
        }
        i += 1;
    }
    None
}

impl ResearchPlan {
    /// A plan as it was read, with its texts in normal form, if it can be used.
    pub fn load(parsed: ResearchPlan) -> (r: Result<ResearchPlan, PlanError>)
        ensures
            ({
                let plan = normal_plan(parsed@);
                match r {
                    Ok(loaded) => loaded@ == plan && plan_fault(
                        plan,
                        date_valid(plan.date_from),
                        date_valid(plan.date_to),
                    ) is None,
                    Err(error) => Some(error@) == plan_fault(
                        plan,
                        date_valid(plan.date_from),
                        date_valid(plan.date_to),
                    ),
                }
            }),
    {
        let plan = ResearchPlan {
            research_question: normalize_space(&parsed.research_question),
            queries: unique(&parsed.queries),
            inclusion_criteria: unique(&parsed.inclusion_criteria),
            exclusion_criteria: unique(&parsed.exclusion_criteria),
            languages: unique(&parsed.languages),
            ..parsed
        };
        match plan.validate() {
            Ok(()) => Ok(plan),
            Err(error) => Err(error),
        }
    }

    /// Whether the plan can be used.
    pub fn validate(&self) -> (r: Result<(), PlanError>)
        ensures
            match r {
                Ok(()) => plan_fault(
                    self@,
                    date_valid(self@.date_from),
                    date_valid(self@.date_to),
                ) is None,
                Err(error) => Some(error@) == plan_fault(
                    self@,
                    date_valid(self@.date_from),
                    date_valid(self@.date_to),
                ),
            },
    {
        let from_valid = match &self.date_from {
            Some(value) => parse_date(value).is_some(),
            None => true,
        };
        let to_valid = match &self.date_to {
            Some(value) => parse_date(value).is_some(),
            None => true,
        };
        self.check(from_valid, to_valid)
    }

    /// Whether the plan can be used, given whether its dates are calendar dates.
    pub fn check(&self, from_valid: bool, to_valid: bool) -> (r: Result<(), PlanError>)
        ensures
            match r {
                Ok(()) => plan_fault(self@, from_valid, to_valid) is None,
                Err(error) => Some(error@) == plan_fault(self@, from_valid, to_valid),
            },
    {
        if self.research_question.as_str().is_empty() {
            return Err(PlanError::MissingQuestion);
        }
        if self.queries.len() == 0 {
            return Err(PlanError::MissingQueries);
        }
        if let Some(source) = find_unsupported(&self.sources) {
            return Err(PlanError::UnsupportedSource(source));
        }
        if self.date_from.is_some() && !from_valid {
            return Err(PlanError::MalformedDateFrom);
        }
        if self.date_to.is_some() && !to_valid {
            return Err(PlanError::MalformedDateTo);
        }
        if self.target_papers == 0 {
            return Err(PlanError::NoTarget);
        }
        if let (Some(from), Some(to)) = (&self.date_from, &self.date_to) {
            if is_less(to, from) {
                return Err(PlanError::DatesReversed);
            }
        }
        let zero = Score::from_bits(ZERO);
        if !self.min_quality_score.is_within(&zero, &Score::from_bits(HUNDRED)) {
            return Err(PlanError::QualityOutOfRange);
        }
        if !self.min_relevance_score.is_within(&zero, &Score::from_bits(ONE)) {
            return Err(PlanError::RelevanceOutOfRange);
        }
        Ok(())
    }

    /// The question with the criteria, as the reranker is asked.
    pub fn screening_query(&self) -> (r: String)
        ensures
            r@ == screening_query_of(self@),
    {
        let mut text = self.research_question.clone();
        if self.inclusion_criteria.len() > 0 {
            text.append("\nInclude: ");
            text.append(&join(&self.inclusion_criteria, "; "));
        }
        if self.exclusion_criteria.len() > 0 {
            text.append("\nExclude: ");
            text.append(&join(&self.exclusion_criteria, "; "));
        }
        assert(text@ =~= screening_query_of(self@));
        text
    }
}

/// The version of the record's layout.
pub fn schema_version() -> (r: String)
    ensures
        r@ == SCHEMA_VERSION@,
{
    SCHEMA_VERSION.to_owned()
}

/// The sources that are searched where a plan names none.
pub fn default_sources() -> (r: Vec<String>)
    ensures
        texts(r@) == seq!["openalex"@, "crossref"@, "arxiv"@],
{
    let mut sources: Vec<String> = Vec::new();
    sources.push("openalex".to_owned());
    sources.push("crossref".to_owned());
    sources.push("arxiv".to_owned());
    assert(texts(sources@) =~= seq!["openalex"@, "crossref"@, "arxiv"@]);
    sources
}

/// How many works are kept where a plan does not say.
pub fn default_target() -> (r: usize)
    ensures
        r == 200,
{
    200
}

/// The least quality score where a plan does not say.
pub fn default_quality() -> (r: Score)
    ensures
        r == Score::from_bits(SIXTY),
{
    Score::from_bits(SIXTY)
}

/// The least relevance where a plan does not say: screening by rank alone.
pub fn default_relevance() -> (r: Score)
    ensures
        r == Score::from_bits(ZERO),
{
    Score::from_bits(ZERO)
}

/// The type of a work whose source names none.
pub fn default_work_type() -> (r: String)
    ensures
        r@ == "article"@,
{
    "article".to_owned()
}

/// The year of a work, if its date is known.
pub open spec fn year_of(work: WorkRecordView) -> Option<u32> {
    if work.issued.date_parts.len() > 0 && work.issued.date_parts[0].len() > 0 {
        Some(work.issued.date_parts[0][0])
    } else {
        None
    }
}

/// The number in decimal, or the word for its absence.
pub open spec fn number_or(number: Option<u32>, absent: Seq<char>) -> Seq<char> {
    match number {
        Some(value) => decimal(value as nat),
        None => absent,
    }
}

/// The normal form of the identifier that the map has under the key.
pub open spec fn doi_in(ids: Map<Seq<char>, Seq<char>>) -> Option<Seq<char>> {
    if ids.contains_key("doi"@) {
        doi_of(ids["doi"@])
    } else {
        None
    }
}

/// The name by which a work is known: its DOI, else its arXiv identifier without
/// the version, else its OpenAlex identifier, else its title, year and first author.
pub open spec fn identity_of(work: WorkRecordView) -> Seq<char> {
    if doi_in(work.ids) is Some {
        "doi:"@ + doi_in(work.ids)->0
    } else if work.ids.contains_key("arxiv"@) && arxiv_base_of(work.ids["arxiv"@]) is Some {
        "arxiv:"@ + lowered(arxiv_base_of(work.ids["arxiv"@])->0)
    } else if work.ids.contains_key("openalex"@) {
        "openalex:"@ + lowered(last_segment(work.ids["openalex"@]))
    } else {
        let author = if work.authors.len() > 0 {
            lowered(work.authors[0].family)
        } else {
            Seq::empty()
        };
        "title:"@ + fingerprint(work.title) + ":"@ + number_or(year_of(work), "nd"@) + ":"@ + author
    }
}

/// What the reranker is shown of a work.
pub open spec fn screening_passage_of(work: WorkRecordView) -> Seq<char> {
    "Title: "@ + work.title + "\nYear: "@ + number_or(year_of(work), "unknown"@) + "\nType: "@
        + work.work_type + "\nVenue: "@ + work.container_title + "\nAbstract: "@
        + work.abstract_text
}

/// A work of which only one source is known.
pub open spec fn bare_work(
    source: Seq<char>,
    source_id: Seq<char>,
    retrieved_at: Seq<char>,
) -> WorkRecordView {
    WorkRecordView {
        schema_version: SCHEMA_VERSION@,
        ids: Map::empty(),
        title: Seq::empty(),
        abstract_text: Seq::empty(),
        authors: Seq::empty(),
        issued: no_date(),
        work_type: "article"@,
        container_title: Seq::empty(),
        publisher: Seq::empty(),
        volume: Seq::empty(),
        issue: Seq::empty(),
        page: Seq::empty(),
        article_number: Seq::empty(),
        language: Seq::empty(),
        keywords: Seq::empty(),
        subjects: Seq::empty(),
        issn: Seq::empty(),
        isbn: Seq::empty(),
        url: Seq::empty(),
        fulltext_candidates: Seq::empty(),
        metrics: no_metrics(),
        flags: Map::empty(),
        quality: no_assessment(),
        provenance: seq![ProvenanceSourceView { source, source_id, retrieved_at }],
    }
}

/// Some place has the full text and is authorized to hand it out.
pub open spec fn any_authorized(candidates: Seq<FullTextCandidateView>) -> bool {
    exists|i: int| 0 <= i < candidates.len() && (#[trigger] candidates[i]).authorized
}

/// A journal article or a conference paper with a DOI and a venue.
pub open spec fn formal_publication(work: WorkRecordView) -> bool {
    &&& work.work_type == "article-journal"@ || work.work_type == "paper-conference"@
    &&& doi_in(work.ids) is Some
    &&& work.container_title.len() > 0
}

/// The number in decimal, or the word for its absence.
fn number_text(number: Option<u32>, absent: &str) -> (r: String)
    ensures
        r@ == number_or(number, absent@),
{
    match number {
        Some(value) => decimal_text(value as u64),
        None => absent.to_owned(),
    }
}

/// The normal form of the DOI that the map holds.
pub fn find_doi(ids: &TextMap<String>) -> (r: Option<String>)
    ensures
        opt_text(r) == doi_in(ids@),
{
    match ids.get("doi") {
        Some(value) => normalize_doi(value),
        None => None,
    }
}

impl WorkRecord {
    /// A work of which only one source is known, as of now.
    pub fn new(source: &str, source_id: &str) -> (r: WorkRecord)
        ensures
            r.provenance@.len() == 1,
            r@ == bare_work(source@, source_id@, r.provenance@[0].retrieved_at@),
    {
        WorkRecord::retrieved(source, source_id, now())
    }

    /// A work of which only one source is known, as of the given time.
    pub fn retrieved(source: &str, source_id: &str, retrieved_at: String) -> (r: WorkRecord)
        ensures
            r.provenance@.len() == 1,
            r.provenance@[0].retrieved_at == retrieved_at,
            r@ == bare_work(source@, source_id@, retrieved_at@),
    {
        let mut provenance: Vec<ProvenanceSource> = Vec::new();
        provenance.push(
            ProvenanceSource {
                source: source.to_owned(),
                source_id: source_id.to_owned(),
                retrieved_at,
            },
        );
        WorkRecord {
            schema_version: schema_version(),
            ids: TextMap::new(),
            title: String::new(),
            abstract_text: String::new(),
            authors: Vec::new(),
            issued: DateParts::default(),
            work_type: default_work_type(),
            container_title: String::new(),
            publisher: String::new(),
            volume: String::new(),
            issue: String::new(),
            page: String::new(),
            article_number: String::new(),
            language: String::new(),
            keywords: Vec::new(),
            subjects: Vec::new(),
            issn: Vec::new(),
            isbn: Vec::new(),
            url: String::new(),
            fulltext_candidates: Vec::new(),
            metrics: Metrics::default(),
            flags: TextMap::new(),
            quality: QualityAssessment::default(),
            provenance,
        }
    }

    /// The year of the work, if its date is known.
    pub fn year(&self) -> (r: Option<u32>)
        ensures
            r == year_of(self@),
    {
        if self.issued.date_parts.len() > 0 && self.issued.date_parts[0].len() > 0 {
            Some(self.issued.date_parts[0][0])
        } else {
            None
        }
    }

    /// The name by which the work is known.
    pub fn identity(&self) -> (r: String)
        ensures
            r@ == identity_of(self@),
    {
        if let Some(doi) = find_doi(&self.ids) {
            let mut text = "doi:".to_owned();
            text.append(&doi);
            return text;
        }
        if let Some(value) = self.ids.get("arxiv") {
            if let Some(arxiv) = arxiv_base_id(value) {
                let mut text = "arxiv:".to_owned();
                text.append(&lower(&arxiv));
                return text;
            }
        }
        if let Some(value) = self.ids.get("openalex") {
            let mut text = "openalex:".to_owned();
            text.append(&lower(&after_last_slash(value)));
            return text;
        }
        let mut text = "title:".to_owned();
        text.append(&title_fingerprint(&self.title));
        text.append(":");
        text.append(&number_text(self.year(), "nd"));
        text.append(":");
        if self.authors.len() > 0 {
            text.append(&lower(&self.authors[0].family));
        }
        assert(text@ =~= identity_of(self@));
        text
    }

    /// What the reranker is shown of the work.
    pub fn screening_passage(&self) -> (r: String)
        ensures
            r@ == screening_passage_of(self@),
    {
        let mut text = "Title: ".to_owned();
        text.append(&self.title);
        text.append("\nYear: ");
        text.append(&number_text(self.year(), "unknown"));
        text.append("\nType: ");
        text.append(&self.work_type);
        text.append("\nVenue: ");
        text.append(&self.container_title);
        text.append("\nAbstract: ");
        text.append(&self.abstract_text);
        text
    }

    /// Whether some authorized place has the full text.
    pub fn has_authorized_fulltext(&self) -> (r: bool)
        ensures
            r == any_authorized(self@.fulltext_candidates),
    {
        let ghost all = self@.fulltext_candidates;
        let mut i: usize = 0;
        while i < self.fulltext_candidates.len()
            invariant
                i <= self.fulltext_candidates@.len(),
                all == views(self.fulltext_candidates@),
                forall|j: int| 0 <= j < i ==> !(#[trigger] all[j]).authorized,
            decreases self.fulltext_candidates@.len() - i,
        {
            assert(all[i as int] == self.fulltext_candidates@[i as int]@);
            if self.fulltext_candidates[i].authorized {
                return true;
            }
            i += 1;
        }
        false
    }

    /// Whether the work is a journal article or a conference paper with a DOI and a
    /// venue.
    pub fn is_verified_formal_publication(&self) -> (r: bool)
        ensures
            r == formal_publication(self@),
    {
        (same_text(&self.work_type, "article-journal") || same_text(
            &self.work_type,
            "paper-conference",
        )) && find_doi(&self.ids).is_some() && !self.container_title.as_str().is_empty()
    }
}

/// The text, or the candidate where the text is empty.
pub open spec fn filled(target: Seq<char>, candidate: Seq<char>) -> Seq<char> {
    if target.len() == 0 {
        candidate
    } else {
        target
    }
}

/// The text, or the candidate where that has the longer UTF-8 form.
pub open spec fn longer(target: Seq<char>, candidate: Seq<char>) -> Seq<char> {
    if byte_len(candidate) > byte_len(target) {
        candidate
    } else {
        target
    }
}

/// The greater of two scores, or the one that there is.
pub open spec fn greatest(left: Option<Score>, right: Option<Score>) -> Option<Score> {
    match (left, right) {
        (Some(a), Some(b)) => Some(a.greater(b)),
        (Some(a), None) => Some(a),
        (None, b) => b,
    }
}

/// Takes the candidate where the target is empty.
pub fn prefer_if_empty(target: &mut String, candidate: String)
    ensures
        final(target)@ == filled(old(target)@, candidate@),
{
    if target.as_str().is_empty() && !candidate.as_str().is_empty() {
        *target = candidate;
    }
}

/// Takes the candidate where it has the longer UTF-8 form.
pub fn prefer_longer(target: &mut String, candidate: String)
    ensures
        final(target)@ == longer(old(target)@, candidate@),
{
    if candidate.as_str().as_bytes().len() > target.as_str().as_bytes().len() {
        *target = candidate;
    }
}

/// The greater of two scores, or the one that there is.
pub fn max_option(left: Option<Score>, right: Option<Score>) -> (r: Option<Score>)
    ensures
        r == greatest(left, right),
{
    match (left, right) {
        (Some(a), Some(b)) => Some(a.max(&b)),
        (Some(a), None) => Some(a),
        (None, b) => b,
    }
}

/// The index of the first place with the URL, or the number of places.
pub open spec fn place_of(target: Seq<FullTextCandidateView>, url: Seq<char>) -> nat
    decreases target.len(),
{
    if target.len() == 0 {
        0
    } else if target[0].url == url {
        0
    } else {
        1 + place_of(target.skip(1), url)
    }
}

/// The places with one more: a place already known takes the license that it
/// lacks and the authorization.
pub open spec fn with_place(
    target: Seq<FullTextCandidateView>,
    candidate: FullTextCandidateView,
) -> Seq<FullTextCandidateView> {
    let at = place_of(target, candidate.url) as int;
    if at < target.len() {
        target.update(
            at,
            FullTextCandidateView {
                license: filled(target[at].license, candidate.license),
                authorized: target[at].authorized || candidate.authorized,
                ..target[at]
            },
        )
    } else {
        target.push(candidate)
    }
}

/// The places with several more, one after another.
pub open spec fn with_places(
    target: Seq<FullTextCandidateView>,
    candidates: Seq<FullTextCandidateView>,
) -> Seq<FullTextCandidateView>
    decreases candidates.len(),
{
    if candidates.len() == 0 {
        target
    } else {
        with_place(with_places(target, candidates.drop_last()), candidates.last())
    }
}

fn find_place(target: &Vec<FullTextCandidate>, url: &str) -> (r: usize)
    ensures
        r == place_of(views(target@), url@),
        r <= target@.len(),
{
    let ghost all = views(target@);
    let mut i: usize = 0;
    assert(all.skip(0) =~= all);
    while i < target.len()
        invariant
            i <= target@.len(),
            all == views(target@),
            place_of(all, url@) == i + place_of(all.skip(i as int), url@),
        decreases target@.len() - i,
    {
        assert(all.skip(i as int)[0] == target@[i as int]@);
        assert(all.skip(i as int).skip(1) =~= all.skip(i + 1));
        if same_text(&target[i].url, url) {
            return i;
        }
        i += 1;
    }
    i
}

/// Adds the places that are not known yet, and completes those that are.
pub fn merge_fulltext(target: &mut Vec<FullTextCandidate>, candidates: Vec<FullTextCandidate>)
    ensures
        views(final(target)@) == with_places(views(old(target)@), views(candidates@)),
{
    let ghost start = views(target@);
    let ghost all = views(candidates@);
    let ghost items = candidates@;
    for candidate in it: candidates
        invariant
            it.seq() == items,
            all == views(items),
            views(target@) == with_places(start, all.take(it.index() as int)),
    {
        let ghost i = it.index() as int;
        assert(all.take(i + 1).drop_last() =~= all.take(i));
        assert(all.take(i + 1).last() == candidate@);
        let ghost before = views(target@);
        let at = find_place(target, &candidate.url);
        if at < target.len() {
            let mut existing = target.remove(at);
            if existing.license.as_str().is_empty() {
                existing.license = candidate.license;
            }
            existing.authorized = existing.authorized || candidate.authorized;
            target.insert(at, existing);
        } else {
            target.push(candidate);
        }
        assert(views(target@) =~= with_place(before, all[i]));
    }
    assert(all.take(all.len() as int) =~= all);
}

/// Both name the same source.
pub open spec fn same_source(a: ProvenanceSourceView, b: ProvenanceSourceView) -> bool {
    a.source == b.source && a.source_id == b.source_id
}

/// The source is among those known.
pub open spec fn source_known(
    target: Seq<ProvenanceSourceView>,
    candidate: ProvenanceSourceView,
) -> bool {
    exists|i: int| 0 <= i < target.len() && same_source(#[trigger] target[i], candidate)
}

/// The sources, and after them those of the candidates that are not known yet.
pub open spec fn with_sources(
    target: Seq<ProvenanceSourceView>,
    candidates: Seq<ProvenanceSourceView>,
) -> Seq<ProvenanceSourceView>
    decreases candidates.len(),
{
    if candidates.len() == 0 {
        target
    } else {
        let rest = with_sources(target, candidates.drop_last());
        if source_known(rest, candidates.last()) {
            rest
        } else {
            rest.push(candidates.last())
        }
    }
}

fn knows_source(target: &Vec<ProvenanceSource>, candidate: &ProvenanceSource) -> (r: bool)
    ensures
        r == source_known(views(target@), candidate@),
{
    let ghost all = views(target@);
    let mut i: usize = 0;
    while i < target.len()
        invariant
            i <= target@.len(),
            all == views(target@),
            forall|j: int| 0 <= j < i ==> !same_source(#[trigger] all[j], candidate@),
        decreases target@.len() - i,
    {
        assert(all[i as int] == target@[i as int]@);
        if same_text(&target[i].source, &candidate.source) && same_text(
            &target[i].source_id,
            &candidate.source_id,
        ) {
            return true;
        }
        i += 1;
    }
    false
}

/// Adds the sources that are not known yet.
pub fn merge_provenance(target: &mut Vec<ProvenanceSource>, candidates: Vec<ProvenanceSource>)
    ensures
        views(final(target)@) == with_sources(views(old(target)@), views(candidates@)),
{
    let ghost start = views(target@);
    let ghost all = views(candidates@);
    let ghost items = candidates@;
    for candidate in it: candidates
        invariant
            it.seq() == items,
            all == views(items),
            views(target@) == with_sources(start, all.take(it.index() as int)),
    {
        let ghost i = it.index() as int;
        assert(all.take(i + 1).drop_last() =~= all.take(i));
        assert(all.take(i + 1).last() == candidate@);
        let ghost before = views(target@);
        if !knows_source(target, &candidate) {
            target.push(candidate);
            assert(views(target@) =~= before.push(all[i]));
        }
    }
    assert(all.take(all.len() as int) =~= all);
}

/// The fingerprint of an author's name.
pub open spec fn author_name(author: AuthorView) -> Seq<char> {
    if author.given.len() > 0 || author.family.len() > 0 {
        fingerprint(author.given + " "@ + author.family)
    } else {
        fingerprint(author.literal)
    }
}

/// The authors have the same ORCID.
pub open spec fn same_orcid(left: AuthorView, right: AuthorView) -> bool {
    left.orcid is Some && right.orcid is Some && ascii_lower(trimmed(left.orcid->0))
        == ascii_lower(trimmed(right.orcid->0))
}

/// The authors have the same ORCID, or names with the same fingerprint.
pub open spec fn same_author(left: AuthorView, right: AuthorView) -> bool {
    ||| same_orcid(left, right)
    ||| author_name(left).len() > 0 && author_name(left) == author_name(right)
}

/// What two records of one author say together.
pub open spec fn joined_author(existing: AuthorView, candidate: AuthorView) -> AuthorView {
    AuthorView {
        given: filled(existing.given, candidate.given),
        family: filled(existing.family, candidate.family),
        literal: filled(existing.literal, candidate.literal),
        orcid: if existing.orcid is None {
            candidate.orcid
        } else {
            existing.orcid
        },
        affiliations: distinct(existing.affiliations + candidate.affiliations),
        ids: existing.ids.union_prefer_right(candidate.ids),
    }
}

/// The index of the first record of the author, or the number of records.
pub open spec fn author_at(target: Seq<AuthorView>, candidate: AuthorView) -> nat
    decreases target.len(),
{
    if target.len() == 0 {
        0
    } else if same_author(target[0], candidate) {
        0
    } else {
        1 + author_at(target.skip(1), candidate)
    }
}

/// The authors with one more record.
pub open spec fn with_author(target: Seq<AuthorView>, candidate: AuthorView) -> Seq<AuthorView> {
    let at = author_at(target, candidate) as int;
    if at < target.len() {
        target.update(at, joined_author(target[at], candidate))
    } else {
        target.push(candidate)
    }
}

/// The authors with several more records, one after another.
pub open spec fn with_authors(
    target: Seq<AuthorView>,
    candidates: Seq<AuthorView>,
) -> Seq<AuthorView>
    decreases candidates.len(),
{
    if candidates.len() == 0 {
        target
    } else {
        with_author(with_authors(target, candidates.drop_last()), candidates.last())
    }
}

fn name_of(author: &Author) -> (r: String)
    ensures
        r@ == author_name(author@),
{
    if !author.given.as_str().is_empty() || !author.family.as_str().is_empty() {
        let mut name = author.given.clone();
        name.append(" ");
        name.append(&author.family);
        title_fingerprint(&name)
    } else {
        title_fingerprint(&author.literal)
    }
}

/// Whether the records are of one author.
pub fn authors_match(left: &Author, right: &Author) -> (r: bool)
    ensures
        r == same_author(left@, right@),
{
    if let (Some(left_orcid), Some(right_orcid)) = (&left.orcid, &right.orcid) {
        if eq_ignore_ascii_case(&trim(left_orcid), &trim(right_orcid)) {
            return true;
        }
    }
    let left_name = name_of(left);
    !left_name.as_str().is_empty() && same_text(&left_name, &name_of(right))
}

fn find_author(target: &Vec<Author>, candidate: &Author) -> (r: usize)
    ensures
        r == author_at(views(target@), candidate@),
        r <= target@.len(),
{
    let ghost all = views(target@);
    let mut i: usize = 0;
    assert(all.skip(0) =~= all);
    while i < target.len()
        invariant
            i <= target@.len(),
            all == views(target@),
            author_at(all, candidate@) == i + author_at(all.skip(i as int), candidate@),
        decreases target@.len() - i,
    {
        assert(all.skip(i as int)[0] == target@[i as int]@);
        assert(all.skip(i as int).skip(1) =~= all.skip(i + 1));
        if authors_match(&target[i], candidate) {
            return i;
        }
        i += 1;
    }
    i
}

/// The texts of the first list and then those of the second.
fn chain(first: Vec<String>, second: Vec<String>) -> (r: Vec<String>)
    ensures
        texts(r@) == texts(first@) + texts(second@),
{
    let ghost head = first@;
    let ghost tail = second@;
    let mut out = first;
    let mut rest = second;
    out.append(&mut rest);
    assert(out@ == head + tail);
    assert(texts(out@) =~= texts(head) + texts(tail));
    out
}

fn join_author(existing: Author, candidate: Author) -> (r: Author)
    ensures
        r@ == joined_author(existing@, candidate@),
{
    let mut given = existing.given;
    prefer_if_empty(&mut given, candidate.given);
    let mut family = existing.family;
    prefer_if_empty(&mut family, candidate.family);
    let mut literal = existing.literal;
    prefer_if_empty(&mut literal, candidate.literal);
    let orcid = match existing.orcid {
        Some(value) => Some(value),
        None => candidate.orcid,
    };
    let affiliations = unique(&chain(existing.affiliations, candidate.affiliations));
    let mut ids = existing.ids;
    ids.extend(candidate.ids);
    Author { given, family, literal, orcid, affiliations, ids }
}

/// Adds the authors that are not known yet, and completes those that are.
pub fn merge_authors(target: &mut Vec<Author>, candidates: Vec<Author>)
    ensures
        views(final(target)@) == with_authors(views(old(target)@), views(candidates@)),
{
    let ghost start = views(target@);
    let ghost all = views(candidates@);
    let ghost items = candidates@;
    for candidate in it: candidates
        invariant
            it.seq() == items,
            all == views(items),
            views(target@) == with_authors(start, all.take(it.index() as int)),
    {
        let ghost i = it.index() as int;
        assert(all.take(i + 1).drop_last() =~= all.take(i));
        assert(all.take(i + 1).last() == candidate@);
        let ghost before = views(target@);
        let at = find_author(target, &candidate);
        if at < target.len() {
            let existing = target.remove(at);
            target.insert(at, join_author(existing, candidate));
        } else {
            target.push(candidate);
        }
        assert(views(target@) =~= with_author(before, all[i]));
    }
    assert(all.take(all.len() as int) =~= all);
}

/// The flags of both, set where one of them is.
pub open spec fn united_flags(
    left: Map<Seq<char>, bool>,
    right: Map<Seq<char>, bool>,
) -> Map<Seq<char>, bool> {
    Map::new(
        |name: Seq<char>| left.contains_key(name) || right.contains_key(name),
        |name: Seq<char>|
            (left.contains_key(name) && left[name]) || (right.contains_key(name) && right[name]),
    )
}

/// The first record is of a preprint and the second of its formal publication.
pub open spec fn promotes(preprint: WorkRecordView, formal: WorkRecordView) -> bool {
    ascii_lower(preprint.work_type) == ascii_lower("preprint"@) && formal_publication(formal)
}

/// What citation metrics say together: the greater of each.
pub open spec fn united_metrics(left: Metrics, right: Metrics) -> Metrics {
    Metrics {
        cited_by_count: if left.cited_by_count >= right.cited_by_count {
            left.cited_by_count
        } else {
            right.cited_by_count
        },
        influential_citation_count: if left.influential_citation_count
            >= right.influential_citation_count {
            left.influential_citation_count
        } else {
            right.influential_citation_count
        },
        fwci: greatest(left.fwci, right.fwci),
        citation_percentile: greatest(left.citation_percentile, right.citation_percentile),
    }
}

/// What two records of one work say together. Gaps of the first are filled from the
/// second, and the more complete title and abstract are kept. Where the second is
/// the formal publication of a preprint, what it says of title, type, venue,
/// publisher, date, volume, issue, pages, article number and URL comes first.
pub open spec fn merged(left: WorkRecordView, right: WorkRecordView) -> WorkRecordView {
    let formal = promotes(left, right);
    WorkRecordView {
        schema_version: left.schema_version,
        ids: left.ids.union_prefer_right(right.ids),
        title: if formal {
            filled(right.title, left.title)
        } else {
            longer(left.title, right.title)
        },
        abstract_text: longer(left.abstract_text, right.abstract_text),
        authors: with_authors(left.authors, right.authors),
        issued: if right.issued.date_parts.len() > 0 && (formal
            || left.issued.date_parts.len() == 0) {
            right.issued
        } else {
            left.issued
        },
        work_type: if formal {
            right.work_type
        } else {
            left.work_type
        },
        container_title: preferred(formal, left.container_title, right.container_title),
        publisher: preferred(formal, left.publisher, right.publisher),
        volume: preferred(formal, left.volume, right.volume),
        issue: preferred(formal, left.issue, right.issue),
        page: preferred(formal, left.page, right.page),
        article_number: preferred(formal, left.article_number, right.article_number),
        language: filled(left.language, right.language),
        keywords: distinct(left.keywords + right.keywords),
        subjects: distinct(left.subjects + right.subjects),
        issn: distinct(left.issn + right.issn),
        isbn: distinct(left.isbn + right.isbn),
        url: preferred(formal, left.url, right.url),
        fulltext_candidates: with_places(left.fulltext_candidates, right.fulltext_candidates),
        metrics: united_metrics(left.metrics, right.metrics),
        flags: united_flags(left.flags, right.flags),
        quality: left.quality,
        provenance: with_sources(left.provenance, right.provenance),
    }
}

/// The first text that is not empty, the right one first where it has precedence.
pub open spec fn preferred(right_first: bool, left: Seq<char>, right: Seq<char>) -> Seq<char> {
    if right_first {
        filled(right, left)
    } else {
        filled(left, right)
    }
}

/// The first text that is not empty, the right one first where it has precedence.
fn prefer(right_first: bool, left: String, right: String) -> (r: String)
    ensures
        r@ == preferred(right_first, left@, right@),
{
    if right_first {
        let mut text = right;
        prefer_if_empty(&mut text, left);
        text
    } else {
        let mut text = left;
        prefer_if_empty(&mut text, right);
        text
    }
}

/// The flags of both, set where one of them is.
fn unite_flags(left: TextMap<bool>, right: TextMap<bool>) -> (r: TextMap<bool>)
    ensures
        r@ == united_flags(left@, right@),
{
    let ghost start = left@;
    let mut out = left;
    let entries = right.into_entries();
    let ghost all = entries@;
    assert(out@ =~= united_flags(start, entries_map(all.take(0))));
    for entry in it: entries
        invariant
            it.seq() == all,
            keys_differ(all),
            out@ == united_flags(start, entries_map(all.take(it.index() as int))),
    {
        let ghost i = it.index() as int;
        assert(all.take(i + 1).drop_last() =~= all.take(i));
        let ghost known = entries_map(all.take(i));
        let (name, value) = entry;
        proof {
            lemma_new_key(all, i);
        }
        let existing = match out.get(&name) {
            Some(flag) => *flag,
            None => false,
        };
        let ghost before = out@;
        out.insert(name, existing || value);
        assert(out@ =~= united_flags(start, known.insert(name@, value)));
    }
    assert(all.take(all.len() as int) =~= all);
    out
}

impl WorkRecord {
    /// What this record and another one of the same work say together.
    pub fn merge(self, other: WorkRecord) -> (r: WorkRecord)
        ensures
            r@ == merged(self@, other@),
    {
        let ghost left = self@;
        let ghost right = other@;
        let formal = eq_ignore_ascii_case(&self.work_type, "preprint")
            && other.is_verified_formal_publication();
        let title = if formal {
            prefer(true, self.title, other.title)
        } else {
            let mut text = self.title;
            prefer_longer(&mut text, other.title);
            text
        };
        let mut abstract_text = self.abstract_text;
        prefer_longer(&mut abstract_text, other.abstract_text);
        let issued = if other.issued.date_parts.len() > 0 && (formal
            || self.issued.date_parts.len() == 0) {
            other.issued
        } else {
            self.issued
        };
        let work_type = if formal {
            other.work_type
        } else {
            self.work_type
        };
        let mut language = self.language;
        prefer_if_empty(&mut language, other.language);
        let mut authors = self.authors;
        merge_authors(&mut authors, other.authors);
        let mut ids = self.ids;
        ids.extend(other.ids);
        let cited_by_count: u64 = if self.metrics.cited_by_count >= other.metrics.cited_by_count {
            self.metrics.cited_by_count
        } else {
            other.metrics.cited_by_count
        };
        let influential_citation_count: u64 = if self.metrics.influential_citation_count
            >= other.metrics.influential_citation_count {
            self.metrics.influential_citation_count
        } else {
            other.metrics.influential_citation_count
        };
        let mut fulltext_candidates = self.fulltext_candidates;
        merge_fulltext(&mut fulltext_candidates, other.fulltext_candidates);
        let mut provenance = self.provenance;
        merge_provenance(&mut provenance, other.provenance);
        let r = WorkRecord {
            schema_version: self.schema_version,
            ids,
            title,
            abstract_text,
            authors,
            issued,
            work_type,
            container_title: prefer(formal, self.container_title, other.container_title),
            publisher: prefer(formal, self.publisher, other.publisher),
            volume: prefer(formal, self.volume, other.volume),
            issue: prefer(formal, self.issue, other.issue),
            page: prefer(formal, self.page, other.page),
            article_number: prefer(formal, self.article_number, other.article_number),
            language,
            keywords: unique(&chain(self.keywords, other.keywords)),
            subjects: unique(&chain(self.subjects, other.subjects)),
            issn: unique(&chain(self.issn, other.issn)),
            isbn: unique(&chain(self.isbn, other.isbn)),
            url: prefer(formal, self.url, other.url),
            fulltext_candidates,
            metrics: Metrics {
                cited_by_count,
                influential_citation_count,
                fwci: max_option(self.metrics.fwci, other.metrics.fwci),
                citation_percentile: max_option(
                    self.metrics.citation_percentile,
                    other.metrics.citation_percentile,
                ),
            },
            flags: unite_flags(self.flags, other.flags),
            quality: self.quality,
            provenance,
        };
        assert(r@ =~= merged(left, right));
        r
    }
}

/// Why a reported work cannot be taken in.
#[derive(Clone, Copy, Debug, PartialEq, Eq, Structural)]
pub enum CandidateError {
    MissingFields,
    MissingIdentifier,
    MissingEvidence,
    InvalidUrl,
    UrlNotHttp,
    InvalidTimestamp,
}

/// The words for what is wrong with a reported work.
pub open spec fn candidate_fault_text(error: CandidateError) -> Seq<char> {
    match error {
        CandidateError::MissingFields => {
            "agent candidate requires task_id, query, source, and title"@
        },
        CandidateError::MissingIdentifier => {
            "agent candidate requires DOI, arXiv ID, or OpenAlex ID"@
        },
        CandidateError::MissingEvidence => {
            "agent candidate requires at least one evidence URL"@
        },
        CandidateError::InvalidUrl => "agent candidate contains an invalid URL"@,
        CandidateError::UrlNotHttp => "agent candidate URLs must use HTTP(S)"@,
        CandidateError::InvalidTimestamp => {
            "agent candidate discovered_at must be RFC 3339"@
        },
    }
}

impl CandidateError {
    /// The error in words.
    pub fn message(&self) -> (r: String)
        ensures
            r@ == candidate_fault_text(*self),
    {
        match self {
            CandidateError::MissingFields => {
                "agent candidate requires task_id, query, source, and title".to_owned()
            },
            CandidateError::MissingIdentifier => {
                "agent candidate requires DOI, arXiv ID, or OpenAlex ID".to_owned()
            },
            CandidateError::MissingEvidence => {
                "agent candidate requires at least one evidence URL".to_owned()
            },
            CandidateError::InvalidUrl => "agent candidate contains an invalid URL".to_owned(),
            CandidateError::UrlNotHttp => "agent candidate URLs must use HTTP(S)".to_owned(),
            CandidateError::InvalidTimestamp => {
                "agent candidate discovered_at must be RFC 3339".to_owned()
            },
        }
    }
}

/// Some identifier of the reported work has the form of its kind.
pub open spec fn candidate_identified(candidate: AgentCandidateView) -> bool {
    ||| candidate.doi is Some && doi_of(candidate.doi->0) is Some
    ||| candidate.arxiv_id is Some && arxiv_of(candidate.arxiv_id->0) is Some
    ||| candidate.openalex_id is Some && openalex_of(candidate.openalex_id->0) is Some
}

/// The URLs of a reported work: those of the evidence, then the landing page.
pub open spec fn candidate_urls(candidate: AgentCandidateView) -> Seq<Seq<char>> {
    match candidate.landing_url {
        Some(url) => candidate.evidence_urls.push(url),
        None => candidate.evidence_urls,
    }
}

/// What is wrong with the first URL with which something is, given the scheme of
/// each that is a URL.
pub open spec fn url_fault(schemes: Seq<Option<Seq<char>>>) -> Option<CandidateError>
    decreases schemes.len(),
{
    if schemes.len() == 0 {
        None
    } else {
        match schemes[0] {
            None => Some(CandidateError::InvalidUrl),
            Some(scheme) => if scheme != "http"@ && scheme != "https"@ {
                Some(CandidateError::UrlNotHttp)
            } else {
                url_fault(schemes.skip(1))
            },
        }
    }
}

/// What is wrong with a reported work, given the scheme of each of its URLs that is
/// one, and whether its time is one.
pub open spec fn candidate_fault(
    candidate: AgentCandidateView,
    schemes: Seq<Option<Seq<char>>>,
    time_valid: bool,
) -> Option<CandidateError> {
    if trimmed(candidate.task_id).len() == 0 || trimmed(candidate.query).len() == 0 || trimmed(
        candidate.source,
    ).len() == 0 || trimmed(candidate.title).len() == 0 {
        Some(CandidateError::MissingFields)
    } else if !candidate_identified(candidate) {
        Some(CandidateError::MissingIdentifier)
    } else if candidate.evidence_urls.len() == 0 {
        Some(CandidateError::MissingEvidence)
    } else if url_fault(schemes) is Some {
        url_fault(schemes)
    } else if !time_valid {
        Some(CandidateError::InvalidTimestamp)
    } else {
        None
    }
}

/// The scheme of a text that is a URL.
pub open spec fn scheme_of(url: Seq<char>) -> Option<Seq<char>> {
    match url_parts(url) {
        Some(parts) => Some(parts.0),
        None => None,
    }
}

/// The schemes of the texts that are URLs.
pub open spec fn schemes_of(urls: Seq<Seq<char>>) -> Seq<Option<Seq<char>>> {
    Seq::new(urls.len(), |i: int| scheme_of(urls[i]))
}

/// The contents of optional strings.
pub open spec fn opt_texts(values: Seq<Option<String>>) -> Seq<Option<Seq<char>>> {
    Seq::new(values.len(), |i: int| opt_text(values[i]))
}

fn read_scheme(url: &str) -> (r: Option<String>)
    ensures
        opt_text(r) == scheme_of(url@),
{
    match parse_url(url) {
        Some(parts) => Some(parts.scheme),
        None => None,
    }
}

fn find_url_fault(schemes: &Vec<Option<String>>) -> (r: Option<CandidateError>)
    ensures
        r == url_fault(opt_texts(schemes@)),
{
    let ghost all = opt_texts(schemes@);
    let mut i: usize = 0;
    assert(all.skip(0) =~= all);
    while i < schemes.len()
        invariant
            i <= schemes@.len(),
            all == opt_texts(schemes@),
            url_fault(all) == url_fault(all.skip(i as int)),
        decreases schemes@.len() - i,
    {
        assert(all.skip(i as int)[0] == opt_text(schemes@[i as int]));
        assert(all.skip(i as int).skip(1) =~= all.skip(i + 1));
        match &schemes[i] {
            None => {
                return Some(CandidateError::InvalidUrl);
            },
            Some(scheme) => {
                if !same_text(scheme, "http") && !same_text(scheme, "https") {
                    return Some(CandidateError::UrlNotHttp);
                }
            },
        }
        i += 1;
    }
    None
}

impl AgentCandidate {
    /// Whether the reported work can be taken in.
    pub fn validate(&self) -> (r: Result<(), CandidateError>)
        ensures
            match r {
                Ok(()) => candidate_fault(
                    self@,
                    schemes_of(candidate_urls(self@)),
                    rfc3339_instant(self@.discovered_at),
                ) is None,
                Err(error) => Some(error) == candidate_fault(
                    self@,
                    schemes_of(candidate_urls(self@)),
                    rfc3339_instant(self@.discovered_at),
                ),
            },
    {
        let mut schemes: Vec<Option<String>> = Vec::new();
        let ghost urls = candidate_urls(self@);
        let mut i: usize = 0;
        while i < self.evidence_urls.len()
            invariant
                i <= self.evidence_urls@.len(),
                schemes@.len() == i,
                forall|j: int|
                    0 <= j < i ==> opt_text(#[trigger] schemes@[j]) == scheme_of(
                        self.evidence_urls@[j]@,
                    ),
            decreases self.evidence_urls@.len() - i,
        {
            schemes.push(read_scheme(&self.evidence_urls[i]));
            i += 1;
        }
        if let Some(url) = &self.landing_url {
            schemes.push(read_scheme(url));
        }
        assert(opt_texts(schemes@) =~= schemes_of(urls));
        self.check(&schemes, is_rfc3339(&self.discovered_at))
    }

    /// Whether the reported work can be taken in, given the scheme of each of its URLs
    /// that is one, and whether its time is one.
    pub fn check(&self, schemes: &Vec<Option<String>>, time_valid: bool) -> (r: Result<
        (),
        CandidateError,
    >)
        ensures
            match r {
                Ok(()) => candidate_fault(self@, opt_texts(schemes@), time_valid) is None,
                Err(error) => Some(error) == candidate_fault(
                    self@,
                    opt_texts(schemes@),
                    time_valid,
                ),
            },
    {
        if is_blank(&self.task_id) || is_blank(&self.query) || is_blank(&self.source) || is_blank(
            &self.title,
        ) {
            return Err(CandidateError::MissingFields);
        }
        let by_doi = match &self.doi {
            Some(value) => normalize_doi(value).is_some(),
            None => false,
        };
        let by_arxiv = match &self.arxiv_id {
            Some(value) => normalize_arxiv(value).is_some(),
            None => false,
        };
        let by_openalex = match &self.openalex_id {
            Some(value) => normalize_openalex(value).is_some(),
            None => false,
        };
        if !by_doi && !by_arxiv && !by_openalex {
            return Err(CandidateError::MissingIdentifier);
        }
        if self.evidence_urls.len() == 0 {
            return Err(CandidateError::MissingEvidence);
        }
        if let Some(error) = find_url_fault(schemes) {
            return Err(error);
        }
        if !time_valid {
            return Err(CandidateError::InvalidTimestamp);
        }
        Ok(())
    }
}

/// Merging keeps every identifier: each key of either record is one of the result,
/// and the value is the second record's where that has one.
pub proof fn law_merge_keeps_identifiers(left: WorkRecordView, right: WorkRecordView)
    ensures
        forall|key: Seq<char>| #[trigger]
            merged(left, right).ids.contains_key(key) <==> left.ids.contains_key(key)
                || right.ids.contains_key(key),
        forall|key: Seq<char>|
            right.ids.contains_key(key) ==> #[trigger] merged(left, right).ids[key]
                == right.ids[key],
        forall|key: Seq<char>|
            left.ids.contains_key(key) && !right.ids.contains_key(key)
                ==> #[trigger] merged(left, right).ids[key] == left.ids[key],
{
}

/// Merging never clears a flag: one that is set in either record is set in the
/// result, and one that is set there was set in a record.
pub proof fn law_merge_flags_are_monotonic(
    left: WorkRecordView,
    right: WorkRecordView,
    name: Seq<char>,
)
    ensures
        ({
            let flags = merged(left, right).flags;
            (flags.contains_key(name) && flags[name]) <==> ((left.flags.contains_key(name)
                && left.flags[name]) || (right.flags.contains_key(name) && right.flags[name]))
        }),
{
}

/// Sources known before stay where they are, and those added become known.
proof fn lemma_with_sources(
    target: Seq<ProvenanceSourceView>,
    candidates: Seq<ProvenanceSourceView>,
)
    ensures
        with_sources(target, candidates).len() >= target.len(),
        with_sources(target, candidates).take(target.len() as int) == target,
        forall|j: int|
            0 <= j < candidates.len() ==> source_known(
                with_sources(target, candidates),
                #[trigger] candidates[j],
            ),
    decreases candidates.len(),
{
    let all = with_sources(target, candidates);
    if candidates.len() > 0 {
        let rest = with_sources(target, candidates.drop_last());
        lemma_with_sources(target, candidates.drop_last());
        assert(all.take(target.len() as int) =~= rest.take(target.len() as int));
        assert forall|j: int| 0 <= j < candidates.len() implies source_known(
            all,
            #[trigger] candidates[j],
        ) by {
            if j < candidates.len() - 1 {
                assert(candidates.drop_last()[j] == candidates[j]);
                let i = choose|i: int|
                    0 <= i < rest.len() && same_source(#[trigger] rest[i], candidates[j]);
                assert(same_source(all[i], candidates[j]));
            } else if !source_known(rest, candidates.last()) {
                assert(same_source(all[all.len() - 1], candidates[j]));
            }
        }
    } else {
        assert(all.take(target.len() as int) =~= target);
    }
}

/// Merging never erases provenance: the first record's sources stay in front, and
/// every source of the second is known.
pub proof fn law_merge_keeps_provenance(left: WorkRecordView, right: WorkRecordView)
    ensures
        merged(left, right).provenance.len() >= left.provenance.len(),
        merged(left, right).provenance.take(left.provenance.len() as int) == left.provenance,
        forall|j: int|
            0 <= j < right.provenance.len() ==> source_known(
                merged(left, right).provenance,
                #[trigger] right.provenance[j],
            ),
{
    lemma_with_sources(left.provenance, right.provenance);
}

/// A place is known, and authorized where the candidate is.
pub open spec fn place_kept(
    places: Seq<FullTextCandidateView>,
    candidate: FullTextCandidateView,
) -> bool {
    exists|i: int|
        0 <= i < places.len() && (#[trigger] places[i]).url == candidate.url && (
        candidate.authorized ==> places[i].authorized)
}

proof fn lemma_place_of(target: Seq<FullTextCandidateView>, url: Seq<char>)
    ensures
        place_of(target, url) <= target.len(),
        place_of(target, url) < target.len() ==> target[place_of(target, url) as int].url == url,
    decreases target.len(),
{
    if target.len() > 0 && target[0].url != url {
        lemma_place_of(target.skip(1), url);
    }
}

proof fn lemma_with_places(
    target: Seq<FullTextCandidateView>,
    candidates: Seq<FullTextCandidateView>,
)
    ensures
        with_places(target, candidates).len() >= target.len(),
        forall|i: int|
            0 <= i < target.len() ==> (#[trigger] with_places(target, candidates)[i]).url
                == target[i].url && (target[i].authorized ==> with_places(
                target,
                candidates,
            )[i].authorized),
        forall|j: int|
            0 <= j < candidates.len() ==> place_kept(
                with_places(target, candidates),
                #[trigger] candidates[j],
            ),
    decreases candidates.len(),
{
    if candidates.len() > 0 {
        let all = with_places(target, candidates);
        let rest = with_places(target, candidates.drop_last());
        lemma_with_places(target, candidates.drop_last());
        lemma_place_of(rest, candidates.last().url);
        let at = place_of(rest, candidates.last().url) as int;
        assert forall|j: int| 0 <= j < candidates.len() implies place_kept(
            all,
            #[trigger] candidates[j],
        ) by {
            if j < candidates.len() - 1 {
                assert(candidates.drop_last()[j] == candidates[j]);
                let i = choose|i: int|
                    0 <= i < rest.len() && (#[trigger] rest[i]).url == candidates[j].url && (
                    candidates[j].authorized ==> rest[i].authorized);
                assert(all[i].url == candidates[j].url);
            } else {
                assert(all[at].url == candidates[j].url);
            }
        }
    }
}

/// Merging keeps every place of the full text, and its authorization: the first
/// record's stay in front, and every place of the second is known.
pub proof fn law_merge_keeps_fulltext(left: WorkRecordView, right: WorkRecordView)
    ensures
        merged(left, right).fulltext_candidates.len() >= left.fulltext_candidates.len(),
        forall|i: int|
            0 <= i < left.fulltext_candidates.len() ==> (#[trigger] merged(
                left,
                right,
            ).fulltext_candidates[i]).url == left.fulltext_candidates[i].url && (
            left.fulltext_candidates[i].authorized ==> merged(
                left,
                right,
            ).fulltext_candidates[i].authorized),
        forall|j: int|
            0 <= j < right.fulltext_candidates.len() ==> place_kept(
                merged(left, right).fulltext_candidates,
                #[trigger] right.fulltext_candidates[j],
            ),
        any_authorized(left.fulltext_candidates) || any_authorized(right.fulltext_candidates)
            ==> any_authorized(merged(left, right).fulltext_candidates),
{
    let all = merged(left, right).fulltext_candidates;
    lemma_with_places(left.fulltext_candidates, right.fulltext_candidates);
    if any_authorized(left.fulltext_candidates) {
        let i = choose|i: int|
            0 <= i < left.fulltext_candidates.len() && (
            #[trigger] left.fulltext_candidates[i]).authorized;
        assert(all[i].authorized);
    }
    if any_authorized(right.fulltext_candidates) {
        let j = choose|j: int|
            0 <= j < right.fulltext_candidates.len() && (
            #[trigger] right.fulltext_candidates[j]).authorized;
        assert(place_kept(all, right.fulltext_candidates[j]));
        let i = choose|i: int|
            0 <= i < all.len() && (#[trigger] all[i]).url == right.fulltext_candidates[j].url && (
            right.fulltext_candidates[j].authorized ==> all[i].authorized);
        assert(all[i].authorized);
    }
}

/// Merging keeps the richer abstract and the greater citation counts.
pub proof fn law_merge_keeps_the_richer(left: WorkRecordView, right: WorkRecordView)
    ensures
        byte_len(merged(left, right).abstract_text) >= byte_len(left.abstract_text),
        byte_len(merged(left, right).abstract_text) >= byte_len(right.abstract_text),
        merged(left, right).metrics.cited_by_count >= left.metrics.cited_by_count,
        merged(left, right).metrics.cited_by_count >= right.metrics.cited_by_count,
        merged(left, right).metrics.influential_citation_count
            >= left.metrics.influential_citation_count,
        merged(left, right).metrics.influential_citation_count
            >= right.metrics.influential_citation_count,
{
}

/// A preprint merged with its formal publication is that publication: it has its
/// type and venue, its title, date and other particulars where it gives them, and
/// its DOI.
pub proof fn law_merge_promotes_preprints(preprint: WorkRecordView, formal: WorkRecordView)
    requires
        promotes(preprint, formal),
    ensures
        formal_publication(merged(preprint, formal)),
        merged(preprint, formal).work_type == formal.work_type,
        merged(preprint, formal).container_title == formal.container_title,
        doi_in(merged(preprint, formal).ids) == doi_in(formal.ids),
        identity_of(merged(preprint, formal)) == identity_of(formal),
        formal.title.len() > 0 ==> merged(preprint, formal).title == formal.title,
        formal.issued.date_parts.len() > 0 ==> merged(preprint, formal).issued == formal.issued,
        formal.publisher.len() > 0 ==> merged(preprint, formal).publisher == formal.publisher,
        formal.volume.len() > 0 ==> merged(preprint, formal).volume == formal.volume,
        formal.issue.len() > 0 ==> merged(preprint, formal).issue == formal.issue,
        formal.page.len() > 0 ==> merged(preprint, formal).page == formal.page,
        formal.article_number.len() > 0 ==> merged(preprint, formal).article_number
            == formal.article_number,
        formal.url.len() > 0 ==> merged(preprint, formal).url == formal.url,
{
}

/// It does not matter in which order two authors are compared.
pub proof fn law_authors_match_is_symmetric(left: AuthorView, right: AuthorView)
    ensures
        same_author(left, right) == same_author(right, left),
{
}

/// An author whose name leaves no fingerprint is matched by the ORCID alone: two authors
/// without a name are not the same for that.
pub proof fn law_nameless_authors_match_by_orcid(author: AuthorView, other: AuthorView)
    requires
        author_name(author).len() == 0,
    ensures
        same_author(author, other) == same_orcid(author, other),
        same_author(other, author) == same_orcid(other, author),
{
}

/// A name that is missing or is ASCII white space leaves no fingerprint.
pub proof fn law_blank_names_leave_no_fingerprint(author: AuthorView)
    requires
        is_ascii_chars(author.given) && trimmed(author.given).len() == 0,
        is_ascii_chars(author.family) && trimmed(author.family).len() == 0,
        is_ascii_chars(author.literal) && trimmed(author.literal).len() == 0,
    ensures
        author_name(author).len() == 0,
{
    reveal_strlit(" ");
    lemma_blank(author.given);
    lemma_blank(author.family);
    lemma_blank(author.literal);
    let full = author.given + " "@ + author.family;
    assert(is_ascii_chars(full));
    lemma_blank_fingerprint(full);
    lemma_blank_fingerprint(author.literal);
}

/// Works with the same DOI in normal form have the same identity.
pub proof fn law_identity_follows_the_doi(left: WorkRecordView, right: WorkRecordView)
    requires
        doi_in(left.ids) is Some,
        doi_in(left.ids) == doi_in(right.ids),
    ensures
        identity_of(left) == identity_of(right),
{
}

/// Works without a DOI that are versions of one arXiv work have the same identity.
pub proof fn law_identity_ignores_arxiv_versions(left: WorkRecordView, right: WorkRecordView)
    requires
        doi_in(left.ids) is None,
        doi_in(right.ids) is None,
        left.ids.contains_key("arxiv"@),
        right.ids.contains_key("arxiv"@),
        arxiv_base_of(left.ids["arxiv"@]) is Some,
        arxiv_base_of(left.ids["arxiv"@]) == arxiv_base_of(right.ids["arxiv"@]),
    ensures
        identity_of(left) == identity_of(right),
{
}

} // verus!
