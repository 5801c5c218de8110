//! The state of a corpus: its works, the responses they were read from, and their
//! rendered pages, as tables.

use crate::domain::{
    identity_of, year_of, PageRecord, PageRecordView, PdfArtifact, PdfArtifactView,
    RawSourceRecord, RawSourceRecordView, WorkRecord, WorkRecordView,
};
use crate::json::{Json, JsonView};
use crate::model::{duplicate_all, duplicate_option, opt_view, views, Duplicate};
use crate::order::{law_ordered, ordered, sort, Ranked};
use crate::score::{Score, HUNDRED, ZERO};
use crate::text::{
    contains, copy_texts, holds_text, is_less, lemma_text_chain, lemma_text_one_way,
    lemma_text_total, lower, lowered, opt_text, same_text, text_in, text_less, texts, trim,
    trimmed,
};
use crate::util::{hexadecimal, join_path, path_of, sha256_bytes};
use vstd::prelude::*;
use vstd::string::StringExecFns;

verus! {

/// A row of the table of works. The record is missing where it cannot be read.
#[derive(Debug)]
pub struct StoredWork {
    pub work_id: String,
    pub record: Option<WorkRecord>,
    pub status: String,
    pub quality_score: Score,
    pub relevance_score: Score,
    pub priority_score: Score,
    pub pdf_url: Option<String>,
    pub pdf_path: Option<String>,
    pub pdf_sha256: Option<String>,
    pub pdf_license: Option<String>,
    pub page_count: u64,
    pub last_error: Option<String>,
    pub updated_at: String,
}

/// What a `StoredWork` holds.
#[verifier::ext_equal]
pub struct StoredWorkView {
    pub work_id: Seq<char>,
    pub record: Option<WorkRecordView>,
    pub status: Seq<char>,
    pub quality_score: Score,
    pub relevance_score: Score,
    pub priority_score: Score,
    pub pdf_url: Option<Seq<char>>,
    pub pdf_path: Option<Seq<char>>,
    pub pdf_sha256: Option<Seq<char>>,
    pub pdf_license: Option<Seq<char>>,
    pub page_count: u64,
    pub last_error: Option<Seq<char>>,
    pub updated_at: Seq<char>,
}

impl View for StoredWork {
    type V = StoredWorkView;

    open spec fn view(&self) -> StoredWorkView {
        StoredWorkView {
            work_id: self.work_id@,
            record: opt_view(self.record),
            status: self.status@,
            quality_score: self.quality_score,
            relevance_score: self.relevance_score,
            priority_score: self.priority_score,
            pdf_url: opt_text(self.pdf_url),
            pdf_path: opt_text(self.pdf_path),
            pdf_sha256: opt_text(self.pdf_sha256),
            pdf_license: opt_text(self.pdf_license),
            page_count: self.page_count,
            last_error: opt_text(self.last_error),
            updated_at: self.updated_at@,
        }
    }
}

impl Duplicate for StoredWork {
    fn duplicate(&self) -> (r: StoredWork) {
        StoredWork {
            work_id: self.work_id.clone(),
            record: duplicate_option(&self.record),
            status: self.status.clone(),
            quality_score: self.quality_score,
            relevance_score: self.relevance_score,
            priority_score: self.priority_score,
            pdf_url: duplicate_option(&self.pdf_url),
            pdf_path: duplicate_option(&self.pdf_path),
            pdf_sha256: duplicate_option(&self.pdf_sha256),
            pdf_license: duplicate_option(&self.pdf_license),
            page_count: self.page_count,
            last_error: duplicate_option(&self.last_error),
            updated_at: self.updated_at.clone(),
        }
    }
}

/// A row of the table of responses. What it says is missing where it cannot be read.
#[derive(Debug)]
pub struct StoredSource {
    pub source: String,
    pub source_id: String,
    pub work_id: String,
    pub retrieved_at: String,
    pub raw: Option<Json>,
}

/// What a `StoredSource` holds.
#[verifier::ext_equal]
pub struct StoredSourceView {
    pub source: Seq<char>,
    pub source_id: Seq<char>,
    pub work_id: Seq<char>,
    pub retrieved_at: Seq<char>,
    pub raw: Option<JsonView>,
}

impl View for StoredSource {
    type V = StoredSourceView;

    open spec fn view(&self) -> StoredSourceView {
        StoredSourceView {
            source: self.source@,
            source_id: self.source_id@,
            work_id: self.work_id@,
            retrieved_at: self.retrieved_at@,
            raw: opt_view(self.raw),
        }
    }
}

impl Duplicate for StoredSource {
    fn duplicate(&self) -> (r: StoredSource) {
        StoredSource {
            source: self.source.clone(),
            source_id: self.source_id.clone(),
            work_id: self.work_id.clone(),
            retrieved_at: self.retrieved_at.clone(),
            raw: duplicate_option(&self.raw),
        }
    }
}

/// How far a work has come, and what of it is preserved.
#[derive(Debug)]
pub struct StoredArtifactStatus {
    pub work_id: String,
    pub status: String,
    pub pdf_url: String,
    pub pdf_path: String,
    pub pdf_sha256: String,
    pub pdf_license: String,
    pub declared_page_count: u64,
    pub stored_page_count: u64,
    pub indexed_page_count: u64,
    pub last_error: String,
}

/// What a `StoredArtifactStatus` holds.
#[verifier::ext_equal]
pub struct StoredArtifactStatusView {
    pub work_id: Seq<char>,
    pub status: Seq<char>,
    pub pdf_url: Seq<char>,
    pub pdf_path: Seq<char>,
    pub pdf_sha256: Seq<char>,
    pub pdf_license: Seq<char>,
    pub declared_page_count: u64,
    pub stored_page_count: u64,
    pub indexed_page_count: u64,
    pub last_error: Seq<char>,
}

impl View for StoredArtifactStatus {
    type V = StoredArtifactStatusView;

    open spec fn view(&self) -> StoredArtifactStatusView {
        StoredArtifactStatusView {
            work_id: self.work_id@,
            status: self.status@,
            pdf_url: self.pdf_url@,
            pdf_path: self.pdf_path@,
            pdf_sha256: self.pdf_sha256@,
            pdf_license: self.pdf_license@,
            declared_page_count: self.declared_page_count,
            stored_page_count: self.stored_page_count,
            indexed_page_count: self.indexed_page_count,
            last_error: self.last_error@,
        }
    }
}

impl Duplicate for StoredArtifactStatus {
    fn duplicate(&self) -> (r: StoredArtifactStatus) {
        StoredArtifactStatus {
            work_id: self.work_id.clone(),
            status: self.status.clone(),
            pdf_url: self.pdf_url.clone(),
            pdf_path: self.pdf_path.clone(),
            pdf_sha256: self.pdf_sha256.clone(),
            pdf_license: self.pdf_license.clone(),
            declared_page_count: self.declared_page_count,
            stored_page_count: self.stored_page_count,
            indexed_page_count: self.indexed_page_count,
            last_error: self.last_error.clone(),
        }
    }
}

/// Which works a catalog lists.
#[derive(Debug)]
pub struct CatalogFilters {
    pub statuses: Vec<String>,
    pub year_from: Option<u32>,
    pub year_to: Option<u32>,
    pub min_quality_score: Option<Score>,
    pub title_contains: Option<String>,
    pub limit: usize,
}

/// What a `CatalogFilters` holds.
#[verifier::ext_equal]
pub struct CatalogFiltersView {
    pub statuses: Seq<Seq<char>>,
    pub year_from: Option<u32>,
    pub year_to: Option<u32>,
    pub min_quality_score: Option<Score>,
    pub title_contains: Option<Seq<char>>,
    pub limit: usize,
}

impl View for CatalogFilters {
    type V = CatalogFiltersView;

    open spec fn view(&self) -> CatalogFiltersView {
        CatalogFiltersView {
            statuses: texts(self.statuses@),
            year_from: self.year_from,
            year_to: self.year_to,
            min_quality_score: self.min_quality_score,
            title_contains: opt_text(self.title_contains),
            limit: self.limit,
        }
    }
}

impl Duplicate for CatalogFilters {
    fn duplicate(&self) -> (r: CatalogFilters) {
        CatalogFilters {
            statuses: copy_texts(&self.statuses),
            year_from: self.year_from,
            year_to: self.year_to,
            min_quality_score: self.min_quality_score,
            title_contains: duplicate_option(&self.title_contains),
            limit: self.limit,
        }
    }
}

/// A work as a catalog lists it.
#[derive(Debug)]
pub struct WorkSummary {
    pub work_id: String,
    pub status: String,
    pub title: String,
    pub publication_year: Option<u32>,
    pub work_type: String,
    pub doi: Option<String>,
    pub venue: String,
    pub quality_score: Score,
    pub relevance_score: Score,
    pub priority_score: Score,
    pub has_pdf: bool,
    pub page_count: u64,
    pub indexed_page_count: u64,
    pub updated_at: String,
}

/// What a `WorkSummary` holds.
#[verifier::ext_equal]
pub struct WorkSummaryView {
    pub work_id: Seq<char>,
    pub status: Seq<char>,
    pub title: Seq<char>,
    pub publication_year: Option<u32>,
    pub work_type: Seq<char>,
    pub doi: Option<Seq<char>>,
    pub venue: Seq<char>,
    pub quality_score: Score,
    pub relevance_score: Score,
    pub priority_score: Score,
    pub has_pdf: bool,
    pub page_count: u64,
    pub indexed_page_count: u64,
    pub updated_at: Seq<char>,
}

impl View for WorkSummary {
    type V = WorkSummaryView;

    open spec fn view(&self) -> WorkSummaryView {
        WorkSummaryView {
            work_id: self.work_id@,
            status: self.status@,
            title: self.title@,
            publication_year: self.publication_year,
            work_type: self.work_type@,
            doi: opt_text(self.doi),
            venue: self.venue@,
            quality_score: self.quality_score,
            relevance_score: self.relevance_score,
            priority_score: self.priority_score,
            has_pdf: self.has_pdf,
            page_count: self.page_count,
            indexed_page_count: self.indexed_page_count,
            updated_at: self.updated_at@,
        }
    }
}

impl Duplicate for WorkSummary {
    fn duplicate(&self) -> (r: WorkSummary) {
        WorkSummary {
            work_id: self.work_id.clone(),
            status: self.status.clone(),
            title: self.title.clone(),
            publication_year: self.publication_year,
            work_type: self.work_type.clone(),
            doi: duplicate_option(&self.doi),
            venue: self.venue.clone(),
            quality_score: self.quality_score,
            relevance_score: self.relevance_score,
            priority_score: self.priority_score,
            has_pdf: self.has_pdf,
            page_count: self.page_count,
            indexed_page_count: self.indexed_page_count,
            updated_at: self.updated_at.clone(),
        }
    }
}

/// A response that a work was read from, without what it says.
#[derive(Debug)]
pub struct SourceLocator {
    pub source: String,
    pub source_id: String,
    pub retrieved_at: String,
}

/// What a `SourceLocator` holds.
#[verifier::ext_equal]
pub struct SourceLocatorView {
    pub source: Seq<char>,
    pub source_id: Seq<char>,
    pub retrieved_at: Seq<char>,
}

impl View for SourceLocator {
    type V = SourceLocatorView;

    open spec fn view(&self) -> SourceLocatorView {
        SourceLocatorView {
            source: self.source@,
            source_id: self.source_id@,
            retrieved_at: self.retrieved_at@,
        }
    }
}

impl Duplicate for SourceLocator {
    fn duplicate(&self) -> (r: SourceLocator) {
        SourceLocator {
            source: self.source.clone(),
            source_id: self.source_id.clone(),
            retrieved_at: self.retrieved_at.clone(),
        }
    }
}

/// A rendered page, without its text.
#[derive(Debug)]
pub struct PageLocator {
    pub page_id: String,
    pub page_number: u32,
    pub image_path: String,
    pub image_sha256: String,
    pub width: u32,
    pub height: u32,
    pub indexed_at: Option<String>,
}

/// What a `PageLocator` holds.
#[verifier::ext_equal]
pub struct PageLocatorView {
    pub page_id: Seq<char>,
    pub page_number: u32,
    pub image_path: Seq<char>,
    pub image_sha256: Seq<char>,
    pub width: u32,
    pub height: u32,
    pub indexed_at: Option<Seq<char>>,
}

impl View for PageLocator {
    type V = PageLocatorView;

    open spec fn view(&self) -> PageLocatorView {
        PageLocatorView {
            page_id: self.page_id@,
            page_number: self.page_number,
            image_path: self.image_path@,
            image_sha256: self.image_sha256@,
            width: self.width,
            height: self.height,
            indexed_at: opt_text(self.indexed_at),
        }
    }
}

impl Duplicate for PageLocator {
    fn duplicate(&self) -> (r: PageLocator) {
        PageLocator {
            page_id: self.page_id.clone(),
            page_number: self.page_number,
            image_path: self.image_path.clone(),
            image_sha256: self.image_sha256.clone(),
            width: self.width,
            height: self.height,
            indexed_at: duplicate_option(&self.indexed_at),
        }
    }
}

/// All that is known of a work, without texts of pages and of responses.
#[derive(Debug)]
pub struct WorkDetails {
    pub summary: WorkSummary,
    pub canonical_record: WorkRecord,
    pub pdf_artifact: Option<PdfArtifact>,
    pub provenance_records: Vec<SourceLocator>,
    pub pages: Vec<PageLocator>,
    pub last_error: String,
}

/// What a `WorkDetails` holds.
#[verifier::ext_equal]
pub struct WorkDetailsView {
    pub summary: WorkSummaryView,
    pub canonical_record: WorkRecordView,
    pub pdf_artifact: Option<PdfArtifactView>,
    pub provenance_records: Seq<SourceLocatorView>,
    pub pages: Seq<PageLocatorView>,
    pub last_error: Seq<char>,
}

impl View for WorkDetails {
    type V = WorkDetailsView;

    open spec fn view(&self) -> WorkDetailsView {
        WorkDetailsView {
            summary: self.summary@,
            canonical_record: self.canonical_record@,
            pdf_artifact: opt_view(self.pdf_artifact),
            provenance_records: views(self.provenance_records@),
            pages: views(self.pages@),
            last_error: self.last_error@,
        }
    }
}

impl Duplicate for WorkDetails {
    fn duplicate(&self) -> (r: WorkDetails) {
        WorkDetails {
            summary: self.summary.duplicate(),
            canonical_record: self.canonical_record.duplicate(),
            pdf_artifact: duplicate_option(&self.pdf_artifact),
            provenance_records: duplicate_all(&self.provenance_records),
            pages: duplicate_all(&self.pages),
            last_error: self.last_error.clone(),
        }
    }
}

/// The state of a corpus. No work, response or page occurs twice, and each response
/// and page belongs to a work.
#[derive(Debug)]
pub struct State {
    workspace: String,
    corpus_id: String,
    works: Vec<StoredWork>,
    sources: Vec<StoredSource>,
    pages: Vec<PageRecord>,
}

/// What a `State` holds.
#[verifier::ext_equal]
pub struct StateView {
    pub workspace: Seq<char>,
    pub corpus_id: Seq<char>,
    pub works: Seq<StoredWorkView>,
    pub sources: Seq<StoredSourceView>,
    pub pages: Seq<PageRecordView>,
}

impl View for State {
    type V = StateView;

    closed spec fn view(&self) -> StateView {
        StateView {
            workspace: self.workspace@,
            corpus_id: self.corpus_id@,
            works: views(self.works@),
            sources: views(self.sources@),
            pages: views(self.pages@),
        }
    }
}

/// Why the state cannot be read or changed.
#[derive(Clone, Copy, Debug, PartialEq, Eq, Structural)]
pub enum StateError {
    UnreadableRecord,
    UnorderedScore,
    UnknownWork,
    DuplicatePage,
    NoLimit,
    YearsReversed,
    QualityOutOfRange,
}

/// The words for why the state cannot be read or changed.
pub open spec fn state_fault_text(error: StateError) -> Seq<char> {
    match error {
        StateError::UnreadableRecord => "stored work record cannot be read"@,
        StateError::UnorderedScore => "work scores must be numbers"@,
        StateError::UnknownWork => "record refers to an unknown work"@,
        StateError::DuplicatePage => "page identifier or page number is not unique"@,
        StateError::NoLimit => "catalog limit must be positive"@,
        StateError::YearsReversed => "year_from must be less than or equal to year_to"@,
        StateError::QualityOutOfRange => "min_quality_score must be between 0 and 100"@,
    }
}

impl StateError {
    /// The error in words.
    pub fn message(&self) -> (r: String)
        ensures
            r@ == state_fault_text(*self),
    {
        match self {
            StateError::UnreadableRecord => "stored work record cannot be read".to_owned(),
            StateError::UnorderedScore => "work scores must be numbers".to_owned(),
            StateError::UnknownWork => "record refers to an unknown work".to_owned(),
            StateError::DuplicatePage => {
                "page identifier or page number is not unique".to_owned()
            },
            StateError::NoLimit => "catalog limit must be positive".to_owned(),
            StateError::YearsReversed => {
                "year_from must be less than or equal to year_to".to_owned()
            },
            StateError::QualityOutOfRange => {
                "min_quality_score must be between 0 and 100".to_owned()
            },
        }
    }
}

/// The index of the work with the identifier, or the number of works.
pub open spec fn work_at(works: Seq<StoredWorkView>, work_id: Seq<char>) -> nat
    decreases works.len(),
{
    if works.len() == 0 || works[0].work_id == work_id {
        0
    } else {
        1 + work_at(works.skip(1), work_id)
    }
}

/// The work is in the table.
pub open spec fn knows_work(works: Seq<StoredWorkView>, work_id: Seq<char>) -> bool {
    exists|i: int| 0 <= i < works.len() && (#[trigger] works[i]).work_id == work_id
}

/// The scores of the work can be ordered.
pub open spec fn scores_ordered(work: StoredWorkView) -> bool {
    work.quality_score.number() && work.relevance_score.number() && work.priority_score.number()
}

/// No work occurs twice, and the scores of each can be ordered.
pub open spec fn works_coherent(works: Seq<StoredWorkView>) -> bool {
    &&& forall|i: int, j: int|
        0 <= i < j < works.len() ==> (#[trigger] works[i]).work_id != (#[trigger] works[j]).work_id
    &&& forall|i: int| 0 <= i < works.len() ==> scores_ordered(#[trigger] works[i])
}

/// The responses have the same key.
pub open spec fn same_response(a: StoredSourceView, b: StoredSourceView) -> bool {
    a.source == b.source && a.source_id == b.source_id
}

/// No response occurs twice, and each belongs to a work.
pub open spec fn sources_coherent(
    sources: Seq<StoredSourceView>,
    works: Seq<StoredWorkView>,
) -> bool {
    &&& forall|i: int, j: int|
        0 <= i < j < sources.len() ==> !same_response(#[trigger] sources[i], #[trigger] sources[j])
    &&& forall|i: int|
        0 <= i < sources.len() ==> knows_work(works, (#[trigger] sources[i]).work_id)
}

/// The pages cannot both be stored.
pub open spec fn pages_clash(a: PageRecordView, b: PageRecordView) -> bool {
    a.page_id == b.page_id || (a.work_id == b.work_id && a.page_number == b.page_number)
}

/// No two pages clash.
pub open spec fn pages_apart(pages: Seq<PageRecordView>) -> bool {
    forall|i: int, j: int|
        0 <= i < j < pages.len() ==> !pages_clash(#[trigger] pages[i], #[trigger] pages[j])
}

/// Each page belongs to a work.
pub open spec fn pages_known(pages: Seq<PageRecordView>, works: Seq<StoredWorkView>) -> bool {
    forall|i: int| 0 <= i < pages.len() ==> knows_work(works, (#[trigger] pages[i]).work_id)
}

/// Everything in the state occurs once and belongs to a work.
pub open spec fn coherent(state: StateView) -> bool {
    &&& works_coherent(state.works)
    &&& sources_coherent(state.sources, state.works)
    &&& pages_apart(state.pages)
    &&& pages_known(state.pages, state.works)
}

/// The index of a work is that of its row, where it is known.
pub proof fn lemma_work_at(works: Seq<StoredWorkView>, work_id: Seq<char>)
    ensures
        work_at(works, work_id) <= works.len(),
        work_at(works, work_id) < works.len() <==> knows_work(works, work_id),
        work_at(works, work_id) < works.len() ==> works[work_at(works, work_id) as int].work_id
            == work_id,
    decreases works.len(),
{
    if works.len() > 0 {
        if works[0].work_id == work_id {
            assert(knows_work(works, work_id));
        } else {
            let rest = works.skip(1);
            lemma_work_at(rest, work_id);
            if knows_work(rest, work_id) {
                let i = choose|i: int| 0 <= i < rest.len() && (#[trigger] rest[i]).work_id == work_id;
                assert(works[i + 1].work_id == work_id);
            }
            if knows_work(works, work_id) {
                let i = choose|i: int|
                    0 <= i < works.len() && (#[trigger] works[i]).work_id == work_id;
                assert(rest[i - 1].work_id == work_id);
            }
        }
    }
}

/// A work that has reached one of these stages keeps it when it is stored again.
pub open spec fn keeps_status(status: Seq<char>) -> bool {
    status == "awaiting-manual-download"@ || status == "downloaded"@ || status == "rendered"@
        || status == "indexed"@
}

/// Whether a work that has reached the stage keeps it when it is stored again.
pub fn is_kept_status(status: &str) -> (r: bool)
    ensures
        r == keeps_status(status@),
{
    same_text(status, "awaiting-manual-download") || same_text(status, "downloaded") || same_text(
        status,
        "rendered",
    ) || same_text(status, "indexed")
}

/// The row of a work that was not stored before.
pub open spec fn new_row(
    work: WorkRecordView,
    status: Seq<char>,
    updated_at: Seq<char>,
) -> StoredWorkView {
    StoredWorkView {
        work_id: identity_of(work),
        record: Some(work),
        status,
        quality_score: work.quality.score,
        relevance_score: work.quality.relevance_score,
        priority_score: work.quality.priority_score,
        pdf_url: None,
        pdf_path: None,
        pdf_sha256: None,
        pdf_license: None,
        page_count: 0,
        last_error: None,
        updated_at,
    }
}

/// The works with one stored, new or again.
pub open spec fn upserted_works(
    works: Seq<StoredWorkView>,
    work: WorkRecordView,
    status: Seq<char>,
    updated_at: Seq<char>,
) -> Seq<StoredWorkView> {
    let at = work_at(works, identity_of(work)) as int;
    if at < works.len() {
        works.update(
            at,
            StoredWorkView {
                record: Some(work),
                status: if keeps_status(works[at].status) {
                    works[at].status
                } else {
                    status
                },
                quality_score: work.quality.score,
                relevance_score: work.quality.relevance_score,
                priority_score: work.quality.priority_score,
                updated_at,
                ..works[at]
            },
        )
    } else {
        works.push(new_row(work, status, updated_at))
    }
}

/// The state with a work stored, new or again.
pub open spec fn upserted(
    state: StateView,
    work: WorkRecordView,
    status: Seq<char>,
    updated_at: Seq<char>,
) -> StateView {
    StateView { works: upserted_works(state.works, work, status, updated_at), ..state }
}

/// The scores of a work can be ordered.
pub open spec fn record_ordered(work: WorkRecordView) -> bool {
    work.quality.score.number() && work.quality.relevance_score.number()
        && work.quality.priority_score.number()
}

/// A work in one table that is in another.
proof fn lemma_still_known(
    before: Seq<StoredWorkView>,
    after: Seq<StoredWorkView>,
    work_id: Seq<char>,
)
    requires
        before.len() <= after.len(),
        forall|i: int|
            0 <= i < before.len() ==> (#[trigger] after[i]).work_id == before[i].work_id,
        knows_work(before, work_id),
    ensures
        knows_work(after, work_id),
{
    let i = choose|i: int| 0 <= i < before.len() && (#[trigger] before[i]).work_id == work_id;
    assert(after[i].work_id == work_id);
}

/// More works leave the responses and pages coherent.
proof fn lemma_more_works(state: StateView, works: Seq<StoredWorkView>)
    requires
        coherent(state),
        works_coherent(works),
        state.works.len() <= works.len(),
        forall|i: int|
            0 <= i < state.works.len() ==> (#[trigger] works[i]).work_id == state.works[i].work_id,
    ensures
        coherent((StateView { works, ..state })),
{
    assert forall|i: int| 0 <= i < state.sources.len() implies knows_work(
        works,
        (#[trigger] state.sources[i]).work_id,
    ) by {
        lemma_still_known(state.works, works, state.sources[i].work_id);
    }
    assert forall|i: int| 0 <= i < state.pages.len() implies knows_work(
        works,
        (#[trigger] state.pages[i]).work_id,
    ) by {
        lemma_still_known(state.works, works, state.pages[i].work_id);
    }
}

/// Storing a work keeps the state coherent.
pub proof fn law_upsert_keeps_coherence(
    state: StateView,
    work: WorkRecordView,
    status: Seq<char>,
    updated_at: Seq<char>,
)
    requires
        coherent(state),
        record_ordered(work),
    ensures
        coherent(upserted(state, work, status, updated_at)),
{
    let works = upserted_works(state.works, work, status, updated_at);
    lemma_work_at(state.works, identity_of(work));
    let at = work_at(state.works, identity_of(work)) as int;
    assert forall|i: int, j: int| 0 <= i < j < works.len() implies (
    #[trigger] works[i]).work_id != (#[trigger] works[j]).work_id by {
        if j < state.works.len() {
            assert(state.works[i].work_id != state.works[j].work_id);
        } else {
            assert(!knows_work(state.works, identity_of(work)));
            assert(state.works[i].work_id != identity_of(work));
        }
    }
    assert forall|i: int| 0 <= i < works.len() implies scores_ordered(#[trigger] works[i]) by {
        if i < state.works.len() && i != at {
            assert(scores_ordered(state.works[i]));
        }
    }
    lemma_more_works(state, works);
}

/// The record that the state has of a work.
pub open spec fn record_of(works: Seq<StoredWorkView>, work_id: Seq<char>) -> Option<
    WorkRecordView,
> {
    let at = work_at(works, work_id) as int;
    if at < works.len() {
        works[at].record
    } else {
        None
    }
}

/// What is stored of a work is read back, and the other works stay as they are.
pub proof fn law_a_stored_work_is_read_back(
    state: StateView,
    work: WorkRecordView,
    status: Seq<char>,
    updated_at: Seq<char>,
    other: Seq<char>,
)
    requires
        coherent(state),
    ensures
        record_of(upserted(state, work, status, updated_at).works, identity_of(work)) == Some(work),
        other != identity_of(work) ==> record_of(
            upserted(state, work, status, updated_at).works,
            other,
        ) == record_of(state.works, other),
{
    let works = upserted_works(state.works, work, status, updated_at);
    let id = identity_of(work);
    lemma_work_at(state.works, id);
    lemma_work_at(works, id);
    let at = work_at(state.works, id) as int;
    let now = work_at(works, id) as int;
    assert(works[at].work_id == id);
    assert(knows_work(works, id));
    if at < state.works.len() && now < state.works.len() && now != at {
        assert(state.works[now].work_id == id);
        if now < at {
            assert(state.works[now].work_id != state.works[at].work_id);
        } else {
            assert(state.works[at].work_id != state.works[now].work_id);
        }
    }
    if at == state.works.len() && now < at {
        assert(state.works[now].work_id == id);
        assert(knows_work(state.works, id));
    }
    if other != id {
        lemma_same_position(state.works, works, other);
        lemma_work_at(state.works, other);
        lemma_work_at(works, other);
    }
}

/// Where only another work was changed or added, a work stands where it stood.
pub proof fn lemma_same_position(
    before: Seq<StoredWorkView>,
    after: Seq<StoredWorkView>,
    work_id: Seq<char>,
)
    requires
        before.len() <= after.len() <= before.len() + 1,
        forall|i: int|
            0 <= i < before.len() ==> (#[trigger] after[i]).work_id == before[i].work_id,
        after.len() > before.len() ==> after[before.len() as int].work_id != work_id,
    ensures
        work_at(before, work_id) < before.len() ==> work_at(after, work_id) == work_at(
            before,
            work_id,
        ),
        work_at(before, work_id) == before.len() ==> work_at(after, work_id) == after.len(),
    decreases before.len(),
{
    lemma_work_at(before, work_id);
    lemma_work_at(after, work_id);
    if before.len() > 0 {
        assert(after[0].work_id == before[0].work_id);
        if before[0].work_id != work_id {
            let b = before.skip(1);
            let a = after.skip(1);
            assert forall|i: int| 0 <= i < b.len() implies (#[trigger] a[i]).work_id == b[i].work_id by {
                assert(after[i + 1].work_id == before[i + 1].work_id);
            }
            lemma_same_position(b, a, work_id);
        }
    } else if after.len() == 1 {
        assert(after[0].work_id != work_id);
        assert(after.skip(1).len() == 0);
    }
}

/// A work that was downloaded, rendered or indexed, or for which a download is
/// awaited, keeps that status when it is found or screened again.
pub proof fn law_storing_again_keeps_progress(
    state: StateView,
    work: WorkRecordView,
    status: Seq<char>,
    updated_at: Seq<char>,
)
    requires
        knows_work(state.works, identity_of(work)),
        keeps_status(state.works[work_at(state.works, identity_of(work)) as int].status),
    ensures
        ({
            let at = work_at(state.works, identity_of(work)) as int;
            let next = upserted(state, work, status, updated_at);
            next.works[at].status == state.works[at].status && next.works[at].pdf_path
                == state.works[at].pdf_path && next.works[at].page_count
                == state.works[at].page_count
        }),
{
    lemma_work_at(state.works, identity_of(work));
}

fn find_work(works: &Vec<StoredWork>, work_id: &str) -> (r: usize)
    ensures
        r == work_at(views(works@), work_id@),
        r <= works@.len(),
{
    let ghost all = views(works@);
    let mut i: usize = 0;
    assert(all.skip(0) =~= all);
    while i < works.len()
        invariant
            i <= works@.len(),
            all == views(works@),
            work_at(all, work_id@) == i + work_at(all.skip(i as int), work_id@),
        decreases works@.len() - i,
    {
        assert(all.skip(i as int)[0] == works@[i as int]@);
        assert(all.skip(i as int).skip(1) =~= all.skip(i + 1));
        if same_text(&works[i].work_id, work_id) {
            return i;
        }
        i += 1;
    }
    i
}

impl State {
    #[verifier::type_invariant]
    spec fn well_formed(self) -> bool {
        coherent(self@)
    }

    /// The state of a corpus without works.
    pub fn new(workspace: String, corpus_id: String) -> (r: State)
        ensures
            r@ == (StateView {
                workspace: workspace@,
                corpus_id: corpus_id@,
                works: Seq::empty(),
                sources: Seq::empty(),
                pages: Seq::empty(),
            }),
    {
        let works: Vec<StoredWork> = Vec::new();
        let sources: Vec<StoredSource> = Vec::new();
        let pages: Vec<PageRecord> = Vec::new();
        assert(views(works@) =~= Seq::<StoredWorkView>::empty());
        assert(views(sources@) =~= Seq::<StoredSourceView>::empty());
        assert(views(pages@) =~= Seq::<PageRecordView>::empty());
        State { workspace, corpus_id, works, sources, pages }
    }

    /// The directory of the corpus.
    pub fn workspace(&self) -> (r: &str)
        ensures
            r@ == self@.workspace,
    {
        self.workspace.as_str()
    }

    /// What tells the corpus apart from others in the vector database.
    pub fn corpus_id(&self) -> (r: &str)
        ensures
            r@ == self@.corpus_id,
    {
        self.corpus_id.as_str()
    }

    fn take(&mut self) -> (r: State)
        ensures
            r == *old(self),
            final(self)@.works.len() == 0,
    {
        let mut other = State::new(String::new(), String::new());
        std::mem::swap(self, &mut other);
        other
    }

    /// Stores the work, new or again, and answers under which identifier. A work that
    /// has got further keeps its status.
    pub fn upsert_work(&mut self, record: &WorkRecord, status: &str, updated_at: String) -> (r:
        Result<String, StateError>)
        ensures
            match r {
                Ok(work_id) => record_ordered(record@) && work_id@ == identity_of(record@)
                    && final(self)@ == upserted(old(self)@, record@, status@, updated_at@),
                Err(error) => error == StateError::UnorderedScore && !record_ordered(record@)
                    && final(self)@ == old(self)@,
            },
    {
        if !record.quality.score.is_number() || !record.quality.relevance_score.is_number()
            || !record.quality.priority_score.is_number() {
            return Err(StateError::UnorderedScore);
        }
        proof {
            use_type_invariant(&*self);
            law_upsert_keeps_coherence(self@, record@, status@, updated_at@);
        }
        let ghost before = self@;
        let work_id = record.identity();
        let at = find_work(&self.works, &work_id);
        let State { workspace, corpus_id, works, sources, pages } = self.take();
        let mut rows = works;
        let ghost table = views(rows@);
        let ghost wanted = upserted_works(table, record@, status@, updated_at@);
        if at < rows.len() {
            let row = rows.remove(at);
            let kept = is_kept_status(&row.status);
            let next = StoredWork {
                work_id: row.work_id,
                record: Some(record.duplicate()),
                status: if kept {
                    row.status
                } else {
                    status.to_owned()
                },
                quality_score: record.quality.score,
                relevance_score: record.quality.relevance_score,
                priority_score: record.quality.priority_score,
                pdf_url: row.pdf_url,
                pdf_path: row.pdf_path,
                pdf_sha256: row.pdf_sha256,
                pdf_license: row.pdf_license,
                page_count: row.page_count,
                last_error: row.last_error,
                updated_at,
            };
            rows.insert(at, next);
            assert(views(rows@) =~= wanted);
        } else {
            let next = StoredWork {
                work_id: work_id.clone(),
                record: Some(record.duplicate()),
                status: status.to_owned(),
                quality_score: record.quality.score,
                relevance_score: record.quality.relevance_score,
                priority_score: record.quality.priority_score,
                pdf_url: None,
                pdf_path: None,
                pdf_sha256: None,
                pdf_license: None,
                page_count: 0,
                last_error: None,
                updated_at,
            };
            rows.push(next);
            assert(views(rows@) =~= wanted);
        }
        *self = State { workspace, corpus_id, works: rows, sources, pages };
        Ok(work_id)
    }
}

/// The responses with one stored, new or in place of an earlier one with its key.
pub open spec fn with_response(
    sources: Seq<StoredSourceView>,
    row: StoredSourceView,
) -> Seq<StoredSourceView> {
    let at = response_at(sources, row) as int;
    if at < sources.len() {
        sources.update(at, row)
    } else {
        sources.push(row)
    }
}

/// The index of the response with the key, or the number of responses.
pub open spec fn response_at(sources: Seq<StoredSourceView>, row: StoredSourceView) -> nat
    decreases sources.len(),
{
    if sources.len() == 0 || same_response(sources[0], row) {
        0
    } else {
        1 + response_at(sources.skip(1), row)
    }
}

/// A response as it is stored.
pub open spec fn response_row(work_id: Seq<char>, raw: RawSourceRecordView) -> StoredSourceView {
    StoredSourceView {
        source: raw.source,
        source_id: raw.source_id,
        work_id,
        retrieved_at: raw.retrieved_at,
        raw: Some(raw.raw),
    }
}

/// The state with a response stored.
pub open spec fn with_raw(
    state: StateView,
    work_id: Seq<char>,
    raw: RawSourceRecordView,
) -> StateView {
    StateView { sources: with_response(state.sources, response_row(work_id, raw)), ..state }
}

pub proof fn lemma_response_at(sources: Seq<StoredSourceView>, row: StoredSourceView)
    ensures
        response_at(sources, row) <= sources.len(),
        response_at(sources, row) < sources.len() ==> same_response(
            sources[response_at(sources, row) as int],
            row,
        ),
        response_at(sources, row) == sources.len() ==> forall|i: int|
            0 <= i < sources.len() ==> !same_response(#[trigger] sources[i], row),
    decreases sources.len(),
{
    if sources.len() > 0 && !same_response(sources[0], row) {
        let rest = sources.skip(1);
        lemma_response_at(rest, row);
        if response_at(rest, row) == rest.len() {
            assert forall|i: int| 0 <= i < sources.len() implies !same_response(
                #[trigger] sources[i],
                row,
            ) by {
                if i > 0 {
                    assert(!same_response(rest[i - 1], row));
                }
            }
        }
    }
}

/// Storing a response of a known work keeps the state coherent, and the response is
/// in it.
pub proof fn law_a_stored_response_is_kept(
    state: StateView,
    work_id: Seq<char>,
    raw: RawSourceRecordView,
)
    requires
        coherent(state),
        knows_work(state.works, work_id),
    ensures
        coherent(with_raw(state, work_id, raw)),
        with_raw(state, work_id, raw).sources.contains(response_row(work_id, raw)),
{
    let row = response_row(work_id, raw);
    let next = with_response(state.sources, row);
    lemma_response_at(state.sources, row);
    let at = response_at(state.sources, row) as int;
    assert forall|i: int, j: int| 0 <= i < j < next.len() implies !same_response(
        #[trigger] next[i],
        #[trigger] next[j],
    ) by {
        if j < state.sources.len() {
            assert(!same_response(state.sources[i], state.sources[j]));
        }
    }
    assert forall|i: int| 0 <= i < next.len() implies knows_work(
        state.works,
        (#[trigger] next[i]).work_id,
    ) by {
        if i < state.sources.len() && i != at {
            assert(knows_work(state.works, state.sources[i].work_id));
        }
    }
    assert(next[at] == row);
}

fn find_response(sources: &Vec<StoredSource>, row: &StoredSource) -> (r: usize)
    ensures
        r == response_at(views(sources@), row@),
        r <= sources@.len(),
{
    let ghost all = views(sources@);
    let mut i: usize = 0;
    assert(all.skip(0) =~= all);
    while i < sources.len()
        invariant
            i <= sources@.len(),
            all == views(sources@),
            response_at(all, row@) == i + response_at(all.skip(i as int), row@),
        decreases sources@.len() - i,
    {
        assert(all.skip(i as int)[0] == sources@[i as int]@);
        assert(all.skip(i as int).skip(1) =~= all.skip(i + 1));
        if same_text(&sources[i].source, &row.source) && same_text(
            &sources[i].source_id,
            &row.source_id,
        ) {
            return i;
        }
        i += 1;
    }
    i
}

/// The state with another row in place of that of the work, where it is known.
pub open spec fn with_row(state: StateView, work_id: Seq<char>, row: StoredWorkView) -> StateView {
    let at = work_at(state.works, work_id) as int;
    if at < state.works.len() {
        StateView { works: state.works.update(at, row), ..state }
    } else {
        state
    }
}

/// The row of a work.
pub open spec fn row_of(state: StateView, work_id: Seq<char>) -> StoredWorkView {
    state.works[work_at(state.works, work_id) as int]
}

/// Another row with the same identifier and scores keeps the state coherent.
proof fn lemma_with_row(state: StateView, work_id: Seq<char>, row: StoredWorkView)
    requires
        coherent(state),
        row.work_id == work_id,
        knows_work(state.works, work_id) ==> row.quality_score == row_of(
            state,
            work_id,
        ).quality_score && row.relevance_score == row_of(state, work_id).relevance_score
            && row.priority_score == row_of(state, work_id).priority_score,
    ensures
        coherent(with_row(state, work_id, row)),
{
    lemma_work_at(state.works, work_id);
    let at = work_at(state.works, work_id) as int;
    if at < state.works.len() {
        let works = state.works.update(at, row);
        assert forall|i: int, j: int| 0 <= i < j < works.len() implies (
        #[trigger] works[i]).work_id != (#[trigger] works[j]).work_id by {
            assert(state.works[i].work_id != state.works[j].work_id);
        }
        assert forall|i: int| 0 <= i < works.len() implies scores_ordered(#[trigger] works[i]) by {
            assert(scores_ordered(state.works[i]));
        }
        lemma_more_works(state, works);
    }
}

/// The state with a work marked as downloaded.
pub open spec fn downloaded(
    state: StateView,
    work_id: Seq<char>,
    artifact: PdfArtifactView,
    updated_at: Seq<char>,
) -> StateView {
    with_row(
        state,
        work_id,
        StoredWorkView {
            status: "downloaded"@,
            pdf_url: Some(artifact.url),
            pdf_path: Some(artifact.path),
            pdf_sha256: Some(artifact.sha256),
            pdf_license: Some(artifact.license),
            last_error: None,
            updated_at,
            ..row_of(state, work_id)
        },
    )
}

/// The state with a work marked with a status and perhaps an error.
pub open spec fn marked(
    state: StateView,
    work_id: Seq<char>,
    status: Seq<char>,
    last_error: Option<Seq<char>>,
    updated_at: Seq<char>,
) -> StateView {
    with_row(
        state,
        work_id,
        StoredWorkView { status, last_error, updated_at, ..row_of(state, work_id) },
    )
}

/// The pages that belong to other works.
pub open spec fn other_pages(pages: Seq<PageRecordView>, work_id: Seq<char>) -> Seq<PageRecordView>
    decreases pages.len(),
{
    if pages.len() == 0 {
        Seq::empty()
    } else {
        let rest = other_pages(pages.drop_last(), work_id);
        if pages.last().work_id == work_id {
            rest
        } else {
            rest.push(pages.last())
        }
    }
}

/// The state with the pages of a work replaced.
pub open spec fn with_pages(
    state: StateView,
    work_id: Seq<char>,
    pages: Seq<PageRecordView>,
    updated_at: Seq<char>,
) -> StateView {
    with_row(
        StateView { pages: other_pages(state.pages, work_id) + pages, ..state },
        work_id,
        StoredWorkView {
            status: "rendered"@,
            page_count: pages.len() as u64,
            last_error: None,
            updated_at,
            ..row_of(state, work_id)
        },
    )
}

/// Why the pages of a work cannot be replaced.
pub open spec fn pages_fault(
    state: StateView,
    work_id: Seq<char>,
    pages: Seq<PageRecordView>,
) -> Option<StateError> {
    if !pages_known(pages, state.works) {
        Some(StateError::UnknownWork)
    } else if !pages_apart(other_pages(state.pages, work_id) + pages) {
        Some(StateError::DuplicatePage)
    } else {
        None
    }
}

proof fn lemma_other_pages(pages: Seq<PageRecordView>, work_id: Seq<char>)
    ensures
        forall|i: int|
            0 <= i < other_pages(pages, work_id).len() ==> pages.contains(
                #[trigger] other_pages(pages, work_id)[i],
            ) && other_pages(pages, work_id)[i].work_id != work_id,
    decreases pages.len(),
{
    if pages.len() > 0 {
        let rest = pages.drop_last();
        lemma_other_pages(rest, work_id);
        assert forall|i: int| 0 <= i < other_pages(pages, work_id).len() implies pages.contains(
            #[trigger] other_pages(pages, work_id)[i],
        ) && other_pages(pages, work_id)[i].work_id != work_id by {
            if i < other_pages(rest, work_id).len() {
                let page = other_pages(rest, work_id)[i];
                assert(rest.contains(page));
                let k = choose|k: int| 0 <= k < rest.len() && rest[k] == page;
                assert(pages[k] == page);
            } else {
                assert(pages[pages.len() - 1] == pages.last());
            }
        }
    }
}

proof fn lemma_with_pages(
    state: StateView,
    work_id: Seq<char>,
    pages: Seq<PageRecordView>,
    updated_at: Seq<char>,
)
    requires
        coherent(state),
        pages_fault(state, work_id, pages) is None,
    ensures
        coherent(with_pages(state, work_id, pages, updated_at)),
{
    let all = other_pages(state.pages, work_id) + pages;
    let swapped = StateView { pages: all, ..state };
    lemma_other_pages(state.pages, work_id);
    assert forall|i: int| 0 <= i < all.len() implies knows_work(
        state.works,
        (#[trigger] all[i]).work_id,
    ) by {
        if i < other_pages(state.pages, work_id).len() {
            let page = other_pages(state.pages, work_id)[i];
            assert(state.pages.contains(page));
            let k = choose|k: int| 0 <= k < state.pages.len() && state.pages[k] == page;
            assert(knows_work(state.works, state.pages[k].work_id));
        } else {
            let k = i - other_pages(state.pages, work_id).len();
            assert(all[i] == pages[k]);
            assert(knows_work(state.works, pages[k].work_id));
        }
    }
    assert(coherent(swapped));
    lemma_work_at(state.works, work_id);
    lemma_with_row(
        swapped,
        work_id,
        StoredWorkView {
            status: "rendered"@,
            page_count: pages.len() as u64,
            last_error: None,
            updated_at,
            work_id,
            ..row_of(state, work_id)
        },
    );
}

fn clash(a: &PageRecord, b: &PageRecord) -> (r: bool)
    ensures
        r == pages_clash(a@, b@),
{
    same_text(&a.page_id, &b.page_id) || (same_text(&a.work_id, &b.work_id) && a.page_number
        == b.page_number)
}

fn are_apart(pages: &Vec<PageRecord>) -> (r: bool)
    ensures
        r == pages_apart(views(pages@)),
{
    let ghost all = views(pages@);
    let mut j: usize = 0;
    while j < pages.len()
        invariant
            j <= pages@.len(),
            all == views(pages@),
            forall|a: int, b: int|
                0 <= a < b < j ==> !pages_clash(#[trigger] all[a], #[trigger] all[b]),
        decreases pages@.len() - j,
    {
        let mut i: usize = 0;
        while i < j
            invariant
                i <= j,
                j < pages@.len(),
                all == views(pages@),
                forall|a: int, b: int|
                    0 <= a < b < j ==> !pages_clash(#[trigger] all[a], #[trigger] all[b]),
                forall|a: int| 0 <= a < i ==> !pages_clash(#[trigger] all[a], all[j as int]),
            decreases j - i,
        {
            assert(all[i as int] == pages@[i as int]@);
            assert(all[j as int] == pages@[j as int]@);
            if clash(&pages[i], &pages[j]) {
                assert(pages_clash(all[i as int], all[j as int]));
                return false;
            }
            i += 1;
        }
        j += 1;
    }
    true
}

fn are_known(pages: &Vec<PageRecord>, works: &Vec<StoredWork>) -> (r: bool)
    ensures
        r == pages_known(views(pages@), views(works@)),
{
    let ghost all = views(pages@);
    let ghost table = views(works@);
    let mut i: usize = 0;
    while i < pages.len()
        invariant
            i <= pages@.len(),
            all == views(pages@),
            table == views(works@),
            forall|j: int| 0 <= j < i ==> knows_work(table, (#[trigger] all[j]).work_id),
        decreases pages@.len() - i,
    {
        assert(all[i as int] == pages@[i as int]@);
        proof {
            lemma_work_at(table, all[i as int].work_id);
        }
        if find_work(works, &pages[i].work_id) == works.len() {
            assert(!knows_work(table, all[i as int].work_id));
            return false;
        }
        i += 1;
    }
    true
}

fn drop_pages(pages: Vec<PageRecord>, work_id: &str) -> (r: Vec<PageRecord>)
    ensures
        views(r@) == other_pages(views(pages@), work_id@),
{
    let ghost all = views(pages@);
    let ghost items = pages@;
    let mut out: Vec<PageRecord> = Vec::new();
    assert(views(out@) =~= other_pages(all.take(0), work_id@));
    for page in it: pages
        invariant
            it.seq() == items,
            all == views(items),
            views(out@) == other_pages(all.take(it.index() as int), work_id@),
    {
        let ghost i = it.index() as int;
        assert(all.take(i + 1).drop_last() =~= all.take(i));
        assert(all.take(i + 1).last() == page@);
        let ghost before = views(out@);
        if !same_text(&page.work_id, work_id) {
            let ghost added = page@;
            out.push(page);
            assert(views(out@) =~= before.push(added));
        }
    }
    assert(all.take(all.len() as int) =~= all);
    out
}

/// The page is among those listed.
pub open spec fn listed(page_id: Seq<char>, pages: Seq<PageRecordView>) -> bool {
    exists|i: int| 0 <= i < pages.len() && (#[trigger] pages[i]).page_id == page_id
}

/// The pages with those listed marked as indexed.
pub open spec fn indexed_pages(
    pages: Seq<PageRecordView>,
    marked: Seq<PageRecordView>,
    timestamp: Seq<char>,
) -> Seq<PageRecordView> {
    Seq::new(
        pages.len(),
        |i: int|
            if listed(pages[i].page_id, marked) {
                PageRecordView { indexed_at: Some(timestamp), ..pages[i] }
            } else {
                pages[i]
            },
    )
}

/// Some page of the work is indexed and none is pending.
pub open spec fn fully_indexed(pages: Seq<PageRecordView>, work_id: Seq<char>) -> bool {
    &&& exists|i: int|
        0 <= i < pages.len() && (#[trigger] pages[i]).work_id == work_id && pages[i].indexed_at is Some
    &&& forall|i: int|
        0 <= i < pages.len() && (#[trigger] pages[i]).work_id == work_id
            ==> pages[i].indexed_at is Some
}

/// The works with those marked as indexed of which all pages are.
pub open spec fn indexed_works(
    works: Seq<StoredWorkView>,
    pages: Seq<PageRecordView>,
    timestamp: Seq<char>,
) -> Seq<StoredWorkView> {
    Seq::new(
        works.len(),
        |i: int|
            if fully_indexed(pages, works[i].work_id) {
                StoredWorkView { status: "indexed"@, updated_at: timestamp, ..works[i] }
            } else {
                works[i]
            },
    )
}

/// The state with pages marked as indexed, and the works of which all pages are.
pub open spec fn with_indexed(
    state: StateView,
    marked: Seq<PageRecordView>,
    timestamp: Seq<char>,
) -> StateView {
    let pages = indexed_pages(state.pages, marked, timestamp);
    StateView { pages, works: indexed_works(state.works, pages, timestamp), ..state }
}

proof fn lemma_with_indexed(
    state: StateView,
    marked: Seq<PageRecordView>,
    timestamp: Seq<char>,
)
    requires
        coherent(state),
    ensures
        coherent(with_indexed(state, marked, timestamp)),
{
    let pages = indexed_pages(state.pages, marked, timestamp);
    let works = indexed_works(state.works, pages, timestamp);
    let middle = StateView { pages, ..state };
    assert forall|i: int, j: int| 0 <= i < j < pages.len() implies !pages_clash(
        #[trigger] pages[i],
        #[trigger] pages[j],
    ) by {
        assert(!pages_clash(state.pages[i], state.pages[j]));
    }
    assert forall|i: int| 0 <= i < pages.len() implies knows_work(
        state.works,
        (#[trigger] pages[i]).work_id,
    ) by {
        assert(knows_work(state.works, state.pages[i].work_id));
    }
    assert forall|i: int, j: int| 0 <= i < j < works.len() implies (
    #[trigger] works[i]).work_id != (#[trigger] works[j]).work_id by {
        assert(state.works[i].work_id != state.works[j].work_id);
    }
    assert forall|i: int| 0 <= i < works.len() implies scores_ordered(#[trigger] works[i]) by {
        assert(scores_ordered(state.works[i]));
    }
    lemma_more_works(middle, works);
}

fn is_listed(page_id: &str, pages: &Vec<PageRecord>) -> (r: bool)
    ensures
        r == listed(page_id@, views(pages@)),
{
    let ghost all = views(pages@);
    let mut i: usize = 0;
    while i < pages.len()
        invariant
            i <= pages@.len(),
            all == views(pages@),
            forall|j: int| 0 <= j < i ==> (#[trigger] all[j]).page_id != page_id@,
        decreases pages@.len() - i,
    {
        assert(all[i as int] == pages@[i as int]@);
        if same_text(&pages[i].page_id, page_id) {
            return true;
        }
        i += 1;
    }
    false
}

fn is_fully_indexed(pages: &Vec<PageRecord>, work_id: &str) -> (r: bool)
    ensures
        r == fully_indexed(views(pages@), work_id@),
{
    let ghost all = views(pages@);
    let mut some = false;
    let mut i: usize = 0;
    while i < pages.len()
        invariant
            i <= pages@.len(),
            all == views(pages@),
            some == exists|j: int|
                0 <= j < i && (#[trigger] all[j]).work_id == work_id@ && all[j].indexed_at is Some,
            forall|j: int|
                0 <= j < i && (#[trigger] all[j]).work_id == work_id@ ==> all[j].indexed_at is Some,
        decreases pages@.len() - i,
    {
        assert(all[i as int] == pages@[i as int]@);
        if same_text(&pages[i].work_id, work_id) {
            if pages[i].indexed_at.is_none() {
                assert(all[i as int].indexed_at is None);
                return false;
            }
            assert(all[i as int].work_id == work_id@);
            some = true;
        }
        i += 1;
    }
    some
}

fn index_pages(pages: Vec<PageRecord>, marked: &Vec<PageRecord>, timestamp: &str) -> (r: Vec<
    PageRecord,
>)
    ensures
        views(r@) == indexed_pages(views(pages@), views(marked@), timestamp@),
{
    let ghost all = views(pages@);
    let ghost items = pages@;
    let ghost wanted = indexed_pages(all, views(marked@), timestamp@);
    let mut out: Vec<PageRecord> = Vec::new();
    for page in it: pages
        invariant
            it.seq() == items,
            all == views(items),
            wanted == indexed_pages(all, views(marked@), timestamp@),
            out@.len() == it.index(),
            forall|j: int| 0 <= j < out@.len() ==> (#[trigger] out@[j])@ == wanted[j],
    {
        assert(all[it.index() as int] == page@);
        if is_listed(&page.page_id, marked) {
            let next = PageRecord {
                page_id: page.page_id,
                work_id: page.work_id,
                page_number: page.page_number,
                image_path: page.image_path,
                image_sha256: page.image_sha256,
                page_text: page.page_text,
                width: page.width,
                height: page.height,
                indexed_at: Some(timestamp.to_owned()),
            };
            out.push(next);
        } else {
            out.push(page);
        }
    }
    assert(views(out@) =~= wanted);
    out
}

fn index_works(works: Vec<StoredWork>, pages: &Vec<PageRecord>, timestamp: &str) -> (r: Vec<
    StoredWork,
>)
    ensures
        views(r@) == indexed_works(views(works@), views(pages@), timestamp@),
{
    let ghost all = views(works@);
    let ghost items = works@;
    let ghost wanted = indexed_works(all, views(pages@), timestamp@);
    let mut out: Vec<StoredWork> = Vec::new();
    for work in it: works
        invariant
            it.seq() == items,
            all == views(items),
            wanted == indexed_works(all, views(pages@), timestamp@),
            out@.len() == it.index(),
            forall|j: int| 0 <= j < out@.len() ==> (#[trigger] out@[j])@ == wanted[j],
    {
        assert(all[it.index() as int] == work@);
        let mut row = work;
        if is_fully_indexed(pages, &row.work_id) {
            row.status = "indexed".to_owned();
            row.updated_at = timestamp.to_owned();
        }
        out.push(row);
    }
    assert(views(out@) =~= wanted);
    out
}

/// After pages were marked, a work has the status of an indexed one exactly where it
/// had it before, or has pages and all of them are indexed; and only the status and
/// the time of its row can change.
pub proof fn law_works_are_indexed_with_their_last_page(
    state: StateView,
    marked: Seq<PageRecordView>,
    timestamp: Seq<char>,
    i: int,
)
    requires
        0 <= i < state.works.len(),
    ensures
        ({
            let next = with_indexed(state, marked, timestamp);
            &&& next.works[i].status == "indexed"@ <==> state.works[i].status == "indexed"@
                || fully_indexed(next.pages, state.works[i].work_id)
            &&& next.works[i] == (StoredWorkView {
                status: next.works[i].status,
                updated_at: next.works[i].updated_at,
                ..state.works[i]
            })
        }),
{
}

impl State {
    /// Stores a response of a known work, in place of an earlier one with its key.
    pub fn store_raw(&mut self, work_id: &str, raw: RawSourceRecord) -> (r: Result<(), StateError>)
        ensures
            match r {
                Ok(()) => knows_work(old(self)@.works, work_id@) && final(self)@ == with_raw(
                    old(self)@,
                    work_id@,
                    raw@,
                ),
                Err(error) => error == StateError::UnknownWork && !knows_work(
                    old(self)@.works,
                    work_id@,
                ) && final(self)@ == old(self)@,
            },
    {
        proof {
            use_type_invariant(&*self);
            lemma_work_at(self@.works, work_id@);
        }
        if find_work(&self.works, work_id) == self.works.len() {
            return Err(StateError::UnknownWork);
        }
        proof {
            law_a_stored_response_is_kept(self@, work_id@, raw@);
        }
        let ghost wanted = with_raw(self@, work_id@, raw@).sources;
        let row = StoredSource {
            source: raw.source,
            source_id: raw.source_id,
            work_id: work_id.to_owned(),
            retrieved_at: raw.retrieved_at,
            raw: Some(raw.raw),
        };
        let State { workspace, corpus_id, works, sources, pages } = self.take();
        let at = find_response(&sources, &row);
        let mut rows = sources;
        if at < rows.len() {
            rows.set(at, row);
        } else {
            rows.push(row);
        }
        assert(views(rows@) =~= wanted);
        *self = State { workspace, corpus_id, works, sources: rows, pages };
        Ok(())
    }

    fn set_row(&mut self, at: usize, row: StoredWork)
        requires
            at < old(self)@.works.len(),
            at == work_at(old(self)@.works, row@.work_id),
            row@.quality_score == old(self)@.works[at as int].quality_score,
            row@.relevance_score == old(self)@.works[at as int].relevance_score,
            row@.priority_score == old(self)@.works[at as int].priority_score,
        ensures
            final(self)@ == with_row(old(self)@, row@.work_id, row@),
    {
        proof {
            use_type_invariant(&*self);
            lemma_work_at(self@.works, row@.work_id);
            lemma_with_row(self@, row@.work_id, row@);
        }
        let ghost wanted = with_row(self@, row@.work_id, row@).works;
        let State { workspace, corpus_id, works, sources, pages } = self.take();
        let mut rows = works;
        rows.set(at, row);
        assert(views(rows@) =~= wanted);
        *self = State { workspace, corpus_id, works: rows, sources, pages };
    }

    /// Marks the work as downloaded, with its preserved PDF. Nothing changes where the
    /// work is not known.
    pub fn mark_downloaded(
        &mut self,
        work_id: &str,
        url: &str,
        path: &str,
        sha256: &str,
        license: &str,
        updated_at: String,
    )
        ensures
            final(self)@ == downloaded(
                old(self)@,
                work_id@,
                (PdfArtifactView { url: url@, path: path@, sha256: sha256@, license: license@ }),
                updated_at@,
            ),
    {
        let at = find_work(&self.works, work_id);
        proof {
            lemma_work_at(self@.works, work_id@);
        }
        if at < self.works.len() {
            let mut row = self.works[at].duplicate();
            row.status = "downloaded".to_owned();
            row.pdf_url = Some(url.to_owned());
            row.pdf_path = Some(path.to_owned());
            row.pdf_sha256 = Some(sha256.to_owned());
            row.pdf_license = Some(license.to_owned());
            row.last_error = None;
            row.updated_at = updated_at;
            self.set_row(at, row);
        }
    }

    fn mark(&mut self, work_id: &str, status: String, last_error: Option<String>, updated_at: String)
        ensures
            final(self)@ == marked(
                old(self)@,
                work_id@,
                status@,
                opt_text(last_error),
                updated_at@,
            ),
    {
        let at = find_work(&self.works, work_id);
        proof {
            lemma_work_at(self@.works, work_id@);
        }
        if at < self.works.len() {
            let mut row = self.works[at].duplicate();
            row.status = status;
            row.last_error = last_error;
            row.updated_at = updated_at;
            self.set_row(at, row);
        }
    }

    /// Marks the work as one whose PDF the user is to supply. Nothing changes where the
    /// work is not known.
    pub fn mark_awaiting_manual_download(&mut self, work_id: &str, updated_at: String)
        ensures
            final(self)@ == marked(
                old(self)@,
                work_id@,
                "awaiting-manual-download"@,
                None,
                updated_at@,
            ),
    {
        self.mark(work_id, "awaiting-manual-download".to_owned(), None, updated_at);
    }

    /// Marks the work as one that failed at a stage. Nothing changes where the work is
    /// not known.
    pub fn mark_error(&mut self, work_id: &str, stage: &str, error: &str, updated_at: String)
        ensures
            final(self)@ == marked(
                old(self)@,
                work_id@,
                "error:"@ + stage@,
                Some(error@),
                updated_at@,
            ),
    {
        let mut status = "error:".to_owned();
        status.append(stage);
        self.mark(work_id, status, Some(error.to_owned()), updated_at);
    }

    /// Replaces the pages of a work, and marks it as rendered. Nothing changes where the
    /// pages clash or belong to an unknown work.
    pub fn replace_pages(
        &mut self,
        work_id: &str,
        new_pages: Vec<PageRecord>,
        updated_at: String,
    ) -> (r: Result<(), StateError>)
        ensures
            match r {
                Ok(()) => pages_fault(old(self)@, work_id@, views(new_pages@)) is None
                    && final(self)@ == with_pages(
                    old(self)@,
                    work_id@,
                    views(new_pages@),
                    updated_at@,
                ),
                Err(error) => pages_fault(old(self)@, work_id@, views(new_pages@)) == Some(error)
                    && final(self)@ == old(self)@,
            },
    {
        let ghost before = self@;
        let ghost added = views(new_pages@);
        let ghost start = new_pages@;
        if !are_known(&new_pages, &self.works) {
            return Err(StateError::UnknownWork);
        }
        let count: u64 = new_pages.len() as u64;
        let mut all = drop_pages(duplicate_all(&self.pages), work_id);
        let ghost kept = all@;
        let mut more = new_pages;
        all.append(&mut more);
        assert(views(all@) =~= views(kept) + added);
        if !are_apart(&all) {
            return Err(StateError::DuplicatePage);
        }
        proof {
            use_type_invariant(&*self);
            lemma_work_at(before.works, work_id@);
            lemma_with_pages(before, work_id@, added, updated_at@);
        }
        let ghost wanted = with_pages(before, work_id@, added, updated_at@);
        let at = find_work(&self.works, work_id);
        let State { workspace, corpus_id, works, sources, pages: _ } = self.take();
        let mut rows = works;
        if at < rows.len() {
            let mut row = rows[at].duplicate();
            row.status = "rendered".to_owned();
            row.page_count = count;
            row.last_error = None;
            row.updated_at = updated_at;
            rows.set(at, row);
        }
        assert(views(rows@) =~= wanted.works);
        *self = State { workspace, corpus_id, works: rows, sources, pages: all };
        Ok(())
    }

    /// Marks the pages as indexed, and the works of which all pages are.
    pub fn mark_pages_indexed(&mut self, marked: &Vec<PageRecord>, timestamp: &str)
        ensures
            final(self)@ == with_indexed(old(self)@, views(marked@), timestamp@),
    {
        proof {
            use_type_invariant(&*self);
            lemma_with_indexed(self@, views(marked@), timestamp@);
        }
        let State { workspace, corpus_id, works, sources, pages } = self.take();
        let next_pages = index_pages(pages, marked, timestamp);
        let next_works = index_works(works, &next_pages, timestamp);
        *self = State {
            workspace,
            corpus_id,
            works: next_works,
            sources,
            pages: next_pages,
        };
    }
}

/// A row of works in the order of priority, the greatest first.
#[derive(Debug)]
pub struct ByPriority {
    pub row: StoredWork,
}

impl View for ByPriority {
    type V = StoredWorkView;

    open spec fn view(&self) -> StoredWorkView {
        self.row@
    }
}

impl Ranked for ByPriority {
    open spec fn before(a: StoredWorkView, b: StoredWorkView) -> bool {
        b.priority_score.rank() < a.priority_score.rank()
    }

    fn comes_before(&self, other: &ByPriority) -> (r: bool) {
        ranks_below(&other.row.priority_score, &self.row.priority_score)
    }

    proof fn lemma_chain(a: StoredWorkView, b: StoredWorkView, c: StoredWorkView) {
    }

    proof fn lemma_one_way(a: StoredWorkView, b: StoredWorkView) {
    }
}

/// Whether the first score has the lesser rank.
fn ranks_below(a: &Score, b: &Score) -> (r: bool)
    ensures
        r == (a.rank() < b.rank()),
{
    if a.bits >= crate::score::SIGN_BIT {
        if b.bits >= crate::score::SIGN_BIT {
            a.bits > b.bits
        } else {
            a.bits > crate::score::SIGN_BIT || b.bits > 0
        }
    } else {
        b.bits < crate::score::SIGN_BIT && a.bits < b.bits
    }
}

/// A row of works in the order of a catalog: by priority, then by identifier.
#[derive(Debug)]
pub struct InCatalog {
    pub row: StoredWork,
}

impl View for InCatalog {
    type V = StoredWorkView;

    open spec fn view(&self) -> StoredWorkView {
        self.row@
    }
}

impl Ranked for InCatalog {
    open spec fn before(a: StoredWorkView, b: StoredWorkView) -> bool {
        b.priority_score.rank() < a.priority_score.rank() || (b.priority_score.rank()
            == a.priority_score.rank() && text_less(a.work_id, b.work_id))
    }

    fn comes_before(&self, other: &InCatalog) -> (r: bool) {
        ranks_below(&other.row.priority_score, &self.row.priority_score) || (!ranks_below(
            &self.row.priority_score,
            &other.row.priority_score,
        ) && is_less(&self.row.work_id, &other.row.work_id))
    }

    proof fn lemma_chain(a: StoredWorkView, b: StoredWorkView, c: StoredWorkView) {
        lemma_text_chain(a.work_id, b.work_id, c.work_id);
    }

    proof fn lemma_one_way(a: StoredWorkView, b: StoredWorkView) {
        lemma_text_one_way(a.work_id, b.work_id);
    }
}

/// A page in the order in which pages are indexed: by work, then by number.
#[derive(Debug)]
pub struct InReadingOrder {
    pub page: PageRecord,
}

impl View for InReadingOrder {
    type V = PageRecordView;

    open spec fn view(&self) -> PageRecordView {
        self.page@
    }
}

impl Ranked for InReadingOrder {
    open spec fn before(a: PageRecordView, b: PageRecordView) -> bool {
        text_less(a.work_id, b.work_id) || (a.work_id == b.work_id && a.page_number < b.page_number)
    }

    fn comes_before(&self, other: &InReadingOrder) -> (r: bool) {
        is_less(&self.page.work_id, &other.page.work_id) || (same_text(
            &self.page.work_id,
            &other.page.work_id,
        ) && self.page.page_number < other.page.page_number)
    }

    proof fn lemma_chain(a: PageRecordView, b: PageRecordView, c: PageRecordView) {
        lemma_text_chain(a.work_id, b.work_id, c.work_id);
        lemma_text_total(a.work_id, b.work_id);
        lemma_text_total(b.work_id, c.work_id);
        lemma_text_one_way(a.work_id, b.work_id);
        lemma_text_one_way(b.work_id, c.work_id);
        lemma_text_total(a.work_id, c.work_id);
    }

    proof fn lemma_one_way(a: PageRecordView, b: PageRecordView) {
        lemma_text_one_way(a.work_id, b.work_id);
    }
}

impl Ranked for SourceLocator {
    open spec fn before(a: SourceLocatorView, b: SourceLocatorView) -> bool {
        text_less(a.source, b.source) || (a.source == b.source && text_less(
            a.source_id,
            b.source_id,
        ))
    }

    fn comes_before(&self, other: &SourceLocator) -> (r: bool) {
        is_less(&self.source, &other.source) || (same_text(&self.source, &other.source) && is_less(
            &self.source_id,
            &other.source_id,
        ))
    }

    proof fn lemma_chain(a: SourceLocatorView, b: SourceLocatorView, c: SourceLocatorView) {
        lemma_text_chain(a.source, b.source, c.source);
        lemma_text_total(a.source, b.source);
        lemma_text_total(b.source, c.source);
        lemma_text_total(a.source, c.source);
        lemma_text_one_way(a.source, b.source);
        lemma_text_one_way(b.source, c.source);
        lemma_text_chain(a.source_id, b.source_id, c.source_id);
    }

    proof fn lemma_one_way(a: SourceLocatorView, b: SourceLocatorView) {
        lemma_text_one_way(a.source, b.source);
        lemma_text_one_way(a.source_id, b.source_id);
    }
}

impl Ranked for PageLocator {
    open spec fn before(a: PageLocatorView, b: PageLocatorView) -> bool {
        a.page_number < b.page_number
    }

    fn comes_before(&self, other: &PageLocator) -> (r: bool) {
        self.page_number < other.page_number
    }

    proof fn lemma_chain(a: PageLocatorView, b: PageLocatorView, c: PageLocatorView) {
    }

    proof fn lemma_one_way(a: PageLocatorView, b: PageLocatorView) {
    }
}

impl Ranked for StoredArtifactStatus {
    open spec fn before(a: StoredArtifactStatusView, b: StoredArtifactStatusView) -> bool {
        text_less(a.work_id, b.work_id)
    }

    fn comes_before(&self, other: &StoredArtifactStatus) -> (r: bool) {
        is_less(&self.work_id, &other.work_id)
    }

    proof fn lemma_chain(
        a: StoredArtifactStatusView,
        b: StoredArtifactStatusView,
        c: StoredArtifactStatusView,
    ) {
        lemma_text_chain(a.work_id, b.work_id, c.work_id);
    }

    proof fn lemma_one_way(a: StoredArtifactStatusView, b: StoredArtifactStatusView) {
        lemma_text_one_way(a.work_id, b.work_id);
    }
}

/// Every record can be read.
pub open spec fn all_readable(works: Seq<StoredWorkView>) -> bool {
    forall|i: int| 0 <= i < works.len() ==> (#[trigger] works[i]).record is Some
}

/// The works in order, each with its record and status.
pub open spec fn works_listed(works: Seq<StoredWorkView>) -> Seq<
    (Seq<char>, WorkRecordView, Seq<char>),
> {
    let sorted = ordered::<ByPriority>(works);
    Seq::new(
        sorted.len(),
        |i: int| (sorted[i].work_id, sorted[i].record->0, sorted[i].status),
    )
}

/// The works with one of the statuses, each with its record.
pub open spec fn works_in(
    works: Seq<(Seq<char>, WorkRecordView, Seq<char>)>,
    statuses: Seq<Seq<char>>,
) -> Seq<(Seq<char>, WorkRecordView)>
    decreases works.len(),
{
    if works.len() == 0 {
        Seq::empty()
    } else {
        let rest = works_in(works.drop_last(), statuses);
        if statuses.contains(works.last().2) {
            rest.push((works.last().0, works.last().1))
        } else {
            rest
        }
    }
}

fn copy_rows(works: &Vec<StoredWork>) -> (r: Option<Vec<ByPriority>>)
    ensures
        r is Some <==> all_readable(views(works@)),
        r matches Some(rows) ==> views(rows@) == views(works@),
{
    let ghost all = views(works@);
    let mut rows: Vec<ByPriority> = Vec::new();
    let mut i: usize = 0;
    while i < works.len()
        invariant
            i <= works@.len(),
            all == views(works@),
            rows@.len() == i,
            forall|j: int| 0 <= j < i ==> (#[trigger] rows@[j])@ == all[j],
            forall|j: int| 0 <= j < i ==> (#[trigger] all[j]).record is Some,
        decreases works@.len() - i,
    {
        assert(all[i as int] == works@[i as int]@);
        if works[i].record.is_none() {
            assert(all[i as int].record is None);
            return None;
        }
        rows.push(ByPriority { row: works[i].duplicate() });
        i += 1;
    }
    assert(views(rows@) =~= all);
    Some(rows)
}

/// Sorted rows of a table can be read where all can.
proof fn lemma_readable(works: Seq<StoredWorkView>)
    requires
        all_readable(works),
    ensures
        all_readable(ordered::<ByPriority>(works)),
        ordered::<ByPriority>(works).len() == works.len(),
{
    let sorted = ordered::<ByPriority>(works);
    law_ordered::<ByPriority>(works);
    assert forall|i: int| 0 <= i < sorted.len() implies (#[trigger] sorted[i]).record is Some by {
        broadcast use vstd::seq_lib::group_to_multiset_ensures;

        assert(sorted.to_multiset().contains(sorted[i]));
        assert(works.contains(sorted[i]));
    }
}

/// How many pages of the work are stored.
pub open spec fn page_total(pages: Seq<PageRecordView>, work_id: Seq<char>) -> nat
    decreases pages.len(),
{
    if pages.len() == 0 {
        0
    } else if pages.last().work_id == work_id {
        page_total(pages.drop_last(), work_id) + 1
    } else {
        page_total(pages.drop_last(), work_id)
    }
}

/// How many pages of the work are indexed.
pub open spec fn indexed_total(pages: Seq<PageRecordView>, work_id: Seq<char>) -> nat
    decreases pages.len(),
{
    if pages.len() == 0 {
        0
    } else if pages.last().work_id == work_id && pages.last().indexed_at is Some {
        indexed_total(pages.drop_last(), work_id) + 1
    } else {
        indexed_total(pages.drop_last(), work_id)
    }
}

fn count_pages(pages: &Vec<PageRecord>, work_id: &str) -> (r: (u64, u64))
    ensures
        r.0 == page_total(views(pages@), work_id@),
        r.1 == indexed_total(views(pages@), work_id@),
{
    let ghost all = views(pages@);
    let total: usize = pages.len();
    let mut stored: u64 = 0;
    let mut indexed: u64 = 0;
    let mut i: usize = 0;
    while i < total
        invariant
            i <= total,
            total == pages@.len(),
            all == views(pages@),
            stored == page_total(all.take(i as int), work_id@),
            indexed == indexed_total(all.take(i as int), work_id@),
            stored <= i,
            indexed <= i,
        decreases total - i,
    {
        assert(all.take(i + 1).drop_last() =~= all.take(i as int));
        assert(all.take(i + 1).last() == pages@[i as int]@);
        if same_text(&pages[i].work_id, work_id) {
            stored += 1;
            if pages[i].indexed_at.is_some() {
                indexed += 1;
            }
        }
        i += 1;
    }
    assert(all.take(all.len() as int) =~= all);
    (stored, indexed)
}

/// The text, or nothing.
pub open spec fn text_or_empty(value: Option<Seq<char>>) -> Seq<char> {
    match value {
        Some(text) => text,
        None => Seq::empty(),
    }
}

fn copy_or_empty(value: &Option<String>) -> (r: String)
    ensures
        r@ == text_or_empty(opt_text(*value)),
{
    match value {
        Some(text) => text.clone(),
        None => String::new(),
    }
}

/// The preserved PDF of a work, as far as it is known.
pub open spec fn artifact_of(row: StoredWorkView) -> PdfArtifactView {
    PdfArtifactView {
        url: text_or_empty(row.pdf_url),
        path: text_or_empty(row.pdf_path),
        sha256: text_or_empty(row.pdf_sha256),
        license: text_or_empty(row.pdf_license),
    }
}

fn read_artifact(row: &StoredWork) -> (r: PdfArtifact)
    ensures
        r@ == artifact_of(row@),
{
    PdfArtifact {
        url: copy_or_empty(&row.pdf_url),
        path: copy_or_empty(&row.pdf_path),
        sha256: copy_or_empty(&row.pdf_sha256),
        license: copy_or_empty(&row.pdf_license),
    }
}

/// How far a work has come, and what of it is preserved.
pub open spec fn artifact_status(
    row: StoredWorkView,
    pages: Seq<PageRecordView>,
) -> StoredArtifactStatusView {
    StoredArtifactStatusView {
        work_id: row.work_id,
        status: row.status,
        pdf_url: text_or_empty(row.pdf_url),
        pdf_path: text_or_empty(row.pdf_path),
        pdf_sha256: text_or_empty(row.pdf_sha256),
        pdf_license: text_or_empty(row.pdf_license),
        declared_page_count: row.page_count,
        stored_page_count: page_total(pages, row.work_id) as u64,
        indexed_page_count: indexed_total(pages, row.work_id) as u64,
        last_error: text_or_empty(row.last_error),
    }
}

/// How far each work has come, by identifier.
pub open spec fn statuses_of(state: StateView) -> Seq<StoredArtifactStatusView> {
    ordered::<StoredArtifactStatus>(
        Seq::new(state.works.len(), |i: int| artifact_status(state.works[i], state.pages)),
    )
}

/// A work as a catalog lists it.
pub open spec fn summary_of(
    row: StoredWorkView,
    work: WorkRecordView,
    pages: Seq<PageRecordView>,
) -> WorkSummaryView {
    WorkSummaryView {
        work_id: row.work_id,
        status: row.status,
        title: work.title,
        publication_year: year_of(work),
        work_type: work.work_type,
        doi: if work.ids.contains_key("doi"@) {
            Some(work.ids["doi"@])
        } else {
            None
        },
        venue: work.container_title,
        quality_score: row.quality_score,
        relevance_score: row.relevance_score,
        priority_score: row.priority_score,
        has_pdf: text_or_empty(row.pdf_path).len() > 0,
        page_count: row.page_count,
        indexed_page_count: indexed_total(pages, row.work_id) as u64,
        updated_at: row.updated_at,
    }
}

fn work_summary(row: &StoredWork, record: &WorkRecord, pages: &Vec<PageRecord>) -> (r: WorkSummary)
    ensures
        r@ == summary_of(row@, record@, views(pages@)),
{
    let (_, indexed_page_count) = count_pages(pages, &row.work_id);
    let doi = match record.ids.get("doi") {
        Some(doi) => Some(doi.clone()),
        None => None,
    };
    let has_pdf = match &row.pdf_path {
        Some(path) => !path.as_str().is_empty(),
        None => false,
    };
    WorkSummary {
        work_id: row.work_id.clone(),
        status: row.status.clone(),
        title: record.title.clone(),
        publication_year: record.year(),
        work_type: record.work_type.clone(),
        doi,
        venue: record.container_title.clone(),
        quality_score: row.quality_score,
        relevance_score: row.relevance_score,
        priority_score: row.priority_score,
        has_pdf,
        page_count: row.page_count,
        indexed_page_count,
        updated_at: row.updated_at.clone(),
    }
}

/// Why the filters of a catalog cannot be used.
pub open spec fn filter_fault(filters: CatalogFiltersView) -> Option<StateError> {
    if filters.limit == 0 {
        Some(StateError::NoLimit)
    } else if filters.year_from is Some && filters.year_to is Some && filters.year_from->0
        > filters.year_to->0 {
        Some(StateError::YearsReversed)
    } else if filters.min_quality_score is Some && !filters.min_quality_score->0.within(
        Score::from_bits(ZERO),
        Score::from_bits(HUNDRED),
    ) {
        Some(StateError::QualityOutOfRange)
    } else {
        None
    }
}

/// The status is one that the filters ask for.
pub open spec fn status_wanted(filters: CatalogFiltersView, status: Seq<char>) -> bool {
    filters.statuses.len() == 0 || filters.statuses.contains(status)
}

/// The work is one that the filters ask for, whatever its status.
pub open spec fn work_wanted(
    filters: CatalogFiltersView,
    row: StoredWorkView,
    work: WorkRecordView,
) -> bool {
    let year = year_of(work);
    let needle = match filters.title_contains {
        Some(text) => lowered(trimmed(text)),
        None => Seq::empty(),
    };
    let sought = filters.title_contains is Some && trimmed(filters.title_contains->0).len() > 0;
    &&& filters.year_from matches Some(least) ==> year is Some && year->0 >= least
    &&& filters.year_to matches Some(most) ==> year is Some && year->0 <= most
    &&& filters.min_quality_score matches Some(least) ==> !row.quality_score.less(least)
    &&& sought ==> holds_text(lowered(work.title), needle)
}

/// The works that the filters ask for, behind those already listed and up to the
/// limit; none where a record that is needed cannot be read.
pub open spec fn catalog_from(
    listed: Seq<WorkSummaryView>,
    rows: Seq<StoredWorkView>,
    pages: Seq<PageRecordView>,
    filters: CatalogFiltersView,
) -> Option<Seq<WorkSummaryView>>
    decreases rows.len(),
{
    if rows.len() == 0 {
        Some(listed)
    } else if !status_wanted(filters, rows[0].status) {
        catalog_from(listed, rows.skip(1), pages, filters)
    } else {
        match rows[0].record {
            None => None,
            Some(work) => if !work_wanted(filters, rows[0], work) {
                catalog_from(listed, rows.skip(1), pages, filters)
            } else {
                let next = listed.push(summary_of(rows[0], work, pages));
                if next.len() == filters.limit {
                    Some(next)
                } else {
                    catalog_from(next, rows.skip(1), pages, filters)
                }
            },
        }
    }
}

/// The catalog of the works that the filters ask for: by priority, then by
/// identifier.
pub open spec fn catalog_of(
    state: StateView,
    filters: CatalogFiltersView,
) -> Option<Seq<WorkSummaryView>> {
    catalog_from(Seq::empty(), ordered::<InCatalog>(state.works), state.pages, filters)
}

fn check_filters(filters: &CatalogFilters) -> (r: Result<(), StateError>)
    ensures
        match r {
            Ok(()) => filter_fault(filters@) is None,
            Err(error) => filter_fault(filters@) == Some(error),
        },
{
    if filters.limit == 0 {
        return Err(StateError::NoLimit);
    }
    if let (Some(from), Some(to)) = (filters.year_from, filters.year_to) {
        if from > to {
            return Err(StateError::YearsReversed);
        }
    }
    if let Some(least) = filters.min_quality_score {
        if !least.is_within(&Score::from_bits(ZERO), &Score::from_bits(HUNDRED)) {
            return Err(StateError::QualityOutOfRange);
        }
    }
    Ok(())
}

fn is_wanted(filters: &CatalogFilters, row: &StoredWork, record: &WorkRecord) -> (r: bool)
    ensures
        r == work_wanted(filters@, row@, record@),
{
    let year = record.year();
    if let Some(least) = filters.year_from {
        match year {
            Some(value) => {
                if value < least {
                    return false;
                }
            },
            None => {
                return false;
            },
        }
    }
    if let Some(most) = filters.year_to {
        match year {
            Some(value) => {
                if value > most {
                    return false;
                }
            },
            None => {
                return false;
            },
        }
    }
    if let Some(least) = filters.min_quality_score {
        if row.quality_score.is_less(&least) {
            return false;
        }
    }
    if let Some(text) = &filters.title_contains {
        let needle = trim(text);
        if !needle.as_str().is_empty() && !contains(&lower(&record.title), &lower(&needle)) {
            return false;
        }
    }
    true
}

/// The summary is of one of the rows, and the filters ask for it.
pub open spec fn asked_for(
    summary: WorkSummaryView,
    rows: Seq<StoredWorkView>,
    pages: Seq<PageRecordView>,
    filters: CatalogFiltersView,
) -> bool {
    exists|k: int|
        0 <= k < rows.len() && (#[trigger] rows[k]).record is Some && status_wanted(
            filters,
            rows[k].status,
        ) && work_wanted(filters, rows[k], rows[k].record->0) && summary == summary_of(
            rows[k],
            rows[k].record->0,
            pages,
        )
}

/// What is listed behind the works already listed stays within the limit, and the
/// filters ask for it.
proof fn lemma_listed_behind(
    listed: Seq<WorkSummaryView>,
    rows: Seq<StoredWorkView>,
    pages: Seq<PageRecordView>,
    filters: CatalogFiltersView,
)
    requires
        listed.len() < filters.limit,
    ensures
        catalog_from(listed, rows, pages, filters) matches Some(all) ==> {
            &&& listed.len() <= all.len() <= filters.limit
            &&& all.take(listed.len() as int) == listed
            &&& forall|i: int|
                listed.len() <= i < all.len() ==> asked_for(
                    #[trigger] all[i],
                    rows,
                    pages,
                    filters,
                )
        },
    decreases rows.len(),
{
    assert(listed.take(listed.len() as int) =~= listed);
    if rows.len() > 0 {
        let rest = rows.skip(1);
        assert forall|summary: WorkSummaryView| asked_for(summary, rest, pages, filters) implies
            #[trigger] asked_for(summary, rows, pages, filters) by {
            let k = choose|k: int|
                0 <= k < rest.len() && (#[trigger] rest[k]).record is Some && status_wanted(
                    filters,
                    rest[k].status,
                ) && work_wanted(filters, rest[k], rest[k].record->0) && summary == summary_of(
                    rest[k],
                    rest[k].record->0,
                    pages,
                );
            assert(rows[k + 1] == rest[k]);
        }
        if !status_wanted(filters, rows[0].status) {
            lemma_listed_behind(listed, rest, pages, filters);
        } else if let Some(work) = rows[0].record {
            if !work_wanted(filters, rows[0], work) {
                lemma_listed_behind(listed, rest, pages, filters);
            } else {
                let found = summary_of(rows[0], work, pages);
                let next = listed.push(found);
                assert(asked_for(found, rows, pages, filters));
                assert(next.take(listed.len() as int) =~= listed);
                if next.len() < filters.limit {
                    lemma_listed_behind(next, rest, pages, filters);
                    if let Some(all) = catalog_from(next, rest, pages, filters) {
                        assert(all.take(listed.len() as int) =~= all.take(
                            next.len() as int,
                        ).take(listed.len() as int));
                        assert(all[listed.len() as int] == all.take(
                            next.len() as int,
                        )[listed.len() as int]);
                    }
                }
            }
        }
    }
}

/// A catalog lists no more works than its limit, and only works of the state that the
/// filters ask for.
pub proof fn law_catalogs_keep_their_limit(state: StateView, filters: CatalogFiltersView)
    requires
        filter_fault(filters) is None,
    ensures
        catalog_of(state, filters) matches Some(all) ==> {
            &&& all.len() <= filters.limit
            &&& forall|i: int|
                0 <= i < all.len() ==> asked_for(
                    #[trigger] all[i],
                    state.works,
                    state.pages,
                    filters,
                )
        },
{
    let rows = ordered::<InCatalog>(state.works);
    law_ordered::<InCatalog>(state.works);
    lemma_listed_behind(Seq::empty(), rows, state.pages, filters);
    if let Some(all) = catalog_of(state, filters) {
        assert forall|i: int| 0 <= i < all.len() implies asked_for(
            #[trigger] all[i],
            state.works,
            state.pages,
            filters,
        ) by {
            broadcast use vstd::seq_lib::group_to_multiset_ensures;

            let k = choose|k: int|
                0 <= k < rows.len() && (#[trigger] rows[k]).record is Some && status_wanted(
                    filters,
                    rows[k].status,
                ) && work_wanted(filters, rows[k], rows[k].record->0) && all[i] == summary_of(
                    rows[k],
                    rows[k].record->0,
                    state.pages,
                );
            assert(rows.to_multiset().contains(rows[k]));
            assert(state.works.contains(rows[k]));
        }
    }
}

/// A response without what it says.
pub open spec fn located(row: StoredSourceView) -> SourceLocatorView {
    SourceLocatorView {
        source: row.source,
        source_id: row.source_id,
        retrieved_at: row.retrieved_at,
    }
}

/// The responses of a work.
pub open spec fn sources_of(
    sources: Seq<StoredSourceView>,
    work_id: Seq<char>,
) -> Seq<StoredSourceView>
    decreases sources.len(),
{
    if sources.len() == 0 {
        Seq::empty()
    } else {
        let rest = sources_of(sources.drop_last(), work_id);
        if sources.last().work_id == work_id {
            rest.push(sources.last())
        } else {
            rest
        }
    }
}

/// The responses of a work, without what they say.
pub open spec fn responses_of(
    sources: Seq<StoredSourceView>,
    work_id: Seq<char>,
) -> Seq<SourceLocatorView>
    decreases sources.len(),
{
    if sources.len() == 0 {
        Seq::empty()
    } else {
        let rest = responses_of(sources.drop_last(), work_id);
        if sources.last().work_id == work_id {
            rest.push(located(sources.last()))
        } else {
            rest
        }
    }
}

/// A page without its text.
pub open spec fn located_page(page: PageRecordView) -> PageLocatorView {
    PageLocatorView {
        page_id: page.page_id,
        page_number: page.page_number,
        image_path: page.image_path,
        image_sha256: page.image_sha256,
        width: page.width,
        height: page.height,
        indexed_at: page.indexed_at,
    }
}

/// The pages of a work, without their texts.
pub open spec fn pages_of(pages: Seq<PageRecordView>, work_id: Seq<char>) -> Seq<PageLocatorView>
    decreases pages.len(),
{
    if pages.len() == 0 {
        Seq::empty()
    } else {
        let rest = pages_of(pages.drop_last(), work_id);
        if pages.last().work_id == work_id {
            rest.push(located_page(pages.last()))
        } else {
            rest
        }
    }
}

/// All that is known of a work, without texts of pages and of responses.
pub open spec fn details_of(
    state: StateView,
    row: StoredWorkView,
    work: WorkRecordView,
) -> WorkDetailsView {
    WorkDetailsView {
        summary: summary_of(row, work, state.pages),
        canonical_record: work,
        pdf_artifact: if text_or_empty(row.pdf_path).len() > 0 {
            Some(artifact_of(row))
        } else {
            None
        },
        provenance_records: ordered::<SourceLocator>(responses_of(state.sources, row.work_id)),
        pages: ordered::<PageLocator>(pages_of(state.pages, row.work_id)),
        last_error: text_or_empty(row.last_error),
    }
}

fn list_responses(sources: &Vec<StoredSource>, work_id: &str) -> (r: Vec<SourceLocator>)
    ensures
        views(r@) == ordered::<SourceLocator>(responses_of(views(sources@), work_id@)),
{
    let ghost all = views(sources@);
    let mut out: Vec<SourceLocator> = Vec::new();
    let mut i: usize = 0;
    assert(views(out@) =~= responses_of(all.take(0), work_id@));
    while i < sources.len()
        invariant
            i <= sources@.len(),
            all == views(sources@),
            views(out@) == responses_of(all.take(i as int), work_id@),
        decreases sources@.len() - i,
    {
        assert(all.take(i + 1).drop_last() =~= all.take(i as int));
        assert(all.take(i + 1).last() == sources@[i as int]@);
        let ghost before = views(out@);
        if same_text(&sources[i].work_id, work_id) {
            let locator = SourceLocator {
                source: sources[i].source.clone(),
                source_id: sources[i].source_id.clone(),
                retrieved_at: sources[i].retrieved_at.clone(),
            };
            let ghost added = locator@;
            out.push(locator);
            assert(views(out@) =~= before.push(added));
        }
        i += 1;
    }
    assert(all.take(all.len() as int) =~= all);
    sort(out)
}

fn list_pages(pages: &Vec<PageRecord>, work_id: &str) -> (r: Vec<PageLocator>)
    ensures
        views(r@) == ordered::<PageLocator>(pages_of(views(pages@), work_id@)),
{
    let ghost all = views(pages@);
    let mut out: Vec<PageLocator> = Vec::new();
    let mut i: usize = 0;
    assert(views(out@) =~= pages_of(all.take(0), work_id@));
    while i < pages.len()
        invariant
            i <= pages@.len(),
            all == views(pages@),
            views(out@) == pages_of(all.take(i as int), work_id@),
        decreases pages@.len() - i,
    {
        assert(all.take(i + 1).drop_last() =~= all.take(i as int));
        assert(all.take(i + 1).last() == pages@[i as int]@);
        let ghost before = views(out@);
        if same_text(&pages[i].work_id, work_id) {
            let locator = PageLocator {
                page_id: pages[i].page_id.clone(),
                page_number: pages[i].page_number,
                image_path: pages[i].image_path.clone(),
                image_sha256: pages[i].image_sha256.clone(),
                width: pages[i].width,
                height: pages[i].height,
                indexed_at: duplicate_option(&pages[i].indexed_at),
            };
            let ghost added = locator@;
            out.push(locator);
            assert(views(out@) =~= before.push(added));
        }
        i += 1;
    }
    assert(all.take(all.len() as int) =~= all);
    sort(out)
}

/// The pages that are not indexed yet, in reading order.
pub open spec fn pending_pages(pages: Seq<PageRecordView>) -> Seq<PageRecordView>
    decreases pages.len(),
{
    if pages.len() == 0 {
        Seq::empty()
    } else {
        let rest = pending_pages(pages.drop_last());
        if pages.last().indexed_at is None {
            rest.push(pages.last())
        } else {
            rest
        }
    }
}

/// The pages to index, with their works and preserved PDFs.
pub open spec fn indexing_records(state: StateView) -> Seq<
    (PageRecordView, WorkRecordView, PdfArtifactView),
> {
    let pages = ordered::<InReadingOrder>(pending_pages(state.pages));
    Seq::new(
        pages.len(),
        |i: int|
            (
                pages[i],
                row_of(state, pages[i].work_id).record->0,
                artifact_of(row_of(state, pages[i].work_id)),
            ),
    )
}

/// The works of all pages to index can be read.
pub open spec fn indexing_readable(state: StateView) -> bool {
    let pages = ordered::<InReadingOrder>(pending_pages(state.pages));
    forall|i: int|
        0 <= i < pages.len() ==> row_of(state, (#[trigger] pages[i]).work_id).record is Some
}

proof fn lemma_pending(state: StateView)
    requires
        coherent(state),
    ensures
        ({
            let pages = ordered::<InReadingOrder>(pending_pages(state.pages));
            forall|i: int|
                0 <= i < pages.len() ==> knows_work(state.works, (#[trigger] pages[i]).work_id)
        }),
{
    let pending = pending_pages(state.pages);
    let pages = ordered::<InReadingOrder>(pending);
    law_ordered::<InReadingOrder>(pending);
    assert forall|i: int| 0 <= i < pages.len() implies knows_work(
        state.works,
        (#[trigger] pages[i]).work_id,
    ) by {
        broadcast use vstd::seq_lib::group_to_multiset_ensures;

        assert(pages.to_multiset().contains(pages[i]));
        assert(pending.contains(pages[i]));
        lemma_pending_is_page(state.pages, pages[i]);
        let k = choose|k: int| 0 <= k < state.pages.len() && state.pages[k] == pages[i];
        assert(knows_work(state.works, state.pages[k].work_id));
    }
}

proof fn lemma_pending_is_page(pages: Seq<PageRecordView>, page: PageRecordView)
    requires
        pending_pages(pages).contains(page),
    ensures
        pages.contains(page),
    decreases pages.len(),
{
    if pages.len() > 0 {
        let rest = pages.drop_last();
        let i = choose|i: int| 0 <= i < pending_pages(pages).len() && pending_pages(pages)[i] == page;
        if i < pending_pages(rest).len() {
            assert(pending_pages(rest)[i] == page);
            lemma_pending_is_page(rest, page);
            let k = choose|k: int| 0 <= k < rest.len() && rest[k] == page;
            assert(pages[k] == page);
        } else {
            assert(pages[pages.len() - 1] == page);
        }
    }
}

/// How many works have a status.
#[derive(Debug)]
pub struct StatusCount {
    pub status: String,
    pub count: u64,
}

impl View for StatusCount {
    type V = (Seq<char>, u64);

    open spec fn view(&self) -> (Seq<char>, u64) {
        (self.status@, self.count)
    }
}

impl Ranked for StatusCount {
    open spec fn before(a: (Seq<char>, u64), b: (Seq<char>, u64)) -> bool {
        text_less(a.0, b.0)
    }

    fn comes_before(&self, other: &StatusCount) -> (r: bool) {
        is_less(&self.status, &other.status)
    }

    proof fn lemma_chain(a: (Seq<char>, u64), b: (Seq<char>, u64), c: (Seq<char>, u64)) {
        lemma_text_chain(a.0, b.0, c.0);
    }

    proof fn lemma_one_way(a: (Seq<char>, u64), b: (Seq<char>, u64)) {
        lemma_text_one_way(a.0, b.0);
    }
}

/// How many of the works have the status.
pub open spec fn status_total(works: Seq<StoredWorkView>, status: Seq<char>) -> nat
    decreases works.len(),
{
    if works.len() == 0 {
        0
    } else if works.last().status == status {
        status_total(works.drop_last(), status) + 1
    } else {
        status_total(works.drop_last(), status)
    }
}

/// The statuses that works have, each once, in the order in which they first occur.
pub open spec fn statuses_in(works: Seq<StoredWorkView>) -> Seq<Seq<char>>
    decreases works.len(),
{
    if works.len() == 0 {
        Seq::empty()
    } else {
        let rest = statuses_in(works.drop_last());
        if rest.contains(works.last().status) {
            rest
        } else {
            rest.push(works.last().status)
        }
    }
}

/// How many works have each status, by status.
pub open spec fn status_counts(works: Seq<StoredWorkView>) -> Seq<(Seq<char>, u64)> {
    let statuses = statuses_in(works);
    ordered::<StatusCount>(
        Seq::new(
            statuses.len(),
            |i: int| (statuses[i], status_total(works, statuses[i]) as u64),
        ),
    )
}

fn count_status(works: &Vec<StoredWork>, status: &str) -> (r: u64)
    ensures
        r == status_total(views(works@), status@),
{
    let ghost all = views(works@);
    let total: usize = works.len();
    let mut count: u64 = 0;
    let mut i: usize = 0;
    while i < total
        invariant
            i <= total,
            total == works@.len(),
            all == views(works@),
            count == status_total(all.take(i as int), status@),
            count <= i,
        decreases total - i,
    {
        assert(all.take(i + 1).drop_last() =~= all.take(i as int));
        assert(all.take(i + 1).last() == works@[i as int]@);
        if same_text(&works[i].status, status) {
            count += 1;
        }
        i += 1;
    }
    assert(all.take(all.len() as int) =~= all);
    count
}

fn list_statuses(works: &Vec<StoredWork>) -> (r: Vec<String>)
    ensures
        texts(r@) == statuses_in(views(works@)),
{
    let ghost all = views(works@);
    let mut out: Vec<String> = Vec::new();
    let mut i: usize = 0;
    assert(texts(out@) =~= statuses_in(all.take(0)));
    while i < works.len()
        invariant
            i <= works@.len(),
            all == views(works@),
            texts(out@) == statuses_in(all.take(i as int)),
        decreases works@.len() - i,
    {
        assert(all.take(i + 1).drop_last() =~= all.take(i as int));
        assert(all.take(i + 1).last() == works@[i as int]@);
        let ghost before = texts(out@);
        if !text_in(&works[i].status, &out) {
            out.push(works[i].status.clone());
            assert(texts(out@) =~= before.push(all[i as int].status));
        }
        i += 1;
    }
    assert(all.take(all.len() as int) =~= all);
    out
}

/// Whether no work occurs twice and the scores of each can be ordered.
fn ids_differ(works: &Vec<StoredWork>) -> (r: bool)
    ensures
        r == works_coherent(views(works@)),
{
    let ghost all = views(works@);
    let mut j: usize = 0;
    while j < works.len()
        invariant
            j <= works@.len(),
            all == views(works@),
            forall|a: int, b: int|
                0 <= a < b < j ==> (#[trigger] all[a]).work_id != (#[trigger] all[b]).work_id,
            forall|a: int| 0 <= a < j ==> scores_ordered(#[trigger] all[a]),
        decreases works@.len() - j,
    {
        assert(all[j as int] == works@[j as int]@);
        if !works[j].quality_score.is_number() || !works[j].relevance_score.is_number()
            || !works[j].priority_score.is_number() {
            assert(!scores_ordered(all[j as int]));
            return false;
        }
        proof {
            lemma_work_at(all, all[j as int].work_id);
        }
        let first = find_work(works, &works[j].work_id);
        if first < j {
            assert(all[first as int].work_id == all[j as int].work_id);
            return false;
        }
        proof {
            assert(knows_work(all, all[j as int].work_id));
            assert forall|a: int| 0 <= a < j implies (#[trigger] all[a]).work_id
                != all[j as int].work_id by {
                if all[a].work_id == all[j as int].work_id {
                    lemma_first_is_least(all, all[j as int].work_id, a);
                }
            }
        }
        j += 1;
    }
    true
}

proof fn lemma_first_is_least(works: Seq<StoredWorkView>, work_id: Seq<char>, i: int)
    requires
        0 <= i < works.len(),
        works[i].work_id == work_id,
    ensures
        work_at(works, work_id) <= i,
    decreases works.len(),
{
    if works[0].work_id != work_id {
        assert(works.skip(1)[i - 1] == works[i]);
        lemma_first_is_least(works.skip(1), work_id, i - 1);
    }
}

/// Whether no response occurs twice and each belongs to a work.
fn responses_differ(sources: &Vec<StoredSource>, works: &Vec<StoredWork>) -> (r: bool)
    ensures
        r == sources_coherent(views(sources@), views(works@)),
{
    let ghost all = views(sources@);
    let ghost table = views(works@);
    let mut j: usize = 0;
    while j < sources.len()
        invariant
            j <= sources@.len(),
            all == views(sources@),
            table == views(works@),
            forall|a: int, b: int|
                0 <= a < b < j ==> !same_response(#[trigger] all[a], #[trigger] all[b]),
            forall|a: int| 0 <= a < j ==> knows_work(table, (#[trigger] all[a]).work_id),
        decreases sources@.len() - j,
    {
        assert(all[j as int] == sources@[j as int]@);
        proof {
            lemma_work_at(table, all[j as int].work_id);
            lemma_response_at(all, all[j as int]);
        }
        if find_work(works, &sources[j].work_id) == works.len() {
            assert(!knows_work(table, all[j as int].work_id));
            return false;
        }
        let first = find_response(sources, &sources[j]);
        if first < j {
            assert(same_response(all[first as int], all[j as int]));
            return false;
        }
        proof {
            assert forall|a: int| 0 <= a < j implies !same_response(
                #[trigger] all[a],
                all[j as int],
            ) by {
                if same_response(all[a], all[j as int]) {
                    lemma_first_response_is_least(all, all[j as int], a);
                }
            }
        }
        j += 1;
    }
    true
}

proof fn lemma_first_response_is_least(
    sources: Seq<StoredSourceView>,
    row: StoredSourceView,
    i: int,
)
    requires
        0 <= i < sources.len(),
        same_response(sources[i], row),
    ensures
        response_at(sources, row) <= i,
    decreases sources.len(),
{
    if !same_response(sources[0], row) {
        assert(sources.skip(1)[i - 1] == sources[i]);
        lemma_first_response_is_least(sources.skip(1), row, i - 1);
    }
}

impl State {
    /// The state that the rows make, if they are coherent.
    pub fn restore(
        workspace: String,
        corpus_id: String,
        works: Vec<StoredWork>,
        sources: Vec<StoredSource>,
        pages: Vec<PageRecord>,
    ) -> (r: Option<State>)
        ensures
            ({
                let view = StateView {
                    workspace: workspace@,
                    corpus_id: corpus_id@,
                    works: views(works@),
                    sources: views(sources@),
                    pages: views(pages@),
                };
                match r {
                    Some(state) => coherent(view) && state@ == view,
                    None => !coherent(view),
                }
            }),
    {
        if ids_differ(&works) && responses_differ(&sources, &works) && are_apart(&pages)
            && are_known(&pages, &works) {
            Some(State { workspace, corpus_id, works, sources, pages })
        } else {
            None
        }
    }

    /// The row of the work, if it is known.
    pub fn stored_work(&self, work_id: &str) -> (r: Option<StoredWork>)
        ensures
            opt_view(r) == (if knows_work(self@.works, work_id@) {
                Some(row_of(self@, work_id@))
            } else {
                None
            }),
    {
        proof {
            lemma_work_at(self@.works, work_id@);
        }
        let at = find_work(&self.works, work_id);
        if at < self.works.len() {
            Some(self.works[at].duplicate())
        } else {
            None
        }
    }

    /// The responses that are stored of the work.
    pub fn stored_sources(&self, work_id: &str) -> (r: Vec<StoredSource>)
        ensures
            views(r@) == sources_of(self@.sources, work_id@),
    {
        let ghost all = views(self.sources@);
        let mut out: Vec<StoredSource> = Vec::new();
        let mut i: usize = 0;
        assert(views(out@) =~= sources_of(all.take(0), work_id@));
        while i < self.sources.len()
            invariant
                i <= self.sources@.len(),
                all == views(self.sources@),
                views(out@) == sources_of(all.take(i as int), work_id@),
            decreases self.sources@.len() - i,
        {
            assert(all.take(i + 1).drop_last() =~= all.take(i as int));
            assert(all.take(i + 1).last() == self.sources@[i as int]@);
            let ghost before = views(out@);
            if same_text(&self.sources[i].work_id, work_id) {
                let row = self.sources[i].duplicate();
                let ghost added = row@;
                out.push(row);
                assert(views(out@) =~= before.push(added));
            }
            i += 1;
        }
        assert(all.take(all.len() as int) =~= all);
        out
    }

    /// The pages that are stored.
    pub fn stored_pages(&self) -> (r: Vec<PageRecord>)
        ensures
            views(r@) == self@.pages,
    {
        duplicate_all(&self.pages)
    }

    /// All works with their records and statuses, by priority.
    pub fn all_works(&self) -> (r: Result<Vec<(String, WorkRecord, String)>, StateError>)
        ensures
            match r {
                Ok(works) => all_readable(self@.works) && views(works@) == works_listed(
                    self@.works,
                ),
                Err(error) => error == StateError::UnreadableRecord && !all_readable(self@.works),
            },
    {
        let rows = match copy_rows(&self.works) {
            Some(rows) => rows,
            None => {
                return Err(StateError::UnreadableRecord);
            },
        };
        let sorted = sort(rows);
        let ghost items = sorted@;
        proof {
            lemma_readable(self@.works);
        }
        let ghost table = ordered::<ByPriority>(self@.works);
        let mut out: Vec<(String, WorkRecord, String)> = Vec::new();
        for entry in it: sorted
            invariant
                it.seq() == items,
                views(items) == table,
                all_readable(table),
                out@.len() == it.index(),
                forall|j: int|
                    0 <= j < out@.len() ==> (#[trigger] out@[j])@ == (
                        table[j].work_id,
                        table[j].record->0,
                        table[j].status,
                    ),
        {
            let ghost i = it.index() as int;
            assert(views(items)[i] == entry@);
            let row = entry.row;
            assert(table[i].record is Some);
            if let Some(record) = row.record {
                out.push((row.work_id, record, row.status));
            }
        }
        assert(views(out@) =~= works_listed(self@.works));
        Ok(out)
    }

    /// The works with one of the statuses, by priority.
    pub fn works_with_statuses(&self, statuses: &Vec<String>) -> (r: Result<
        Vec<(String, WorkRecord)>,
        StateError,
    >)
        ensures
            match r {
                Ok(works) => all_readable(self@.works) && views(works@) == works_in(
                    works_listed(self@.works),
                    texts(statuses@),
                ),
                Err(error) => error == StateError::UnreadableRecord && !all_readable(self@.works),
            },
    {
        let listed_works = match self.all_works() {
            Ok(works) => works,
            Err(error) => {
                return Err(error);
            },
        };
        let ghost all = works_listed(self@.works);
        let ghost items = listed_works@;
        let mut out: Vec<(String, WorkRecord)> = Vec::new();
        assert(views(out@) =~= works_in(all.take(0), texts(statuses@)));
        for entry in it: listed_works
            invariant
                it.seq() == items,
                all == views(items),
                views(out@) == works_in(all.take(it.index() as int), texts(statuses@)),
        {
            let ghost i = it.index() as int;
            assert(all.take(i + 1).drop_last() =~= all.take(i));
            assert(all.take(i + 1).last() == entry@);
            let ghost before = views(out@);
            let (work_id, record, status) = entry;
            if text_in(&status, statuses) {
                let ghost added = (work_id@, record@);
                out.push((work_id, record));
                assert(views(out@) =~= before.push(added));
            }
        }
        assert(all.take(all.len() as int) =~= all);
        Ok(out)
    }

    /// The record of the work, if it is known.
    pub fn get_work(&self, work_id: &str) -> (r: Result<Option<WorkRecord>, StateError>)
        ensures
            match r {
                Ok(found) => opt_view(found) == record_of(self@.works, work_id@) && (
                knows_work(self@.works, work_id@) ==> found is Some),
                Err(error) => error == StateError::UnreadableRecord && knows_work(
                    self@.works,
                    work_id@,
                ) && record_of(self@.works, work_id@) is None,
            },
    {
        proof {
            lemma_work_at(self@.works, work_id@);
        }
        let at = find_work(&self.works, work_id);
        if at < self.works.len() {
            match &self.works[at].record {
                Some(record) => Ok(Some(record.duplicate())),
                None => Err(StateError::UnreadableRecord),
            }
        } else {
            Ok(None)
        }
    }

    /// Where the PDF of the work is preserved, if it is known.
    pub fn pdf_for_work(&self, work_id: &str) -> (r: Option<String>)
        ensures
            opt_text(r) == (if knows_work(self@.works, work_id@) {
                row_of(self@, work_id@).pdf_path
            } else {
                None
            }),
    {
        proof {
            lemma_work_at(self@.works, work_id@);
        }
        let at = find_work(&self.works, work_id);
        if at < self.works.len() {
            duplicate_option(&self.works[at].pdf_path)
        } else {
            None
        }
    }

    /// The works that the filters ask for: by priority, then by identifier.
    pub fn catalog(&self, filters: &CatalogFilters) -> (r: Result<Vec<WorkSummary>, StateError>)
        ensures
            match r {
                Ok(listed) => filter_fault(filters@) is None && catalog_of(self@, filters@)
                    == Some(views(listed@)),
                Err(error) => if filter_fault(filters@) is Some {
                    filter_fault(filters@) == Some(error)
                } else {
                    error == StateError::UnreadableRecord && catalog_of(self@, filters@) is None
                },
            },
    {
        match check_filters(filters) {
            Ok(()) => {},
            Err(error) => {
                return Err(error);
            },
        }
        let mut rows: Vec<InCatalog> = Vec::new();
        let mut i: usize = 0;
        while i < self.works.len()
            invariant
                i <= self.works@.len(),
                rows@.len() == i,
                forall|j: int| 0 <= j < i ==> (#[trigger] rows@[j])@ == self.works@[j]@,
            decreases self.works@.len() - i,
        {
            rows.push(InCatalog { row: self.works[i].duplicate() });
            i += 1;
        }
        assert(views(rows@) =~= self@.works);
        let sorted = sort(rows);
        let ghost all = views(sorted@);
        let ghost wanted = catalog_of(self@, filters@);
        let mut out: Vec<WorkSummary> = Vec::new();
        let mut k: usize = 0;
        assert(all.skip(0) =~= all);
        assert(views(out@) =~= Seq::<WorkSummaryView>::empty());
        while k < sorted.len()
            invariant
                k <= sorted@.len(),
                all == views(sorted@),
                wanted == catalog_of(self@, filters@),
                filter_fault(filters@) is None,
                wanted == catalog_from(
                    views(out@),
                    all.skip(k as int),
                    self@.pages,
                    filters@,
                ),
            decreases sorted@.len() - k,
        {
            assert(all.skip(k as int)[0] == sorted@[k as int]@);
            assert(all.skip(k as int).skip(1) =~= all.skip(k + 1));
            let row = &sorted[k].row;
            if filters.statuses.len() == 0 || text_in(&row.status, &filters.statuses) {
                match &row.record {
                    Some(record) => {
                        if is_wanted(filters, row, record) {
                            let ghost before = views(out@);
                            let summary = work_summary(row, record, &self.pages);
                            let ghost added = summary@;
                            out.push(summary);
                            assert(views(out@) =~= before.push(added));
                            if out.len() == filters.limit {
                                return Ok(out);
                            }
                        }
                    },
                    None => {
                        return Err(StateError::UnreadableRecord);
                    },
                }
            }
            k += 1;
        }
        Ok(out)
    }

    /// All that is known of the work, without texts of pages and of responses, if the
    /// work is known.
    pub fn inspect_work(&self, work_id: &str) -> (r: Result<Option<WorkDetails>, StateError>)
        ensures
            match r {
                Ok(found) => opt_view(found) == (if knows_work(self@.works, work_id@) {
                    Some(
                        details_of(
                            self@,
                            row_of(self@, work_id@),
                            row_of(self@, work_id@).record->0,
                        ),
                    )
                } else {
                    None
                }) && (knows_work(self@.works, work_id@) ==> row_of(
                    self@,
                    work_id@,
                ).record is Some),
                Err(error) => error == StateError::UnreadableRecord && knows_work(
                    self@.works,
                    work_id@,
                ) && row_of(self@, work_id@).record is None,
            },
    {
        proof {
            lemma_work_at(self@.works, work_id@);
        }
        let at = find_work(&self.works, work_id);
        if at >= self.works.len() {
            return Ok(None);
        }
        let row = &self.works[at];
        let record = match &row.record {
            Some(record) => record,
            None => {
                return Err(StateError::UnreadableRecord);
            },
        };
        let preserved = match &row.pdf_path {
            Some(path) => !path.as_str().is_empty(),
            None => false,
        };
        let pdf_artifact = if preserved {
            Some(read_artifact(row))
        } else {
            None
        };
        Ok(
            Some(
                WorkDetails {
                    summary: work_summary(row, record, &self.pages),
                    canonical_record: record.duplicate(),
                    pdf_artifact,
                    provenance_records: list_responses(&self.sources, work_id),
                    pages: list_pages(&self.pages, work_id),
                    last_error: copy_or_empty(&row.last_error),
                },
            ),
        )
    }

    /// The pages that are not indexed yet, in reading order, with their works and
    /// preserved PDFs.
    pub fn pages_for_indexing(&self) -> (r: Result<
        Vec<(PageRecord, WorkRecord, PdfArtifact)>,
        StateError,
    >)
        ensures
            match r {
                Ok(pages) => indexing_readable(self@) && views(pages@) == indexing_records(self@),
                Err(error) => error == StateError::UnreadableRecord && !indexing_readable(self@),
            },
    {
        proof {
            use_type_invariant(self);
            lemma_pending(self@);
        }
        let ghost all = self@.pages;
        let mut pending: Vec<InReadingOrder> = Vec::new();
        let mut i: usize = 0;
        assert(views(pending@) =~= pending_pages(all.take(0)));
        while i < self.pages.len()
            invariant
                i <= self.pages@.len(),
                all == views(self.pages@),
                views(pending@) == pending_pages(all.take(i as int)),
            decreases self.pages@.len() - i,
        {
            assert(all.take(i + 1).drop_last() =~= all.take(i as int));
            assert(all.take(i + 1).last() == self.pages@[i as int]@);
            let ghost before = views(pending@);
            if self.pages[i].indexed_at.is_none() {
                let page = InReadingOrder { page: self.pages[i].duplicate() };
                let ghost added = page@;
                pending.push(page);
                assert(views(pending@) =~= before.push(added));
            }
            i += 1;
        }
        assert(all.take(all.len() as int) =~= all);
        let sorted = sort(pending);
        let ghost items = sorted@;
        let ghost pages = ordered::<InReadingOrder>(pending_pages(self@.pages));
        let ghost wanted = indexing_records(self@);
        let mut out: Vec<(PageRecord, WorkRecord, PdfArtifact)> = Vec::new();
        for entry in it: sorted
            invariant
                it.seq() == items,
                views(items) == pages,
                pages == ordered::<InReadingOrder>(pending_pages(self@.pages)),
                wanted == indexing_records(self@),
                forall|j: int|
                    0 <= j < pages.len() ==> knows_work(
                        self@.works,
                        (#[trigger] pages[j]).work_id,
                    ),
                out@.len() == it.index(),
                forall|j: int| 0 <= j < out@.len() ==> (#[trigger] out@[j])@ == wanted[j],
                forall|j: int|
                    0 <= j < out@.len() ==> row_of(
                        self@,
                        (#[trigger] pages[j]).work_id,
                    ).record is Some,
        {
            let ghost k = it.index() as int;
            assert(views(items)[k] == entry@);
            assert(knows_work(self@.works, pages[k].work_id));
            proof {
                lemma_work_at(self@.works, pages[k].work_id);
            }
            let at = find_work(&self.works, &entry.page.work_id);
            match &self.works[at].record {
                Some(record) => {
                    let work = record.duplicate();
                    let artifact = read_artifact(&self.works[at]);
                    out.push((entry.page, work, artifact));
                    assert(out@[k]@ == wanted[k]);
                },
                None => {
                    assert(row_of(self@, pages[k].work_id).record is None);
                    return Err(StateError::UnreadableRecord);
                },
            }
        }
        assert(views(out@) =~= wanted);
        Ok(out)
    }

    /// How many works have each status, by status.
    pub fn summary(&self) -> (r: Vec<StatusCount>)
        ensures
            views(r@) == status_counts(self@.works),
    {
        let statuses = list_statuses(&self.works);
        let ghost all = texts(statuses@);
        let mut counts: Vec<StatusCount> = Vec::new();
        let mut i: usize = 0;
        while i < statuses.len()
            invariant
                i <= statuses@.len(),
                all == texts(statuses@),
                counts@.len() == i,
                forall|j: int|
                    0 <= j < i ==> (#[trigger] counts@[j])@ == (
                        all[j],
                        status_total(self@.works, all[j]) as u64,
                    ),
            decreases statuses@.len() - i,
        {
            let count = count_status(&self.works, &statuses[i]);
            counts.push(StatusCount { status: statuses[i].clone(), count });
            i += 1;
        }
        assert(views(counts@) =~= Seq::new(
            all.len(),
            |i: int| (all[i], status_total(self@.works, all[i]) as u64),
        ));
        sort(counts)
    }

    /// How far each work has come, and what of it is preserved, by identifier.
    pub fn artifact_statuses(&self) -> (r: Vec<StoredArtifactStatus>)
        ensures
            views(r@) == statuses_of(self@),
    {
        let mut out: Vec<StoredArtifactStatus> = Vec::new();
        let mut i: usize = 0;
        while i < self.works.len()
            invariant
                i <= self.works@.len(),
                out@.len() == i,
                forall|j: int|
                    0 <= j < i ==> (#[trigger] out@[j])@ == artifact_status(
                        self.works@[j]@,
                        self@.pages,
                    ),
            decreases self.works@.len() - i,
        {
            let row = &self.works[i];
            let (stored, indexed) = count_pages(&self.pages, &row.work_id);
            out.push(
                StoredArtifactStatus {
                    work_id: row.work_id.clone(),
                    status: row.status.clone(),
                    pdf_url: copy_or_empty(&row.pdf_url),
                    pdf_path: copy_or_empty(&row.pdf_path),
                    pdf_sha256: copy_or_empty(&row.pdf_sha256),
                    pdf_license: copy_or_empty(&row.pdf_license),
                    declared_page_count: row.page_count,
                    stored_page_count: stored,
                    indexed_page_count: indexed,
                    last_error: copy_or_empty(&row.last_error),
                },
            );
            i += 1;
        }
        assert(views(out@) =~= Seq::new(
            self@.works.len(),
            |i: int| artifact_status(self@.works[i], self@.pages),
        ));
        sort(out)
    }

    /// The digest of a plan as it was serialized, and where it is preserved: the active
    /// plan, and the copy that never changes.
    pub fn plan_files(&self, serialized: &Vec<u8>) -> (r: (String, String, String))
        ensures
            r.0@ == hexadecimal(crate::adapters::sha256(serialized@)),
            r.1@ == path_of(self@.workspace, "metadata/research-plan.json"@),
            r.2@ == path_of(
                path_of(path_of(self@.workspace, "metadata"@), "plans"@),
                r.0@ + ".json"@,
            ),
    {
        let digest = sha256_bytes(serialized.as_slice());
        let mut name = digest.clone();
        name.append(".json");
        let active = join_path(&self.workspace, "metadata/research-plan.json");
        let archive = join_path(
            &join_path(&join_path(&self.workspace, "metadata"), "plans"),
            &name,
        );
        (digest, active, archive)
    }
}

/// What is known of the PDF of a work when it is marked as downloaded goes with each
/// of its pages to the index.
pub proof fn law_pages_carry_their_pdf(
    state: StateView,
    work_id: Seq<char>,
    artifact: PdfArtifactView,
    updated_at: Seq<char>,
    i: int,
)
    requires
        coherent(state),
        knows_work(state.works, work_id),
        0 <= i < indexing_records(downloaded(state, work_id, artifact, updated_at)).len(),
        indexing_records(downloaded(state, work_id, artifact, updated_at))[i].0.work_id == work_id,
    ensures
        indexing_records(downloaded(state, work_id, artifact, updated_at))[i].2 == artifact,
{
    let next = downloaded(state, work_id, artifact, updated_at);
    lemma_work_at(state.works, work_id);
    lemma_same_position(state.works, next.works, work_id);
}

/// The pages with none marked as indexed.
pub open spec fn unindexed_pages(pages: Seq<PageRecordView>) -> Seq<PageRecordView> {
    Seq::new(pages.len(), |i: int| PageRecordView { indexed_at: None, ..pages[i] })
}

/// The works with those that were indexed back at the stage before.
pub open spec fn unindexed_works(
    works: Seq<StoredWorkView>,
    updated_at: Seq<char>,
) -> Seq<StoredWorkView> {
    Seq::new(
        works.len(),
        |i: int|
            if works[i].status == "indexed"@ {
                StoredWorkView { status: "rendered"@, updated_at, ..works[i] }
            } else {
                works[i]
            },
    )
}

/// The state under another corpus, in which none of its pages is indexed.
pub open spec fn adopted(
    state: StateView,
    corpus_id: Seq<char>,
    updated_at: Seq<char>,
) -> StateView {
    StateView {
        corpus_id,
        works: unindexed_works(state.works, updated_at),
        pages: unindexed_pages(state.pages),
        ..state
    }
}

proof fn lemma_adopted(state: StateView, corpus_id: Seq<char>, updated_at: Seq<char>)
    requires
        coherent(state),
    ensures
        coherent(adopted(state, corpus_id, updated_at)),
{
    let pages = unindexed_pages(state.pages);
    let works = unindexed_works(state.works, updated_at);
    let middle = StateView { pages, corpus_id, ..state };
    assert forall|i: int, j: int| 0 <= i < j < pages.len() implies !pages_clash(
        #[trigger] pages[i],
        #[trigger] pages[j],
    ) by {
        assert(!pages_clash(state.pages[i], state.pages[j]));
    }
    assert forall|i: int| 0 <= i < pages.len() implies knows_work(
        state.works,
        (#[trigger] pages[i]).work_id,
    ) by {
        assert(knows_work(state.works, state.pages[i].work_id));
    }
    assert forall|i: int, j: int| 0 <= i < j < works.len() implies (
    #[trigger] works[i]).work_id != (#[trigger] works[j]).work_id by {
        assert(state.works[i].work_id != state.works[j].work_id);
    }
    assert forall|i: int| 0 <= i < works.len() implies scores_ordered(#[trigger] works[i]) by {
        assert(scores_ordered(state.works[i]));
    }
    lemma_more_works(middle, works);
}

/// In a state that was put under another corpus every page waits to be indexed.
pub proof fn law_an_adopted_corpus_is_indexed_anew(
    state: StateView,
    corpus_id: Seq<char>,
    updated_at: Seq<char>,
)
    ensures
        adopted(state, corpus_id, updated_at).corpus_id == corpus_id,
        pending_pages(adopted(state, corpus_id, updated_at).pages) == unindexed_pages(state.pages),
{
    lemma_all_pending(unindexed_pages(state.pages));
}

proof fn lemma_all_pending(pages: Seq<PageRecordView>)
    requires
        forall|i: int| 0 <= i < pages.len() ==> (#[trigger] pages[i]).indexed_at is None,
    ensures
        pending_pages(pages) == pages,
    decreases pages.len(),
{
    if pages.len() > 0 {
        assert(pages[pages.len() - 1].indexed_at is None);
        assert forall|i: int| 0 <= i < pages.drop_last().len() implies (
        #[trigger] pages.drop_last()[i]).indexed_at is None by {
            assert(pages[i].indexed_at is None);
        }
        lemma_all_pending(pages.drop_last());
        assert(pages.drop_last().push(pages.last()) =~= pages);
    }
}

impl State {
    /// Puts the state under a corpus of its own, in which none of its pages is indexed
    /// yet.
    pub fn adopt_corpus(&mut self, new_corpus_id: String, updated_at: &str)
        ensures
            final(self)@ == adopted(old(self)@, new_corpus_id@, updated_at@),
    {
        proof {
            use_type_invariant(&*self);
            lemma_adopted(self@, new_corpus_id@, updated_at@);
        }
        let State { workspace, corpus_id, works, sources, pages } = self.take();
        let ghost all_pages = views(pages@);
        let ghost page_items = pages@;
        let mut next_pages: Vec<PageRecord> = Vec::new();
        for page in it: pages
            invariant
                it.seq() == page_items,
                all_pages == views(page_items),
                next_pages@.len() == it.index(),
                forall|j: int|
                    0 <= j < next_pages@.len() ==> (#[trigger] next_pages@[j])@
                        == unindexed_pages(all_pages)[j],
        {
            assert(all_pages[it.index() as int] == page@);
            next_pages.push(
                PageRecord {
                    page_id: page.page_id,
                    work_id: page.work_id,
                    page_number: page.page_number,
                    image_path: page.image_path,
                    image_sha256: page.image_sha256,
                    page_text: page.page_text,
                    width: page.width,
                    height: page.height,
                    indexed_at: None,
                },
            );
        }
        assert(views(next_pages@) =~= unindexed_pages(all_pages));
        let ghost all_works = views(works@);
        let ghost work_items = works@;
        let mut next_works: Vec<StoredWork> = Vec::new();
        for work in it: works
            invariant
                it.seq() == work_items,
                all_works == views(work_items),
                next_works@.len() == it.index(),
                forall|j: int|
                    0 <= j < next_works@.len() ==> (#[trigger] next_works@[j])@
                        == unindexed_works(all_works, updated_at@)[j],
        {
            assert(all_works[it.index() as int] == work@);
            let mut row = work;
            if same_text(&row.status, "indexed") {
                row.status = "rendered".to_owned();
                row.updated_at = updated_at.to_owned();
            }
            next_works.push(row);
        }
        assert(views(next_works@) =~= unindexed_works(all_works, updated_at@));
        *self = State {
            workspace,
            corpus_id: new_corpus_id,
            works: next_works,
            sources,
            pages: next_pages,
        };
    }
}

/// The state without the texts of its pages and without what its responses say.
pub open spec fn without_texts(state: StateView) -> StateView {
    StateView {
        sources: Seq::new(
            state.sources.len(),
            |i: int| StoredSourceView { raw: None, ..state.sources[i] },
        ),
        pages: Seq::new(
            state.pages.len(),
            |i: int| PageRecordView { page_text: Seq::empty(), ..state.pages[i] },
        ),
        ..state
    }
}

proof fn lemma_responses_without_texts(
    a: Seq<StoredSourceView>,
    b: Seq<StoredSourceView>,
    work_id: Seq<char>,
)
    requires
        a.len() == b.len(),
        forall|i: int|
            0 <= i < a.len() ==> located(#[trigger] a[i]) == located(b[i]) && a[i].work_id
                == b[i].work_id,
    ensures
        responses_of(a, work_id) == responses_of(b, work_id),
    decreases a.len(),
{
    if a.len() > 0 {
        assert(located(a[a.len() - 1]) == located(b[a.len() - 1]));
        assert forall|i: int| 0 <= i < a.drop_last().len() implies located(
            #[trigger] a.drop_last()[i],
        ) == located(b.drop_last()[i]) && a.drop_last()[i].work_id == b.drop_last()[i].work_id by {
            assert(located(a[i]) == located(b[i]));
        }
        lemma_responses_without_texts(a.drop_last(), b.drop_last(), work_id);
    }
}

proof fn lemma_pages_without_texts(
    a: Seq<PageRecordView>,
    b: Seq<PageRecordView>,
    work_id: Seq<char>,
)
    requires
        a.len() == b.len(),
        forall|i: int|
            0 <= i < a.len() ==> located_page(#[trigger] a[i]) == located_page(b[i])
                && a[i].work_id == b[i].work_id,
    ensures
        pages_of(a, work_id) == pages_of(b, work_id),
        indexed_total(a, work_id) == indexed_total(b, work_id),
    decreases a.len(),
{
    if a.len() > 0 {
        assert(located_page(a[a.len() - 1]) == located_page(b[a.len() - 1]));
        assert forall|i: int| 0 <= i < a.drop_last().len() implies located_page(
            #[trigger] a.drop_last()[i],
        ) == located_page(b.drop_last()[i]) && a.drop_last()[i].work_id
            == b.drop_last()[i].work_id by {
            assert(located_page(a[i]) == located_page(b[i]));
        }
        lemma_pages_without_texts(a.drop_last(), b.drop_last(), work_id);
    }
}

/// What is told of a work does not depend on the texts of its pages nor on what its
/// responses say: neither gets out through it.
pub proof fn law_details_hold_no_texts(
    state: StateView,
    row: StoredWorkView,
    work: WorkRecordView,
)
    ensures
        details_of(state, row, work) == details_of(without_texts(state), row, work),
{
    let bare = without_texts(state);
    lemma_responses_without_texts(state.sources, bare.sources, row.work_id);
    lemma_pages_without_texts(state.pages, bare.pages, row.work_id);
}

} // verus!
