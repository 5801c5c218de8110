//! The stages of the pipeline: what each decides, and how the state of the corpus
//! changes by it.

use crate::adapters::sha256;
use crate::citations::{
    audit, audit_of, export_library, keys_of, library_bibtex, library_csl, library_ris,
    CitationAudit, CitationAuditView, Library,
};
use crate::discovery::{arxiv_in, find_arxiv, unite, united, DiscoveredWork, DiscoveredWorkView};
use crate::domain::{
    any_authorized, doi_in, find_doi, formal_publication, identity_of, merged, AgentCandidate,
    AgentCandidateView, PageRecord, PdfArtifactView, RawSourceRecord, RawSourceRecordView,
    ResearchPlan, ResearchPlanView, WorkRecord, WorkRecordView,
    GOOGLE_SCHOLAR_LIBRARY_ACCESS_FLAG, MANUAL_FULLTEXT_ENABLED_FLAG, REQUIRES_MANUAL_PDF_FLAG,
};
use crate::download::{
    destination_of, manual_download_request, manual_fault, manual_request, pdf_destination,
    supplied_pdf, DownloadedPdf, DownloadedPdfView, FileFacts, ManualDownloadRequest,
    ManualDownloadRequestView, USER_SUPPLIED_LICENSE,
};
use crate::json::{insert, list, member_views, object, Json, JsonView};
use crate::model::{opt_view, views};
use crate::order::{law_ordered, ordered, sort, Ranked};
use crate::quality::{add_relevance, flag_set, is_set, note, note_if, with_relevance};
use crate::score::{Score, ZERO};
use crate::state::{
    all_readable, artifact_of, coherent, downloaded, knows_work, lemma_response_at,
    lemma_same_position, lemma_work_at, marked, pages_fault, record_of, record_ordered, response_at,
    response_row, row_of, statuses_of, upserted, with_pages, with_raw, work_at, works_in,
    works_listed, ByPriority, State, StateError, StateView, StoredArtifactStatus,
    StoredArtifactStatusView, StoredWorkView,
};
use crate::table::TextMap;
use crate::text::{
    ascii_lower, begins_with, decimal, decimal_text, eq_ignore_ascii_case, join, joined, opt_text,
    same_text, starts_with, text_in, texts,
};
use crate::util::{
    arxiv_of, doi_of, hexadecimal, normalize_arxiv, normalize_doi, normalize_openalex, openalex_of,
};
use vstd::prelude::*;
use vstd::string::StringExecFns;

verus! {

/// What a scholarly source answered.
#[derive(Debug)]
pub enum LookupOutcome {
    Found(DiscoveredWork),
    NotFound,
    Failed,
}

/// What a `LookupOutcome` holds.
#[verifier::ext_equal]
pub enum LookupOutcomeView {
    Found(DiscoveredWorkView),
    NotFound,
    Failed,
}

impl View for LookupOutcome {
    type V = LookupOutcomeView;

    open spec fn view(&self) -> LookupOutcomeView {
        match self {
            LookupOutcome::Found(work) => LookupOutcomeView::Found(work@),
            LookupOutcome::NotFound => LookupOutcomeView::NotFound,
            LookupOutcome::Failed => LookupOutcomeView::Failed,
        }
    }
}

/// The state with the responses of a work stored, one after another.
pub open spec fn with_raws(
    state: StateView,
    work_id: Seq<char>,
    raws: Seq<RawSourceRecordView>,
) -> StateView
    decreases raws.len(),
{
    if raws.len() == 0 {
        state
    } else {
        with_raw(with_raws(state, work_id, raws.drop_last()), work_id, raws.last())
    }
}

/// Stores the responses of a known work, one after another.
fn store_all(state: &mut State, work_id: &str, raws: Vec<RawSourceRecord>)
    requires
        knows_work(old(state)@.works, work_id@),
    ensures
        final(state)@ == with_raws(old(state)@, work_id@, views(raws@)),
{
    let ghost start = state@;
    let ghost all = views(raws@);
    let ghost items = raws@;
    for raw in it: raws
        invariant
            it.seq() == items,
            all == views(items),
            knows_work(start.works, work_id@),
            state@.works == start.works,
            state@ == with_raws(start, work_id@, all.take(it.index() as int)),
    {
        let ghost i = it.index() as int;
        assert(all.take(i + 1).drop_last() =~= all.take(i));
        assert(all.take(i + 1).last() == raw@);
        let stored = state.store_raw(work_id, raw);
        assert(stored is Ok);
    }
    assert(all.take(all.len() as int) =~= all);
}

/// A work that was stored is known.
proof fn lemma_upserted_is_known(
    state: StateView,
    work: WorkRecordView,
    status: Seq<char>,
    updated_at: Seq<char>,
)
    ensures
        knows_work(upserted(state, work, status, updated_at).works, identity_of(work)),
{
    let next = upserted(state, work, status, updated_at).works;
    lemma_work_at(state.works, identity_of(work));
    let at = work_at(state.works, identity_of(work)) as int;
    assert(next[at].work_id == identity_of(work));
}

/// What is stored of a finding: it alone, or with what was known of the work.
pub open spec fn absorbed_record(state: StateView, work: WorkRecordView) -> WorkRecordView {
    match record_of(state.works, identity_of(work)) {
        Some(existing) => merged(existing, work),
        None => work,
    }
}

/// The state with a finding: its work is stored as discovered, and its responses.
pub open spec fn absorbed(
    state: StateView,
    finding: DiscoveredWorkView,
    now: Seq<char>,
) -> StateView {
    let record = absorbed_record(state, finding.record);
    with_raws(
        upserted(state, record, "discovered"@, now),
        identity_of(record),
        finding.raw_records,
    )
}

/// What was known of the work cannot be read.
pub open spec fn work_unreadable(state: StateView, work_id: Seq<char>) -> bool {
    knows_work(state.works, work_id) && record_of(state.works, work_id) is None
}

/// Stores a finding, merged with what was known of its work, and answers under which
/// identifier.
pub fn absorb_discovered(state: &mut State, finding: DiscoveredWork, now: &str) -> (r: Result<
    String,
    StateError,
>)
    ensures
        match r {
            Ok(work_id) => {
                &&& !work_unreadable(old(state)@, identity_of(finding@.record))
                &&& record_ordered(absorbed_record(old(state)@, finding@.record))
                &&& work_id@ == identity_of(absorbed_record(old(state)@, finding@.record))
                &&& final(state)@ == absorbed(old(state)@, finding@, now@)
            },
            Err(error) => {
                &&& final(state)@ == old(state)@
                &&& if work_unreadable(old(state)@, identity_of(finding@.record)) {
                    error == StateError::UnreadableRecord
                } else {
                    error == StateError::UnorderedScore && !record_ordered(
                        absorbed_record(old(state)@, finding@.record),
                    )
                }
            },
        },
{
    let identity = finding.record.identity();
    let record = match state.get_work(&identity) {
        Ok(Some(existing)) => existing.merge(finding.record),
        Ok(None) => finding.record,
        Err(error) => {
            return Err(error);
        },
    };
    match state.upsert_work(&record, "discovered", now.to_owned()) {
        Ok(work_id) => {
            proof {
                lemma_upserted_is_known(old(state)@, record@, "discovered"@, now@);
            }
            store_all(state, &work_id, finding.raw_records);
            Ok(work_id)
        },
        Err(error) => Err(error),
    }
}

/// A lookup that led to nothing, as a response.
pub open spec fn failure_of(
    provider: Seq<char>,
    identifier: Seq<char>,
    status: Seq<char>,
    now: Seq<char>,
) -> RawSourceRecordView {
    RawSourceRecordView {
        source: "resolution"@,
        source_id: provider + ":"@ + identifier,
        retrieved_at: now,
        raw: JsonView::Object(
            seq![
                ("provider"@, JsonView::Text(provider)),
                ("identifier"@, JsonView::Text(identifier)),
                ("status"@, JsonView::Text(status)),
            ],
        ),
    }
}

/// A lookup that led to nothing, as a response.
pub fn resolution_failure(provider: &str, identifier: &str, status: &str, now: &str) -> (r:
    RawSourceRecord)
    ensures
        r@ == failure_of(provider@, identifier@, status@, now@),
{
    let mut source_id = provider.to_owned();
    source_id.append(":");
    source_id.append(identifier);
    let mut members: Vec<(String, Json)> = Vec::new();
    insert(&mut members, "provider", Json::from_text(provider));
    insert(&mut members, "identifier", Json::from_text(identifier));
    insert(&mut members, "status", Json::from_text(status));
    assert(member_views(members@) =~= failure_of(
        provider@,
        identifier@,
        status@,
        now@,
    ).raw->Object_0);
    RawSourceRecord {
        source: "resolution".to_owned(),
        source_id,
        retrieved_at: now.to_owned(),
        raw: object(members),
    }
}

/// The DOI under which the formal version of a preprint is looked up: that of an arXiv
/// preprint that has one.
pub open spec fn formal_doi(work: WorkRecordView) -> Option<Seq<char>> {
    if ascii_lower(work.work_type) == ascii_lower("preprint"@) && arxiv_in(work.ids) is Some {
        doi_in(work.ids)
    } else {
        None
    }
}

/// The DOI under which the formal version of the work is looked up.
pub fn formal_lookup_doi(record: &WorkRecord) -> (r: Option<String>)
    ensures
        opt_text(r) == formal_doi(record@),
{
    if !eq_ignore_ascii_case(&record.work_type, "preprint") || find_arxiv(&record.ids).is_none() {
        return None;
    }
    find_doi(&record.ids)
}

/// The answer promotes the preprint.
pub open spec fn promoted_by(outcome: LookupOutcomeView) -> bool {
    outcome matches LookupOutcomeView::Found(work) && formal_publication(work.record)
}

/// The state with what the lookup of a formal version brought.
pub open spec fn refreshed(
    state: StateView,
    work_id: Seq<char>,
    work: WorkRecordView,
    doi: Seq<char>,
    outcome: LookupOutcomeView,
    now: Seq<char>,
) -> StateView {
    match outcome {
        LookupOutcomeView::Found(found) => if formal_publication(found.record) {
            let record = merged(work, found.record);
            with_raws(
                upserted(state, record, "discovered"@, now),
                identity_of(record),
                found.raw_records,
            )
        } else {
            with_raws(state, work_id, found.raw_records)
        },
        LookupOutcomeView::NotFound => with_raw(
            state,
            work_id,
            failure_of("crossref"@, doi, "not_found"@, now),
        ),
        LookupOutcomeView::Failed => with_raw(
            state,
            work_id,
            failure_of("crossref"@, doi, "lookup_failed"@, now),
        ),
    }
}

/// The answer leaves responses behind that only a known work can have.
pub open spec fn leaves_responses(outcome: LookupOutcomeView) -> bool {
    match outcome {
        LookupOutcomeView::Found(found) => !formal_publication(found.record)
            && found.raw_records.len() > 0,
        _ => true,
    }
}

/// Takes in what the lookup of a formal version brought, and answers whether the
/// preprint was promoted.
pub fn refresh_formal_record(
    state: &mut State,
    work_id: &str,
    record: WorkRecord,
    doi: &str,
    outcome: LookupOutcome,
    now: &str,
) -> (r: Result<bool, StateError>)
    ensures
        match r {
            Ok(promoted) => {
                &&& promoted == promoted_by(outcome@)
                &&& leaves_responses(outcome@) ==> knows_work(old(state)@.works, work_id@)
                &&& final(state)@ == refreshed(
                    old(state)@,
                    work_id@,
                    record@,
                    doi@,
                    outcome@,
                    now@,
                )
            },
            Err(error) => {
                &&& final(state)@ == old(state)@
                &&& if promoted_by(outcome@) {
                    error == StateError::UnorderedScore && !record_ordered(
                        merged(record@, outcome@->Found_0.record),
                    )
                } else {
                    error == StateError::UnknownWork && leaves_responses(outcome@) && !knows_work(
                        old(state)@.works,
                        work_id@,
                    )
                }
            },
        },
{
    let known = state.stored_work(work_id).is_some();
    match outcome {
        LookupOutcome::Found(found) => {
            if found.record.is_verified_formal_publication() {
                let next = record.merge(found.record);
                match state.upsert_work(&next, "discovered", now.to_owned()) {
                    Ok(destination) => {
                        proof {
                            lemma_upserted_is_known(old(state)@, next@, "discovered"@, now@);
                        }
                        store_all(state, &destination, found.raw_records);
                        Ok(true)
                    },
                    Err(error) => Err(error),
                }
            } else if known {
                store_all(state, work_id, found.raw_records);
                Ok(false)
            } else if found.raw_records.len() == 0 {
                Ok(false)
            } else {
                Err(StateError::UnknownWork)
            }
        },
        LookupOutcome::NotFound => {
            let failure = resolution_failure("crossref", doi, "not_found", now);
            match state.store_raw(work_id, failure) {
                Ok(()) => Ok(false),
                Err(error) => Err(error),
            }
        },
        LookupOutcome::Failed => {
            let failure = resolution_failure("crossref", doi, "lookup_failed", now);
            match state.store_raw(work_id, failure) {
                Ok(()) => Ok(false),
                Err(error) => Err(error),
            }
        },
    }
}

/// The flags of a work as screening sets them: whether the user may supply its PDF,
/// has to, and may use a library affiliation for that.
pub open spec fn screening_flags(
    work: WorkRecordView,
    plan: ResearchPlanView,
) -> Map<Seq<char>, bool> {
    work.flags.insert(MANUAL_FULLTEXT_ENABLED_FLAG@, plan.include_paywalled).insert(
        REQUIRES_MANUAL_PDF_FLAG@,
        plan.include_paywalled && !any_authorized(work.fulltext_candidates),
    ).insert(GOOGLE_SCHOLAR_LIBRARY_ACCESS_FLAG@, plan.use_google_scholar_library_access)
}

/// The work with its flags as screening sets them.
pub fn prepare_for_screening(record: WorkRecord, plan: &ResearchPlan) -> (r: WorkRecord)
    ensures
        r@ == (WorkRecordView { flags: screening_flags(record@, plan@), ..record@ }),
{
    let manual = plan.include_paywalled && !record.has_authorized_fulltext();
    let ghost before = record@;
    let mut flags = record.flags;
    flags.insert(MANUAL_FULLTEXT_ENABLED_FLAG.to_owned(), plan.include_paywalled);
    flags.insert(REQUIRES_MANUAL_PDF_FLAG.to_owned(), manual);
    flags.insert(
        GOOGLE_SCHOLAR_LIBRARY_ACCESS_FLAG.to_owned(),
        plan.use_google_scholar_library_access,
    );
    let r = WorkRecord { flags, ..record };
    assert(r@ =~= (WorkRecordView { flags: screening_flags(before, plan@), ..before }));
    r
}

/// A work under screening.
#[derive(Debug)]
pub struct ScreenedWork {
    pub work_id: String,
    pub record: WorkRecord,
}

impl View for ScreenedWork {
    type V = (Seq<char>, WorkRecordView);

    open spec fn view(&self) -> (Seq<char>, WorkRecordView) {
        (self.work_id@, self.record@)
    }
}

impl Ranked for ScreenedWork {
    open spec fn before(a: (Seq<char>, WorkRecordView), b: (Seq<char>, WorkRecordView)) -> bool {
        b.1.quality.priority_score.total_rank() < a.1.quality.priority_score.total_rank()
    }

    fn comes_before(&self, other: &ScreenedWork) -> (r: bool) {
        other.record.quality.priority_score.precedes(&self.record.quality.priority_score)
    }

    proof fn lemma_chain(
        a: (Seq<char>, WorkRecordView),
        b: (Seq<char>, WorkRecordView),
        c: (Seq<char>, WorkRecordView),
    ) {
    }

    proof fn lemma_one_way(a: (Seq<char>, WorkRecordView), b: (Seq<char>, WorkRecordView)) {
    }
}

/// The indices of the works from one index up to another that passed so far.
pub open spec fn eligible_between(
    works: Seq<(Seq<char>, WorkRecordView)>,
    from: int,
    to: int,
) -> Seq<int>
    decreases to - from,
{
    if to <= from {
        Seq::empty()
    } else {
        let rest = eligible_between(works, from, to - 1);
        if works[to - 1].1.quality.accepted {
            rest.push(to - 1)
        } else {
            rest
        }
    }
}

/// The indices as numbers of the executable.
pub open spec fn as_ints(indices: Seq<usize>) -> Seq<int> {
    Seq::new(indices.len(), |i: int| indices[i] as int)
}

/// The indices of the works from one index up to another that passed so far: those
/// that the reranker is shown.
pub fn eligible_works(works: &Vec<ScreenedWork>, from: usize, to: usize) -> (r: Vec<usize>)
    requires
        from <= to <= works@.len(),
    ensures
        as_ints(r@) == eligible_between(views(works@), from as int, to as int),
        forall|i: int| 0 <= i < r@.len() ==> from <= #[trigger] r@[i] < to,
{
    let ghost all = views(works@);
    let mut out: Vec<usize> = Vec::new();
    let mut i: usize = from;
    assert(as_ints(out@) =~= eligible_between(all, from as int, from as int));
    while i < to
        invariant
            from <= i <= to,
            to <= works@.len(),
            all == views(works@),
            as_ints(out@) == eligible_between(all, from as int, i as int),
            forall|k: int| 0 <= k < out@.len() ==> from <= #[trigger] out@[k] < i,
        decreases to - i,
    {
        assert(all[i as int] == works@[i as int]@);
        let ghost before = as_ints(out@);
        if works[i].record.quality.accepted {
            out.push(i);
            assert(as_ints(out@) =~= before.push(i as int));
        }
        i += 1;
    }
    out
}

/// What the reranker is shown of the works with the indices.
pub fn screening_passages(works: &Vec<ScreenedWork>, indices: &Vec<usize>) -> (r: Vec<String>)
    requires
        forall|i: int| 0 <= i < indices@.len() ==> #[trigger] indices@[i] < works@.len(),
    ensures
        r@.len() == indices@.len(),
        forall|i: int|
            0 <= i < indices@.len() ==> (#[trigger] r@[i])@
                == crate::domain::screening_passage_of(views(works@)[indices@[i] as int].1),
{
    let ghost all = views(works@);
    let mut out: Vec<String> = Vec::new();
    let mut i: usize = 0;
    while i < indices.len()
        invariant
            i <= indices@.len(),
            all == views(works@),
            forall|k: int| 0 <= k < indices@.len() ==> #[trigger] indices@[k] < works@.len(),
            out@.len() == i,
            forall|k: int|
                0 <= k < i ==> (#[trigger] out@[k])@ == crate::domain::screening_passage_of(
                    all[indices@[k] as int].1,
                ),
        decreases indices@.len() - i,
    {
        let at = indices[i];
        assert(all[at as int] == works@[at as int]@);
        out.push(works[at].record.screening_passage());
        i += 1;
    }
    out
}

/// The relevance of a work, and what it makes together with its quality.
#[derive(Clone, Copy, Debug)]
pub struct RelevanceScore {
    pub logit: Score,
    pub normalized: Score,
    pub priority: Score,
}

/// The work with its relevance.
pub open spec fn with_score(
    work: (Seq<char>, WorkRecordView),
    score: RelevanceScore,
    plan: ResearchPlanView,
) -> (Seq<char>, WorkRecordView) {
    (
        work.0,
        WorkRecordView {
            quality: with_relevance(
                work.1.quality,
                score.logit,
                score.normalized,
                score.priority,
                plan,
            ),
            ..work.1
        },
    )
}

/// The works with the relevance of those with the indices, one after another.
pub open spec fn with_scores(
    works: Seq<(Seq<char>, WorkRecordView)>,
    indices: Seq<usize>,
    scores: Seq<RelevanceScore>,
    plan: ResearchPlanView,
) -> Seq<(Seq<char>, WorkRecordView)>
    decreases indices.len(),
{
    if indices.len() == 0 || scores.len() < indices.len() {
        works
    } else {
        let n = indices.len() - 1;
        let rest = with_scores(works, indices.drop_last(), scores.take(n), plan);
        let at = indices[n] as int;
        rest.update(at, with_score(rest[at], scores[n], plan))
    }
}

/// Adds the relevance of the works with the indices.
pub fn apply_scores(
    works: &mut Vec<ScreenedWork>,
    indices: &Vec<usize>,
    scores: &Vec<RelevanceScore>,
    plan: &ResearchPlan,
)
    requires
        indices@.len() == scores@.len(),
        forall|i: int| 0 <= i < indices@.len() ==> #[trigger] indices@[i] < old(works)@.len(),
    ensures
        final(works)@.len() == old(works)@.len(),
        views(final(works)@) == with_scores(views(old(works)@), indices@, scores@, plan@),
{
    let ghost start = views(works@);
    let mut i: usize = 0;
    assert(indices@.take(0).len() == 0);
    while i < indices.len()
        invariant
            i <= indices@.len(),
            indices@.len() == scores@.len(),
            works@.len() == start.len(),
            forall|k: int| 0 <= k < indices@.len() ==> #[trigger] indices@[k] < start.len(),
            views(works@) == with_scores(
                start,
                indices@.take(i as int),
                scores@.take(i as int),
                plan@,
            ),
        decreases indices@.len() - i,
    {
        let ghost before = views(works@);
        assert(indices@.take(i + 1).drop_last() =~= indices@.take(i as int));
        assert(scores@.take(i + 1).take(i as int) =~= scores@.take(i as int));
        let at = indices[i];
        let score = scores[i];
        let work = works.remove(at);
        let record = work.record;
        let ghost old_record = record@;
        let quality = add_relevance(
            record.quality,
            score.logit,
            score.normalized,
            score.priority,
            plan,
        );
        let next = ScreenedWork { work_id: work.work_id, record: WorkRecord { quality, ..record } };
        assert(next@ == with_score(before[at as int], scores@[i as int], plan@));
        works.insert(at, next);
        assert(views(works@) =~= before.update(
            at as int,
            with_score(before[at as int], scores@[i as int], plan@),
        ));
        i += 1;
    }
    assert(indices@.take(indices@.len() as int) =~= indices@);
    assert(scores@.take(scores@.len() as int) =~= scores@);
}

/// Where the batch of a size that begins at an offset ends.
pub open spec fn chunk_stop(offset: int, size: int, total: int) -> int {
    if total - offset <= size {
        total
    } else {
        offset + size
    }
}

/// Where the batch that begins at the offset ends.
pub fn chunk_end(offset: usize, size: usize, total: usize) -> (r: usize)
    requires
        offset <= total,
        size > 0,
    ensures
        r == (if total - offset <= size {
            total as int
        } else {
            offset + size
        }),
        r == chunk_stop(offset as int, size as int, total as int),
{
    if total - offset <= size {
        total
    } else {
        offset + size
    }
}

/// A work as screening leaves it, with its status.
#[derive(Debug)]
pub struct Selection {
    pub record: WorkRecord,
    pub status: String,
}

impl View for Selection {
    type V = (WorkRecordView, Seq<char>);

    open spec fn view(&self) -> (WorkRecordView, Seq<char>) {
        (self.record@, self.status@)
    }
}

/// A work that passed, but for which there is no room.
pub open spec fn capped(work: WorkRecordView) -> WorkRecordView {
    WorkRecordView {
        quality: crate::domain::QualityAssessmentView {
            accepted: false,
            rejection_reasons: work.quality.rejection_reasons.push(
                "outside configured target_papers cap"@,
            ),
            ..work.quality
        },
        ..work
    }
}

/// The works with their statuses: those that passed are selected while there is
/// room, and all others rejected.
pub open spec fn selections(
    works: Seq<(Seq<char>, WorkRecordView)>,
    room: nat,
) -> Seq<(WorkRecordView, Seq<char>)>
    decreases works.len(),
{
    if works.len() == 0 {
        Seq::empty()
    } else {
        let work = works[0].1;
        if !work.quality.accepted {
            seq![(work, "rejected"@)] + selections(works.skip(1), room)
        } else if room == 0 {
            seq![(capped(work), "rejected"@)] + selections(works.skip(1), room)
        } else {
            seq![(work, "selected"@)] + selections(works.skip(1), (room - 1) as nat)
        }
    }
}

/// How many of the works passed.
pub open spec fn passed(works: Seq<(Seq<char>, WorkRecordView)>) -> nat
    decreases works.len(),
{
    if works.len() == 0 {
        0
    } else if works[0].1.quality.accepted {
        1 + passed(works.skip(1))
    } else {
        passed(works.skip(1))
    }
}

/// The works by priority with their statuses, and how many are selected.
pub fn select_works(works: Vec<ScreenedWork>, target_papers: usize) -> (r: (
    Vec<Selection>,
    usize,
))
    ensures
        views(r.0@) == selections(
            ordered::<ScreenedWork>(views(works@)),
            target_papers as nat,
        ),
        r.1 == (if passed(ordered::<ScreenedWork>(views(works@))) <= target_papers {
            passed(ordered::<ScreenedWork>(views(works@))) as int
        } else {
            target_papers as int
        }),
{
    let ghost all = ordered::<ScreenedWork>(views(works@));
    let sorted = sort(works);
    let ghost items = sorted@;
    let mut out: Vec<Selection> = Vec::new();
    let mut selected: usize = 0;
    assert(all.skip(0) =~= all);
    assert(views(out@) + selections(all, target_papers as nat) =~= selections(
        all,
        target_papers as nat,
    ));
    for work in it: sorted
        invariant
            it.seq() == items,
            all == views(items),
            selected <= target_papers,
            views(out@) + selections(
                all.skip(it.index() as int),
                (target_papers - selected) as nat,
            ) == selections(all, target_papers as nat),
            passed(all) == passed(all.skip(it.index() as int)) + (if selected < target_papers {
                selected as nat
            } else {
                (passed(all) - passed(all.skip(it.index() as int))) as nat
            }),
            passed(all) >= passed(all.skip(it.index() as int)) + selected,
    {
        let ghost i = it.index() as int;
        let ghost rest = all.skip(i);
        assert(rest[0] == work@);
        assert(rest.skip(1) =~= all.skip(i + 1));
        let ghost before = views(out@);
        let ghost room = (target_papers - selected) as nat;
        let record = work.record;
        let ghost whole = record@;
        if record.quality.accepted && selected < target_papers {
            let entry = Selection { record, status: "selected".to_owned() };
            let ghost added = entry@;
            out.push(entry);
            selected += 1;
            assert(views(out@) =~= before.push(added));
            assert(before.push(added) + selections(rest.skip(1), (room - 1) as nat) =~= before + (
            seq![added] + selections(rest.skip(1), (room - 1) as nat)));
        } else {
            let mut next = record;
            if next.quality.accepted {
                let mut reasons: Vec<String> = Vec::new();
                std::mem::swap(&mut reasons, &mut next.quality.rejection_reasons);
                let ghost known = texts(reasons@);
                reasons.push("outside configured target_papers cap".to_owned());
                assert(texts(reasons@) =~= known.push("outside configured target_papers cap"@));
                next.quality.rejection_reasons = reasons;
                next.quality.accepted = false;
                assert(next@ =~= capped(whole));
            }
            let entry = Selection { record: next, status: "rejected".to_owned() };
            let ghost added = entry@;
            out.push(entry);
            assert(views(out@) =~= before.push(added));
            assert(before.push(added) + selections(rest.skip(1), room) =~= before + (seq![added]
                + selections(rest.skip(1), room)));
        }
    }
    assert(all.skip(all.len() as int).len() == 0);
    assert(views(out@) + Seq::<(WorkRecordView, Seq<char>)>::empty() =~= views(out@));
    (out, selected)
}

/// Of works by priority the first that passed are selected: where a work is selected,
/// so is each one before it that passed. No selected work was changed.
pub proof fn law_the_best_are_selected(
    works: Seq<(Seq<char>, WorkRecordView)>,
    room: nat,
    i: int,
    j: int,
)
    requires
        0 <= i < j < works.len(),
        works[i].1.quality.accepted,
        selections(works, room)[j].1 == "selected"@,
    ensures
        selections(works, room).len() == works.len(),
        selections(works, room)[i] == (works[i].1, "selected"@),
    decreases works.len(),
{
    reveal_strlit("selected");
    reveal_strlit("rejected");
    assert("selected"@[0] != "rejected"@[0]);
    lemma_selections_len(works, room);
    let rest = works.skip(1);
    let work = works[0].1;
    let left = if work.quality.accepted && room > 0 {
        (room - 1) as nat
    } else {
        room
    };
    lemma_selections_len(rest, left);
    assert(selections(works, room).skip(1) =~= selections(rest, left));
    assert(selections(works, room)[j] == selections(rest, left)[j - 1]);
    if i > 0 {
        assert(selections(works, room)[i] == selections(rest, left)[i - 1]);
        assert(rest[i - 1] == works[i]);
        law_the_best_are_selected(rest, left, i - 1, j - 1);
    } else if room == 0 {
        lemma_no_room(rest, j - 1);
    }
}

proof fn lemma_selections_len(works: Seq<(Seq<char>, WorkRecordView)>, room: nat)
    ensures
        selections(works, room).len() == works.len(),
    decreases works.len(),
{
    if works.len() > 0 {
        lemma_selections_len(works.skip(1), room);
        if room > 0 {
            lemma_selections_len(works.skip(1), (room - 1) as nat);
        }
    }
}

proof fn lemma_no_room(works: Seq<(Seq<char>, WorkRecordView)>, i: int)
    requires
        0 <= i < works.len(),
    ensures
        selections(works, 0)[i].1 == "rejected"@,
    decreases works.len(),
{
    lemma_selections_len(works, 0);
    lemma_selections_len(works.skip(1), 0);
    assert(selections(works, 0).skip(1) =~= selections(works.skip(1), 0));
    if i > 0 {
        assert(selections(works, 0)[i] == selections(works.skip(1), 0)[i - 1]);
        lemma_no_room(works.skip(1), i - 1);
    }
}

/// How many of the works are selected.
pub open spec fn selected_total(works: Seq<(WorkRecordView, Seq<char>)>) -> nat
    decreases works.len(),
{
    if works.len() == 0 {
        0
    } else if works[0].1 == "selected"@ {
        1 + selected_total(works.skip(1))
    } else {
        selected_total(works.skip(1))
    }
}

/// No more works are selected than the plan has room for, and a work that is not
/// accepted is never selected.
pub proof fn law_selection_keeps_the_target(works: Seq<(Seq<char>, WorkRecordView)>, room: nat)
    ensures
        selected_total(selections(works, room)) <= room,
        forall|i: int|
            0 <= i < works.len() && (#[trigger] selections(works, room)[i]).1 == "selected"@
                ==> works[i].1.quality.accepted && selections(works, room)[i].0 == works[i].1,
    decreases works.len(),
{
    reveal_strlit("selected");
    reveal_strlit("rejected");
    assert("selected"@[0] != "rejected"@[0]);
    if works.len() > 0 {
        let rest = works.skip(1);
        let work = works[0].1;
        let left = if work.quality.accepted && room > 0 {
            (room - 1) as nat
        } else {
            room
        };
        law_selection_keeps_the_target(rest, left);
        lemma_selections_len(rest, left);
        lemma_selections_len(works, room);
        assert(selections(works, room).skip(1) =~= selections(rest, left));
        assert forall|i: int|
            0 <= i < works.len() && (#[trigger] selections(works, room)[i]).1
                == "selected"@ implies works[i].1.quality.accepted && selections(works, room)[i].0
            == works[i].1 by {
            if i > 0 {
                assert(selections(works, room)[i] == selections(rest, left)[i - 1]);
                assert(rest[i - 1] == works[i]);
            }
        }
    }
}

/// A selected work with what the citation source says of it, and its status then.
pub open spec fn enriched(work: WorkRecordView, found: WorkRecordView) -> (
    WorkRecordView,
    Seq<char>,
) {
    let both = merged(work, found);
    let flagged = WorkRecordView {
        flags: both.flags.insert(
            REQUIRES_MANUAL_PDF_FLAG@,
            flag_set(both.flags, MANUAL_FULLTEXT_ENABLED_FLAG@) && !any_authorized(
                both.fulltext_candidates,
            ),
        ),
        ..both
    };
    if flag_set(flagged.flags, "is_retracted"@) {
        (
            WorkRecordView {
                quality: crate::domain::QualityAssessmentView {
                    accepted: false,
                    rejection_reasons: flagged.quality.rejection_reasons.push(
                        "retracted or withdrawn record found during citation enrichment"@,
                    ),
                    ..flagged.quality
                },
                ..flagged
            },
            "rejected"@,
        )
    } else {
        (flagged, "selected"@)
    }
}

/// The selected work with what the citation source says of it, its status then, and
/// whether that disqualifies it.
pub fn enrich_record(record: WorkRecord, found: WorkRecord) -> (r: (Selection, bool))
    ensures
        r.0@ == enriched(record@, found@),
        r.1 == flag_set(
            merged(record@, found@).flags.insert(
                REQUIRES_MANUAL_PDF_FLAG@,
                flag_set(merged(record@, found@).flags, MANUAL_FULLTEXT_ENABLED_FLAG@)
                    && !any_authorized(merged(record@, found@).fulltext_candidates),
            ),
            "is_retracted"@,
        ),
{
    let ghost wanted = enriched(record@, found@);
    let both = record.merge(found);
    let ghost whole = both@;
    let manual = is_set(&both.flags, MANUAL_FULLTEXT_ENABLED_FLAG)
        && !both.has_authorized_fulltext();
    let mut flags = both.flags;
    flags.insert(REQUIRES_MANUAL_PDF_FLAG.to_owned(), manual);
    let retracted = is_set(&flags, "is_retracted");
    let mut next = WorkRecord { flags, ..both };
    if retracted {
        let mut reasons: Vec<String> = Vec::new();
        std::mem::swap(&mut reasons, &mut next.quality.rejection_reasons);
        let ghost known = texts(reasons@);
        reasons.push("retracted or withdrawn record found during citation enrichment".to_owned());
        assert(texts(reasons@) =~= known.push(
            "retracted or withdrawn record found during citation enrichment"@,
        ));
        next.quality.rejection_reasons = reasons;
        next.quality.accepted = false;
        assert(next@ =~= wanted.0);
        (Selection { record: next, status: "rejected".to_owned() }, true)
    } else {
        assert(next@ =~= wanted.0);
        (Selection { record: next, status: "selected".to_owned() }, false)
    }
}

/// The state with what a citation source says of a selected work.
pub open spec fn enriched_state(
    state: StateView,
    work: WorkRecordView,
    found: DiscoveredWorkView,
    now: Seq<char>,
) -> StateView {
    let next = enriched(work, found.record);
    with_raws(upserted(state, next.0, next.1, now), identity_of(next.0), found.raw_records)
}

/// Takes in what a citation source says of a selected work, and answers whether that
/// disqualifies it. Where it says nothing, nothing changes.
pub fn enrich_selected(
    state: &mut State,
    record: WorkRecord,
    outcome: LookupOutcome,
    now: &str,
) -> (r: Result<bool, StateError>)
    ensures
        match outcome@ {
            LookupOutcomeView::Found(found) => match r {
                Ok(disqualified) => final(state)@ == enriched_state(
                    old(state)@,
                    record@,
                    found,
                    now@,
                ) && disqualified == (enriched(record@, found.record).1 == "rejected"@),
                Err(error) => error == StateError::UnorderedScore && !record_ordered(
                    enriched(record@, found.record).0,
                ) && final(state)@ == old(state)@,
            },
            _ => r == Ok::<bool, StateError>(false) && final(state)@ == old(state)@,
        },
{
    match outcome {
        LookupOutcome::Found(found) => {
            let (next, disqualified) = enrich_record(record, found.record);
            proof {
                reveal_strlit("selected");
                reveal_strlit("rejected");
                assert("selected"@[0] != "rejected"@[0]);
            }
            match state.upsert_work(&next.record, &next.status, now.to_owned()) {
                Ok(work_id) => {
                    proof {
                        lemma_upserted_is_known(old(state)@, next@.0, next@.1, now@);
                    }
                    store_all(state, &work_id, found.raw_records);
                    Ok(disqualified)
                },
                Err(error) => Err(error),
            }
        },
        LookupOutcome::NotFound => Ok(false),
        LookupOutcome::Failed => Ok(false),
    }
}

/// A work that turns out to be retracted is rejected, whatever screening found.
pub proof fn law_enrichment_rejects_retracted_works(work: WorkRecordView, found: WorkRecordView)
    requires
        flag_set(work.flags, "is_retracted"@) || flag_set(found.flags, "is_retracted"@),
    ensures
        enriched(work, found).1 == "rejected"@,
        !enriched(work, found).0.quality.accepted,
{
    reveal_strlit("is_retracted");
    reveal_strlit("requires_manual_pdf");
    assert("is_retracted"@.len() != "requires_manual_pdf"@.len());
    assert(REQUIRES_MANUAL_PDF_FLAG@ == "requires_manual_pdf"@);
}

/// What is said where screening selected nothing. The figures are the least, the mean
/// and the greatest relevance and the threshold, as texts.
#[derive(Debug)]
pub struct RelevanceFigures {
    pub minimum: String,
    pub mean: String,
    pub maximum: String,
    pub threshold: String,
}

/// What is said where screening selected nothing.
pub open spec fn zero_selection_text(
    count: nat,
    threshold: Score,
    minimum: Seq<char>,
    mean: Seq<char>,
    maximum: Seq<char>,
    threshold_text: Seq<char>,
) -> Seq<char> {
    if count == 0 {
        "screening selected zero papers because none passed the hard academic-value gates; inspect stored rejection reasons before changing thresholds"@
    } else if Score::from_bits(ZERO).less(threshold) {
        "screening selected zero papers after reranking "@ + decimal(count)
            + " eligible records (sigmoid relevance min="@ + minimum + ", mean="@ + mean + ", max="@
            + maximum + ", configured threshold="@ + threshold_text
            + "); reranker sigmoid scores are not universally calibrated\u{2014}set min_relevance_score to 0.0 for rank-only triage or calibrate a nonzero threshold with labeled positives and negatives"@
    } else {
        "screening selected zero papers despite rank-only relevance screening of "@ + decimal(count)
            + " eligible records (sigmoid relevance min="@ + minimum + ", mean="@ + mean + ", max="@
            + maximum
            + "); inspect target_papers, post-resolution retraction checks, and stored rejection reasons"@
    }
}

/// What is said where screening selected nothing of so many works that were reranked.
pub fn zero_selection_diagnostic(count: usize, threshold: Score, figures: &RelevanceFigures) -> (r:
    String)
    ensures
        r@ == zero_selection_text(
            count as nat,
            threshold,
            figures.minimum@,
            figures.mean@,
            figures.maximum@,
            figures.threshold@,
        ),
{
    if count == 0 {
        return "screening selected zero papers because none passed the hard academic-value gates; inspect stored rejection reasons before changing thresholds".to_owned();
    }
    if Score::from_bits(ZERO).is_less(&threshold) {
        let mut text = "screening selected zero papers after reranking ".to_owned();
        text.append(&decimal_text(count as u64));
        text.append(" eligible records (sigmoid relevance min=");
        text.append(&figures.minimum);
        text.append(", mean=");
        text.append(&figures.mean);
        text.append(", max=");
        text.append(&figures.maximum);
        text.append(", configured threshold=");
        text.append(&figures.threshold);
        text.append("); reranker sigmoid scores are not universally calibrated\u{2014}set min_relevance_score to 0.0 for rank-only triage or calibrate a nonzero threshold with labeled positives and negatives");
        text
    } else {
        let mut text =
            "screening selected zero papers despite rank-only relevance screening of ".to_owned();
        text.append(&decimal_text(count as u64));
        text.append(" eligible records (sigmoid relevance min=");
        text.append(&figures.minimum);
        text.append(", mean=");
        text.append(&figures.mean);
        text.append(", max=");
        text.append(&figures.maximum);
        text.append("); inspect target_papers, post-resolution retraction checks, and stored rejection reasons");
        text
    }
}

/// The statuses of works that are screened.
pub open spec fn unscreened() -> Seq<Seq<char>> {
    seq!["discovered"@, "rejected"@]
}

/// The works that are screened: those that were found, and those that were rejected before.
pub fn works_to_screen(state: &State) -> (r: Result<Vec<(String, WorkRecord)>, StateError>)
    ensures
        match r {
            Ok(works) => all_readable(state@.works) && views(works@) == works_in(
                works_listed(state@.works),
                unscreened(),
            ),
            Err(error) => error == StateError::UnreadableRecord && !all_readable(state@.works),
        },
{
    let mut statuses: Vec<String> = Vec::new();
    statuses.push("discovered".to_owned());
    statuses.push("rejected".to_owned());
    assert(texts(statuses@) =~= unscreened());
    state.works_with_statuses(&statuses)
}


/// The statuses of works whose citations are completed.
pub open spec fn unenriched() -> Seq<Seq<char>> {
    seq!["selected"@]
}

/// The works whose citations are completed: those that were selected.
pub fn works_to_enrich(state: &State) -> (r: Result<Vec<(String, WorkRecord)>, StateError>)
    ensures
        match r {
            Ok(works) => all_readable(state@.works) && views(works@) == works_in(
                works_listed(state@.works),
                unenriched(),
            ),
            Err(error) => error == StateError::UnreadableRecord && !all_readable(state@.works),
        },
{
    let mut statuses: Vec<String> = Vec::new();
    statuses.push("selected".to_owned());
    assert(texts(statuses@) =~= unenriched());
    state.works_with_statuses(&statuses)
}


/// The statuses of works whose PDF is still to be had.
pub open spec fn undownloaded() -> Seq<Seq<char>> {
    seq!["selected"@, "awaiting-manual-download"@, "error:download"@, "error:manual-download"@]
}

/// The works whose PDF is still to be had.
pub fn works_to_download(state: &State) -> (r: Result<Vec<(String, WorkRecord)>, StateError>)
    ensures
        match r {
            Ok(works) => all_readable(state@.works) && views(works@) == works_in(
                works_listed(state@.works),
                undownloaded(),
            ),
            Err(error) => error == StateError::UnreadableRecord && !all_readable(state@.works),
        },
{
    let mut statuses: Vec<String> = Vec::new();
    statuses.push("selected".to_owned());
    statuses.push("awaiting-manual-download".to_owned());
    statuses.push("error:download".to_owned());
    statuses.push("error:manual-download".to_owned());
    assert(texts(statuses@) =~= undownloaded());
    state.works_with_statuses(&statuses)
}


/// The statuses of works that belong in the exported library.
pub open spec fn exported() -> Seq<Seq<char>> {
    seq!["selected"@, "awaiting-manual-download"@, "downloaded"@, "rendered"@, "indexed"@]
}

/// The works that belong in the exported library.
pub fn works_to_export(state: &State) -> (r: Result<Vec<(String, WorkRecord)>, StateError>)
    ensures
        match r {
            Ok(works) => all_readable(state@.works) && views(works@) == works_in(
                works_listed(state@.works),
                exported(),
            ),
            Err(error) => error == StateError::UnreadableRecord && !all_readable(state@.works),
        },
{
    let mut statuses: Vec<String> = Vec::new();
    statuses.push("selected".to_owned());
    statuses.push("awaiting-manual-download".to_owned());
    statuses.push("downloaded".to_owned());
    statuses.push("rendered".to_owned());
    statuses.push("indexed".to_owned());
    assert(texts(statuses@) =~= exported());
    state.works_with_statuses(&statuses)
}


/// The statuses of works whose pages are rendered: with a refresh also of those that
/// were rendered before.
pub open spec fn unrendered(refresh_existing: bool) -> Seq<Seq<char>> {
    if refresh_existing {
        seq!["downloaded"@, "error:render"@, "rendered"@, "indexed"@]
    } else {
        seq!["downloaded"@, "error:render"@]
    }
}

/// The works whose pages are rendered.
pub fn works_to_render(state: &State, refresh_existing: bool) -> (r: Result<
    Vec<(String, WorkRecord)>,
    StateError,
>)
    ensures
        match r {
            Ok(works) => all_readable(state@.works) && views(works@) == works_in(
                works_listed(state@.works),
                unrendered(refresh_existing),
            ),
            Err(error) => error == StateError::UnreadableRecord && !all_readable(state@.works),
        },
{
    let mut statuses: Vec<String> = Vec::new();
    statuses.push("downloaded".to_owned());
    statuses.push("error:render".to_owned());
    if refresh_existing {
        statuses.push("rendered".to_owned());
        statuses.push("indexed".to_owned());
    }
    assert(texts(statuses@) =~= unrendered(refresh_existing));
    state.works_with_statuses(&statuses)
}

/// How the PDF of a work is to be had: by taking in the file that the user put there,
/// by asking the user for it, or by downloading it.
#[derive(Debug)]
pub enum DownloadStep {
    ImportManual,
    AwaitManual(ManualDownloadRequest),
    Automatic,
}

/// What a `DownloadStep` holds.
#[verifier::ext_equal]
pub enum DownloadStepView {
    ImportManual,
    AwaitManual(ManualDownloadRequestView),
    Automatic,
}

impl View for DownloadStep {
    type V = DownloadStepView;

    open spec fn view(&self) -> DownloadStepView {
        match self {
            DownloadStep::ImportManual => DownloadStepView::ImportManual,
            DownloadStep::AwaitManual(request) => DownloadStepView::AwaitManual(request@),
            DownloadStep::Automatic => DownloadStepView::Automatic,
        }
    }
}

/// How the PDF of a work is to be had, by whether the user's file is there.
pub open spec fn step_for(
    workspace: Seq<char>,
    work_id: Seq<char>,
    work: WorkRecordView,
    file_present: bool,
) -> DownloadStepView {
    if flag_set(work.flags, MANUAL_FULLTEXT_ENABLED_FLAG@) && file_present {
        DownloadStepView::ImportManual
    } else if flag_set(work.flags, REQUIRES_MANUAL_PDF_FLAG@) {
        DownloadStepView::AwaitManual(
            manual_request(
                workspace,
                work_id,
                work,
                "no independently authorized open-access PDF was found"@,
            ),
        )
    } else {
        DownloadStepView::Automatic
    }
}

/// How the PDF of the work is to be had, by whether the user's file is there.
pub fn download_step(workspace: &str, work_id: &str, record: &WorkRecord, file_present: bool) -> (r:
    DownloadStep)
    ensures
        r@ == step_for(workspace@, work_id@, record@, file_present),
{
    if is_set(&record.flags, MANUAL_FULLTEXT_ENABLED_FLAG) && file_present {
        DownloadStep::ImportManual
    } else if is_set(&record.flags, REQUIRES_MANUAL_PDF_FLAG) {
        DownloadStep::AwaitManual(
            manual_download_request(
                workspace,
                work_id,
                record,
                "no independently authorized open-access PDF was found".to_owned(),
            ),
        )
    } else {
        DownloadStep::Automatic
    }
}

/// What came of the PDF of a work.
#[derive(Debug)]
pub enum DownloadOutcome {
    Downloaded(DownloadedPdf),
    AwaitingManual(ManualDownloadRequest),
    Failed(String),
}

/// What a `DownloadOutcome` holds.
#[verifier::ext_equal]
pub enum DownloadOutcomeView {
    Downloaded(DownloadedPdfView),
    AwaitingManual(ManualDownloadRequestView),
    Failed(Seq<char>),
}

impl View for DownloadOutcome {
    type V = DownloadOutcomeView;

    open spec fn view(&self) -> DownloadOutcomeView {
        match self {
            DownloadOutcome::Downloaded(pdf) => DownloadOutcomeView::Downloaded(pdf@),
            DownloadOutcome::AwaitingManual(request) => DownloadOutcomeView::AwaitingManual(
                request@,
            ),
            DownloadOutcome::Failed(error) => DownloadOutcomeView::Failed(error@),
        }
    }
}

/// What an attempt to have a PDF gave.
pub open spec fn result_view(result: Result<DownloadedPdf, String>) -> Result<
    DownloadedPdfView,
    Seq<char>,
> {
    match result {
        Ok(pdf) => Ok(pdf@),
        Err(error) => Err(error@),
    }
}

/// What came of taking in the user's file: a file that will not do is named.
pub open spec fn supplied_outcome(
    workspace: Seq<char>,
    work_id: Seq<char>,
    result: Result<DownloadedPdfView, Seq<char>>,
) -> DownloadOutcomeView {
    match result {
        Ok(pdf) => DownloadOutcomeView::Downloaded(pdf),
        Err(error) => DownloadOutcomeView::Failed(
            "validate user-supplied PDF at "@ + destination_of(workspace, work_id)
                + "; replace it with the correct PDF and retry: "@ + error,
        ),
    }
}

/// What came of downloading the PDF of a work.
pub open spec fn fetched_outcome(
    workspace: Seq<char>,
    work_id: Seq<char>,
    work: WorkRecordView,
    result: Result<DownloadedPdfView, Seq<char>>,
) -> DownloadOutcomeView {
    match result {
        Ok(pdf) => DownloadOutcomeView::Downloaded(pdf),
        Err(error) => if flag_set(work.flags, MANUAL_FULLTEXT_ENABLED_FLAG@) {
            DownloadOutcomeView::AwaitingManual(
                manual_request(
                    workspace,
                    work_id,
                    work,
                    "automatic authorized download failed: "@ + error,
                ),
            )
        } else {
            DownloadOutcomeView::Failed(error)
        },
    }
}

/// What came of taking in the user's file: a file that will not do is named.
pub fn import_outcome(workspace: &str, work_id: &str, result: Result<DownloadedPdf, String>) -> (r:
    DownloadOutcome)
    ensures
        r@ == match result {
            Ok(pdf) => DownloadOutcomeView::Downloaded(pdf@),
            Err(error) => DownloadOutcomeView::Failed(
                "validate user-supplied PDF at "@ + destination_of(workspace@, work_id@)
                    + "; replace it with the correct PDF and retry: "@ + error@,
            ),
        },
        r@ == supplied_outcome(workspace@, work_id@, result_view(result)),
{
    match result {
        Ok(pdf) => DownloadOutcome::Downloaded(pdf),
        Err(error) => {
            let mut text = "validate user-supplied PDF at ".to_owned();
            text.append(&pdf_destination(workspace, work_id));
            text.append("; replace it with the correct PDF and retry: ");
            text.append(&error);
            DownloadOutcome::Failed(text)
        },
    }
}

/// What came of downloading the PDF of a work: where that failed, the user is asked,
/// if the plan allows it.
pub fn automatic_outcome(
    workspace: &str,
    work_id: &str,
    record: &WorkRecord,
    result: Result<DownloadedPdf, String>,
) -> (r: DownloadOutcome)
    ensures
        r@ == match result {
            Ok(pdf) => DownloadOutcomeView::Downloaded(pdf@),
            Err(error) => if flag_set(record@.flags, MANUAL_FULLTEXT_ENABLED_FLAG@) {
                DownloadOutcomeView::AwaitingManual(
                    manual_request(
                        workspace@,
                        work_id@,
                        record@,
                        "automatic authorized download failed: "@ + error@,
                    ),
                )
            } else {
                DownloadOutcomeView::Failed(error@)
            },
        },
        r@ == fetched_outcome(workspace@, work_id@, record@, result_view(result)),
{
    match result {
        Ok(pdf) => DownloadOutcome::Downloaded(pdf),
        Err(error) => if is_set(&record.flags, MANUAL_FULLTEXT_ENABLED_FLAG) {
            let mut reason = "automatic authorized download failed: ".to_owned();
            reason.append(&error);
            DownloadOutcome::AwaitingManual(
                manual_download_request(workspace, work_id, record, reason),
            )
        } else {
            DownloadOutcome::Failed(error)
        },
    }
}

/// A work whose PDF could not be had.
#[derive(Debug)]
pub struct DownloadFailure {
    pub work_id: String,
    pub error: String,
}

/// What a `DownloadFailure` holds.
#[verifier::ext_equal]
pub struct DownloadFailureView {
    pub work_id: Seq<char>,
    pub error: Seq<char>,
}

impl View for DownloadFailure {
    type V = DownloadFailureView;

    open spec fn view(&self) -> DownloadFailureView {
        DownloadFailureView {
            work_id: self.work_id@,
            error: self.error@,
        }
    }
}

/// What came of a round of downloads.
#[derive(Debug)]
pub struct DownloadReport {
    pub downloaded: usize,
    pub manual_downloads: Vec<ManualDownloadRequest>,
    pub failures: Vec<DownloadFailure>,
}

/// What a `DownloadReport` holds.
#[verifier::ext_equal]
pub struct DownloadReportView {
    pub downloaded: usize,
    pub manual_downloads: Seq<ManualDownloadRequestView>,
    pub failures: Seq<DownloadFailureView>,
}

impl View for DownloadReport {
    type V = DownloadReportView;

    open spec fn view(&self) -> DownloadReportView {
        DownloadReportView {
            downloaded: self.downloaded,
            manual_downloads: views(self.manual_downloads@),
            failures: views(self.failures@),
        }
    }
}

/// The report of a round without works.
pub open spec fn empty_report() -> DownloadReportView {
    DownloadReportView {
        downloaded: 0,
        manual_downloads: Seq::empty(),
        failures: Seq::empty(),
    }
}

impl Default for DownloadReport {
    fn default() -> (r: DownloadReport)
        ensures
            r@ == empty_report(),
    {
        DownloadReport {
            downloaded: 0,
            manual_downloads: Vec::new(),
            failures: Vec::new(),
        }
    }
}


/// What is stored of a PDF that the user supplied, as a response.
pub open spec fn manual_response(pdf: DownloadedPdfView, now: Seq<char>) -> RawSourceRecordView {
    RawSourceRecordView {
        source: "manual-pdf"@,
        source_id: pdf.sha256,
        retrieved_at: now,
        raw: JsonView::Object(
            seq![
                ("acquisition"@, JsonView::Text("user-supplied"@)),
                ("source_url"@, JsonView::Text(pdf.url)),
                ("path"@, JsonView::Text(pdf.path)),
                ("sha256"@, JsonView::Text(pdf.sha256)),
                ("reuse_license_asserted"@, JsonView::Bool(false)),
            ],
        ),
    }
}

fn manual_record(pdf: &DownloadedPdf, now: &str) -> (r: RawSourceRecord)
    ensures
        r@ == manual_response(pdf@, now@),
{
    let mut members: Vec<(String, Json)> = Vec::new();
    insert(&mut members, "acquisition", Json::from_text("user-supplied"));
    insert(&mut members, "source_url", Json::from_text(&pdf.url));
    insert(&mut members, "path", Json::from_text(&pdf.path));
    insert(&mut members, "sha256", Json::from_text(&pdf.sha256));
    insert(&mut members, "reuse_license_asserted", Json::Bool(false));
    assert(member_views(members@) =~= manual_response(pdf@, now@).raw->Object_0);
    RawSourceRecord {
        source: "manual-pdf".to_owned(),
        source_id: pdf.sha256.clone(),
        retrieved_at: now.to_owned(),
        raw: object(members),
    }
}

/// The PDF as the state keeps it.
pub open spec fn kept_artifact(pdf: DownloadedPdfView) -> PdfArtifactView {
    PdfArtifactView { url: pdf.url, path: pdf.path, sha256: pdf.sha256, license: pdf.license }
}

/// The stage at which a download failed: by hand, where a file is there.
pub open spec fn failed_stage(file_present: bool) -> Seq<char> {
    if file_present {
        "manual-download"@
    } else {
        "download"@
    }
}

/// The state with what came of the PDF of a work.
pub open spec fn settled_download(
    state: StateView,
    work_id: Seq<char>,
    outcome: DownloadOutcomeView,
    file_present: bool,
    now: Seq<char>,
) -> StateView {
    match outcome {
        DownloadOutcomeView::Downloaded(pdf) => {
            let next = downloaded(state, work_id, kept_artifact(pdf), now);
            if pdf.user_supplied {
                with_raw(next, work_id, manual_response(pdf, now))
            } else {
                next
            }
        },
        DownloadOutcomeView::AwaitingManual(_) => marked(
            state,
            work_id,
            "awaiting-manual-download"@,
            None,
            now,
        ),
        DownloadOutcomeView::Failed(error) => marked(
            state,
            work_id,
            "error:"@ + failed_stage(file_present),
            Some(error),
            now,
        ),
    }
}

/// The report with what came of the PDF of a work.
pub open spec fn reported(
    report: DownloadReportView,
    work_id: Seq<char>,
    outcome: DownloadOutcomeView,
) -> DownloadReportView {
    match outcome {
        DownloadOutcomeView::Downloaded(_) => DownloadReportView {
            downloaded: (report.downloaded + 1) as usize,
            ..report
        },
        DownloadOutcomeView::AwaitingManual(request) => DownloadReportView {
            manual_downloads: report.manual_downloads.push(request),
            ..report
        },
        DownloadOutcomeView::Failed(error) => DownloadReportView {
            failures: report.failures.push(DownloadFailureView { work_id, error }),
            ..report
        },
    }
}

/// The work is one of which nothing can be stored.
pub open spec fn unstorable(
    state: StateView,
    work_id: Seq<char>,
    outcome: DownloadOutcomeView,
) -> bool {
    &&& outcome matches DownloadOutcomeView::Downloaded(pdf)
    &&& pdf.user_supplied
    &&& !knows_work(state.works, work_id)
}

/// Takes in what came of the PDF of a work, and adds it to the report.
pub fn settle_download(
    state: &mut State,
    report: &mut DownloadReport,
    work_id: &str,
    outcome: DownloadOutcome,
    file_present: bool,
    now: &str,
) -> (r: Result<(), StateError>)
    requires
        old(report)@.downloaded < usize::MAX,
    ensures
        match r {
            Ok(()) => {
                &&& !unstorable(old(state)@, work_id@, outcome@)
                &&& final(state)@ == settled_download(
                    old(state)@,
                    work_id@,
                    outcome@,
                    file_present,
                    now@,
                )
                &&& final(report)@ == reported(old(report)@, work_id@, outcome@)
            },
            Err(error) => {
                &&& error == StateError::UnknownWork
                &&& unstorable(old(state)@, work_id@, outcome@)
                &&& final(state)@ == old(state)@
                &&& final(report)@ == old(report)@
            },
        },
{
    let ghost before = report@;
    proof {
        lemma_work_at(state@.works, work_id@);
    }
    match outcome {
        DownloadOutcome::Downloaded(pdf) => {
            state.mark_downloaded(
                work_id,
                &pdf.url,
                &pdf.path,
                &pdf.sha256,
                &pdf.license,
                now.to_owned(),
            );
            if pdf.user_supplied {
                proof {
                    let works = old(state)@.works;
                    let at = work_at(works, work_id@) as int;
                    if at < works.len() {
                        assert(state@.works[at].work_id == work_id@);
                    }
                }
                if let Err(error) = state.store_raw(work_id, manual_record(&pdf, now)) {
                    return Err(error);
                }
            }
            report.downloaded = report.downloaded + 1;
        },
        DownloadOutcome::AwaitingManual(request) => {
            state.mark_awaiting_manual_download(work_id, now.to_owned());
            report.manual_downloads.push(request);
            assert(views(report.manual_downloads@) =~= before.manual_downloads.push(request@));
        },
        DownloadOutcome::Failed(error) => {
            let stage = if file_present {
                "manual-download"
            } else {
                "download"
            };
            state.mark_error(work_id, stage, &error, now.to_owned());
            let ghost added = DownloadFailureView { work_id: work_id@, error: error@ };
            report.failures.push(DownloadFailure { work_id: work_id.to_owned(), error });
            assert(views(report.failures@) =~= before.failures.push(added));
        },
    }
    Ok(())
}

/// A work with a status that is asked for is among those listed.
proof fn lemma_listed(
    works: Seq<(Seq<char>, WorkRecordView, Seq<char>)>,
    statuses: Seq<Seq<char>>,
    at: int,
)
    requires
        0 <= at < works.len(),
        statuses.contains(works[at].2),
    ensures
        works_in(works, statuses).contains((works[at].0, works[at].1)),
    decreases works.len(),
{
    let rest = works_in(works.drop_last(), statuses);
    let all = works_in(works, statuses);
    if at == works.len() - 1 {
        assert(all[rest.len() as int] == (works[at].0, works[at].1));
    } else {
        lemma_listed(works.drop_last(), statuses, at);
        let k = choose|k: int| 0 <= k < rest.len() && rest[k] == (works[at].0, works[at].1);
        assert(all[k] == rest[k]);
    }
}

/// A stored work with a status that is asked for is among those listed, and alone there
/// where it is the only one.
proof fn lemma_stored_is_listed(works: Seq<StoredWorkView>, statuses: Seq<Seq<char>>, at: int)
    requires
        0 <= at < works.len(),
        works[at].record is Some,
        statuses.contains(works[at].status),
    ensures
        works_in(works_listed(works), statuses).contains(
            (works[at].work_id, works[at].record->0),
        ),
        works.len() == 1 ==> works_in(works_listed(works), statuses) == seq![
            (works[at].work_id, works[at].record->0),
        ],
{
    broadcast use vstd::seq_lib::group_to_multiset_ensures;

    let sorted = ordered::<ByPriority>(works);
    law_ordered::<ByPriority>(works);
    assert(works.to_multiset().contains(works[at]));
    assert(sorted.contains(works[at]));
    let k = choose|k: int| 0 <= k < sorted.len() && sorted[k] == works[at];
    let all = works_listed(works);
    assert(all[k] == (works[at].work_id, works[at].record->0, works[at].status));
    lemma_listed(all, statuses, k);
    if works.len() == 1 {
        reveal_with_fuel(works_in, 2);
        assert(all.drop_last() =~= Seq::empty());
        assert(works_in(all, statuses) =~= seq![(works[at].work_id, works[at].record->0)]);
    }
}

/// A work whose PDF the user has to supply takes two rounds. In the first one, without
/// a file, the user is asked: nothing is downloaded and nothing fails, and the work is
/// marked as awaited and comes up again. In the second one a file that will do is taken
/// in: the work is downloaded, with the digest of the file and a license that says
/// whose it is, and what was taken in is kept as a response.
pub proof fn law_awaited_pdfs_are_taken_in(
    state: StateView,
    work_id: Seq<char>,
    work: WorkRecordView,
    file: FileFacts,
    limit: u64,
    first: Seq<char>,
    second: Seq<char>,
)
    requires
        coherent(state),
        knows_work(state.works, work_id),
        row_of(state, work_id).record == Some(work),
        undownloaded().contains(row_of(state, work_id).status),
        flag_set(work.flags, MANUAL_FULLTEXT_ENABLED_FLAG@),
        flag_set(work.flags, REQUIRES_MANUAL_PDF_FLAG@),
        manual_fault(file, work, limit) is None,
    ensures
        ({
            let asked = step_for(state.workspace, work_id, work, false);
            let request = asked->AwaitManual_0;
            let waiting = DownloadOutcomeView::AwaitingManual(request);
            let between = settled_download(state, work_id, waiting, false, first);
            let pdf = supplied_pdf(state.workspace, work_id, work, file.contents@);
            let taken = DownloadOutcomeView::Downloaded(pdf);
            let after = settled_download(between, work_id, taken, true, second);
            &&& works_in(works_listed(state.works), undownloaded()).contains((work_id, work))
            &&& state.works.len() == 1 ==> works_in(works_listed(state.works), undownloaded())
                == seq![(work_id, work)]
            &&& asked is AwaitManual
            &&& reported(empty_report(), work_id, waiting) == (DownloadReportView {
                downloaded: 0,
                manual_downloads: seq![request],
                failures: Seq::empty(),
            })
            &&& row_of(between, work_id).status == "awaiting-manual-download"@
            &&& works_in(works_listed(between.works), undownloaded()).contains((work_id, work))
            &&& state.works.len() == 1 ==> works_in(works_listed(between.works), undownloaded())
                == seq![(work_id, work)]
            &&& step_for(between.workspace, work_id, work, true) is ImportManual
            &&& !unstorable(between, work_id, taken)
            &&& reported(empty_report(), work_id, taken) == (DownloadReportView {
                downloaded: 1,
                manual_downloads: Seq::empty(),
                failures: Seq::empty(),
            })
            &&& row_of(after, work_id).status == "downloaded"@
            &&& artifact_of(row_of(after, work_id)) == kept_artifact(pdf)
            &&& artifact_of(row_of(after, work_id)).license == USER_SUPPLIED_LICENSE@
            &&& artifact_of(row_of(after, work_id)).sha256 == hexadecimal(sha256(file.contents@))
            &&& after.sources.contains(response_row(work_id, manual_response(pdf, second)))
        }),
{
    let works = state.works;
    let at = work_at(works, work_id) as int;
    lemma_work_at(works, work_id);
    lemma_stored_is_listed(works, undownloaded(), at);
    let asked = step_for(state.workspace, work_id, work, false);
    let waiting = DownloadOutcomeView::AwaitingManual(asked->AwaitManual_0);
    let between = settled_download(state, work_id, waiting, false, first);
    assert(between.works[at].work_id == work_id);
    assert(knows_work(between.works, work_id));
    lemma_work_at(between.works, work_id);
    lemma_same_position(works, between.works, work_id);
    assert(undownloaded()[1] == "awaiting-manual-download"@);
    lemma_stored_is_listed(between.works, undownloaded(), at);
    let pdf = supplied_pdf(state.workspace, work_id, work, file.contents@);
    let next = downloaded(between, work_id, kept_artifact(pdf), second);
    lemma_same_position(between.works, next.works, work_id);
    let row = response_row(work_id, manual_response(pdf, second));
    let after = with_raw(next, work_id, manual_response(pdf, second));
    let k = response_at(next.sources, row) as int;
    lemma_response_at(next.sources, row);
    assert(after.sources[k] == row);
    assert(empty_report().manual_downloads.push(asked->AwaitManual_0) =~= seq![
        asked->AwaitManual_0,
    ]);
}

/// A PDF that the user has to supply is never downloaded, and none is asked for of which
/// the user's file is there, where the plan allows such files.
pub proof fn law_manual_pdfs_are_not_downloaded(
    workspace: Seq<char>,
    work_id: Seq<char>,
    work: WorkRecordView,
    file_present: bool,
)
    requires
        flag_set(work.flags, REQUIRES_MANUAL_PDF_FLAG@),
    ensures
        !(step_for(workspace, work_id, work, file_present) is Automatic),
        flag_set(work.flags, MANUAL_FULLTEXT_ENABLED_FLAG@) ==> (step_for(
            workspace,
            work_id,
            work,
            file_present,
        ) is ImportManual <==> file_present),
{
}

/// What came of rendering a work: its pages, no PDF to render, or an error.
#[derive(Debug)]
pub enum RenderOutcome {
    Pages(Vec<PageRecord>),
    NoPdf,
    Failed(String),
}

/// The state with what came of rendering a work that yielded no pages.
pub open spec fn render_failure(
    state: StateView,
    work_id: Seq<char>,
    error: Seq<char>,
    now: Seq<char>,
) -> StateView {
    marked(state, work_id, "error:"@ + "render"@, Some(error), now)
}

/// Takes in what came of rendering a work, and answers whether it has pages now.
pub fn settle_render(state: &mut State, work_id: &str, outcome: RenderOutcome, now: &str) -> (r:
    Result<bool, StateError>)
    ensures
        match outcome {
            RenderOutcome::Pages(pages) => if pages@.len() == 0 {
                r == Ok::<bool, StateError>(false) && final(state)@ == render_failure(
                    old(state)@,
                    work_id@,
                    "PDF contained no renderable pages"@,
                    now@,
                )
            } else {
                match r {
                    Ok(rendered) => rendered && pages_fault(
                        old(state)@,
                        work_id@,
                        views(pages@),
                    ) is None && final(state)@ == with_pages(
                        old(state)@,
                        work_id@,
                        views(pages@),
                        now@,
                    ),
                    Err(error) => pages_fault(old(state)@, work_id@, views(pages@)) == Some(error)
                        && final(state)@ == old(state)@,
                }
            },
            RenderOutcome::NoPdf => r == Ok::<bool, StateError>(false) && final(state)@
                == render_failure(
                old(state)@,
                work_id@,
                "downloaded record has no PDF path"@,
                now@,
            ),
            RenderOutcome::Failed(error) => r == Ok::<bool, StateError>(false) && final(state)@
                == render_failure(old(state)@, work_id@, error@, now@),
        },
{
    match outcome {
        RenderOutcome::Pages(pages) => {
            if pages.len() == 0 {
                state.mark_error(
                    work_id,
                    "render",
                    "PDF contained no renderable pages",
                    now.to_owned(),
                );
                return Ok(false);
            }
            match state.replace_pages(work_id, pages, now.to_owned()) {
                Ok(()) => Ok(true),
                Err(error) => Err(error),
            }
        },
        RenderOutcome::NoPdf => {
            state.mark_error(
                work_id,
                "render",
                "downloaded record has no PDF path",
                now.to_owned(),
            );
            Ok(false)
        },
        RenderOutcome::Failed(error) => {
            state.mark_error(work_id, "render", &error, now.to_owned());
            Ok(false)
        },
    }
}

/// A request that asks for nothing.
#[derive(Clone, Copy, Debug, PartialEq, Eq, Structural)]
pub enum RequestError {
    NoCandidates,
    NoResults,
}

/// The error in words.
pub open spec fn request_fault_text(error: RequestError) -> Seq<char> {
    match error {
        RequestError::NoCandidates => "max_candidates must be positive"@,
        RequestError::NoResults => "top_k and candidate_limit must be positive"@,
    }
}

impl RequestError {
    /// The error in words.
    pub fn message(&self) -> (r: String)
        ensures
            r@ == request_fault_text(*self),
    {
        match self {
            RequestError::NoCandidates => "max_candidates must be positive".to_owned(),
            RequestError::NoResults => "top_k and candidate_limit must be positive".to_owned(),
        }
    }
}

/// Whether a discovery of so many candidates can be asked for.
pub fn check_discovery(max_candidates: usize) -> (r: Result<(), RequestError>)
    ensures
        r == (if max_candidates == 0 {
            Err::<(), RequestError>(RequestError::NoCandidates)
        } else {
            Ok::<(), RequestError>(())
        }),
{
    if max_candidates == 0 {
        Err(RequestError::NoCandidates)
    } else {
        Ok(())
    }
}

/// Whether so many results of so many candidates can be asked for.
pub fn check_query(top_k: usize, candidate_limit: usize) -> (r: Result<(), RequestError>)
    ensures
        r == (if top_k == 0 || candidate_limit == 0 {
            Err::<(), RequestError>(RequestError::NoResults)
        } else {
            Ok::<(), RequestError>(())
        }),
{
    if top_k == 0 || candidate_limit == 0 {
        Err(RequestError::NoResults)
    } else {
        Ok(())
    }
}

/// The works but those with the status.
pub open spec fn works_without(
    works: Seq<(Seq<char>, WorkRecordView, Seq<char>)>,
    status: Seq<char>,
) -> Seq<(Seq<char>, WorkRecordView)>
    decreases works.len(),
{
    if works.len() == 0 {
        Seq::empty()
    } else {
        let rest = works_without(works.drop_last(), status);
        if works.last().2 != status {
            rest.push((works.last().0, works.last().1))
        } else {
            rest
        }
    }
}

/// The works whose citations are audited: all but those that were rejected.
pub fn works_to_audit(state: &State) -> (r: Result<Vec<(String, WorkRecord)>, StateError>)
    ensures
        match r {
            Ok(works) => all_readable(state@.works) && views(works@) == works_without(
                works_listed(state@.works),
                "rejected"@,
            ),
            Err(error) => error == StateError::UnreadableRecord && !all_readable(state@.works),
        },
{
    let listed = match state.all_works() {
        Ok(works) => works,
        Err(error) => {
            return Err(error);
        },
    };
    let ghost all = works_listed(state@.works);
    let ghost items = listed@;
    let mut out: Vec<(String, WorkRecord)> = Vec::new();
    assert(views(out@) =~= works_without(all.take(0), "rejected"@));
    for entry in it: listed
        invariant
            it.seq() == items,
            all == views(items),
            views(out@) == works_without(all.take(it.index() as int), "rejected"@),
    {
        let ghost i = it.index() as int;
        assert(all.take(i + 1).drop_last() =~= all.take(i));
        assert(all.take(i + 1).last() == entry@);
        let ghost before = views(out@);
        let (work_id, record, status) = entry;
        if !same_text(&status, "rejected") {
            let ghost added = (work_id@, record@);
            out.push((work_id, record));
            assert(views(out@) =~= before.push(added));
        }
    }
    assert(all.take(all.len() as int) =~= all);
    Ok(out)
}

/// What was found where the PDF of a work should be: no file, a file with a digest, or
/// a file that could not be read.
#[derive(Debug)]
pub enum PdfCheck {
    Missing,
    Hashed(String),
    Unreadable(String),
}

/// What a `PdfCheck` holds.
#[verifier::ext_equal]
pub enum PdfCheckView {
    Missing,
    Hashed(Seq<char>),
    Unreadable(Seq<char>),
}

impl View for PdfCheck {
    type V = PdfCheckView;

    open spec fn view(&self) -> PdfCheckView {
        match self {
            PdfCheck::Missing => PdfCheckView::Missing,
            PdfCheck::Hashed(digest) => PdfCheckView::Hashed(digest@),
            PdfCheck::Unreadable(error) => PdfCheckView::Unreadable(error@),
        }
    }
}

/// What is amiss with a work.
#[derive(Debug)]
pub struct ArtifactIssue {
    pub work_id: String,
    pub status: String,
    pub issues: Vec<String>,
}

/// What a `ArtifactIssue` holds.
#[verifier::ext_equal]
pub struct ArtifactIssueView {
    pub work_id: Seq<char>,
    pub status: Seq<char>,
    pub issues: Seq<Seq<char>>,
}

impl View for ArtifactIssue {
    type V = ArtifactIssueView;

    open spec fn view(&self) -> ArtifactIssueView {
        ArtifactIssueView {
            work_id: self.work_id@,
            status: self.status@,
            issues: texts(self.issues@),
        }
    }
}


/// What is amiss with a corpus.
#[derive(Debug)]
pub struct CorpusAudit {
    pub clean: bool,
    pub citation: CitationAudit,
    pub artifact_issues: Vec<ArtifactIssue>,
}

/// What a `CorpusAudit` holds.
#[verifier::ext_equal]
pub struct CorpusAuditView {
    pub clean: bool,
    pub citation: CitationAuditView,
    pub artifact_issues: Seq<ArtifactIssueView>,
}

impl View for CorpusAudit {
    type V = CorpusAuditView;

    open spec fn view(&self) -> CorpusAuditView {
        CorpusAuditView {
            clean: self.clean,
            citation: self.citation@,
            artifact_issues: views(self.artifact_issues@),
        }
    }
}

/// The work should have a PDF.
pub open spec fn expects_pdf(artifact: StoredArtifactStatusView) -> bool {
    artifact.pdf_path.len() > 0 || artifact.status == "downloaded"@ || artifact.status
        == "rendered"@ || artifact.status == "indexed"@
}

/// What is amiss with the file of a PDF.
pub open spec fn file_issues(
    artifact: StoredArtifactStatusView,
    check: PdfCheckView,
) -> Seq<Seq<char>> {
    if artifact.pdf_url.len() == 0 || artifact.pdf_path.len() == 0 || artifact.pdf_sha256.len()
        == 0 {
        seq!["preserved PDF artifact metadata is incomplete"@]
    } else {
        match check {
            PdfCheckView::Missing => seq!["preserved PDF file is missing"@],
            PdfCheckView::Hashed(digest) => note_if(
                digest != artifact.pdf_sha256,
                "preserved PDF SHA-256 does not match"@,
            ),
            PdfCheckView::Unreadable(error) => seq!["could not hash preserved PDF: "@ + error],
        }
    }
}

/// What is amiss with the license of a PDF.
pub open spec fn license_issues(license: Seq<char>) -> Seq<Seq<char>> {
    if license.len() == 0 {
        seq!["PDF has no explicit reuse-license metadata"@]
    } else {
        note_if(
            license == USER_SUPPLIED_LICENSE@,
            "user-supplied PDF has no established reuse license; do not redistribute it"@,
        )
    }
}

/// What is still to be done with a work.
pub open spec fn stage_issues(artifact: StoredArtifactStatusView) -> Seq<Seq<char>> {
    let status = artifact.status;
    if status == "discovered"@ {
        seq!["candidate has not been screened"@]
    } else if status == "selected"@ {
        seq!["selected work has not been downloaded"@]
    } else if status == "awaiting-manual-download"@ {
        seq!["waiting for the user to supply a lawfully accessed PDF"@]
    } else if status == "downloaded"@ {
        seq!["downloaded PDF has not been rendered"@]
    } else if status == "rendered"@ {
        seq!["rendered pages have not all been indexed"@]
    } else if status == "indexed"@ {
        note_if(
            artifact.declared_page_count == 0 || artifact.declared_page_count
                != artifact.stored_page_count,
            "stored page count does not match the work record"@,
        ) + note_if(
            artifact.indexed_page_count != artifact.stored_page_count,
            "one or more rendered pages are not marked indexed"@,
        )
    } else {
        Seq::empty()
    }
}

/// What went wrong with a work, in words.
pub open spec fn failure_text(last_error: Seq<char>) -> Seq<char> {
    "pipeline failed: "@ + if last_error.len() == 0 {
        "no error detail was retained"@
    } else {
        last_error
    }
}

/// What is amiss with a work.
pub open spec fn issues_of(
    artifact: StoredArtifactStatusView,
    without_provenance: bool,
    check: PdfCheckView,
) -> Seq<Seq<char>> {
    note_if(without_provenance, "canonical record has no metadata provenance"@) + note_if(
        begins_with(artifact.status, "error:"@),
        failure_text(artifact.last_error),
    ) + (if expects_pdf(artifact) {
        file_issues(artifact, check) + license_issues(artifact.pdf_license)
    } else {
        Seq::empty()
    }) + stage_issues(artifact)
}

fn note_file_issues(
    issues: &mut Vec<String>,
    artifact: &StoredArtifactStatus,
    check: Option<&PdfCheck>,
)
    ensures
        texts(final(issues)@) == texts(old(issues)@) + file_issues(
            artifact@,
            match check {
                Some(found) => found@,
                None => PdfCheckView::Missing,
            },
        ),
{
    let ghost before = texts(issues@);
    if artifact.pdf_url.as_str().is_empty() || artifact.pdf_path.as_str().is_empty()
        || artifact.pdf_sha256.as_str().is_empty() {
        note(issues, true, "preserved PDF artifact metadata is incomplete");
    } else {
        match check {
            None | Some(PdfCheck::Missing) => {
                note(issues, true, "preserved PDF file is missing");
            },
            Some(PdfCheck::Hashed(digest)) => {
                let differs = !same_text(digest, &artifact.pdf_sha256);
                note(issues, differs, "preserved PDF SHA-256 does not match");
            },
            Some(PdfCheck::Unreadable(error)) => {
                let mut text = "could not hash preserved PDF: ".to_owned();
                text.append(error);
                note(issues, true, &text);
            },
        }
    }
}

fn note_license_issues(issues: &mut Vec<String>, license: &str)
    ensures
        texts(final(issues)@) == texts(old(issues)@) + license_issues(license@),
{
    if license.is_empty() {
        note(issues, true, "PDF has no explicit reuse-license metadata");
    } else {
        let user_supplied = same_text(license, USER_SUPPLIED_LICENSE);
        note(
            issues,
            user_supplied,
            "user-supplied PDF has no established reuse license; do not redistribute it",
        );
    }
}

fn note_stage_issues(issues: &mut Vec<String>, artifact: &StoredArtifactStatus)
    ensures
        texts(final(issues)@) == texts(old(issues)@) + stage_issues(artifact@),
{
    let ghost before = texts(issues@);
    let status: &str = &artifact.status;
    if same_text(status, "discovered") {
        note(issues, true, "candidate has not been screened");
    } else if same_text(status, "selected") {
        note(issues, true, "selected work has not been downloaded");
    } else if same_text(status, "awaiting-manual-download") {
        note(issues, true, "waiting for the user to supply a lawfully accessed PDF");
    } else if same_text(status, "downloaded") {
        note(issues, true, "downloaded PDF has not been rendered");
    } else if same_text(status, "rendered") {
        note(issues, true, "rendered pages have not all been indexed");
    } else if same_text(status, "indexed") {
        note(
            issues,
            artifact.declared_page_count == 0 || artifact.declared_page_count
                != artifact.stored_page_count,
            "stored page count does not match the work record",
        );
        note(
            issues,
            artifact.indexed_page_count != artifact.stored_page_count,
            "one or more rendered pages are not marked indexed",
        );
        assert(texts(issues@) =~= before + stage_issues(artifact@));
    } else {
        assert(texts(issues@) =~= before + stage_issues(artifact@));
    }
}

/// What is amiss with the work, by whether its record is without provenance and what
/// was found where its PDF should be.
pub fn artifact_issues(
    artifact: &StoredArtifactStatus,
    without_provenance: bool,
    check: Option<&PdfCheck>,
) -> (r: Vec<String>)
    ensures
        texts(r@) == issues_of(
            artifact@,
            without_provenance,
            match check {
                Some(found) => found@,
                None => PdfCheckView::Missing,
            },
        ),
{
    let ghost found = match check {
        Some(found) => found@,
        None => PdfCheckView::Missing,
    };
    let mut issues: Vec<String> = Vec::new();
    assert(texts(issues@) =~= Seq::empty());
    note(&mut issues, without_provenance, "canonical record has no metadata provenance");
    let mut failure = "pipeline failed: ".to_owned();
    if artifact.last_error.as_str().is_empty() {
        failure.append("no error detail was retained");
    } else {
        failure.append(&artifact.last_error);
    }
    let failed = starts_with(&artifact.status, "error:");
    note(&mut issues, failed, &failure);
    let ghost before = texts(issues@);
    if !artifact.pdf_path.as_str().is_empty() || same_text(&artifact.status, "downloaded") || same_text(
        &artifact.status,
        "rendered",
    ) || same_text(&artifact.status, "indexed") {
        note_file_issues(&mut issues, artifact, check);
        note_license_issues(&mut issues, &artifact.pdf_license);
        assert(texts(issues@) =~= before + (file_issues(artifact@, found) + license_issues(
            artifact@.pdf_license,
        )));
    } else {
        assert(texts(issues@) =~= before + Seq::<Seq<char>>::empty());
    }
    note_stage_issues(&mut issues, artifact);
    assert(texts(issues@) =~= issues_of(artifact@, without_provenance, found));
    issues
}

/// The record of the work names no source.
pub open spec fn lacks_provenance(state: StateView, work_id: Seq<char>) -> bool {
    match record_of(state.works, work_id) {
        Some(record) => record.provenance.len() == 0,
        None => true,
    }
}

/// What was found where the PDF of the work should be; nothing, where nobody looked.
pub open spec fn check_for(
    checks: Map<Seq<char>, PdfCheckView>,
    work_id: Seq<char>,
) -> PdfCheckView {
    if checks.contains_key(work_id) {
        checks[work_id]
    } else {
        PdfCheckView::Missing
    }
}

/// What is amiss with a work of the corpus.
pub open spec fn issues_in(
    state: StateView,
    artifact: StoredArtifactStatusView,
    checks: Map<Seq<char>, PdfCheckView>,
) -> Seq<Seq<char>> {
    issues_of(
        artifact,
        lacks_provenance(state, artifact.work_id),
        check_for(checks, artifact.work_id),
    )
}

/// The works with which something is amiss, but those that were rejected.
pub open spec fn artifacts_amiss(
    state: StateView,
    artifacts: Seq<StoredArtifactStatusView>,
    checks: Map<Seq<char>, PdfCheckView>,
) -> Seq<ArtifactIssueView>
    decreases artifacts.len(),
{
    if artifacts.len() == 0 {
        Seq::empty()
    } else {
        let rest = artifacts_amiss(state, artifacts.drop_last(), checks);
        let artifact = artifacts.last();
        let issues = issues_in(state, artifact, checks);
        if artifact.status != "rejected"@ && issues.len() > 0 {
            rest.push(
                ArtifactIssueView { work_id: artifact.work_id, status: artifact.status, issues },
            )
        } else {
            rest
        }
    }
}

/// What is amiss with the corpus, beside the citations that were audited.
pub open spec fn corpus_audit_of(
    state: StateView,
    citation: CitationAuditView,
    checks: Map<Seq<char>, PdfCheckView>,
) -> CorpusAuditView {
    let amiss = artifacts_amiss(state, statuses_of(state), checks);
    CorpusAuditView {
        clean: citation.incomplete_records.len() == 0 && amiss.len() == 0,
        citation,
        artifact_issues: amiss,
    }
}

/// What is amiss with the corpus. The checks tell, by the identifier of the work, what
/// was found where a PDF should be.
pub fn build_corpus_audit(
    state: &State,
    citation: CitationAudit,
    checks: &TextMap<PdfCheck>,
) -> (r: Result<CorpusAudit, StateError>)
    ensures
        match r {
            Ok(report) => all_readable(state@.works) && report@ == corpus_audit_of(
                state@,
                citation@,
                checks@,
            ),
            Err(error) => error == StateError::UnreadableRecord && !all_readable(state@.works),
        },
{
    if let Err(error) = state.all_works() {
        return Err(error);
    }
    let artifacts = state.artifact_statuses();
    let ghost all = statuses_of(state@);
    let ghost items = artifacts@;
    let mut amiss: Vec<ArtifactIssue> = Vec::new();
    assert(views(amiss@) =~= artifacts_amiss(state@, all.take(0), checks@));
    for artifact in it: artifacts
        invariant
            it.seq() == items,
            all == views(items),
            all_readable(state@.works),
            views(amiss@) == artifacts_amiss(state@, all.take(it.index() as int), checks@),
    {
        let ghost i = it.index() as int;
        assert(all.take(i + 1).drop_last() =~= all.take(i));
        assert(all.take(i + 1).last() == artifact@);
        let ghost before = views(amiss@);
        if !same_text(&artifact.status, "rejected") {
            proof {
                lemma_work_at(state@.works, artifact@.work_id);
            }
            let without_provenance = match state.get_work(&artifact.work_id) {
                Ok(Some(record)) => record.provenance.len() == 0,
                Ok(None) => true,
                Err(error) => {
                    return Err(error);
                },
            };
            let issues = artifact_issues(
                &artifact,
                without_provenance,
                checks.get(&artifact.work_id),
            );
            assert(texts(issues@) == issues_in(state@, artifact@, checks@));
            if issues.len() > 0 {
                let entry = ArtifactIssue {
                    work_id: artifact.work_id,
                    status: artifact.status,
                    issues,
                };
                let ghost added = entry@;
                amiss.push(entry);
                assert(views(amiss@) =~= before.push(added));
            }
        }
    }
    assert(all.take(all.len() as int) =~= all);
    let clean = citation.incomplete_records.len() == 0 && amiss.len() == 0;
    Ok(CorpusAudit { clean, citation, artifact_issues: amiss })
}

/// The works of the library with their exports, and what is amiss with the corpus.
pub fn export(state: &State, checks: &TextMap<PdfCheck>) -> (r: Result<
    (Vec<(String, WorkRecord)>, Library, CorpusAudit),
    StateError,
>)
    ensures
        match r {
            Ok((works, library, report)) => {
                &&& all_readable(state@.works)
                &&& views(works@) == works_in(works_listed(state@.works), exported())
                &&& texts(library.keys@) == keys_of(views(works@))
                &&& views(library.csl@) == library_csl(views(works@), keys_of(views(works@)))
                &&& library.bibtex@ == library_bibtex(views(works@), keys_of(views(works@)))
                &&& library.ris@ == library_ris(views(works@))
                &&& report@ == corpus_audit_of(state@, audit_of(views(works@)), checks@)
            },
            Err(error) => error == StateError::UnreadableRecord && !all_readable(state@.works),
        },
{
    let works = match works_to_export(state) {
        Ok(works) => works,
        Err(error) => {
            return Err(error);
        },
    };
    let library = export_library(&works);
    match build_corpus_audit(state, audit(&works), checks) {
        Ok(report) => Ok((works, library, report)),
        Err(error) => Err(error),
    }
}

/// What is amiss with the corpus, with the citations of all works that were not
/// rejected.
pub fn citation_audit(state: &State, checks: &TextMap<PdfCheck>) -> (r: Result<
    CorpusAudit,
    StateError,
>)
    ensures
        match r {
            Ok(report) => all_readable(state@.works) && report@ == corpus_audit_of(
                state@,
                audit_of(works_without(works_listed(state@.works), "rejected"@)),
                checks@,
            ),
            Err(error) => error == StateError::UnreadableRecord && !all_readable(state@.works),
        },
{
    match works_to_audit(state) {
        Ok(works) => build_corpus_audit(state, audit(&works), checks),
        Err(error) => Err(error),
    }
}

proof fn lemma_amiss(
    state: StateView,
    artifacts: Seq<StoredArtifactStatusView>,
    checks: Map<Seq<char>, PdfCheckView>,
    i: int,
)
    requires
        0 <= i < artifacts.len(),
        artifacts_amiss(state, artifacts, checks).len() == 0,
        artifacts[i].status != "rejected"@,
    ensures
        issues_in(state, artifacts[i], checks).len() == 0,
    decreases artifacts.len(),
{
    if i < artifacts.len() - 1 {
        lemma_amiss(state, artifacts.drop_last(), checks, i);
    }
}

/// In a clean corpus every work that was not rejected names its sources, and none of
/// them failed or waits for a stage. The PDF of each indexed work is there as it was
/// taken in, with a license, and all its pages are stored and indexed.
pub proof fn law_a_clean_corpus_is_complete(
    state: StateView,
    citation: CitationAuditView,
    checks: Map<Seq<char>, PdfCheckView>,
    i: int,
)
    requires
        corpus_audit_of(state, citation, checks).clean,
        0 <= i < statuses_of(state).len(),
        statuses_of(state)[i].status != "rejected"@,
    ensures
        citation.incomplete_records.len() == 0,
        ({
            let artifact = statuses_of(state)[i];
            &&& !lacks_provenance(state, artifact.work_id)
            &&& !begins_with(artifact.status, "error:"@)
            &&& !exported().drop_last().contains(artifact.status)
            &&& artifact.status != "discovered"@
            &&& artifact.status == "indexed"@ ==> {
                &&& check_for(checks, artifact.work_id) == PdfCheckView::Hashed(
                    artifact.pdf_sha256,
                )
                &&& artifact.pdf_license.len() > 0
                &&& artifact.pdf_license != USER_SUPPLIED_LICENSE@
                &&& 0 < artifact.declared_page_count
                &&& artifact.declared_page_count == artifact.stored_page_count
                &&& artifact.indexed_page_count == artifact.stored_page_count
            }
        }),
{
    let artifact = statuses_of(state)[i];
    lemma_amiss(state, statuses_of(state), checks, i);
    let issues = issues_in(state, artifact, checks);
    assert(stage_issues(artifact).len() == 0);
    let waiting = exported().drop_last();
    assert(waiting =~= seq![
        "selected"@,
        "awaiting-manual-download"@,
        "downloaded"@,
        "rendered"@,
    ]);
    assert(!waiting.contains(artifact.status)) by {
        if waiting.contains(artifact.status) {
            let k = choose|k: int| 0 <= k < waiting.len() && waiting[k] == artifact.status;
            assert(k == 0 || k == 1 || k == 2 || k == 3);
        }
    }
}

/// The sources that a candidate is looked up in, in this order.
#[derive(Clone, Copy, Debug, PartialEq, Eq, Structural)]
pub enum LookupSource {
    Arxiv,
    OpenAlex,
    Crossref,
    OpenAlexByDoi,
}

/// The number of lookups before that in the source.
pub open spec fn lookup_stage(source: LookupSource) -> nat {
    match source {
        LookupSource::Arxiv => 0,
        LookupSource::OpenAlex => 1,
        LookupSource::Crossref => 2,
        LookupSource::OpenAlexByDoi => 3,
    }
}

/// The name under which answers of the source are kept.
pub open spec fn provider_of(source: LookupSource) -> Seq<char> {
    match source {
        LookupSource::Arxiv => "arxiv"@,
        LookupSource::OpenAlex => "openalex"@,
        LookupSource::Crossref => "crossref"@,
        LookupSource::OpenAlexByDoi => "openalex"@,
    }
}

/// How late the answers of the source come when they are merged: what Crossref says
/// comes first, what arXiv says last.
pub open spec fn precedence_of(source: LookupSource) -> u8 {
    match source {
        LookupSource::Crossref => 0,
        LookupSource::OpenAlex => 1,
        LookupSource::OpenAlexByDoi => 1,
        LookupSource::Arxiv => 2,
    }
}

impl LookupSource {
    fn stage(self) -> (r: u8)
        ensures
            r == lookup_stage(self),
    {
        match self {
            LookupSource::Arxiv => 0,
            LookupSource::OpenAlex => 1,
            LookupSource::Crossref => 2,
            LookupSource::OpenAlexByDoi => 3,
        }
    }

    fn provider(self) -> (r: &'static str)
        ensures
            r@ == provider_of(self),
    {
        match self {
            LookupSource::Arxiv => "arxiv",
            LookupSource::OpenAlex => "openalex",
            LookupSource::Crossref => "crossref",
            LookupSource::OpenAlexByDoi => "openalex",
        }
    }

    fn precedence(self) -> (r: u8)
        ensures
            r == precedence_of(self),
    {
        match self {
            LookupSource::Crossref => 0,
            LookupSource::OpenAlex => 1,
            LookupSource::OpenAlexByDoi => 1,
            LookupSource::Arxiv => 2,
        }
    }
}

/// A lookup: where, and of what.
#[derive(Debug)]
pub struct Lookup {
    pub source: LookupSource,
    pub identifier: String,
}

impl View for Lookup {
    type V = (LookupSource, Seq<char>);

    open spec fn view(&self) -> (LookupSource, Seq<char>) {
        (self.source, self.identifier@)
    }
}

/// What a source said of a candidate, and how late that comes when it is merged.
#[derive(Debug)]
pub struct Resolution {
    pub precedence: u8,
    pub work: DiscoveredWork,
}

impl View for Resolution {
    type V = (u8, DiscoveredWorkView);

    open spec fn view(&self) -> (u8, DiscoveredWorkView) {
        (self.precedence, self.work@)
    }
}

impl Ranked for Resolution {
    open spec fn before(a: (u8, DiscoveredWorkView), b: (u8, DiscoveredWorkView)) -> bool {
        a.0 < b.0
    }

    fn comes_before(&self, other: &Resolution) -> (r: bool) {
        self.precedence < other.precedence
    }

    proof fn lemma_chain(
        a: (u8, DiscoveredWorkView),
        b: (u8, DiscoveredWorkView),
        c: (u8, DiscoveredWorkView),
    ) {
    }

    proof fn lemma_one_way(a: (u8, DiscoveredWorkView), b: (u8, DiscoveredWorkView)) {
    }
}

/// How far the lookups of a candidate are, what was found, and what led to nothing.
#[derive(Debug)]
pub struct CandidateProgress {
    pub stage: u8,
    pub resolutions: Vec<Resolution>,
    pub failures: Vec<RawSourceRecord>,
    pub problems: Vec<String>,
}

/// What a `CandidateProgress` holds.
#[verifier::ext_equal]
pub struct CandidateProgressView {
    pub stage: nat,
    pub resolutions: Seq<(u8, DiscoveredWorkView)>,
    pub failures: Seq<RawSourceRecordView>,
    pub problems: Seq<Seq<char>>,
}

impl View for CandidateProgress {
    type V = CandidateProgressView;

    open spec fn view(&self) -> CandidateProgressView {
        CandidateProgressView {
            stage: self.stage as nat,
            resolutions: views(self.resolutions@),
            failures: views(self.failures@),
            problems: texts(self.problems@),
        }
    }
}

/// A candidate of which nothing was looked up.
pub open spec fn no_progress() -> CandidateProgressView {
    CandidateProgressView {
        stage: 0,
        resolutions: Seq::empty(),
        failures: Seq::empty(),
        problems: Seq::empty(),
    }
}

impl CandidateProgress {
    /// A candidate of which nothing was looked up.
    pub fn new() -> (r: CandidateProgress)
        ensures
            r@ == no_progress(),
    {
        CandidateProgress {
            stage: 0,
            resolutions: Vec::new(),
            failures: Vec::new(),
            problems: Vec::new(),
        }
    }
}

/// The arXiv identifier that a candidate came with.
pub open spec fn candidate_arxiv(candidate: AgentCandidateView) -> Option<Seq<char>> {
    match candidate.arxiv_id {
        Some(value) => arxiv_of(value),
        None => None,
    }
}

/// The OpenAlex identifier that a candidate came with.
pub open spec fn candidate_openalex(candidate: AgentCandidateView) -> Option<Seq<char>> {
    match candidate.openalex_id {
        Some(value) => openalex_of(value),
        None => None,
    }
}

/// The first DOI that the sources gave.
pub open spec fn first_doi(resolutions: Seq<(u8, DiscoveredWorkView)>) -> Option<Seq<char>>
    decreases resolutions.len(),
{
    if resolutions.len() == 0 {
        None
    } else if doi_in(resolutions[0].1.record.ids) is Some {
        doi_in(resolutions[0].1.record.ids)
    } else {
        first_doi(resolutions.skip(1))
    }
}

/// The DOI of a candidate: its own, or else the first that the sources gave.
pub open spec fn candidate_doi(
    candidate: AgentCandidateView,
    resolutions: Seq<(u8, DiscoveredWorkView)>,
) -> Option<Seq<char>> {
    if candidate.doi is Some && doi_of(candidate.doi->0) is Some {
        doi_of(candidate.doi->0)
    } else {
        first_doi(resolutions)
    }
}

/// The lookup at the stage, if the candidate calls for it: by its arXiv identifier, by
/// its OpenAlex identifier, by its DOI in Crossref, and in OpenAlex by its DOI where it
/// came without an OpenAlex identifier.
pub open spec fn lookup_at(
    candidate: AgentCandidateView,
    resolutions: Seq<(u8, DiscoveredWorkView)>,
    source: LookupSource,
) -> Option<(LookupSource, Seq<char>)> {
    let identifier = match source {
        LookupSource::Arxiv => candidate_arxiv(candidate),
        LookupSource::OpenAlex => candidate_openalex(candidate),
        LookupSource::Crossref => candidate_doi(candidate, resolutions),
        LookupSource::OpenAlexByDoi => if candidate_openalex(candidate) is None {
            candidate_doi(candidate, resolutions)
        } else {
            None
        },
    };
    match identifier {
        Some(value) => Some((source, value)),
        None => None,
    }
}

/// The first of the lookups from the stage on that the candidate calls for.
pub open spec fn lookup_from(
    candidate: AgentCandidateView,
    progress: CandidateProgressView,
) -> Option<(LookupSource, Seq<char>)> {
    let found = progress.resolutions;
    if progress.stage == 0 && lookup_at(candidate, found, LookupSource::Arxiv) is Some {
        lookup_at(candidate, found, LookupSource::Arxiv)
    } else if progress.stage <= 1 && lookup_at(candidate, found, LookupSource::OpenAlex) is Some {
        lookup_at(candidate, found, LookupSource::OpenAlex)
    } else if progress.stage <= 2 && lookup_at(candidate, found, LookupSource::Crossref) is Some {
        lookup_at(candidate, found, LookupSource::Crossref)
    } else if progress.stage <= 3 {
        lookup_at(candidate, found, LookupSource::OpenAlexByDoi)
    } else {
        None
    }
}

fn find_first_doi(resolutions: &Vec<Resolution>) -> (r: Option<String>)
    ensures
        opt_text(r) == first_doi(views(resolutions@)),
{
    let ghost all = views(resolutions@);
    let mut i: usize = 0;
    assert(all.skip(0) =~= all);
    while i < resolutions.len()
        invariant
            i <= resolutions@.len(),
            all == views(resolutions@),
            first_doi(all) == first_doi(all.skip(i as int)),
        decreases resolutions@.len() - i,
    {
        let ghost rest = all.skip(i as int);
        assert(rest[0] == resolutions@[i as int]@);
        assert(rest.skip(1) =~= all.skip(i + 1));
        let doi = find_doi(&resolutions[i].work.record.ids);
        if doi.is_some() {
            return doi;
        }
        i += 1;
    }
    assert(all.skip(all.len() as int).len() == 0);
    None
}

fn find_candidate_doi(candidate: &AgentCandidate, resolutions: &Vec<Resolution>) -> (r: Option<
    String,
>)
    ensures
        opt_text(r) == candidate_doi(candidate@, views(resolutions@)),
{
    if let Some(value) = &candidate.doi {
        let doi = normalize_doi(value);
        if doi.is_some() {
            return doi;
        }
    }
    find_first_doi(resolutions)
}

fn lookup_if(source: LookupSource, identifier: Option<String>) -> (r: Option<Lookup>)
    ensures
        opt_view(r) == match opt_text(identifier) {
            Some(value) => Some((source, value)),
            None => None,
        },
{
    match identifier {
        Some(identifier) => Some(Lookup { source, identifier }),
        None => None,
    }
}

/// The next lookup that the candidate calls for.
pub fn next_lookup(candidate: &AgentCandidate, progress: &CandidateProgress) -> (r: Option<Lookup>)
    ensures
        opt_view(r) == lookup_from(candidate@, progress@),
{
    let openalex = match &candidate.openalex_id {
        Some(value) => normalize_openalex(value),
        None => None,
    };
    let named_by_openalex = openalex.is_some();
    if progress.stage == 0 {
        if let Some(value) = &candidate.arxiv_id {
            let lookup = lookup_if(LookupSource::Arxiv, normalize_arxiv(value));
            if lookup.is_some() {
                return lookup;
            }
        }
    }
    if progress.stage <= 1 && named_by_openalex {
        return lookup_if(LookupSource::OpenAlex, openalex);
    }
    let doi = find_candidate_doi(candidate, &progress.resolutions);
    if progress.stage <= 2 && doi.is_some() {
        return lookup_if(LookupSource::Crossref, doi);
    }
    if progress.stage <= 3 && !named_by_openalex {
        return lookup_if(LookupSource::OpenAlexByDoi, doi);
    }
    None
}

/// A lookup that led to nothing, in words.
pub open spec fn problem_of(lookup: (LookupSource, Seq<char>), outcome: Seq<char>) -> Seq<char> {
    provider_of(lookup.0) + ":"@ + lookup.1 + outcome
}

/// The progress with the answer to a lookup. What OpenAlex says by the DOI is optional:
/// that it knows nothing is no failure, and none of its failures is a problem.
pub open spec fn with_answer(
    progress: CandidateProgressView,
    lookup: (LookupSource, Seq<char>),
    outcome: LookupOutcomeView,
    now: Seq<char>,
) -> CandidateProgressView {
    let optional = lookup.0 == LookupSource::OpenAlexByDoi;
    let next = CandidateProgressView { stage: lookup_stage(lookup.0) + 1, ..progress };
    match outcome {
        LookupOutcomeView::Found(work) => CandidateProgressView {
            resolutions: progress.resolutions.push((precedence_of(lookup.0), work)),
            ..next
        },
        LookupOutcomeView::NotFound => if optional {
            next
        } else {
            CandidateProgressView {
                failures: progress.failures.push(
                    failure_of(provider_of(lookup.0), lookup.1, "not_found"@, now),
                ),
                problems: progress.problems.push(problem_of(lookup, " was not found"@)),
                ..next
            }
        },
        LookupOutcomeView::Failed => CandidateProgressView {
            failures: progress.failures.push(
                failure_of(provider_of(lookup.0), lookup.1, "lookup_failed"@, now),
            ),
            problems: if optional {
                progress.problems
            } else {
                progress.problems.push(problem_of(lookup, " lookup failed"@))
            },
            ..next
        },
    }
}

fn problem(lookup: &Lookup, outcome: &str) -> (r: String)
    ensures
        r@ == problem_of(lookup@, outcome@),
{
    let mut text = lookup.source.provider().to_owned();
    text.append(":");
    text.append(&lookup.identifier);
    text.append(outcome);
    text
}

/// Takes in the answer to a lookup.
pub fn collect_resolution(
    progress: CandidateProgress,
    lookup: &Lookup,
    outcome: LookupOutcome,
    now: &str,
) -> (r: CandidateProgress)
    ensures
        r@ == with_answer(progress@, lookup@, outcome@, now@),
{
    let ghost wanted = with_answer(progress@, lookup@, outcome@, now@);
    let ghost before = progress@;
    let optional = match lookup.source {
        LookupSource::OpenAlexByDoi => true,
        _ => false,
    };
    let mut next = progress;
    next.stage = lookup.source.stage() + 1;
    match outcome {
        LookupOutcome::Found(work) => {
            let entry = Resolution { precedence: lookup.source.precedence(), work };
            let ghost added = entry@;
            next.resolutions.push(entry);
            assert(views(next.resolutions@) =~= before.resolutions.push(added));
        },
        LookupOutcome::NotFound => {
            if !optional {
                let failure = resolution_failure(
                    lookup.source.provider(),
                    &lookup.identifier,
                    "not_found",
                    now,
                );
                next.failures.push(failure);
                assert(views(next.failures@) =~= before.failures.push(failure@));
                let text = problem(lookup, " was not found");
                next.problems.push(text);
                assert(texts(next.problems@) =~= before.problems.push(text@));
            }
        },
        LookupOutcome::Failed => {
            let failure = resolution_failure(
                lookup.source.provider(),
                &lookup.identifier,
                "lookup_failed",
                now,
            );
            next.failures.push(failure);
            assert(views(next.failures@) =~= before.failures.push(failure@));
            if !optional {
                let text = problem(lookup, " lookup failed");
                next.problems.push(text);
                assert(texts(next.problems@) =~= before.problems.push(text@));
            }
        },
    }
    assert(next@ =~= wanted);
    next
}

/// What the sources said, merged one after another.
pub open spec fn merged_resolutions(
    resolutions: Seq<(u8, DiscoveredWorkView)>,
) -> DiscoveredWorkView
    decreases resolutions.len(),
{
    if resolutions.len() <= 1 {
        resolutions[0].1
    } else {
        united(merged_resolutions(resolutions.drop_last()), resolutions.last().1)
    }
}

/// What the sources said, merged by precedence, with the lookups that led to nothing;
/// nothing where no source knew the candidate.
pub open spec fn resolved_work(progress: CandidateProgressView) -> Option<DiscoveredWorkView> {
    if progress.resolutions.len() == 0 {
        None
    } else {
        let work = merged_resolutions(ordered::<Resolution>(progress.resolutions));
        Some(
            DiscoveredWorkView { raw_records: work.raw_records + progress.failures, ..work },
        )
    }
}

/// Why a candidate could not be resolved.
pub open spec fn unresolved_text(problems: Seq<Seq<char>>) -> Seq<char> {
    "subagent candidate could not be resolved: "@ + if problems.len() == 0 {
        "no valid identifier produced an authoritative record"@
    } else {
        joined(problems, "; "@)
    }
}

fn append_records(target: &mut Vec<RawSourceRecord>, added: Vec<RawSourceRecord>)
    ensures
        views(final(target)@) == views(old(target)@) + views(added@),
{
    let ghost start = views(target@);
    let ghost all = views(added@);
    let ghost items = added@;
    assert(views(target@) =~= start + all.take(0));
    for record in it: added
        invariant
            it.seq() == items,
            all == views(items),
            views(target@) == start + all.take(it.index() as int),
    {
        let ghost i = it.index() as int;
        let ghost before = views(target@);
        target.push(record);
        assert(views(target@) =~= before.push(all[i]));
        assert(before.push(all[i]) =~= start + all.take(i + 1));
    }
    assert(all.take(all.len() as int) =~= all);
}

/// What the sources said, merged by precedence, with the lookups that led to nothing.
pub fn merge_candidate_resolutions(
    resolutions: Vec<Resolution>,
    failures: Vec<RawSourceRecord>,
) -> (r: Option<DiscoveredWork>)
    ensures
        opt_view(r) == resolved_work(
            (CandidateProgressView {
                resolutions: views(resolutions@),
                failures: views(failures@),
                ..no_progress()
            }),
        ),
{
    let ghost given = views(resolutions@);
    let ghost all = ordered::<Resolution>(given);
    proof {
        law_ordered::<Resolution>(given);
    }
    let sorted = sort(resolutions);
    let ghost items = sorted@;
    let mut whole: Option<DiscoveredWork> = None;
    for entry in it: sorted
        invariant
            it.seq() == items,
            all == views(items),
            it.index() == 0 <==> whole is None,
            whole matches Some(work) ==> work@ == merged_resolutions(
                all.take(it.index() as int),
            ),
    {
        let ghost i = it.index() as int;
        assert(all.take(i + 1).drop_last() =~= all.take(i));
        assert(all.take(i + 1).last() == entry@);
        whole = match whole {
            Some(work) => Some(unite(work, entry.work)),
            None => Some(entry.work),
        };
    }
    assert(all.take(all.len() as int) =~= all);
    match whole {
        Some(work) => {
            let ghost before = work@;
            let mut raws = work.raw_records;
            append_records(&mut raws, failures);
            Some(DiscoveredWork { record: work.record, raw_records: raws })
        },
        None => None,
    }
}

/// What the sources said of the candidate, or why it could not be resolved.
pub fn resolve_agent_candidate(progress: CandidateProgress) -> (r: Result<DiscoveredWork, String>)
    ensures
        match r {
            Ok(work) => resolved_work(progress@) == Some(work@),
            Err(error) => resolved_work(progress@) is None && error@ == unresolved_text(
                progress@.problems,
            ),
        },
{
    let resolved = merge_candidate_resolutions(progress.resolutions, progress.failures);
    match resolved {
        Some(work) => Ok(work),
        None => {
            let mut text = "subagent candidate could not be resolved: ".to_owned();
            if progress.problems.len() == 0 {
                text.append("no valid identifier produced an authoritative record");
            } else {
                text.append(&join(&progress.problems, "; "));
            }
            Err(text)
        },
    }
}

/// Every lookup of a candidate is later in the order of the sources than those before,
/// so that there are at most four, and none is made twice.
pub proof fn law_lookups_come_to_an_end(
    candidate: AgentCandidateView,
    progress: CandidateProgressView,
    outcome: LookupOutcomeView,
    now: Seq<char>,
)
    requires
        lookup_from(candidate, progress) is Some,
    ensures
        ({
            let lookup = lookup_from(candidate, progress)->0;
            let next = with_answer(progress, lookup, outcome, now);
            progress.stage <= lookup_stage(lookup.0) && progress.stage < next.stage <= 4
        }),
{
}

/// Where some source knew the candidate it is resolved, and every response and every
/// lookup that led to nothing is kept.
pub proof fn law_resolution_keeps_every_response(progress: CandidateProgressView, i: int, j: int)
    requires
        0 <= i < progress.resolutions.len(),
        0 <= j < progress.resolutions[i].1.raw_records.len(),
    ensures
        resolved_work(progress) is Some,
        resolved_work(progress)->0.raw_records.contains(
            progress.resolutions[i].1.raw_records[j],
        ),
        forall|k: int|
            0 <= k < progress.failures.len() ==> resolved_work(progress)->0.raw_records.contains(
                #[trigger] progress.failures[k],
            ),
{
    let given = progress.resolutions;
    let all = ordered::<Resolution>(given);
    law_ordered::<Resolution>(given);
    let item = given[i];
    let raw = item.1.raw_records[j];
    given.to_multiset_ensures();
    all.to_multiset_ensures();
    assert(given.contains(item));
    assert(given.to_multiset().contains(item));
    assert(all.to_multiset().contains(item));
    assert(all.contains(item));
    let at = choose|at: int| 0 <= at < all.len() && all[at] == item;
    lemma_merging_keeps_responses(all, at, j);
    let whole = merged_resolutions(all);
    let at_raw = choose|n: int|
        0 <= n < whole.raw_records.len() && whole.raw_records[n] == raw;
    let both = whole.raw_records + progress.failures;
    assert(both[at_raw] == raw);
    assert forall|k: int| 0 <= k < progress.failures.len() implies both.contains(
        #[trigger] progress.failures[k],
    ) by {
        assert(both[whole.raw_records.len() + k] == progress.failures[k]);
    }
}

proof fn lemma_merging_keeps_responses(
    resolutions: Seq<(u8, DiscoveredWorkView)>,
    i: int,
    j: int,
)
    requires
        0 <= i < resolutions.len(),
        0 <= j < resolutions[i].1.raw_records.len(),
    ensures
        merged_resolutions(resolutions).raw_records.contains(resolutions[i].1.raw_records[j]),
    decreases resolutions.len(),
{
    let raw = resolutions[i].1.raw_records[j];
    let whole = merged_resolutions(resolutions).raw_records;
    if resolutions.len() == 1 {
        assert(whole[j] == raw);
    } else {
        let rest = merged_resolutions(resolutions.drop_last()).raw_records;
        if i < resolutions.len() - 1 {
            lemma_merging_keeps_responses(resolutions.drop_last(), i, j);
            let n = choose|n: int| 0 <= n < rest.len() && rest[n] == raw;
            assert(whole[n] == raw);
        } else {
            assert(whole[rest.len() + j] == raw);
        }
    }
}

/// A text, or nothing.
pub open spec fn optional_text(value: Option<Seq<char>>) -> JsonView {
    match value {
        Some(text) => JsonView::Text(text),
        None => JsonView::Null,
    }
}

fn json_or_null(value: &Option<String>) -> (r: Json)
    ensures
        r@ == optional_text(opt_text(*value)),
{
    match value {
        Some(text) => Json::from_text(text),
        None => Json::Null,
    }
}

/// The texts as values.
pub open spec fn text_values(values: Seq<Seq<char>>) -> Seq<JsonView> {
    Seq::new(values.len(), |i: int| JsonView::Text(values[i]))
}

/// A candidate as a response.
pub open spec fn candidate_json_of(candidate: AgentCandidateView) -> JsonView {
    JsonView::Object(
        seq![
            ("task_id"@, JsonView::Text(candidate.task_id)),
            ("query"@, JsonView::Text(candidate.query)),
            ("source"@, JsonView::Text(candidate.source)),
            ("title"@, JsonView::Text(candidate.title)),
            ("doi"@, optional_text(candidate.doi)),
            ("arxiv_id"@, optional_text(candidate.arxiv_id)),
            ("openalex_id"@, optional_text(candidate.openalex_id)),
            ("landing_url"@, optional_text(candidate.landing_url)),
            ("evidence_urls"@, JsonView::List(text_values(candidate.evidence_urls))),
            ("discovered_at"@, JsonView::Text(candidate.discovered_at)),
        ],
    )
}

/// The candidate as a response.
pub fn candidate_json(candidate: &AgentCandidate) -> (r: Json)
    ensures
        r@ == candidate_json_of(candidate@),
{
    let mut urls: Vec<Json> = Vec::new();
    let mut i: usize = 0;
    while i < candidate.evidence_urls.len()
        invariant
            i <= candidate.evidence_urls@.len(),
            urls@.len() == i,
            forall|k: int|
                0 <= k < i ==> (#[trigger] urls@[k])@ == JsonView::Text(
                    candidate.evidence_urls@[k]@,
                ),
        decreases candidate.evidence_urls@.len() - i,
    {
        urls.push(Json::from_text(&candidate.evidence_urls[i]));
        i += 1;
    }
    assert(views(urls@) =~= text_values(candidate@.evidence_urls));
    let mut members: Vec<(String, Json)> = Vec::new();
    insert(&mut members, "task_id", Json::from_text(&candidate.task_id));
    insert(&mut members, "query", Json::from_text(&candidate.query));
    insert(&mut members, "source", Json::from_text(&candidate.source));
    insert(&mut members, "title", Json::from_text(&candidate.title));
    insert(&mut members, "doi", json_or_null(&candidate.doi));
    insert(&mut members, "arxiv_id", json_or_null(&candidate.arxiv_id));
    insert(&mut members, "openalex_id", json_or_null(&candidate.openalex_id));
    insert(&mut members, "landing_url", json_or_null(&candidate.landing_url));
    insert(&mut members, "evidence_urls", list(urls));
    insert(&mut members, "discovered_at", Json::from_text(&candidate.discovered_at));
    assert(member_views(members@) =~= candidate_json_of(candidate@)->Object_0);
    object(members)
}

/// What is stored of a candidate, as a response: by its task and its line.
pub open spec fn candidate_response(
    candidate: AgentCandidateView,
    line: nat,
    now: Seq<char>,
) -> RawSourceRecordView {
    RawSourceRecordView {
        source: "subagent"@,
        source_id: candidate.task_id + ":"@ + decimal(line),
        retrieved_at: now,
        raw: candidate_json_of(candidate),
    }
}

/// The state with a candidate: what the sources said of it, and the candidate itself.
pub open spec fn imported_state(
    state: StateView,
    candidate: AgentCandidateView,
    line: nat,
    work: DiscoveredWorkView,
    now: Seq<char>,
) -> StateView {
    with_raw(
        absorbed(state, work, now),
        identity_of(absorbed_record(state, work.record)),
        candidate_response(candidate, line, now),
    )
}

/// Takes in a candidate from a line of results with what the sources said of it, and
/// answers whether it is new: one that the same results held before is passed over.
pub fn import_candidate(
    state: &mut State,
    seen: &mut Vec<String>,
    candidate: &AgentCandidate,
    line: u64,
    work: DiscoveredWork,
    now: &str,
) -> (r: Result<bool, StateError>)
    ensures
        ({
            let identity = identity_of(work@.record);
            let known = texts(old(seen)@).contains(identity);
            &&& texts(final(seen)@) == if known {
                texts(old(seen)@)
            } else {
                texts(old(seen)@).push(identity)
            }
            &&& match r {
                Ok(imported) => imported == !known && final(state)@ == if known {
                    old(state)@
                } else {
                    imported_state(old(state)@, candidate@, line as nat, work@, now@)
                },
                Err(error) => {
                    &&& !known
                    &&& final(state)@ == old(state)@
                    &&& if work_unreadable(old(state)@, identity) {
                        error == StateError::UnreadableRecord
                    } else {
                        error == StateError::UnorderedScore && !record_ordered(
                            absorbed_record(old(state)@, work@.record),
                        )
                    }
                },
            }
        }),
{
    let ghost before = texts(seen@);
    let identity = work.record.identity();
    if text_in(&identity, seen) {
        return Ok(false);
    }
    let ghost added = identity@;
    seen.push(identity);
    assert(texts(seen@) =~= before.push(added));
    let ghost whole = work@;
    match absorb_discovered(state, work, now) {
        Ok(work_id) => {
            proof {
                let record = absorbed_record(old(state)@, whole.record);
                lemma_upserted_is_known(old(state)@, record, "discovered"@, now@);
                lemma_raws_keep_works(
                    upserted(old(state)@, record, "discovered"@, now@),
                    identity_of(record),
                    whole.raw_records,
                );
            }
            let mut source_id = candidate.task_id.clone();
            source_id.append(":");
            source_id.append(&decimal_text(line));
            let response = RawSourceRecord {
                source: "subagent".to_owned(),
                source_id,
                retrieved_at: now.to_owned(),
                raw: candidate_json(candidate),
            };
            let stored = state.store_raw(&work_id, response);
            assert(stored is Ok);
            Ok(true)
        },
        Err(error) => Err(error),
    }
}

proof fn lemma_raws_keep_works(
    state: StateView,
    work_id: Seq<char>,
    raws: Seq<RawSourceRecordView>,
)
    ensures
        with_raws(state, work_id, raws).works == state.works,
    decreases raws.len(),
{
    if raws.len() > 0 {
        lemma_raws_keep_works(state, work_id, raws.drop_last());
    }
}

/// Nothing that a candidate claims gets into the record of a work: it is kept as a
/// response only, beside what the sources said.
pub proof fn law_candidates_leave_a_response_only(
    state: StateView,
    candidate: AgentCandidateView,
    line: nat,
    work: DiscoveredWorkView,
    now: Seq<char>,
)
    ensures
        imported_state(state, candidate, line, work, now).works == absorbed(state, work, now).works,
        imported_state(state, candidate, line, work, now).pages == absorbed(state, work, now).pages,
{
}

/// Where the plan leaves out what is not open, screening never has the user asked for
/// a PDF, and no file of theirs is taken in.
pub proof fn law_open_plans_never_ask_the_user(
    work: WorkRecordView,
    plan: ResearchPlanView,
    workspace: Seq<char>,
    work_id: Seq<char>,
    file_present: bool,
)
    requires
        !plan.include_paywalled,
    ensures
        step_for(
            workspace,
            work_id,
            (WorkRecordView { flags: screening_flags(work, plan), ..work }),
            file_present,
        ) is Automatic,
{
    reveal_strlit("manual_fulltext_enabled");
    reveal_strlit("requires_manual_pdf");
    reveal_strlit("google_scholar_library_access");
    assert(MANUAL_FULLTEXT_ENABLED_FLAG@ == "manual_fulltext_enabled"@);
    assert(REQUIRES_MANUAL_PDF_FLAG@ == "requires_manual_pdf"@);
    assert(GOOGLE_SCHOLAR_LIBRARY_ACCESS_FLAG@ == "google_scholar_library_access"@);
    assert("manual_fulltext_enabled"@.len() != "requires_manual_pdf"@.len());
    assert("google_scholar_library_access"@.len() != "requires_manual_pdf"@.len());
    assert("google_scholar_library_access"@.len() != "manual_fulltext_enabled"@.len());
}

} // verus!
