//! How works go from stage to stage: found, screened, selected, completed, downloaded and
//! rendered, and what an audit says of them.

use crate::discovery::{arxiv_in, united, DiscoveredWorkView};
use crate::domain::{
    any_authorized, doi_in, identity_of, merged, AgentCandidateView, QualityAssessmentView,
    ResearchPlanView, WorkRecordView,
};
use crate::json::{lemma_member_at, JsonView};
use crate::laws::corpus::{
    law_a_download_is_remembered, law_a_mark_is_remembered, law_storing_a_work_keeps_it,
};
use crate::order::{law_ordered, ordered};
use crate::pipeline::{
    absorbed, absorbed_record, artifacts_amiss, candidate_json_of, candidate_response, chunk_stop,
    corpus_audit_of, eligible_between, enriched, exported, failed_stage, failure_of,
    fetched_outcome, file_issues, formal_doi, issues_in, issues_of, kept_artifact, lookup_from,
    manual_response, merged_resolutions, passed, precedence_of, refreshed, reported, resolved_work,
    screening_flags, selected_total, selections, settled_download, step_for, supplied_outcome,
    undownloaded, unenriched, unrendered, unresolved_text, unscreened, with_answer, with_raws,
    with_scores, works_without, ArtifactIssueView, CandidateProgressView, DownloadFailureView,
    DownloadOutcomeView, DownloadReportView, DownloadStepView, LookupOutcomeView, LookupSource,
    PdfCheckView, RelevanceScore, Resolution,
};
use crate::quality::with_relevance;
use crate::state::{
    coherent, knows_work, record_of, row_of, upserted, StateView, StoredArtifactStatusView,
};
use crate::text::{ascii_lower, begins_with, decimal, joined};
use crate::util::{arxiv_of, doi_of, openalex_of};
use vstd::prelude::*;

verus! {

proof fn lemma_responses_leave_the_works(
    state: StateView,
    work_id: Seq<char>,
    raws: Seq<crate::domain::RawSourceRecordView>,
)
    ensures
        with_raws(state, work_id, raws).works == state.works,
        with_raws(state, work_id, raws).pages == state.pages,
        with_raws(state, work_id, raws).corpus_id == state.corpus_id,
    decreases raws.len(),
{
    if raws.len() > 0 {
        lemma_responses_leave_the_works(state, work_id, raws.drop_last());
    }
}

/// A finding is stored with what was known of its work before: the record is what both
/// say, or the finding alone where the work is new, and a new work is one that was
/// discovered.
pub proof fn law_findings_join_what_is_known(
    state: StateView,
    finding: DiscoveredWorkView,
    now: Seq<char>,
)
    requires
        coherent(state),
    ensures
        ({
            let id = identity_of(finding.record);
            let known = record_of(state.works, id);
            let record = match known {
                Some(existing) => merged(existing, finding.record),
                None => finding.record,
            };
            let next = absorbed(state, finding, now);
            let row = row_of(next, identity_of(record));
            &&& row.record == Some(record)
            &&& row.updated_at == now
            &&& !knows_work(state.works, identity_of(record)) ==> row.status == "discovered"@
            &&& next.pages == state.pages
        }),
{
    let record = absorbed_record(state, finding.record);
    law_storing_a_work_keeps_it(state, record, "discovered"@, now);
    lemma_responses_leave_the_works(
        upserted(state, record, "discovered"@, now),
        identity_of(record),
        finding.raw_records,
    );
}

/// A lookup that led to nothing is kept as a response that names the source that was
/// asked, what it was asked for, and what came of it.
pub proof fn law_vain_lookups_are_kept(
    provider: Seq<char>,
    identifier: Seq<char>,
    status: Seq<char>,
    now: Seq<char>,
)
    ensures
        ({
            let kept = failure_of(provider, identifier, status, now);
            &&& kept.source == "resolution"@
            &&& kept.source_id == provider + ":"@ + identifier
            &&& kept.retrieved_at == now
            &&& kept.raw.member("provider"@) == Some(JsonView::Text(provider))
            &&& kept.raw.member("identifier"@) == Some(JsonView::Text(identifier))
            &&& kept.raw.member("status"@) == Some(JsonView::Text(status))
        }),
{
    let members = failure_of(provider, identifier, status, now).raw->Object_0;
    reveal_strlit("provider");
    reveal_strlit("identifier");
    reveal_strlit("status");
    assert("provider"@.len() == 8 && "identifier"@.len() == 10 && "status"@.len() == 6);
    lemma_member_at(members, "provider"@, 0);
    lemma_member_at(members, "identifier"@, 1);
    lemma_member_at(members, "status"@, 2);
}

/// The formal version of a work is looked up exactly where the work is an arXiv preprint
/// with a DOI, and by that DOI.
pub proof fn law_preprints_are_looked_up_by_doi(work: WorkRecordView)
    ensures
        formal_doi(work) is Some <==> ascii_lower(work.work_type) == "preprint"@ && arxiv_in(
            work.ids,
        ) is Some && doi_in(work.ids) is Some,
        formal_doi(work) is Some ==> formal_doi(work) == doi_in(work.ids),
{
    reveal_strlit("preprint");
    assert(ascii_lower("preprint"@) =~= "preprint"@);
}

/// The lookup of a formal version changes the work only where it finds one: then the work
/// is stored with what both say. Else the works stay as they are, and what came of the
/// lookup is kept as a response.
pub proof fn law_lookups_promote_only_formal_versions(
    state: StateView,
    work_id: Seq<char>,
    work: WorkRecordView,
    doi: Seq<char>,
    outcome: LookupOutcomeView,
    now: Seq<char>,
)
    requires
        coherent(state),
        knows_work(state.works, work_id),
    ensures
        ({
            let next = refreshed(state, work_id, work, doi, outcome, now);
            &&& outcome matches LookupOutcomeView::Found(found) ==> ((found.record.work_type
                == "article-journal"@ || found.record.work_type == "paper-conference"@) && doi_in(
                found.record.ids,
            ) is Some && found.record.container_title.len() > 0 ==> row_of(
                next,
                identity_of(merged(work, found.record)),
            ).record == Some(merged(work, found.record)))
            &&& outcome matches LookupOutcomeView::Found(found) ==> (!((found.record.work_type
                == "article-journal"@ || found.record.work_type == "paper-conference"@) && doi_in(
                found.record.ids,
            ) is Some && found.record.container_title.len() > 0) ==> next.works == state.works)
            &&& outcome is NotFound ==> next.works == state.works && next.sources.contains(
                crate::state::response_row(
                    work_id,
                    failure_of("crossref"@, doi, "not_found"@, now),
                ),
            )
            &&& outcome is Failed ==> next.works == state.works && next.sources.contains(
                crate::state::response_row(
                    work_id,
                    failure_of("crossref"@, doi, "lookup_failed"@, now),
                ),
            )
        }),
{
    match outcome {
        LookupOutcomeView::Found(found) => {
            let record = merged(work, found.record);
            law_storing_a_work_keeps_it(state, record, "discovered"@, now);
            lemma_responses_leave_the_works(
                upserted(state, record, "discovered"@, now),
                identity_of(record),
                found.raw_records,
            );
            lemma_responses_leave_the_works(state, work_id, found.raw_records);
        },
        LookupOutcomeView::NotFound => {
            crate::state::law_a_stored_response_is_kept(
                state,
                work_id,
                failure_of("crossref"@, doi, "not_found"@, now),
            );
        },
        LookupOutcomeView::Failed => {
            crate::state::law_a_stored_response_is_kept(
                state,
                work_id,
                failure_of("crossref"@, doi, "lookup_failed"@, now),
            );
        },
    }
}

/// Screening notes of a work whether the user may supply its PDF, whether they have to,
/// and whether they may search for it with their library: the second exactly where the
/// plan includes what is paid for and no authorized full text is known. Other flags stay.
pub proof fn law_screening_sets_three_flags(
    work: WorkRecordView,
    plan: ResearchPlanView,
    name: Seq<char>,
)
    ensures
        ({
            let flags = screening_flags(work, plan);
            &&& flags.contains_key("manual_fulltext_enabled"@) && flags["manual_fulltext_enabled"@]
                == plan.include_paywalled
            &&& flags.contains_key("requires_manual_pdf"@) && (flags["requires_manual_pdf"@]
                <==> plan.include_paywalled && !any_authorized(work.fulltext_candidates))
            &&& flags.contains_key("google_scholar_library_access"@)
                && flags["google_scholar_library_access"@]
                == plan.use_google_scholar_library_access
            &&& name != "manual_fulltext_enabled"@ && name != "requires_manual_pdf"@ && name
                != "google_scholar_library_access"@ ==> (flags.contains_key(name)
                <==> work.flags.contains_key(name)) && (work.flags.contains_key(name)
                ==> flags[name] == work.flags[name])
        }),
{
    reveal_strlit("manual_fulltext_enabled");
    reveal_strlit("requires_manual_pdf");
    reveal_strlit("google_scholar_library_access");
    assert("manual_fulltext_enabled"@.len() == 23 && "requires_manual_pdf"@.len() == 19
        && "google_scholar_library_access"@.len() == 29);
}

/// The works that the reranker is shown are those that passed so far, in order.
pub proof fn law_the_reranker_sees_what_passed(
    works: Seq<(Seq<char>, WorkRecordView)>,
    from: int,
    to: int,
    at: int,
)
    ensures
        eligible_between(works, from, to).contains(at) <==> from <= at < to
            && works[at].1.quality.accepted,
        forall|i: int, j: int|
            0 <= i < j < eligible_between(works, from, to).len() ==> #[trigger] eligible_between(
                works,
                from,
                to,
            )[i] < #[trigger] eligible_between(works, from, to)[j],
        forall|i: int|
            0 <= i < eligible_between(works, from, to).len() ==> from <= #[trigger] eligible_between(
                works,
                from,
                to,
            )[i] < to,
    decreases to - from,
{
    let all = eligible_between(works, from, to);
    if to > from {
        let rest = eligible_between(works, from, to - 1);
        law_the_reranker_sees_what_passed(works, from, to - 1, at);
        if all.contains(at) {
            let k = choose|k: int| 0 <= k < all.len() && all[k] == at;
            if k < rest.len() {
                assert(rest[k] == at);
            }
        }
        if rest.contains(at) {
            let k = choose|k: int| 0 <= k < rest.len() && rest[k] == at;
            assert(all[k] == at);
        }
        if at == to - 1 && works[at].1.quality.accepted {
            assert(all[all.len() - 1] == at);
        }
        assert forall|i: int, j: int| 0 <= i < j < all.len() implies #[trigger] all[i]
            < #[trigger] all[j] by {
            assert(all[i] == rest[i]);
            if j < rest.len() {
                assert(all[j] == rest[j]);
            }
        }
        assert forall|i: int| 0 <= i < all.len() implies from <= #[trigger] all[i] < to by {
            if i < rest.len() {
                assert(all[i] == rest[i]);
            }
        }
    }
}

/// Each work that was reranked gets its own score, and only these are changed: a work that
/// is named once has what its score adds, and a work that is not named stays.
pub proof fn law_each_work_gets_its_score(
    works: Seq<(Seq<char>, WorkRecordView)>,
    indices: Seq<usize>,
    scores: Seq<RelevanceScore>,
    plan: ResearchPlanView,
)
    requires
        indices.len() == scores.len(),
        indices.no_duplicates(),
        forall|k: int| 0 <= k < indices.len() ==> #[trigger] indices[k] < works.len(),
    ensures
        ({
            let scored = with_scores(works, indices, scores, plan);
            &&& scored.len() == works.len()
            &&& forall|k: int|
                0 <= k < indices.len() ==> {
                    let at = #[trigger] indices[k] as int;
                    let before = works[at].1;
                    &&& scored[at].0 == works[at].0
                    &&& scored[at].1 == (WorkRecordView {
                        quality: with_relevance(
                            before.quality,
                            scores[k].logit,
                            scores[k].normalized,
                            scores[k].priority,
                            plan,
                        ),
                        ..before
                    })
                }
            &&& forall|at: int|
                0 <= at < works.len() && !indices.contains(at as usize) ==> #[trigger] scored[at]
                    == works[at]
        }),
    decreases indices.len(),
{
    let scored = with_scores(works, indices, scores, plan);
    if indices.len() > 0 {
        let n = indices.len() - 1;
        let fewer = indices.drop_last();
        let rest = with_scores(works, fewer, scores.take(n), plan);
        assert forall|k: int| 0 <= k < fewer.len() implies #[trigger] fewer[k] < works.len() by {
            assert(fewer[k] == indices[k]);
        }
        law_each_work_gets_its_score(works, fewer, scores.take(n), plan);
        let last = indices[n] as int;
        assert(!fewer.contains(indices[n])) by {
            if fewer.contains(indices[n]) {
                let k = choose|k: int| 0 <= k < fewer.len() && fewer[k] == indices[n];
                assert(indices[k] == indices[n]);
            }
        }
        assert(rest[last] == works[last]);
        assert forall|k: int| 0 <= k < indices.len() implies {
            let at = #[trigger] indices[k] as int;
            let before = works[at].1;
            &&& scored[at].0 == works[at].0
            &&& scored[at].1 == (WorkRecordView {
                quality: with_relevance(
                    before.quality,
                    scores[k].logit,
                    scores[k].normalized,
                    scores[k].priority,
                    plan,
                ),
                ..before
            })
        } by {
            if k < n {
                assert(fewer[k] == indices[k]);
                assert(scores.take(n)[k] == scores[k]);
                assert(indices[k] != indices[n]);
            }
        }
        assert forall|at: int| 0 <= at < works.len() && !indices.contains(
            at as usize,
        ) implies #[trigger] scored[at] == works[at] by {
            if fewer.contains(at as usize) {
                let k = choose|k: int| 0 <= k < fewer.len() && fewer[k] == at as usize;
                assert(indices[k] == at as usize);
            }
            assert(indices[n] != at as usize);
        }
    }
}

/// How many of the first works passed.
pub open spec fn passed_among(works: Seq<(Seq<char>, WorkRecordView)>, n: int) -> nat
    decreases n,
{
    if n <= 0 {
        0
    } else {
        passed_among(works, n - 1) + (if works[n - 1].1.quality.accepted {
            1nat
        } else {
            0
        })
    }
}

proof fn lemma_passed_from_the_front(works: Seq<(Seq<char>, WorkRecordView)>, n: int)
    requires
        0 < n <= works.len(),
    ensures
        passed_among(works, n) == passed_among(works.skip(1), n - 1) + (
        if works[0].1.quality.accepted {
            1nat
        } else {
            0
        }),
    decreases n,
{
    reveal_with_fuel(passed_among, 2);
    if n > 1 {
        lemma_passed_from_the_front(works, n - 1);
        assert(works.skip(1)[n - 2] == works[n - 1]);
    }
}

/// Of works in order, each that passed is selected while fewer than the plan has room for
/// passed before it. One for which there is no room is rejected for that reason, and one
/// that did not pass is rejected as it is.
pub proof fn law_selection_fills_the_room(
    works: Seq<(Seq<char>, WorkRecordView)>,
    room: nat,
    i: int,
)
    requires
        0 <= i < works.len(),
    ensures
        ({
            let all = selections(works, room);
            let work = works[i].1;
            &&& all.len() == works.len()
            &&& work.quality.accepted && passed_among(works, i) < room ==> all[i] == (
                work,
                "selected"@,
            )
            &&& work.quality.accepted && passed_among(works, i) >= room ==> all[i] == (
                WorkRecordView {
                    quality: QualityAssessmentView {
                        accepted: false,
                        rejection_reasons: work.quality.rejection_reasons.push(
                            "outside configured target_papers cap"@,
                        ),
                        ..work.quality
                    },
                    ..work
                },
                "rejected"@,
            )
            &&& !work.quality.accepted ==> all[i] == (work, "rejected"@)
        }),
    decreases works.len(),
{
    let first = works[0].1;
    let left: nat = if first.quality.accepted && room > 0 {
        (room - 1) as nat
    } else {
        room
    };
    lemma_as_many_selections(works, room);
    if i > 0 {
        law_selection_fills_the_room(works.skip(1), left, i - 1);
        lemma_passed_from_the_front(works, i);
        assert(works.skip(1)[i - 1] == works[i]);
        assert(selections(works, room)[i] == selections(works.skip(1), left)[i - 1]);
    }
}

proof fn lemma_as_many_selections(works: Seq<(Seq<char>, WorkRecordView)>, room: nat)
    ensures
        selections(works, room).len() == works.len(),
    decreases works.len(),
{
    if works.len() > 0 {
        lemma_as_many_selections(works.skip(1), room);
        if room > 0 {
            lemma_as_many_selections(works.skip(1), (room - 1) as nat);
        }
    }
}

/// A selected work is completed with what the citation source says, and it is noted
/// whether the user has to supply its PDF. It stays selected exactly where neither record
/// says that it is retracted; else it is rejected for that reason.
pub proof fn law_completion_joins_both_records(work: WorkRecordView, found: WorkRecordView)
    ensures
        ({
            let both = merged(work, found);
            let (next, status) = enriched(work, found);
            let retracted = both.flags.contains_key("is_retracted"@) && both.flags["is_retracted"@];
            &&& status == "selected"@ <==> !retracted
            &&& status == "rejected"@ <==> retracted
            &&& next.ids == both.ids && next.title == both.title && next.abstract_text
                == both.abstract_text && next.authors == both.authors && next.issued == both.issued
                && next.work_type == both.work_type && next.fulltext_candidates
                == both.fulltext_candidates && next.provenance == both.provenance && next.metrics
                == both.metrics
            &&& !retracted ==> next.quality == both.quality
            &&& retracted ==> !next.quality.accepted && next.quality.rejection_reasons
                == both.quality.rejection_reasons.push(
                "retracted or withdrawn record found during citation enrichment"@,
            )
            &&& next.flags.contains_key("requires_manual_pdf"@)
            &&& next.flags["requires_manual_pdf"@] <==> both.flags.contains_key(
                "manual_fulltext_enabled"@,
            ) && both.flags["manual_fulltext_enabled"@] && !any_authorized(
                both.fulltext_candidates,
            )
        }),
{
    reveal_strlit("requires_manual_pdf");
    reveal_strlit("is_retracted");
    reveal_strlit("selected");
    reveal_strlit("rejected");
    assert("requires_manual_pdf"@.len() == 19 && "is_retracted"@.len() == 12);
    assert("selected"@.len() == 8 && "rejected"@.len() == 8);
    assert("selected"@[0] == 's' && "rejected"@[0] == 'r');
}

/// Each stage takes the works of its own statuses: screening those that were discovered or
/// rejected, completion those that were selected, downloading those whose PDF is not there
/// yet, rendering those that were downloaded or failed in rendering, and with a refresh
/// those rendered before; the library holds those from selection on.
pub proof fn law_each_stage_takes_its_works(status: Seq<char>)
    ensures
        unscreened().contains(status) <==> status == "discovered"@ || status == "rejected"@,
        unenriched().contains(status) <==> status == "selected"@,
        undownloaded().contains(status) <==> status == "selected"@ || status
            == "awaiting-manual-download"@ || status == "error:download"@ || status
            == "error:manual-download"@,
        exported().contains(status) <==> status == "selected"@ || status
            == "awaiting-manual-download"@ || status == "downloaded"@ || status == "rendered"@
            || status == "indexed"@,
        unrendered(false).contains(status) <==> status == "downloaded"@ || status
            == "error:render"@,
        unrendered(true).contains(status) <==> status == "downloaded"@ || status
            == "error:render"@ || status == "rendered"@ || status == "indexed"@,
{
    let a = unscreened();
    assert(a[0] == "discovered"@ && a[1] == "rejected"@);
    let b = unenriched();
    assert(b[0] == "selected"@);
    let c = undownloaded();
    assert(c[0] == "selected"@ && c[1] == "awaiting-manual-download"@ && c[2] == "error:download"@
        && c[3] == "error:manual-download"@);
    let d = exported();
    assert(d[0] == "selected"@ && d[1] == "awaiting-manual-download"@ && d[2] == "downloaded"@
        && d[3] == "rendered"@ && d[4] == "indexed"@);
    let e = unrendered(false);
    assert(e[0] == "downloaded"@ && e[1] == "error:render"@);
    let f = unrendered(true);
    assert(f[0] == "downloaded"@ && f[1] == "error:render"@ && f[2] == "rendered"@ && f[3]
        == "indexed"@);
}

/// The works whose citations are audited are those of the list that have another status
/// than the one that is left out.
pub proof fn law_audits_leave_out_one_status(
    works: Seq<(Seq<char>, WorkRecordView, Seq<char>)>,
    status: Seq<char>,
    work_id: Seq<char>,
    work: WorkRecordView,
)
    ensures
        works_without(works, status).contains((work_id, work)) <==> exists|i: int|
            0 <= i < works.len() && (#[trigger] works[i]).0 == work_id && works[i].1 == work
                && works[i].2 != status,
    decreases works.len(),
{
    let all = works_without(works, status);
    if works.len() > 0 {
        let rest = works_without(works.drop_last(), status);
        law_audits_leave_out_one_status(works.drop_last(), status, work_id, work);
        if all.contains((work_id, work)) {
            let k = choose|k: int| 0 <= k < all.len() && all[k] == (work_id, work);
            if k < rest.len() {
                assert(rest[k] == (work_id, work));
                let i = choose|i: int|
                    0 <= i < works.drop_last().len() && (#[trigger] works.drop_last()[i]).0
                        == work_id && works.drop_last()[i].1 == work && works.drop_last()[i].2
                        != status;
                assert(works[i] == works.drop_last()[i]);
            } else {
                assert(works[works.len() - 1].0 == work_id);
            }
        }
        if exists|i: int|
            0 <= i < works.len() && (#[trigger] works[i]).0 == work_id && works[i].1 == work
                && works[i].2 != status {
            let i = choose|i: int|
                0 <= i < works.len() && (#[trigger] works[i]).0 == work_id && works[i].1 == work
                    && works[i].2 != status;
            if i < works.len() - 1 {
                assert(works.drop_last()[i] == works[i]);
                let k = choose|k: int| 0 <= k < rest.len() && rest[k] == (work_id, work);
                assert(all[k] == (work_id, work));
            } else {
                assert(all[all.len() - 1] == (work_id, work));
            }
        }
    }
}

/// The file of the user is taken in exactly where the plan allows such files and one is
/// there; else the user is asked exactly where they have to supply it; else the PDF is
/// downloaded.
pub proof fn law_a_pdf_is_had_in_one_way(
    workspace: Seq<char>,
    work_id: Seq<char>,
    work: WorkRecordView,
    file_present: bool,
)
    ensures
        ({
            let step = step_for(workspace, work_id, work, file_present);
            let allowed = work.flags.contains_key("manual_fulltext_enabled"@)
                && work.flags["manual_fulltext_enabled"@];
            let needed = work.flags.contains_key("requires_manual_pdf"@)
                && work.flags["requires_manual_pdf"@];
            &&& step is ImportManual <==> allowed && file_present
            &&& step is AwaitManual <==> needed && !(allowed && file_present)
            &&& step is Automatic <==> !needed && !(allowed && file_present)
            &&& step matches DownloadStepView::AwaitManual(request) ==> request.work_id == work_id
                && request.title == work.title && request.doi == doi_in(work.ids)
                && request.destination == crate::download::destination_of(workspace, work_id)
                && request.reason == "no independently authorized open-access PDF was found"@
        }),
{
}

/// What came of the PDF of a work is remembered: a PDF as that of the work, a request as
/// that the work waits, a failure with its words and at the stage where it happened.
pub proof fn law_what_came_of_a_download_is_remembered(
    state: StateView,
    work_id: Seq<char>,
    outcome: DownloadOutcomeView,
    file_present: bool,
    now: Seq<char>,
)
    requires
        coherent(state),
        knows_work(state.works, work_id),
    ensures
        ({
            let next = settled_download(state, work_id, outcome, file_present, now);
            let row = row_of(next, work_id);
            &&& row.record == row_of(state, work_id).record
            &&& row.updated_at == now
            &&& outcome matches DownloadOutcomeView::Downloaded(pdf) ==> row.status
                == "downloaded"@ && row.pdf_url == Some(pdf.url) && row.pdf_path == Some(pdf.path)
                && row.pdf_sha256 == Some(pdf.sha256) && row.pdf_license == Some(pdf.license)
                && row.last_error is None
            &&& outcome is AwaitingManual ==> row.status == "awaiting-manual-download"@
                && row.last_error is None
            &&& outcome matches DownloadOutcomeView::Failed(error) ==> row.last_error == Some(
                error,
            ) && row.status == (if file_present {
                "error:manual-download"@
            } else {
                "error:download"@
            })
            &&& outcome matches DownloadOutcomeView::Downloaded(pdf) ==> !pdf.user_supplied
                ==> next.sources == state.sources
            &&& !(outcome is Downloaded) ==> next.sources == state.sources
        }),
{
    reveal_strlit("error:");
    reveal_strlit("manual-download");
    reveal_strlit("download");
    reveal_strlit("error:manual-download");
    reveal_strlit("error:download");
    assert("error:"@ + "manual-download"@ =~= "error:manual-download"@);
    assert("error:"@ + "download"@ =~= "error:download"@);
    match outcome {
        DownloadOutcomeView::Downloaded(pdf) => {
            law_a_download_is_remembered(state, work_id, kept_artifact(pdf), now);
        },
        DownloadOutcomeView::AwaitingManual(_) => {
            law_a_mark_is_remembered(state, work_id, "awaiting-manual-download"@, None, now);
        },
        DownloadOutcomeView::Failed(error) => {
            law_a_mark_is_remembered(
                state,
                work_id,
                "error:"@ + failed_stage(file_present),
                Some(error),
                now,
            );
        },
    }
}

/// A PDF that the user supplied is kept as a response that says so and asserts no license.
pub proof fn law_supplied_pdfs_are_declared(
    pdf: crate::download::DownloadedPdfView,
    now: Seq<char>,
)
    ensures
        ({
            let kept = manual_response(pdf, now);
            &&& kept.source == "manual-pdf"@
            &&& kept.source_id == pdf.sha256
            &&& kept.retrieved_at == now
            &&& kept.raw.member("acquisition"@) == Some(JsonView::Text("user-supplied"@))
            &&& kept.raw.member("source_url"@) == Some(JsonView::Text(pdf.url))
            &&& kept.raw.member("path"@) == Some(JsonView::Text(pdf.path))
            &&& kept.raw.member("sha256"@) == Some(JsonView::Text(pdf.sha256))
            &&& kept.raw.member("reuse_license_asserted"@) == Some(JsonView::Bool(false))
        }),
{
    let members = manual_response(pdf, now).raw->Object_0;
    reveal_strlit("acquisition");
    reveal_strlit("source_url");
    reveal_strlit("path");
    reveal_strlit("sha256");
    reveal_strlit("reuse_license_asserted");
    assert("acquisition"@.len() == 11 && "source_url"@.len() == 10 && "path"@.len() == 4
        && "sha256"@.len() == 6 && "reuse_license_asserted"@.len() == 22);
    lemma_member_at(members, "acquisition"@, 0);
    lemma_member_at(members, "source_url"@, 1);
    lemma_member_at(members, "path"@, 2);
    lemma_member_at(members, "sha256"@, 3);
    lemma_member_at(members, "reuse_license_asserted"@, 4);
}

/// A report counts each PDF that was had, lists each request and each failure, and
/// changes nothing else.
pub proof fn law_reports_add_one_outcome(
    report: DownloadReportView,
    work_id: Seq<char>,
    outcome: DownloadOutcomeView,
)
    requires
        report.downloaded < usize::MAX,
    ensures
        ({
            let next = reported(report, work_id, outcome);
            &&& next.downloaded + next.manual_downloads.len() + next.failures.len()
                == report.downloaded + report.manual_downloads.len() + report.failures.len() + 1
            &&& outcome is Downloaded ==> next.downloaded == report.downloaded + 1
            &&& outcome matches DownloadOutcomeView::AwaitingManual(request)
                ==> next.manual_downloads == report.manual_downloads.push(request)
            &&& outcome matches DownloadOutcomeView::Failed(error) ==> next.failures
                == report.failures.push(DownloadFailureView { work_id, error })
        }),
{
}

/// An audit lists each thing that is amiss with a work: missing provenance, a failure, a
/// PDF that is incomplete, missing, changed or unreadable, a license that is missing or
/// not established, and the stage that is still to come.
pub proof fn law_audits_list_what_is_amiss(
    artifact: StoredArtifactStatusView,
    without_provenance: bool,
    check: PdfCheckView,
)
    ensures
        ({
            let issues = issues_of(artifact, without_provenance, check);
            let expected = artifact.pdf_path.len() > 0 || artifact.status == "downloaded"@
                || artifact.status == "rendered"@ || artifact.status == "indexed"@;
            let described = artifact.pdf_url.len() > 0 && artifact.pdf_path.len() > 0
                && artifact.pdf_sha256.len() > 0;
            &&& without_provenance ==> issues.contains(
                "canonical record has no metadata provenance"@,
            )
            &&& begins_with(artifact.status, "error:"@) && artifact.last_error.len() > 0
                ==> issues.contains("pipeline failed: "@ + artifact.last_error)
            &&& begins_with(artifact.status, "error:"@) && artifact.last_error.len() == 0
                ==> issues.contains("pipeline failed: "@ + "no error detail was retained"@)
            &&& expected && !described ==> issues.contains(
                "preserved PDF artifact metadata is incomplete"@,
            )
            &&& expected && described && check is Missing ==> issues.contains(
                "preserved PDF file is missing"@,
            )
            &&& expected && described ==> (check matches PdfCheckView::Hashed(digest) ==> digest
                != artifact.pdf_sha256 ==> issues.contains(
                "preserved PDF SHA-256 does not match"@,
            ))
            &&& expected && described ==> (check matches PdfCheckView::Unreadable(error)
                ==> issues.contains("could not hash preserved PDF: "@ + error))
            &&& expected && artifact.pdf_license.len() == 0 ==> issues.contains(
                "PDF has no explicit reuse-license metadata"@,
            )
            &&& expected && artifact.pdf_license.len() > 0 && artifact.pdf_license
                == "user-supplied; reuse rights not established"@ ==> issues.contains(
                "user-supplied PDF has no established reuse license; do not redistribute it"@,
            )
        }),
{
    let issues = issues_of(artifact, without_provenance, check);
    let first = crate::quality::note_if(
        without_provenance,
        "canonical record has no metadata provenance"@,
    );
    let second = crate::quality::note_if(
        begins_with(artifact.status, "error:"@),
        crate::pipeline::failure_text(artifact.last_error),
    );
    let n = first.len() as int;
    let m = second.len() as int;
    if without_provenance {
        assert(issues[0] == first[0]);
    }
    if begins_with(artifact.status, "error:"@) {
        assert(issues[n] == second[0]);
    }
    if crate::pipeline::expects_pdf(artifact) {
        let files = file_issues(artifact, check);
        let licenses = crate::pipeline::license_issues(artifact.pdf_license);
        if files.len() > 0 {
            assert(issues[n + m] == files[0]);
        }
        if licenses.len() > 0 {
            assert(issues[n + m + files.len()] == licenses[0]);
        }
    }
}

/// An audit names of each work the stage that is still to come, and of an indexed work
/// whether pages are missing.
pub proof fn law_audits_name_the_next_stage(
    artifact: StoredArtifactStatusView,
    without_provenance: bool,
    check: PdfCheckView,
)
    ensures
        ({
            let issues = issues_of(artifact, without_provenance, check);
            &&& artifact.status == "discovered"@ ==> issues.contains(
                "candidate has not been screened"@,
            )
            &&& artifact.status == "selected"@ ==> issues.contains(
                "selected work has not been downloaded"@,
            )
            &&& artifact.status == "awaiting-manual-download"@ ==> issues.contains(
                "waiting for the user to supply a lawfully accessed PDF"@,
            )
            &&& artifact.status == "downloaded"@ ==> issues.contains(
                "downloaded PDF has not been rendered"@,
            )
            &&& artifact.status == "rendered"@ ==> issues.contains(
                "rendered pages have not all been indexed"@,
            )
            &&& artifact.status == "indexed"@ && (artifact.declared_page_count == 0
                || artifact.declared_page_count != artifact.stored_page_count) ==> issues.contains(
                "stored page count does not match the work record"@,
            )
            &&& artifact.status == "indexed"@ && artifact.indexed_page_count
                != artifact.stored_page_count ==> issues.contains(
                "one or more rendered pages are not marked indexed"@,
            )
        }),
{
    let issues = issues_of(artifact, without_provenance, check);
    let stage = crate::pipeline::stage_issues(artifact);
    reveal_strlit("discovered");
    reveal_strlit("selected");
    reveal_strlit("awaiting-manual-download");
    reveal_strlit("downloaded");
    reveal_strlit("rendered");
    reveal_strlit("indexed");
    assert("discovered"@.len() == 10 && "selected"@.len() == 8 && "awaiting-manual-download"@.len()
        == 24 && "downloaded"@.len() == 10 && "rendered"@.len() == 8 && "indexed"@.len() == 7);
    assert("discovered"@[1] == 'i' && "downloaded"@[1] == 'o');
    assert("selected"@[0] == 's' && "rendered"@[0] == 'r');
    if stage.len() > 0 {
        assert(issues[issues.len() - stage.len()] == stage[0]);
        assert(issues[issues.len() - 1] == stage[stage.len() - 1]);
    }
}

/// An audit lists a work exactly where something is amiss with it and it was not rejected,
/// with all that is amiss.
pub proof fn law_audits_list_the_works_amiss(
    state: StateView,
    artifacts: Seq<StoredArtifactStatusView>,
    checks: Map<Seq<char>, PdfCheckView>,
    listed: ArtifactIssueView,
)
    ensures
        artifacts_amiss(state, artifacts, checks).contains(listed) <==> exists|i: int|
            0 <= i < artifacts.len() && listed.work_id == (#[trigger] artifacts[i]).work_id
                && listed.status == artifacts[i].status && listed.issues == issues_in(
                state,
                artifacts[i],
                checks,
            ) && artifacts[i].status != "rejected"@ && listed.issues.len() > 0,
    decreases artifacts.len(),
{
    let all = artifacts_amiss(state, artifacts, checks);
    if artifacts.len() > 0 {
        let fewer = artifacts.drop_last();
        let rest = artifacts_amiss(state, fewer, checks);
        law_audits_list_the_works_amiss(state, fewer, checks, listed);
        if all.contains(listed) {
            let k = choose|k: int| 0 <= k < all.len() && all[k] == listed;
            if k < rest.len() {
                assert(rest[k] == listed);
                let i = choose|i: int|
                    0 <= i < fewer.len() && listed.work_id == (#[trigger] fewer[i]).work_id
                        && listed.status == fewer[i].status && listed.issues == issues_in(
                        state,
                        fewer[i],
                        checks,
                    ) && fewer[i].status != "rejected"@ && listed.issues.len() > 0;
                assert(artifacts[i] == fewer[i]);
            } else {
                assert(artifacts[artifacts.len() - 1].work_id == listed.work_id);
            }
        }
        if exists|i: int|
            0 <= i < artifacts.len() && listed.work_id == (#[trigger] artifacts[i]).work_id
                && listed.status == artifacts[i].status && listed.issues == issues_in(
                state,
                artifacts[i],
                checks,
            ) && artifacts[i].status != "rejected"@ && listed.issues.len() > 0 {
            let i = choose|i: int|
                0 <= i < artifacts.len() && listed.work_id == (#[trigger] artifacts[i]).work_id
                    && listed.status == artifacts[i].status && listed.issues == issues_in(
                    state,
                    artifacts[i],
                    checks,
                ) && artifacts[i].status != "rejected"@ && listed.issues.len() > 0;
            if i < artifacts.len() - 1 {
                assert(fewer[i] == artifacts[i]);
                let k = choose|k: int| 0 <= k < rest.len() && rest[k] == listed;
                assert(all[k] == listed);
            } else {
                assert(all[all.len() - 1] == listed);
            }
        }
    }
}

/// A corpus is clean exactly where no citation is incomplete and no work is amiss; the
/// audit of the citations is told as it was made.
pub proof fn law_a_corpus_is_clean_where_nothing_is_amiss(
    state: StateView,
    citation: crate::citations::CitationAuditView,
    checks: Map<Seq<char>, PdfCheckView>,
)
    ensures
        ({
            let report = corpus_audit_of(state, citation, checks);
            &&& report.citation == citation
            &&& report.clean <==> citation.incomplete_records.len() == 0
                && report.artifact_issues.len() == 0
        }),
{
}

/// A candidate is looked up in arXiv by its arXiv identifier first, then in OpenAlex by
/// its identifier there, then in Crossref by its DOI, its own or else one that was found.
pub proof fn law_candidates_are_looked_up_in_order(
    candidate: AgentCandidateView,
    progress: CandidateProgressView,
)
    ensures
        ({
            let next = lookup_from(candidate, progress);
            let arxiv = match candidate.arxiv_id {
                Some(value) => arxiv_of(value),
                None => None,
            };
            let openalex = match candidate.openalex_id {
                Some(value) => openalex_of(value),
                None => None,
            };
            let own = match candidate.doi {
                Some(value) => doi_of(value),
                None => None,
            };
            &&& progress.stage == 0 && arxiv is Some ==> next == Some((LookupSource::Arxiv, arxiv->0))
            &&& progress.stage <= 1 && (progress.stage == 1 || arxiv is None) && openalex is Some
                ==> next == Some((LookupSource::OpenAlex, openalex->0))
            &&& progress.stage == 2 && own is Some ==> next == Some((LookupSource::Crossref, own->0))
            &&& progress.stage == 3 && own is Some && openalex is None ==> next == Some(
                (LookupSource::OpenAlexByDoi, own->0),
            )
            &&& progress.stage == 3 && openalex is Some ==> next is None
            &&& progress.stage > 3 ==> next is None
            &&& progress.stage == 2 && own is None && progress.resolutions.len() > 0 && doi_in(
                progress.resolutions[0].1.record.ids,
            ) is Some ==> next == Some(
                (LookupSource::Crossref, doi_in(progress.resolutions[0].1.record.ids)->0),
            )
        }),
{
}

/// What a lookup brought is added to what is known of a candidate: a work that was found
/// as one of its resolutions; a vain lookup as a failure and a problem, but for the
/// optional one, of which only a failure is noted.
pub proof fn law_answers_add_to_a_candidate(
    progress: CandidateProgressView,
    source: LookupSource,
    identifier: Seq<char>,
    outcome: LookupOutcomeView,
    now: Seq<char>,
)
    ensures
        ({
            let next = with_answer(progress, (source, identifier), outcome, now);
            let optional = source == LookupSource::OpenAlexByDoi;
            &&& outcome matches LookupOutcomeView::Found(work) ==> next.resolutions.len()
                == progress.resolutions.len() + 1 && next.resolutions.last().1 == work
                && next.resolutions.drop_last() == progress.resolutions && next.failures
                == progress.failures && next.problems == progress.problems
            &&& !(outcome is Found) ==> next.resolutions == progress.resolutions
            &&& outcome is NotFound && !optional ==> next.failures.len() == progress.failures.len()
                + 1 && next.problems.len() == progress.problems.len() + 1
            &&& outcome is NotFound && optional ==> next.failures == progress.failures
                && next.problems == progress.problems
            &&& outcome is Failed ==> next.failures.len() == progress.failures.len() + 1
            &&& outcome is Failed && optional ==> next.problems == progress.problems
            &&& outcome is Failed && !optional ==> next.problems.len() == progress.problems.len()
                + 1
        }),
{
    let next = with_answer(progress, (source, identifier), outcome, now);
    if outcome is Found {
        assert(next.resolutions.drop_last() =~= progress.resolutions);
    }
}

/// What Crossref says of a candidate comes before what OpenAlex says, and that before what
/// arXiv says.
pub proof fn law_crossref_is_heard_first()
    ensures
        precedence_of(LookupSource::Crossref) < precedence_of(LookupSource::OpenAlex),
        precedence_of(LookupSource::OpenAlex) == precedence_of(LookupSource::OpenAlexByDoi),
        precedence_of(LookupSource::OpenAlex) < precedence_of(LookupSource::Arxiv),
{
}

/// In whatever order two sources were asked, the one that is heard first is the one that
/// the other is merged into, and all their responses and the vain lookups are kept.
pub proof fn law_answers_are_merged_by_precedence(
    progress: CandidateProgressView,
    asked_first: LookupSource,
    first: DiscoveredWorkView,
    asked_later: LookupSource,
    later: DiscoveredWorkView,
)
    requires
        precedence_of(asked_later) < precedence_of(asked_first),
        progress.resolutions == seq![
            (precedence_of(asked_first), first),
            (precedence_of(asked_later), later),
        ],
    ensures
        resolved_work(progress) is Some,
        resolved_work(progress)->0.record == united(later, first).record,
        resolved_work(progress)->0.raw_records == later.raw_records + first.raw_records
            + progress.failures,
{
    let a = (precedence_of(asked_first), first);
    let b = (precedence_of(asked_later), later);
    lemma_two_in_order(a, b);
    lemma_two_merged(b, a);
}

proof fn lemma_two_merged(earlier: (u8, DiscoveredWorkView), later: (u8, DiscoveredWorkView))
    ensures
        merged_resolutions(seq![earlier, later]) == united(earlier.1, later.1),
{
    let both = seq![earlier, later];
    assert(both.drop_last() =~= seq![earlier]);
    assert(merged_resolutions(seq![earlier]) == earlier.1);
    assert(both.last() == later);
}

/// Two findings of one work say together what their records merge to, and keep the
/// responses of both.
pub proof fn law_united_findings_are_merged(first: DiscoveredWorkView, second: DiscoveredWorkView)
    ensures
        united(first, second).record == merged(first.record, second.record),
        united(first, second).raw_records == first.raw_records + second.raw_records,
{
}

proof fn lemma_two_in_order(later: (u8, DiscoveredWorkView), earlier: (u8, DiscoveredWorkView))
    requires
        earlier.0 < later.0,
    ensures
        ordered::<Resolution>(seq![later, earlier]) == seq![earlier, later],
{
    broadcast use vstd::seq_lib::group_to_multiset_ensures;

    let both = seq![later, earlier];
    let sorted = ordered::<Resolution>(both);
    law_ordered::<Resolution>(both);
    assert(both[0] == later && both[1] == earlier);
    assert(both.contains(later) && both.contains(earlier));
    assert(both.to_multiset().count(later) > 0 && both.to_multiset().count(earlier) > 0);
    assert(sorted.contains(later) && sorted.contains(earlier));
    let i = choose|i: int| 0 <= i < sorted.len() && sorted[i] == later;
    let j = choose|j: int| 0 <= j < sorted.len() && sorted[j] == earlier;
    assert(i != j);
    if i < j {
        assert(!(<Resolution as crate::order::Ranked>::before(sorted[j], sorted[i])));
        assert(false);
    }
    assert(j == 0 && i == 1);
    assert(sorted =~= seq![earlier, later]);
}

/// A candidate is not resolved exactly where no source knew it, and then each problem is
/// told.
pub proof fn law_unknown_candidates_are_not_resolved(progress: CandidateProgressView)
    ensures
        resolved_work(progress) is None <==> progress.resolutions.len() == 0,
        progress.problems.len() > 0 ==> unresolved_text(progress.problems)
            == "subagent candidate could not be resolved: "@ + joined(progress.problems, "; "@),
{
}

/// A candidate is kept as it was handed in, by its task and its line.
pub proof fn law_candidates_are_kept_as_handed_in(
    candidate: AgentCandidateView,
    line: nat,
    now: Seq<char>,
)
    ensures
        ({
            let kept = candidate_response(candidate, line, now);
            &&& kept.source == "subagent"@
            &&& kept.source_id == candidate.task_id + ":"@ + decimal(line)
            &&& kept.retrieved_at == now
            &&& kept.raw.member("task_id"@) == Some(JsonView::Text(candidate.task_id))
            &&& kept.raw.member("query"@) == Some(JsonView::Text(candidate.query))
            &&& kept.raw.member("source"@) == Some(JsonView::Text(candidate.source))
            &&& kept.raw.member("title"@) == Some(JsonView::Text(candidate.title))
            &&& candidate.doi matches Some(doi) ==> kept.raw.member("doi"@) == Some(
                JsonView::Text(doi),
            )
            &&& candidate.arxiv_id matches Some(id) ==> kept.raw.member("arxiv_id"@) == Some(
                JsonView::Text(id),
            )
            &&& candidate.openalex_id matches Some(id) ==> kept.raw.member("openalex_id"@) == Some(
                JsonView::Text(id),
            )
            &&& candidate.landing_url matches Some(url) ==> kept.raw.member("landing_url"@) == Some(
                JsonView::Text(url),
            )
            &&& kept.raw.member("evidence_urls"@) matches Some(JsonView::List(urls)) && urls.len()
                == candidate.evidence_urls.len() && forall|i: int|
                0 <= i < urls.len() ==> #[trigger] urls[i] == JsonView::Text(
                    candidate.evidence_urls[i],
                )
            &&& kept.raw.member("discovered_at"@) == Some(JsonView::Text(candidate.discovered_at))
        }),
{
    let members = candidate_json_of(candidate)->Object_0;
    reveal_strlit("task_id");
    reveal_strlit("query");
    reveal_strlit("source");
    reveal_strlit("title");
    reveal_strlit("doi");
    reveal_strlit("arxiv_id");
    reveal_strlit("openalex_id");
    reveal_strlit("landing_url");
    reveal_strlit("evidence_urls");
    reveal_strlit("discovered_at");
    assert("task_id"@.len() == 7);
    assert("query"@.len() == 5);
    assert("source"@.len() == 6);
    assert("title"@.len() == 5);
    assert("doi"@.len() == 3);
    assert("arxiv_id"@.len() == 8);
    assert("openalex_id"@.len() == 11);
    assert("landing_url"@.len() == 11);
    assert("evidence_urls"@.len() == 13);
    assert("discovered_at"@.len() == 13);
    lemma_member_at(members, "task_id"@, 0);
    lemma_member_at(members, "query"@, 1);
    lemma_member_at(members, "source"@, 2);
    assert("title"@[0] != "query"@[0]);
    lemma_member_at(members, "title"@, 3);
    lemma_member_at(members, "doi"@, 4);
    lemma_member_at(members, "arxiv_id"@, 5);
    lemma_member_at(members, "openalex_id"@, 6);
    assert("landing_url"@[0] != "openalex_id"@[0]);
    lemma_member_at(members, "landing_url"@, 7);
    lemma_member_at(members, "evidence_urls"@, 8);
    assert("discovered_at"@[0] != "evidence_urls"@[0]);
    lemma_member_at(members, "discovered_at"@, 9);
}

/// A PDF that was had is had. A file of the user that will not do is a failure that names
/// where it lies and why; a download that failed makes the user be asked where the plan
/// allows it, and is a failure where it does not.
pub proof fn law_failed_downloads_are_answered(
    workspace: Seq<char>,
    work_id: Seq<char>,
    work: WorkRecordView,
    pdf: crate::download::DownloadedPdfView,
    error: Seq<char>,
)
    ensures
        ({
            let asks = work.flags.contains_key("manual_fulltext_enabled"@)
                && work.flags["manual_fulltext_enabled"@];
            &&& supplied_outcome(workspace, work_id, Ok(pdf)) == DownloadOutcomeView::Downloaded(
                pdf,
            )
            &&& fetched_outcome(workspace, work_id, work, Ok(pdf))
                == DownloadOutcomeView::Downloaded(pdf)
            &&& supplied_outcome(workspace, work_id, Err(error)) == DownloadOutcomeView::Failed(
                "validate user-supplied PDF at "@ + crate::download::destination_of(
                    workspace,
                    work_id,
                ) + "; replace it with the correct PDF and retry: "@ + error,
            )
            &&& asks ==> (fetched_outcome(workspace, work_id, work, Err(
                error,
            )) matches DownloadOutcomeView::AwaitingManual(request) && request.work_id == work_id
                && request.title == work.title && request.reason
                == "automatic authorized download failed: "@ + error)
            &&& !asks ==> fetched_outcome(workspace, work_id, work, Err(error))
                == DownloadOutcomeView::Failed(error)
        }),
{
}

/// A batch begins at its offset and ends its size further, or with the last work.
pub proof fn law_batches_keep_their_size(offset: int, size: int, total: int)
    requires
        0 <= offset < total,
        size > 0,
    ensures
        offset < chunk_stop(offset, size, total) <= total,
        chunk_stop(offset, size, total) - offset <= size,
        chunk_stop(offset, size, total) == total || chunk_stop(offset, size, total) == offset
            + size,
{
}

/// As many works are selected as passed, or as many as the plan has room for where more
/// passed.
pub proof fn law_as_many_are_selected_as_passed(
    works: Seq<(Seq<char>, WorkRecordView)>,
    room: nat,
)
    ensures
        selected_total(selections(works, room)) == if passed(works) <= room {
            passed(works)
        } else {
            room
        },
        passed(works) == passed_among(works, works.len() as int),
    decreases works.len(),
{
    reveal_strlit("selected");
    reveal_strlit("rejected");
    assert("selected"@.len() == 8 && "rejected"@.len() == 8);
    assert("selected"@[0] == 's' && "rejected"@[0] == 'r');
    if works.len() > 0 {
        let rest = works.skip(1);
        law_as_many_are_selected_as_passed(rest, room);
        lemma_passed_from_the_front(works, works.len() as int);
        let all = selections(works, room);
        if room > 0 {
            law_as_many_are_selected_as_passed(rest, (room - 1) as nat);
        }
        if works[0].1.quality.accepted && room > 0 {
            assert(all.skip(1) =~= selections(rest, (room - 1) as nat));
        } else {
            assert(all.skip(1) =~= selections(rest, room));
        }
    }
}

} // verus!
