//! What the corpus remembers: works, their progress, their pages and their counts.

use crate::domain::{
    identity_of, year_of, PageRecordView, PdfArtifactView, RawSourceRecordView, WorkRecordView,
};
use crate::order::{law_ordered, ordered};
use crate::score::Score;
use crate::state::{
    adopted, artifact_of, artifact_status, catalog_from, catalog_of, coherent, details_of,
    downloaded, filter_fault, indexed_total, indexing_records, knows_work, listed, located,
    located_page, marked, other_pages, page_total, pages_apart, pages_clash, pages_fault, pages_of,
    pending_pages, response_at, responses_of, row_of, same_response, sources_of, status_counts,
    status_total, status_wanted, statuses_in, statuses_of, summary_of, upserted, with_indexed,
    with_pages, with_raw, work_at, work_wanted, works_in, works_listed, ByPriority,
    CatalogFiltersView, InCatalog, InReadingOrder, PageLocator, PageLocatorView, SourceLocator,
    SourceLocatorView, StateError, StateView, StatusCount, StoredArtifactStatus, StoredSourceView,
    StoredWorkView, WorkSummaryView,
};
use crate::text::{holds_text, lowered, text_less, trimmed};
use vstd::prelude::*;

verus! {

proof fn lemma_work_at(works: Seq<StoredWorkView>, work_id: Seq<char>)
    ensures
        work_at(works, work_id) <= works.len(),
        work_at(works, work_id) < works.len() ==> works[work_at(works, work_id) as int].work_id
            == work_id,
        knows_work(works, work_id) <==> work_at(works, work_id) < works.len(),
        forall|i: int|
            0 <= i < work_at(works, work_id) ==> (#[trigger] works[i]).work_id != work_id,
    decreases works.len(),
{
    if works.len() > 0 && works[0].work_id != work_id {
        let rest = works.skip(1);
        lemma_work_at(rest, work_id);
        assert forall|i: int| 0 <= i < work_at(works, work_id) implies (#[trigger] works[i]).work_id
            != work_id by {
            if i > 0 {
                assert(works[i] == rest[i - 1]);
            }
        }
        if knows_work(works, work_id) {
            let k = choose|k: int| 0 <= k < works.len() && (#[trigger] works[k]).work_id == work_id;
            assert(rest[k - 1].work_id == work_id);
        }
        if knows_work(rest, work_id) {
            let k = choose|k: int| 0 <= k < rest.len() && (#[trigger] rest[k]).work_id == work_id;
            assert(works[k + 1].work_id == work_id);
        }
    } else if works.len() > 0 {
        assert(works[0].work_id == work_id);
    }
}

/// The works of both tables are the same but for one, which only the second has to have.
pub open spec fn only_changes(
    before: Seq<StoredWorkView>,
    after: Seq<StoredWorkView>,
    work_id: Seq<char>,
) -> bool {
    &&& before.len() <= after.len()
    &&& forall|i: int|
        0 <= i < before.len() ==> (#[trigger] before[i]).work_id != work_id ==> after[i]
            == before[i]
    &&& forall|i: int|
        0 <= i < before.len() ==> (#[trigger] after[i]).work_id == before[i].work_id
    &&& forall|i: int| before.len() <= i < after.len() ==> (#[trigger] after[i]).work_id == work_id
}

/// Storing a work keeps what it says and how it scores, and changes no other work. A work
/// that is new has the given status and nothing else yet. One that is stored again keeps
/// its PDF, its pages and its last error, and its status where its PDF is awaited or was
/// downloaded, rendered or indexed; else it gets the given status.
pub proof fn law_storing_a_work_keeps_it(
    state: StateView,
    work: WorkRecordView,
    status: Seq<char>,
    updated_at: Seq<char>,
)
    requires
        coherent(state),
    ensures
        ({
            let next = upserted(state, work, status, updated_at);
            let id = identity_of(work);
            let row = row_of(next, id);
            let before = row_of(state, id);
            &&& knows_work(next.works, id)
            &&& only_changes(state.works, next.works, id)
            &&& next.sources == state.sources && next.pages == state.pages && next.corpus_id
                == state.corpus_id && next.workspace == state.workspace
            &&& row.work_id == id && row.record == Some(work) && row.updated_at == updated_at
            &&& row.quality_score == work.quality.score && row.relevance_score
                == work.quality.relevance_score && row.priority_score
                == work.quality.priority_score
            &&& !knows_work(state.works, id) ==> {
                &&& next.works.len() == state.works.len() + 1
                &&& row.status == status
                &&& row.pdf_path is None && row.pdf_url is None && row.pdf_sha256 is None
                    && row.pdf_license is None && row.last_error is None && row.page_count == 0
            }
            &&& knows_work(state.works, id) ==> {
                &&& next.works.len() == state.works.len()
                &&& row.pdf_path == before.pdf_path && row.pdf_url == before.pdf_url
                    && row.pdf_sha256 == before.pdf_sha256 && row.pdf_license == before.pdf_license
                    && row.last_error == before.last_error && row.page_count == before.page_count
                &&& before.status == "awaiting-manual-download"@ || before.status == "downloaded"@
                    || before.status == "rendered"@ || before.status == "indexed"@ ==> row.status
                    == before.status
                &&& before.status != "awaiting-manual-download"@ && before.status != "downloaded"@
                    && before.status != "rendered"@ && before.status != "indexed"@ ==> row.status
                    == status
            }
        }),
{
    let next = upserted(state, work, status, updated_at);
    let id = identity_of(work);
    lemma_work_at(state.works, id);
    lemma_work_at(next.works, id);
    let at = work_at(state.works, id) as int;
    if at < state.works.len() {
        assert(next.works[at].work_id == id);
        assert forall|i: int| 0 <= i < at implies (#[trigger] next.works[i]).work_id != id by {
            assert(next.works[i] == state.works[i]);
        }
        assert(work_at(next.works, id) == at);
    } else {
        assert(next.works[at].work_id == id);
        assert forall|i: int| 0 <= i < at implies (#[trigger] next.works[i]).work_id != id by {
            assert(next.works[i] == state.works[i]);
        }
        assert(work_at(next.works, id) == at);
    }
}

/// A work that is marked as downloaded has the PDF that it is marked with, and no error;
/// what it says and how it scores stay, and so does every other work.
pub proof fn law_a_download_is_remembered(
    state: StateView,
    work_id: Seq<char>,
    artifact: PdfArtifactView,
    updated_at: Seq<char>,
)
    requires
        coherent(state),
        knows_work(state.works, work_id),
    ensures
        ({
            let next = downloaded(state, work_id, artifact, updated_at);
            let row = row_of(next, work_id);
            let before = row_of(state, work_id);
            &&& next.works.len() == state.works.len()
            &&& only_changes(state.works, next.works, work_id)
            &&& next.sources == state.sources && next.pages == state.pages && next.corpus_id
                == state.corpus_id
            &&& row.work_id == work_id && row.status == "downloaded"@ && row.last_error is None
                && row.updated_at == updated_at
            &&& row.pdf_url == Some(artifact.url) && row.pdf_path == Some(artifact.path)
                && row.pdf_sha256 == Some(artifact.sha256) && row.pdf_license == Some(
                artifact.license,
            )
            &&& artifact_of(row) == artifact
            &&& row.record == before.record && row.page_count == before.page_count
                && row.quality_score == before.quality_score && row.relevance_score
                == before.relevance_score && row.priority_score == before.priority_score
        }),
{
    lemma_work_at(state.works, work_id);
    let at = work_at(state.works, work_id) as int;
    let next = downloaded(state, work_id, artifact, updated_at);
    lemma_row_is_replaced(state.works, work_id, next.works[at]);
}

/// Another row with the identifier in place of that of a work is the row of that work.
proof fn lemma_row_is_replaced(
    works: Seq<StoredWorkView>,
    work_id: Seq<char>,
    row: StoredWorkView,
)
    ensures
        ({
            let at = work_at(works, work_id) as int;
            let next = works.update(at, row);
            knows_work(works, work_id) && row.work_id == work_id ==> work_at(next, work_id) == at
                && next[at] == row
        }),
{
    let at = work_at(works, work_id) as int;
    let next = works.update(at, row);
    lemma_work_at(works, work_id);
    lemma_work_at(next, work_id);
    if knows_work(works, work_id) && row.work_id == work_id {
        assert(next[at].work_id == work_id);
        assert forall|i: int| 0 <= i < at implies (#[trigger] next[i]).work_id != work_id by {
            assert(next[i] == works[i]);
        }
    }
}

/// A work that is marked has the status and the error that it is marked with; all else
/// that is known of it stays. Nothing is marked where the work is not known.
pub proof fn law_a_mark_is_remembered(
    state: StateView,
    work_id: Seq<char>,
    status: Seq<char>,
    last_error: Option<Seq<char>>,
    updated_at: Seq<char>,
)
    ensures
        ({
            let next = marked(state, work_id, status, last_error, updated_at);
            let row = row_of(next, work_id);
            let before = row_of(state, work_id);
            &&& !knows_work(state.works, work_id) ==> next == state
            &&& next.sources == state.sources && next.pages == state.pages && next.corpus_id
                == state.corpus_id && next.works.len() == state.works.len()
            &&& knows_work(state.works, work_id) ==> row == (StoredWorkView {
                status,
                last_error,
                updated_at,
                ..before
            })
        }),
{
    lemma_work_at(state.works, work_id);
    let at = work_at(state.works, work_id) as int;
    let next = marked(state, work_id, status, last_error, updated_at);
    if at < state.works.len() {
        lemma_row_is_replaced(state.works, work_id, next.works[at]);
    }
}

proof fn lemma_other_pages(pages: Seq<PageRecordView>, work_id: Seq<char>, page: PageRecordView)
    ensures
        other_pages(pages, work_id).contains(page) <==> pages.contains(page) && page.work_id
            != work_id,
    decreases pages.len(),
{
    let kept = other_pages(pages, work_id);
    if pages.len() > 0 {
        let rest = other_pages(pages.drop_last(), work_id);
        lemma_other_pages(pages.drop_last(), work_id, page);
        if kept.contains(page) {
            let k = choose|k: int| 0 <= k < kept.len() && kept[k] == page;
            if k < rest.len() {
                assert(rest[k] == page);
                let j = choose|j: int|
                    0 <= j < pages.drop_last().len() && pages.drop_last()[j] == page;
                assert(pages[j] == page);
            } else {
                assert(pages[pages.len() - 1] == page);
            }
        }
        if pages.contains(page) && page.work_id != work_id {
            let j = choose|j: int| 0 <= j < pages.len() && pages[j] == page;
            if j < pages.len() - 1 {
                assert(pages.drop_last()[j] == page);
                let k = choose|k: int| 0 <= k < rest.len() && rest[k] == page;
                assert(kept[k] == page);
            } else {
                assert(kept[kept.len() - 1] == page);
            }
        }
    }
}

/// Rendering a work again replaces its pages: those stored afterwards are the new ones
/// and the pages of other works. The work is rendered, with as many pages, and without an
/// error.
pub proof fn law_rendering_replaces_the_pages(
    state: StateView,
    work_id: Seq<char>,
    pages: Seq<PageRecordView>,
    updated_at: Seq<char>,
    page: PageRecordView,
)
    requires
        knows_work(state.works, work_id),
        pages.len() <= u64::MAX,
    ensures
        ({
            let next = with_pages(state, work_id, pages, updated_at);
            let row = row_of(next, work_id);
            &&& next.pages.contains(page) <==> pages.contains(page) || (state.pages.contains(page)
                && page.work_id != work_id)
            &&& row == (StoredWorkView {
                status: "rendered"@,
                page_count: pages.len() as u64,
                last_error: None,
                updated_at,
                ..row_of(state, work_id)
            })
            &&& next.sources == state.sources && next.corpus_id == state.corpus_id
                && next.works.len() == state.works.len()
        }),
{
    let next = with_pages(state, work_id, pages, updated_at);
    lemma_work_at(state.works, work_id);
    let at = work_at(state.works, work_id) as int;
    lemma_row_is_replaced(state.works, work_id, next.works[at]);
    lemma_other_pages(state.pages, work_id, page);
    let others = other_pages(state.pages, work_id);
    if pages.contains(page) {
        let k = choose|k: int| 0 <= k < pages.len() && pages[k] == page;
        assert(next.pages[others.len() + k] == page);
    }
    if others.contains(page) {
        let k = choose|k: int| 0 <= k < others.len() && others[k] == page;
        assert(next.pages[k] == page);
    }
    if next.pages.contains(page) {
        let k = choose|k: int| 0 <= k < next.pages.len() && next.pages[k] == page;
        if k < others.len() {
            assert(others[k] == page);
        } else {
            assert(pages[k - others.len()] == page);
        }
    }
}

/// A page is marked as indexed exactly where it is among those listed, by its identifier,
/// and nothing else of any page changes.
pub proof fn law_listed_pages_are_indexed(
    state: StateView,
    pages: Seq<PageRecordView>,
    timestamp: Seq<char>,
    i: int,
)
    requires
        0 <= i < state.pages.len(),
    ensures
        ({
            let next = with_indexed(state, pages, timestamp);
            let among = exists|k: int|
                0 <= k < pages.len() && (#[trigger] pages[k]).page_id == state.pages[i].page_id;
            &&& next.pages.len() == state.pages.len()
            &&& among ==> next.pages[i] == (PageRecordView {
                indexed_at: Some(timestamp),
                ..state.pages[i]
            })
            &&& !among ==> next.pages[i] == state.pages[i]
            &&& next.sources == state.sources && next.corpus_id == state.corpus_id
        }),
{
}

/// A corpus that is put under another identifier keeps its works and its pages; a work
/// that was indexed is rendered again, and no page is indexed.
pub proof fn law_an_adopted_corpus_keeps_its_works(
    state: StateView,
    corpus_id: Seq<char>,
    updated_at: Seq<char>,
)
    ensures
        ({
            let next = adopted(state, corpus_id, updated_at);
            &&& next.corpus_id == corpus_id && next.workspace == state.workspace && next.sources
                == state.sources
            &&& next.works.len() == state.works.len() && next.pages.len() == state.pages.len()
            &&& forall|i: int|
                0 <= i < state.works.len() && state.works[i].status == "indexed"@
                    ==> #[trigger] next.works[i] == (StoredWorkView {
                    status: "rendered"@,
                    updated_at,
                    ..state.works[i]
                })
            &&& forall|i: int|
                0 <= i < state.works.len() && state.works[i].status != "indexed"@
                    ==> #[trigger] next.works[i] == state.works[i]
            &&& forall|i: int|
                0 <= i < state.pages.len() ==> #[trigger] next.pages[i] == (PageRecordView {
                    indexed_at: None,
                    ..state.pages[i]
                })
        }),
{
}

proof fn lemma_response_at(sources: Seq<StoredSourceView>, row: StoredSourceView)
    ensures
        response_at(sources, row) <= sources.len(),
        response_at(sources, row) < sources.len() ==> same_response(
            sources[response_at(sources, row) as int],
            row,
        ),
        forall|i: int|
            0 <= i < response_at(sources, row) ==> !same_response(#[trigger] sources[i], row),
    decreases sources.len(),
{
    if sources.len() > 0 && !same_response(sources[0], row) {
        let rest = sources.skip(1);
        lemma_response_at(rest, row);
        assert forall|i: int| 0 <= i < response_at(sources, row) implies !same_response(
            #[trigger] sources[i],
            row,
        ) by {
            if i > 0 {
                assert(sources[i] == rest[i - 1]);
            }
        }
    }
}

/// A response is stored as it came with the work that it belongs to. It takes the place of
/// an earlier one of the same source and identifier, and every other response stays.
pub proof fn law_a_response_is_stored_once(
    state: StateView,
    work_id: Seq<char>,
    raw: RawSourceRecordView,
)
    requires
        coherent(state),
    ensures
        ({
            let next = with_raw(state, work_id, raw);
            &&& next.works == state.works && next.pages == state.pages
            &&& exists|k: int|
                0 <= k < next.sources.len() && (#[trigger] next.sources[k]).source == raw.source
                    && next.sources[k].source_id == raw.source_id && next.sources[k].work_id
                    == work_id && next.sources[k].retrieved_at == raw.retrieved_at
                    && next.sources[k].raw == Some(raw.raw)
            &&& forall|i: int|
                0 <= i < state.sources.len() && (state.sources[i].source != raw.source
                    || state.sources[i].source_id != raw.source_id) ==> #[trigger] next.sources[i]
                    == state.sources[i]
            &&& next.sources.len() == state.sources.len() + (if exists|i: int|
                0 <= i < state.sources.len() && (#[trigger] state.sources[i]).source == raw.source
                    && state.sources[i].source_id == raw.source_id {
                0int
            } else {
                1
            })
        }),
{
    let row = crate::state::response_row(work_id, raw);
    lemma_response_at(state.sources, row);
    let at = response_at(state.sources, row) as int;
    let next = with_raw(state, work_id, raw);
    assert(next.sources[at] == row);
    assert(next.sources[at].source == raw.source);
}

/// The works are listed by priority, the greatest first, each with what it says and with
/// its status, and each once.
pub proof fn law_works_are_listed_by_priority(works: Seq<StoredWorkView>)
    ensures
        exists|sorted: Seq<StoredWorkView>|
            {
                &&& #[trigger] sorted.to_multiset() == works.to_multiset()
                &&& forall|i: int, j: int|
                    0 <= i < j < sorted.len() ==> (#[trigger] sorted[i]).priority_score.rank() >= (
                    #[trigger] sorted[j]).priority_score.rank()
                &&& works_listed(works).len() == sorted.len()
                &&& forall|i: int|
                    0 <= i < sorted.len() ==> #[trigger] works_listed(works)[i] == (
                        sorted[i].work_id,
                        sorted[i].record->0,
                        sorted[i].status,
                    )
            },
{
    let sorted = ordered::<ByPriority>(works);
    law_ordered::<ByPriority>(works);
    assert(sorted.to_multiset() == works.to_multiset());
}

/// The works of some statuses are those of the list that have one of them.
pub proof fn law_works_are_chosen_by_status(
    works: Seq<(Seq<char>, WorkRecordView, Seq<char>)>,
    statuses: Seq<Seq<char>>,
    work_id: Seq<char>,
    work: WorkRecordView,
)
    ensures
        works_in(works, statuses).contains((work_id, work)) <==> exists|i: int|
            0 <= i < works.len() && (#[trigger] works[i]).0 == work_id && works[i].1 == work
                && statuses.contains(works[i].2),
    decreases works.len(),
{
    let all = works_in(works, statuses);
    if works.len() > 0 {
        let rest = works_in(works.drop_last(), statuses);
        law_works_are_chosen_by_status(works.drop_last(), statuses, work_id, work);
        if all.contains((work_id, work)) {
            let k = choose|k: int| 0 <= k < all.len() && all[k] == (work_id, work);
            if k < rest.len() {
                assert(rest[k] == (work_id, work));
                let i = choose|i: int|
                    0 <= i < works.drop_last().len() && (#[trigger] works.drop_last()[i]).0
                        == work_id && works.drop_last()[i].1 == work && statuses.contains(
                        works.drop_last()[i].2,
                    );
                assert(works[i] == works.drop_last()[i]);
            } else {
                assert(works[works.len() - 1].0 == work_id);
            }
        }
        if exists|i: int|
            0 <= i < works.len() && (#[trigger] works[i]).0 == work_id && works[i].1 == work
                && statuses.contains(works[i].2) {
            let i = choose|i: int|
                0 <= i < works.len() && (#[trigger] works[i]).0 == work_id && works[i].1 == work
                    && statuses.contains(works[i].2);
            if i < works.len() - 1 {
                assert(works.drop_last()[i] == works[i]);
                let k = choose|k: int| 0 <= k < rest.len() && rest[k] == (work_id, work);
                assert(all[k] == (work_id, work));
            } else {
                assert(all[all.len() - 1] == (work_id, work));
            }
        }
    }
}

/// The number of pages and of indexed pages that are counted for a work are the numbers of
/// its pages and of those that are indexed.
pub proof fn law_pages_are_counted(pages: Seq<PageRecordView>, work_id: Seq<char>)
    ensures
        page_total(pages, work_id) == pages.filter(
            |page: PageRecordView| page.work_id == work_id,
        ).len(),
        indexed_total(pages, work_id) == pages.filter(
            |page: PageRecordView| page.work_id == work_id && page.indexed_at is Some,
        ).len(),
        indexed_total(pages, work_id) <= page_total(pages, work_id),
    decreases pages.len(),
{
    reveal(Seq::filter);
    if pages.len() > 0 {
        law_pages_are_counted(pages.drop_last(), work_id);
    }
}

/// The number of works of a status that is counted is the number of works that have it.
pub proof fn law_statuses_are_counted(works: Seq<StoredWorkView>, status: Seq<char>)
    ensures
        status_total(works, status) == works.filter(
            |work: StoredWorkView| work.status == status,
        ).len(),
        statuses_in(works).no_duplicates(),
        statuses_in(works).contains(status) <==> exists|i: int|
            0 <= i < works.len() && (#[trigger] works[i]).status == status,
    decreases works.len(),
{
    reveal(Seq::filter);
    if works.len() > 0 {
        let rest = statuses_in(works.drop_last());
        let all = statuses_in(works);
        law_statuses_are_counted(works.drop_last(), status);
        if all.contains(status) {
            let k = choose|k: int| 0 <= k < all.len() && all[k] == status;
            if k < rest.len() {
                assert(rest[k] == status);
                let i = choose|i: int|
                    0 <= i < works.drop_last().len() && (#[trigger] works.drop_last()[i]).status
                        == status;
                assert(works[i] == works.drop_last()[i]);
            } else {
                assert(works[works.len() - 1].status == status);
            }
        }
        if exists|i: int| 0 <= i < works.len() && (#[trigger] works[i]).status == status {
            let i = choose|i: int| 0 <= i < works.len() && (#[trigger] works[i]).status == status;
            if i < works.len() - 1 {
                assert(works.drop_last()[i] == works[i]);
                let k = choose|k: int| 0 <= k < rest.len() && rest[k] == status;
                assert(all[k] == status);
            } else if rest.contains(status) {
                let k = choose|k: int| 0 <= k < rest.len() && rest[k] == status;
                assert(all[k] == status);
            } else {
                assert(all[all.len() - 1] == status);
            }
        }
    }
}

/// A summary names each status that a work has with the number of works that have it, and
/// nothing else.
pub proof fn law_a_summary_counts_each_status(
    works: Seq<StoredWorkView>,
    status: Seq<char>,
    number: u64,
)
    requires
        works.len() <= u64::MAX,
    ensures
        status_counts(works).contains((status, number)) <==> (exists|i: int|
            0 <= i < works.len() && (#[trigger] works[i]).status == status) && number
            == works.filter(|work: StoredWorkView| work.status == status).len(),
{
    broadcast use vstd::seq_lib::group_to_multiset_ensures;

    law_statuses_are_counted(works, status);
    lemma_status_total_is_small(works, status);
    let statuses = statuses_in(works);
    let counts = Seq::new(
        statuses.len(),
        |i: int| (statuses[i], status_total(works, statuses[i]) as u64),
    );
    law_ordered::<StatusCount>(counts);
    let told = status_counts(works);
    assert(told.contains((status, number)) <==> told.to_multiset().count((status, number)) > 0);
    assert(counts.contains((status, number)) <==> counts.to_multiset().count((status, number))
        > 0);
    if counts.contains((status, number)) {
        let k = choose|k: int| 0 <= k < counts.len() && counts[k] == (status, number);
        assert(statuses[k] == status);
    }
    if statuses.contains(status) {
        let k = choose|k: int| 0 <= k < statuses.len() && statuses[k] == status;
        assert(counts[k] == (status, status_total(works, status) as u64));
    }
}

proof fn lemma_status_total_is_small(works: Seq<StoredWorkView>, status: Seq<char>)
    ensures
        status_total(works, status) <= works.len(),
    decreases works.len(),
{
    if works.len() > 0 {
        lemma_status_total_is_small(works.drop_last(), status);
    }
}

/// How far a work has come is told as it is stored: its status, its PDF, the pages that it
/// should have, those that are stored and those that are indexed, and its last error.
pub proof fn law_progress_is_told_as_stored(
    row: StoredWorkView,
    pages: Seq<PageRecordView>,
)
    requires
        pages.len() <= u64::MAX,
    ensures
        ({
            let told = artifact_status(row, pages);
            &&& told.work_id == row.work_id && told.status == row.status
            &&& row.pdf_url matches Some(url) ==> told.pdf_url == url
            &&& row.pdf_path matches Some(path) ==> told.pdf_path == path
            &&& row.pdf_sha256 matches Some(digest) ==> told.pdf_sha256 == digest
            &&& row.pdf_license matches Some(license) ==> told.pdf_license == license
            &&& row.last_error matches Some(error) ==> told.last_error == error
            &&& row.pdf_path is None ==> told.pdf_path.len() == 0
            &&& row.last_error is None ==> told.last_error.len() == 0
            &&& told.declared_page_count == row.page_count
            &&& told.stored_page_count == page_total(pages, row.work_id)
            &&& told.indexed_page_count == indexed_total(pages, row.work_id)
        }),
{
    lemma_no_more_than_all(pages, row.work_id);
}

proof fn lemma_no_more_than_all(pages: Seq<PageRecordView>, work_id: Seq<char>)
    ensures
        page_total(pages, work_id) <= pages.len(),
        indexed_total(pages, work_id) <= pages.len(),
    decreases pages.len(),
{
    if pages.len() > 0 {
        lemma_no_more_than_all(pages.drop_last(), work_id);
    }
}

/// A catalog tells of a work what is stored of it.
pub proof fn law_a_catalog_tells_what_is_stored(
    row: StoredWorkView,
    work: WorkRecordView,
    pages: Seq<PageRecordView>,
)
    requires
        pages.len() <= u64::MAX,
    ensures
        ({
            let told = summary_of(row, work, pages);
            &&& told.work_id == row.work_id && told.status == row.status
            &&& told.title == work.title && told.work_type == work.work_type && told.venue
                == work.container_title && told.publication_year == year_of(work)
            &&& work.ids.contains_key("doi"@) ==> told.doi == Some(work.ids["doi"@])
            &&& !work.ids.contains_key("doi"@) ==> told.doi is None
            &&& told.quality_score == row.quality_score && told.relevance_score
                == row.relevance_score && told.priority_score == row.priority_score
            &&& told.has_pdf <==> (row.pdf_path matches Some(path) && path.len() > 0)
            &&& told.page_count == row.page_count
            &&& told.indexed_page_count == indexed_total(pages, row.work_id)
            &&& told.updated_at == row.updated_at
        }),
{
    lemma_no_more_than_all(pages, row.work_id);
}

/// A filter cannot be used exactly where it has no limit, where its years are reversed,
/// or where its least quality is none between zero and a hundred.
pub proof fn law_unusable_filters_are_refused(filters: CatalogFiltersView)
    ensures
        filter_fault(filters) == Some(StateError::NoLimit) <==> filters.limit == 0,
        filter_fault(filters) == Some(StateError::YearsReversed) <==> filters.limit > 0 && (
        filters.year_from matches Some(first) && filters.year_to matches Some(last) && first
            > last),
        filter_fault(filters) is None ==> filters.limit > 0 && (
        filters.min_quality_score matches Some(least) ==> Score::from_bits(0).at_most(least)
            && least.at_most(Score::from_bits(0x4059_0000_0000_0000))),
{
}

/// What a filter asks for: a status among those named, a year in the range, no lesser
/// quality, and the words in the title, each where the filter names it.
pub proof fn law_filters_ask_for_what_they_name(
    filters: CatalogFiltersView,
    row: StoredWorkView,
    work: WorkRecordView,
)
    ensures
        status_wanted(filters, row.status) <==> filters.statuses.len() == 0
            || filters.statuses.contains(row.status),
        work_wanted(filters, row, work) <==> {
            &&& filters.year_from is Some ==> year_of(work) is Some && filters.year_from->0
                <= year_of(work)->0
            &&& filters.year_to is Some ==> year_of(work) is Some && year_of(work)->0
                <= filters.year_to->0
            &&& filters.min_quality_score is Some ==> !row.quality_score.less(
                filters.min_quality_score->0,
            )
            &&& filters.title_contains is Some && trimmed(filters.title_contains->0).len() > 0
                ==> holds_text(lowered(work.title), lowered(trimmed(filters.title_contains->0)))
        },
{
}

/// A row that a filter asks for is in the catalog, unless the limit was reached.
proof fn lemma_catalog_is_complete(
    listed: Seq<WorkSummaryView>,
    rows: Seq<StoredWorkView>,
    pages: Seq<PageRecordView>,
    filters: CatalogFiltersView,
)
    requires
        listed.len() < filters.limit,
    ensures
        catalog_from(listed, rows, pages, filters) matches Some(all) ==> {
            &&& listed.len() <= all.len()
            &&& forall|i: int| 0 <= i < listed.len() ==> #[trigger] all[i] == listed[i]
            &&& all.len() < filters.limit ==> forall|k: int|
                0 <= k < rows.len() && status_wanted(filters, (#[trigger] rows[k]).status)
                    && work_wanted(filters, rows[k], rows[k].record->0) ==> all.contains(
                    summary_of(rows[k], rows[k].record->0, pages),
                )
        },
    decreases rows.len(),
{
    if rows.len() > 0 {
        let rest = rows.skip(1);
        let end = catalog_from(listed, rows, pages, filters);
        if !status_wanted(filters, rows[0].status) {
            lemma_catalog_is_complete(listed, rest, pages, filters);
            if end is Some && end->0.len() < filters.limit {
                assert forall|k: int|
                    0 <= k < rows.len() && status_wanted(filters, (#[trigger] rows[k]).status)
                        && work_wanted(
                        filters,
                        rows[k],
                        rows[k].record->0,
                    ) implies end->0.contains(summary_of(rows[k], rows[k].record->0, pages)) by {
                    assert(k > 0);
                    assert(rows[k] == rest[k - 1]);
                }
            }
        } else if rows[0].record is Some {
            let work = rows[0].record->0;
            if !work_wanted(filters, rows[0], work) {
                lemma_catalog_is_complete(listed, rest, pages, filters);
                if end is Some && end->0.len() < filters.limit {
                    assert forall|k: int|
                        0 <= k < rows.len() && status_wanted(filters, (#[trigger] rows[k]).status)
                            && work_wanted(
                            filters,
                            rows[k],
                            rows[k].record->0,
                        ) implies end->0.contains(
                        summary_of(rows[k], rows[k].record->0, pages),
                    ) by {
                        assert(k > 0);
                        assert(rows[k] == rest[k - 1]);
                    }
                }
            } else {
                let next = listed.push(summary_of(rows[0], work, pages));
                if next.len() < filters.limit {
                    lemma_catalog_is_complete(next, rest, pages, filters);
                    if end is Some {
                        assert forall|i: int| 0 <= i < listed.len() implies #[trigger] end->0[i]
                            == listed[i] by {
                            assert(end->0[i] == next[i]);
                        }
                        assert(end->0[next.len() - 1] == next[next.len() - 1]);
                        if end->0.len() < filters.limit {
                            assert forall|k: int|
                                0 <= k < rows.len() && status_wanted(
                                    filters,
                                    (#[trigger] rows[k]).status,
                                ) && work_wanted(
                                    filters,
                                    rows[k],
                                    rows[k].record->0,
                                ) implies end->0.contains(
                                summary_of(rows[k], rows[k].record->0, pages),
                            ) by {
                                if k > 0 {
                                    assert(rows[k] == rest[k - 1]);
                                } else {
                                    assert(end->0[listed.len() as int] == summary_of(
                                        rows[0],
                                        work,
                                        pages,
                                    ));
                                }
                            }
                        }
                    }
                }
            }
        }
    }
}

/// A catalog that stays below its limit lists every work that the filters ask for.
pub proof fn law_catalogs_are_complete(state: StateView, filters: CatalogFiltersView, k: int)
    requires
        filter_fault(filters) is None,
        catalog_of(state, filters) is Some,
        catalog_of(state, filters)->0.len() < filters.limit,
        0 <= k < state.works.len(),
        status_wanted(filters, state.works[k].status),
        work_wanted(filters, state.works[k], state.works[k].record->0),
    ensures
        catalog_of(state, filters)->0.contains(
            summary_of(state.works[k], state.works[k].record->0, state.pages),
        ),
{
    let sorted = ordered::<InCatalog>(state.works);
    law_ordered::<InCatalog>(state.works);
    lemma_catalog_is_complete(Seq::empty(), sorted, state.pages, filters);
    broadcast use vstd::seq_lib::group_to_multiset_ensures;

    assert(state.works.contains(state.works[k]));
    assert(state.works.to_multiset().count(state.works[k]) > 0);
    assert(sorted.contains(state.works[k]));
    let j = choose|j: int| 0 <= j < sorted.len() && sorted[j] == state.works[k];
    assert(status_wanted(filters, sorted[j].status));
}

/// The works come in order: none has a lesser priority than a later one, and works of one
/// priority come by identifier.
pub open spec fn by_priority(works: Seq<WorkSummaryView>) -> bool {
    forall|i: int, j: int|
        0 <= i < j < works.len() ==> (#[trigger] works[i]).priority_score.rank() >= (
        #[trigger] works[j]).priority_score.rank() && (works[i].priority_score.rank()
            == works[j].priority_score.rank() ==> !text_less(works[j].work_id, works[i].work_id))
}

proof fn lemma_catalog_is_ordered(
    listed: Seq<WorkSummaryView>,
    rows: Seq<StoredWorkView>,
    pages: Seq<PageRecordView>,
    filters: CatalogFiltersView,
)
    requires
        by_priority(listed),
        crate::order::in_order::<InCatalog>(rows),
        forall|i: int, k: int|
            0 <= i < listed.len() && 0 <= k < rows.len() ==> (
            #[trigger] listed[i]).priority_score.rank() >= (
            #[trigger] rows[k]).priority_score.rank() && (listed[i].priority_score.rank()
                == rows[k].priority_score.rank() ==> !text_less(
                rows[k].work_id,
                listed[i].work_id,
            )),
    ensures
        catalog_from(listed, rows, pages, filters) matches Some(all) ==> by_priority(all),
    decreases rows.len(),
{
    if rows.len() > 0 {
        let rest = rows.skip(1);
        assert forall|i: int, j: int| 0 <= i < j < rest.len() implies !(
        <InCatalog as crate::order::Ranked>::before(#[trigger] rest[j], #[trigger] rest[i])) by {
            assert(rest[i] == rows[i + 1] && rest[j] == rows[j + 1]);
        }
        assert forall|i: int, k: int| 0 <= i < listed.len() && 0 <= k < rest.len() implies (
        #[trigger] listed[i]).priority_score.rank() >= (#[trigger] rest[k]).priority_score.rank()
            && (listed[i].priority_score.rank() == rest[k].priority_score.rank() ==> !text_less(
            rest[k].work_id,
            listed[i].work_id,
        )) by {
            assert(rest[k] == rows[k + 1]);
        }
        lemma_catalog_is_ordered(listed, rest, pages, filters);
        if status_wanted(filters, rows[0].status) && rows[0].record is Some && work_wanted(
            filters,
            rows[0],
            rows[0].record->0,
        ) {
            let next = listed.push(summary_of(rows[0], rows[0].record->0, pages));
            assert forall|i: int, k: int| 0 <= i < next.len() && 0 <= k < rest.len() implies (
            #[trigger] next[i]).priority_score.rank() >= (#[trigger] rest[k]).priority_score.rank()
                && (next[i].priority_score.rank() == rest[k].priority_score.rank() ==> !text_less(
                rest[k].work_id,
                next[i].work_id,
            )) by {
                assert(rest[k] == rows[k + 1]);
                if i < listed.len() {
                    assert(next[i] == listed[i]);
                } else {
                    assert(!(<InCatalog as crate::order::Ranked>::before(rows[k + 1], rows[0])));
                }
            }
            assert forall|i: int, j: int| 0 <= i < j < next.len() implies (
            #[trigger] next[i]).priority_score.rank() >= (#[trigger] next[j]).priority_score.rank()
                && (next[i].priority_score.rank() == next[j].priority_score.rank() ==> !text_less(
                next[j].work_id,
                next[i].work_id,
            )) by {
                assert(next[i] == listed[i]);
                if j < listed.len() {
                    assert(next[j] == listed[j]);
                } else {
                    assert(listed[i].priority_score.rank() >= rows[0].priority_score.rank());
                }
            }
            lemma_catalog_is_ordered(next, rest, pages, filters);
        }
    }
}

/// A catalog lists its works by priority, the greatest first, and those of one priority by
/// identifier.
pub proof fn law_catalogs_are_ordered(state: StateView, filters: CatalogFiltersView)
    ensures
        catalog_of(state, filters) matches Some(all) ==> by_priority(all),
{
    law_ordered::<InCatalog>(state.works);
    lemma_catalog_is_ordered(
        Seq::empty(),
        ordered::<InCatalog>(state.works),
        state.pages,
        filters,
    );
}

proof fn lemma_pending(pages: Seq<PageRecordView>, page: PageRecordView)
    ensures
        pending_pages(pages).contains(page) <==> pages.contains(page) && page.indexed_at is None,
    decreases pages.len(),
{
    let all = pending_pages(pages);
    if pages.len() > 0 {
        let rest = pending_pages(pages.drop_last());
        lemma_pending(pages.drop_last(), page);
        if all.contains(page) {
            let k = choose|k: int| 0 <= k < all.len() && all[k] == page;
            if k < rest.len() {
                assert(rest[k] == page);
                let j = choose|j: int|
                    0 <= j < pages.drop_last().len() && pages.drop_last()[j] == page;
                assert(pages[j] == page);
            } else {
                assert(pages[pages.len() - 1] == page);
            }
        }
        if pages.contains(page) && page.indexed_at is None {
            let j = choose|j: int| 0 <= j < pages.len() && pages[j] == page;
            if j < pages.len() - 1 {
                assert(pages.drop_last()[j] == page);
                let k = choose|k: int| 0 <= k < rest.len() && rest[k] == page;
                assert(all[k] == page);
            } else {
                assert(all[all.len() - 1] == page);
            }
        }
    }
}

/// The pages to index are those that are not indexed yet, by work and then by number, each
/// with what is known of its work and with the PDF that is preserved of it.
pub proof fn law_pages_wait_in_reading_order(state: StateView)
    ensures
        ({
            let waiting = indexing_records(state);
            &&& forall|page: PageRecordView| #[trigger]
                state.pages.contains(page) && page.indexed_at is None ==> exists|i: int|
                    0 <= i < waiting.len() && (#[trigger] waiting[i]).0 == page
            &&& forall|i: int|
                0 <= i < waiting.len() ==> {
                    &&& state.pages.contains((#[trigger] waiting[i]).0)
                    &&& waiting[i].0.indexed_at is None
                    &&& Some(waiting[i].1) == Some(row_of(state, waiting[i].0.work_id).record->0)
                    &&& waiting[i].2 == artifact_of(row_of(state, waiting[i].0.work_id))
                }
            &&& forall|i: int, j: int|
                0 <= i < j < waiting.len() ==> !text_less(
                    (#[trigger] waiting[j]).0.work_id,
                    (#[trigger] waiting[i]).0.work_id,
                ) && (waiting[i].0.work_id == waiting[j].0.work_id ==> waiting[i].0.page_number
                    <= waiting[j].0.page_number)
        }),
{
    broadcast use vstd::seq_lib::group_to_multiset_ensures;

    let pending = pending_pages(state.pages);
    let sorted = ordered::<InReadingOrder>(pending);
    let waiting = indexing_records(state);
    law_ordered::<InReadingOrder>(pending);
    assert forall|page: PageRecordView| #[trigger]
        state.pages.contains(page) && page.indexed_at is None implies exists|i: int|
        0 <= i < waiting.len() && (#[trigger] waiting[i]).0 == page by {
        lemma_pending(state.pages, page);
        assert(pending.to_multiset().count(page) > 0);
        assert(sorted.contains(page));
        let i = choose|i: int| 0 <= i < sorted.len() && sorted[i] == page;
        assert(waiting[i].0 == page);
    }
    assert forall|i: int| 0 <= i < waiting.len() implies {
        &&& state.pages.contains((#[trigger] waiting[i]).0)
        &&& waiting[i].0.indexed_at is None
        &&& Some(waiting[i].1) == Some(row_of(state, waiting[i].0.work_id).record->0)
        &&& waiting[i].2 == artifact_of(row_of(state, waiting[i].0.work_id))
    } by {
        assert(waiting[i].0 == sorted[i]);
        assert(sorted.contains(sorted[i]));
        assert(sorted.to_multiset().count(sorted[i]) > 0);
        assert(pending.contains(sorted[i]));
        lemma_pending(state.pages, sorted[i]);
    }
    assert forall|i: int, j: int| 0 <= i < j < waiting.len() implies !text_less(
        (#[trigger] waiting[j]).0.work_id,
        (#[trigger] waiting[i]).0.work_id,
    ) && (waiting[i].0.work_id == waiting[j].0.work_id ==> waiting[i].0.page_number
        <= waiting[j].0.page_number) by {
        assert(waiting[i].0 == sorted[i] && waiting[j].0 == sorted[j]);
    }
}

/// What is told of a work holds its record, its PDF where it has one, its responses by
/// source and its pages by number, and its last error.
pub proof fn law_details_tell_all_that_is_kept(
    state: StateView,
    row: StoredWorkView,
    work: WorkRecordView,
)
    ensures
        ({
            let told = details_of(state, row, work);
            &&& told.canonical_record == work
            &&& told.summary == summary_of(row, work, state.pages)
            &&& (row.pdf_path matches Some(path) && path.len() > 0) ==> told.pdf_artifact == Some(
                artifact_of(row),
            )
            &&& !(row.pdf_path matches Some(path) && path.len() > 0) ==> told.pdf_artifact is None
            &&& row.last_error matches Some(error) ==> told.last_error == error
            &&& told.pages.to_multiset() == pages_of(state.pages, row.work_id).to_multiset()
            &&& forall|i: int, j: int|
                0 <= i < j < told.pages.len() ==> (#[trigger] told.pages[i]).page_number <= (
                #[trigger] told.pages[j]).page_number
            &&& told.provenance_records.to_multiset() == responses_of(
                state.sources,
                row.work_id,
            ).to_multiset()
        }),
{
    law_ordered::<PageLocator>(pages_of(state.pages, row.work_id));
    law_ordered::<SourceLocator>(responses_of(state.sources, row.work_id));
}

/// A page is told of without its text, and a response without what it says; the rest of
/// both is told.
pub proof fn law_locators_tell_where_things_are(page: PageRecordView, row: StoredSourceView)
    ensures
        located_page(page).page_id == page.page_id,
        located_page(page).page_number == page.page_number,
        located_page(page).image_path == page.image_path,
        located_page(page).image_sha256 == page.image_sha256,
        located_page(page).width == page.width,
        located_page(page).height == page.height,
        located_page(page).indexed_at == page.indexed_at,
        located(row).source == row.source,
        located(row).source_id == row.source_id,
        located(row).retrieved_at == row.retrieved_at,
{
}

/// The pages of a work can be replaced exactly where each new page belongs to a work that
/// is known, and no two pages have one identifier or one number of one work.
pub proof fn law_pages_are_stored_where_they_differ(
    state: StateView,
    work_id: Seq<char>,
    pages: Seq<PageRecordView>,
)
    ensures
        ({
            let all = other_pages(state.pages, work_id) + pages;
            let known = forall|i: int|
                0 <= i < pages.len() ==> knows_work(state.works, (#[trigger] pages[i]).work_id);
            let apart = forall|i: int, j: int|
                0 <= i < j < all.len() ==> (#[trigger] all[i]).page_id != (
                #[trigger] all[j]).page_id && !(all[i].work_id == all[j].work_id
                    && all[i].page_number == all[j].page_number);
            &&& pages_fault(state, work_id, pages) is None <==> known && apart
            &&& !known ==> pages_fault(state, work_id, pages) == Some(StateError::UnknownWork)
            &&& known && !apart ==> pages_fault(state, work_id, pages) == Some(
                StateError::DuplicatePage,
            )
        }),
{
    let all = other_pages(state.pages, work_id) + pages;
    if pages_apart(all) {
        assert forall|i: int, j: int| 0 <= i < j < all.len() implies (#[trigger] all[i]).page_id
            != (#[trigger] all[j]).page_id && !(all[i].work_id == all[j].work_id
            && all[i].page_number == all[j].page_number) by {
            assert(!pages_clash(all[i], all[j]));
        }
    }
}

/// How far each work has come is told of every work, by identifier.
pub proof fn law_progress_is_told_of_every_work(state: StateView)
    ensures
        ({
            let told = statuses_of(state);
            &&& told.to_multiset() == Seq::new(
                state.works.len(),
                |i: int| artifact_status(state.works[i], state.pages),
            ).to_multiset()
            &&& told.len() == state.works.len()
            &&& forall|i: int, j: int|
                0 <= i < j < told.len() ==> !text_less(
                    (#[trigger] told[j]).work_id,
                    (#[trigger] told[i]).work_id,
                )
        }),
{
    let rows = Seq::new(
        state.works.len(),
        |i: int| artifact_status(state.works[i], state.pages),
    );
    law_ordered::<StoredArtifactStatus>(rows);
}

/// The responses that are told of a work are those that belong to it.
pub proof fn law_responses_of_a_work_are_told(
    rows: Seq<StoredSourceView>,
    work_id: Seq<char>,
    told: SourceLocatorView,
)
    ensures
        responses_of(rows, work_id).contains(told) <==> exists|i: int|
            0 <= i < rows.len() && (#[trigger] rows[i]).work_id == work_id && told == located(rows[i]),
    decreases rows.len(),
{
    let all = responses_of(rows, work_id);
    if rows.len() > 0 {
        let fewer = rows.drop_last();
        let rest = responses_of(fewer, work_id);
        law_responses_of_a_work_are_told(fewer, work_id, told);
        if all.contains(told) {
            let k = choose|k: int| 0 <= k < all.len() && all[k] == told;
            if k < rest.len() {
                assert(rest[k] == told);
                let i = choose|i: int|
                    0 <= i < fewer.len() && (#[trigger] fewer[i]).work_id == work_id && told
                        == located(fewer[i]);
                assert(rows[i] == fewer[i]);
            } else {
                assert(rows[rows.len() - 1].work_id == work_id);
            }
        }
        if exists|i: int|
            0 <= i < rows.len() && (#[trigger] rows[i]).work_id == work_id && told
                == located(rows[i]) {
            let i = choose|i: int|
                0 <= i < rows.len() && (#[trigger] rows[i]).work_id == work_id && told
                    == located(rows[i]);
            if i < rows.len() - 1 {
                assert(fewer[i] == rows[i]);
                let k = choose|k: int| 0 <= k < rest.len() && rest[k] == told;
                assert(all[k] == told);
            } else {
                assert(all[all.len() - 1] == told);
            }
        }
    }
}

/// The pages that are told of a work are those that belong to it.
pub proof fn law_pages_of_a_work_are_told(
    rows: Seq<PageRecordView>,
    work_id: Seq<char>,
    told: PageLocatorView,
)
    ensures
        pages_of(rows, work_id).contains(told) <==> exists|i: int|
            0 <= i < rows.len() && (#[trigger] rows[i]).work_id == work_id && told == located_page(rows[i]),
    decreases rows.len(),
{
    let all = pages_of(rows, work_id);
    if rows.len() > 0 {
        let fewer = rows.drop_last();
        let rest = pages_of(fewer, work_id);
        law_pages_of_a_work_are_told(fewer, work_id, told);
        if all.contains(told) {
            let k = choose|k: int| 0 <= k < all.len() && all[k] == told;
            if k < rest.len() {
                assert(rest[k] == told);
                let i = choose|i: int|
                    0 <= i < fewer.len() && (#[trigger] fewer[i]).work_id == work_id && told
                        == located_page(fewer[i]);
                assert(rows[i] == fewer[i]);
            } else {
                assert(rows[rows.len() - 1].work_id == work_id);
            }
        }
        if exists|i: int|
            0 <= i < rows.len() && (#[trigger] rows[i]).work_id == work_id && told
                == located_page(rows[i]) {
            let i = choose|i: int|
                0 <= i < rows.len() && (#[trigger] rows[i]).work_id == work_id && told
                    == located_page(rows[i]);
            if i < rows.len() - 1 {
                assert(fewer[i] == rows[i]);
                let k = choose|k: int| 0 <= k < rest.len() && rest[k] == told;
                assert(all[k] == told);
            } else {
                assert(all[all.len() - 1] == told);
            }
        }
    }
}

/// The responses that are stored of a work are those that belong to it, as they are.
pub proof fn law_stored_responses_are_those_of_the_work(
    rows: Seq<StoredSourceView>,
    work_id: Seq<char>,
    told: StoredSourceView,
)
    ensures
        sources_of(rows, work_id).contains(told) <==> exists|i: int|
            0 <= i < rows.len() && (#[trigger] rows[i]).work_id == work_id && told == rows[i],
    decreases rows.len(),
{
    let all = sources_of(rows, work_id);
    if rows.len() > 0 {
        let fewer = rows.drop_last();
        let rest = sources_of(fewer, work_id);
        law_stored_responses_are_those_of_the_work(fewer, work_id, told);
        if all.contains(told) {
            let k = choose|k: int| 0 <= k < all.len() && all[k] == told;
            if k < rest.len() {
                assert(rest[k] == told);
                let i = choose|i: int|
                    0 <= i < fewer.len() && (#[trigger] fewer[i]).work_id == work_id && told
                        == fewer[i];
                assert(rows[i] == fewer[i]);
            } else {
                assert(rows[rows.len() - 1].work_id == work_id);
            }
        }
        if exists|i: int|
            0 <= i < rows.len() && (#[trigger] rows[i]).work_id == work_id && told
                == rows[i] {
            let i = choose|i: int|
                0 <= i < rows.len() && (#[trigger] rows[i]).work_id == work_id && told
                    == rows[i];
            if i < rows.len() - 1 {
                assert(fewer[i] == rows[i]);
                let k = choose|k: int| 0 <= k < rest.len() && rest[k] == told;
                assert(all[k] == told);
            } else {
                assert(all[all.len() - 1] == told);
            }
        }
    }
}

} // verus!
