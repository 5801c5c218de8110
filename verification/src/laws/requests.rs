//! What the scholarly sources are asked for.

use crate::discovery::{
    arxiv_request, batch_stop, crossref_filters, crossref_next, crossref_request, crossref_results,
    doi_request, in_window, labelled_part, leading_year, next_cursor, openalex_next,
    openalex_request, openalex_results, page_size, scholar_name, shard_after, share_of, step_of,
    ShardStep,
};
use crate::domain::{ResearchPlanView, WorkRecordView};
use crate::json::{field_of, JsonView};
use crate::text::{decimal, joined, lemma_decimal_value};
use vstd::prelude::*;

verus! {

/// The parts of a filter hold the date behind the label exactly where it is the one that
/// the plan names.
pub open spec fn date_demanded(
    parts: Seq<Seq<char>>,
    label: Seq<char>,
    date: Option<Seq<char>>,
) -> bool {
    forall|text: Seq<char>| parts.contains(#[trigger] (label + text)) <==> date == Some(text)
}

/// What a plan asks of OpenAlex: works that are not retracted and have an abstract, from
/// the first date of the plan on and up to its last, each where the plan names it, and
/// nothing else.
pub open spec fn openalex_demands(parts: Seq<Seq<char>>, plan: ResearchPlanView) -> bool {
    &&& parts.contains("is_retracted:false"@)
    &&& parts.contains("has_abstract:true"@)
    &&& date_demanded(parts, "from_publication_date:"@, plan.date_from)
    &&& date_demanded(parts, "to_publication_date:"@, plan.date_to)
    &&& parts.len() == 2 + (if plan.date_from is Some {
        1int
    } else {
        0
    }) + (if plan.date_to is Some {
        1int
    } else {
        0
    })
}

/// What a plan asks of Crossref: works from the first date of the plan on and up to its
/// last, each where the plan names it, and nothing else.
pub open spec fn crossref_demands(parts: Seq<Seq<char>>, plan: ResearchPlanView) -> bool {
    &&& date_demanded(parts, "from-pub-date:"@, plan.date_from)
    &&& date_demanded(parts, "until-pub-date:"@, plan.date_to)
    &&& parts.len() == (if plan.date_from is Some {
        1int
    } else {
        0
    }) + (if plan.date_to is Some {
        1int
    } else {
        0
    })
}

proof fn lemma_among_both(a: Seq<Seq<char>>, b: Seq<Seq<char>>, text: Seq<char>)
    ensures
        (a + b).contains(text) <==> a.contains(text) || b.contains(text),
{
    if a.contains(text) {
        let i = choose|i: int| 0 <= i < a.len() && a[i] == text;
        assert((a + b)[i] == text);
    }
    if b.contains(text) {
        let i = choose|i: int| 0 <= i < b.len() && b[i] == text;
        assert((a + b)[a.len() + i] == text);
    }
}

/// A part behind a label is the one of that label.
proof fn lemma_labelled(
    label: Seq<char>,
    date: Option<Seq<char>>,
    wanted: Seq<char>,
    text: Seq<char>,
)
    requires
        label.len() > 0,
        wanted.len() > 0,
    ensures
        label == wanted ==> (labelled_part(label, date).contains(wanted + text) <==> date == Some(
            text,
        )),
        label[0] != wanted[0] ==> !labelled_part(label, date).contains(wanted + text),
{
    let row = labelled_part(label, date);
    assert((wanted + text)[0] == wanted[0]);
    if date is Some {
        assert(row[0] == label + date->0);
        assert((label + date->0)[0] == label[0]);
        if label == wanted && label + date->0 == wanted + text {
            assert((label + date->0).skip(label.len() as int) =~= date->0);
            assert((wanted + text).skip(label.len() as int) =~= text);
        }
    }
}

/// The filter sent to OpenAlex holds the first date of the plan behind
/// `from_publication_date` and its last behind `to_publication_date`, each exactly where
/// the plan names that date, and asks for works with an abstract that are not retracted.
/// The request carries the query, the page size, the cursor and the key.
pub proof fn law_openalex_is_asked_for_the_window(
    plan: ResearchPlanView,
    query: Seq<char>,
    size: nat,
    cursor: Seq<char>,
    api_key: Seq<char>,
)
    ensures
        ({
            let request = openalex_request(plan, query, size, cursor, api_key);
            &&& request.len() == 5
            &&& request.contains(("search"@, query))
            &&& request.contains(("per-page"@, decimal(size)))
            &&& request.contains(("cursor"@, cursor))
            &&& request.contains(("api_key"@, api_key))
            &&& exists|parts: Seq<Seq<char>>| #[trigger]
                request.contains(("filter"@, joined(parts, ","@))) && openalex_demands(parts, plan)
        }),
{
    let request = openalex_request(plan, query, size, cursor, api_key);
    assert(request[0] == ("search"@, query));
    assert(request[2] == ("per-page"@, decimal(size)));
    assert(request[3] == ("cursor"@, cursor));
    assert(request[4] == ("api_key"@, api_key));
    let fixed = seq!["is_retracted:false"@, "has_abstract:true"@];
    let from = labelled_part("from_publication_date:"@, plan.date_from);
    let to = labelled_part("to_publication_date:"@, plan.date_to);
    let parts = fixed + from + to;
    reveal_strlit("is_retracted:false");
    reveal_strlit("has_abstract:true");
    reveal_strlit("from_publication_date:");
    reveal_strlit("to_publication_date:");
    assert(parts[0] == "is_retracted:false"@);
    assert(parts[1] == "has_abstract:true"@);
    assert forall|text: Seq<char>|
        parts.contains(#[trigger] ("from_publication_date:"@ + text)) <==> plan.date_from == Some(
            text,
        ) by {
        let wanted = "from_publication_date:"@ + text;
        lemma_among_both(fixed + from, to, wanted);
        lemma_among_both(fixed, from, wanted);
        lemma_labelled("from_publication_date:"@, plan.date_from, "from_publication_date:"@, text);
        lemma_labelled("to_publication_date:"@, plan.date_to, "from_publication_date:"@, text);
        assert(wanted[0] == 'f');
        assert("is_retracted:false"@[0] == 'i' && "has_abstract:true"@[0] == 'h');
        assert(!fixed.contains(wanted));
    }
    assert forall|text: Seq<char>|
        parts.contains(#[trigger] ("to_publication_date:"@ + text)) <==> plan.date_to == Some(
            text,
        ) by {
        let wanted = "to_publication_date:"@ + text;
        lemma_among_both(fixed + from, to, wanted);
        lemma_among_both(fixed, from, wanted);
        lemma_labelled("from_publication_date:"@, plan.date_from, "to_publication_date:"@, text);
        lemma_labelled("to_publication_date:"@, plan.date_to, "to_publication_date:"@, text);
        assert(wanted[0] == 't');
        assert("is_retracted:false"@[0] == 'i' && "has_abstract:true"@[0] == 'h');
        assert(!fixed.contains(wanted));
    }
    assert(openalex_demands(parts, plan));
    assert(request[1] == ("filter"@, joined(parts, ","@)));
    assert(request.contains(("filter"@, joined(parts, ","@))));
}

/// The filter sent to Crossref holds the first date of the plan behind `from-pub-date`
/// and its last behind `until-pub-date`, each exactly where the plan names that date;
/// there is no filter where it names none. The request carries the query, the number of
/// rows, the cursor, and the contact where there is one.
pub proof fn law_crossref_is_asked_for_the_window(
    plan: ResearchPlanView,
    query: Seq<char>,
    size: nat,
    cursor: Seq<char>,
    contact_email: Seq<char>,
)
    ensures
        ({
            let request = crossref_request(plan, query, size, cursor, contact_email);
            &&& request.contains(("query.bibliographic"@, query))
            &&& request.contains(("rows"@, decimal(size)))
            &&& request.contains(("cursor"@, cursor))
            &&& contact_email.len() > 0 ==> request.contains(("mailto"@, contact_email))
            &&& plan.date_from is Some || plan.date_to is Some ==> exists|parts: Seq<Seq<char>>|
                #[trigger]
                request.contains(("filter"@, joined(parts, ","@))) && crossref_demands(parts, plan)
            &&& request.len() == 3 + (if plan.date_from is Some || plan.date_to is Some {
                1int
            } else {
                0
            }) + (if contact_email.len() > 0 {
                1int
            } else {
                0
            })
        }),
{
    let request = crossref_request(plan, query, size, cursor, contact_email);
    assert(request[0] == ("query.bibliographic"@, query));
    assert(request[1] == ("rows"@, decimal(size)));
    assert(request[2] == ("cursor"@, cursor));
    if contact_email.len() > 0 {
        assert(request[request.len() - 1] == ("mailto"@, contact_email));
    }
    let from = labelled_part("from-pub-date:"@, plan.date_from);
    let to = labelled_part("until-pub-date:"@, plan.date_to);
    let parts = from + to;
    reveal_strlit("from-pub-date:");
    reveal_strlit("until-pub-date:");
    assert("from-pub-date:"@[0] == 'f' && "until-pub-date:"@[0] == 'u');
    assert forall|text: Seq<char>|
        parts.contains(#[trigger] ("from-pub-date:"@ + text)) <==> plan.date_from == Some(text) by {
        lemma_among_both(from, to, "from-pub-date:"@ + text);
        lemma_labelled("from-pub-date:"@, plan.date_from, "from-pub-date:"@, text);
        lemma_labelled("until-pub-date:"@, plan.date_to, "from-pub-date:"@, text);
    }
    assert forall|text: Seq<char>|
        parts.contains(#[trigger] ("until-pub-date:"@ + text)) <==> plan.date_to == Some(text) by {
        lemma_among_both(from, to, "until-pub-date:"@ + text);
        lemma_labelled("from-pub-date:"@, plan.date_from, "until-pub-date:"@, text);
        lemma_labelled("until-pub-date:"@, plan.date_to, "until-pub-date:"@, text);
    }
    assert(crossref_demands(parts, plan));
    assert(crossref_filters(plan) == parts);
    if parts.len() > 0 {
        assert(request[3] == ("filter"@, joined(parts, ","@)));
        assert(request.contains(("filter"@, joined(parts, ","@))));
    }
}

/// An arXiv search asks for the query as a phrase, from a place on, for as many works as
/// wanted, the most relevant first.
pub proof fn law_arxiv_is_asked_for_the_phrase(query: Seq<char>, start: nat, size: nat)
    ensures
        ({
            let request = arxiv_request(query, start, size);
            &&& request.len() == 5
            &&& request.contains(("search_query"@, "all:\""@ + query + "\""@))
            &&& request.contains(("start"@, decimal(start)))
            &&& request.contains(("max_results"@, decimal(size)))
            &&& request.contains(("sortBy"@, "relevance"@))
            &&& request.contains(("sortOrder"@, "descending"@))
        }),
{
    let request = arxiv_request(query, start, size);
    assert(request[0] == ("search_query"@, "all:\""@ + query + "\""@));
    assert(request[1] == ("start"@, decimal(start)));
    assert(request[2] == ("max_results"@, decimal(size)));
    assert(request[3] == ("sortBy"@, "relevance"@));
    assert(request[4] == ("sortOrder"@, "descending"@));
}

/// A request asks for no more works than are missing and for no more than a hundred, and
/// for one of these numbers exactly.
pub proof fn law_requests_ask_for_what_is_missing(limit: nat, have: nat)
    requires
        have <= limit,
    ensures
        page_size(limit, have) <= limit - have,
        page_size(limit, have) <= 100,
        page_size(limit, have) == limit - have || page_size(limit, have) == 100,
{
}

/// A date that begins with a year of four digits begins with that year.
pub proof fn law_a_date_begins_with_its_year(year: nat, rest: Seq<char>)
    requires
        1000 <= year <= 9999,
    ensures
        leading_year(Some(decimal(year) + rest)) == Some(year),
{
    reveal_with_fuel(decimal, 5);
    lemma_decimal_value(year);
    assert(decimal(year).len() == 4);
    assert((decimal(year) + rest).take(4) =~= decimal(year));
}

/// A year lies in the window of a plan whose dates begin with years exactly where it is
/// neither before the first nor after the last; a date that is not named bounds nothing.
pub proof fn law_the_window_is_bounded_by_its_years(
    plan: ResearchPlanView,
    year: u32,
    first: nat,
    first_rest: Seq<char>,
    last: nat,
    last_rest: Seq<char>,
)
    requires
        1000 <= first <= 9999,
        1000 <= last <= 9999,
        plan.date_from is Some ==> plan.date_from == Some(decimal(first) + first_rest),
        plan.date_to is Some ==> plan.date_to == Some(decimal(last) + last_rest),
    ensures
        in_window(year, plan) <==> (plan.date_from is Some ==> first <= year) && (plan.date_to
            is Some ==> year <= last),
{
    law_a_date_begins_with_its_year(first, first_rest);
    law_a_date_begins_with_its_year(last, last_rest);
}

/// A search goes on at the cursor that the answer names, and ends where it names none or
/// the same again.
pub proof fn law_a_search_never_repeats_a_page(next: Option<Seq<char>>, cursor: Seq<char>)
    ensures
        next_cursor(next, cursor) matches Some(following) ==> next == Some(following) && following
            != cursor && following.len() > 0,
        next_cursor(next, cursor) is None ==> next is None || next == Some(cursor) || next->0.len()
            == 0,
{
}

/// A search is asked for an even share of the candidates, for twenty-five at least, and
/// never for more than all.
pub proof fn law_the_share_is_even(max_candidates: nat, queries: nat, sources: nat)
    requires
        queries > 0,
        sources > 0,
    ensures
        share_of(max_candidates, queries, sources) <= max_candidates,
        max_candidates >= 25 ==> share_of(max_candidates, queries, sources) >= 25,
        max_candidates / queries / sources >= 25 ==> share_of(max_candidates, queries, sources)
            == max_candidates / queries / sources,
        max_candidates / queries / sources < 25 && max_candidates >= 25 ==> share_of(
            max_candidates,
            queries,
            sources,
        ) == 25,
        max_candidates < 25 ==> share_of(max_candidates, queries, sources) == max_candidates,
{
    vstd::arithmetic::div_mod::lemma_div_is_ordered_by_denominator(
        max_candidates as int,
        1,
        queries as int,
    );
    let each = max_candidates / queries;
    vstd::arithmetic::div_mod::lemma_div_is_ordered_by_denominator(each as int, 1, sources as int);
}

/// Each source is searched in its own way; OpenAlex only where its key is set, and
/// nothing else is searched.
pub proof fn law_each_source_is_searched_in_its_way(source: Seq<char>, key_set: bool)
    ensures
        step_of(source, key_set) == ShardStep::SearchOpenalex <==> source == "openalex"@ && key_set,
        step_of(source, key_set) == ShardStep::MissingKey <==> source == "openalex"@ && !key_set,
        step_of(source, key_set) == ShardStep::SearchCrossref <==> source == "crossref"@,
        step_of(source, key_set) == ShardStep::SearchArxiv <==> source == "arxiv"@,
{
    reveal_strlit("openalex");
    reveal_strlit("crossref");
    reveal_strlit("arxiv");
    assert("openalex"@.len() == 8 && "crossref"@.len() == 8 && "arxiv"@.len() == 5);
    assert("openalex"@[0] == 'o' && "crossref"@[0] == 'c');
}

/// The searches go through the queries of a source in order and then on to the next
/// source, at once where a search that did not fail leaves twice as many works as wanted.
pub proof fn law_searches_go_on_in_order(
    source: nat,
    query: nat,
    queries: nat,
    failed: bool,
    found: nat,
    max_candidates: nat,
)
    requires
        query < queries,
    ensures
        ({
            let next = shard_after((source, query), queries, failed, found, max_candidates);
            &&& next == (source, query + 1) || next == (source + 1, 0nat)
            &&& next == (source, query + 1) <==> query + 1 < queries && (failed || found
                < max_candidates * 2)
        }),
{
}

/// Semantic Scholar is asked for a work by its DOI, else by its arXiv identifier.
pub proof fn law_scholar_is_asked_by_identifier(work: WorkRecordView)
    ensures
        work.ids.contains_key("doi"@) ==> scholar_name(work) == "DOI:"@ + work.ids["doi"@],
        !work.ids.contains_key("doi"@) && work.ids.contains_key("arxiv"@) ==> scholar_name(work)
            == "ARXIV:"@ + work.ids["arxiv"@],
{
}

/// A lookup by DOI asks OpenAlex for the one work with that DOI, with the key.
pub proof fn law_a_doi_is_looked_up_by_itself(doi: Seq<char>, api_key: Seq<char>)
    ensures
        ({
            let request = doi_request(doi, api_key);
            &&& request.len() == 3
            &&& request.contains(("filter"@, "doi:"@ + doi))
            &&& request.contains(("per-page"@, "1"@))
            &&& request.contains(("api_key"@, api_key))
        }),
{
    let request = doi_request(doi, api_key);
    assert(request[0] == ("filter"@, "doi:"@ + doi));
    assert(request[1] == ("per-page"@, "1"@));
    assert(request[2] == ("api_key"@, api_key));
}

/// The results of a page are those that it lists, and the search goes on at the cursor that
/// the page names, unless it lists nothing or names the same cursor again.
pub proof fn law_pages_of_results_are_read(
    payload: JsonView,
    items: Seq<JsonView>,
    next: Seq<char>,
    cursor: Seq<char>,
)
    ensures
        payload.member("results"@) == Some(JsonView::List(items)) ==> openalex_results(payload)
            == items,
        payload.member("results"@) == Some(JsonView::List(items)) && items.len() > 0 && field_of(
            payload.member("meta"@),
            "next_cursor"@,
        ) == Some(JsonView::Text(next)) && next.len() > 0 && next != cursor ==> openalex_next(
            payload,
            cursor,
        ) == Some(next),
        payload.member("results"@) == Some(JsonView::List(items)) && items.len() == 0
            ==> openalex_next(payload, cursor) is None,
        field_of(payload.member("message"@), "items"@) == Some(JsonView::List(items))
            ==> crossref_results(payload) == items,
        field_of(payload.member("message"@), "items"@) == Some(JsonView::List(items))
            && items.len() > 0 && field_of(payload.member("message"@), "next-cursor"@) == Some(
            JsonView::Text(next),
        ) && next.len() > 0 && next != cursor ==> crossref_next(payload, cursor) == Some(next),
        field_of(payload.member("message"@), "items"@) == Some(JsonView::List(items))
            && items.len() == 0 ==> crossref_next(payload, cursor) is None,
{
}

/// A batch begins at its offset and ends a hundred works further, or with the last work.
pub proof fn law_batches_hold_a_hundred(offset: int, total: int)
    requires
        0 <= offset < total,
    ensures
        offset < batch_stop(offset, total) <= total,
        batch_stop(offset, total) - offset <= 100,
        batch_stop(offset, total) == total || batch_stop(offset, total) == offset + 100,
{
}

} // verus!
