//! What a research plan and a reported candidate have to say, and how a work is named.

use crate::adapters::calendar_date;
use crate::domain::{
    candidate_fault, candidate_urls, date_valid, doi_in, identity_of, normal_plan, plan_fault,
    scheme_of, schemes_of, screening_passage_of, screening_query_of, unsupported_source, url_fault,
    year_of, AgentCandidateView, PlanFault, ResearchPlanView, WorkRecordView,
};
use crate::laws::merging::values_united;
use crate::score::Score;
use crate::text::{decimal, joined, lowered, text_less, trimmed};
use crate::util::{arxiv_base_of, arxiv_of, doi_of, fingerprint, last_segment, openalex_of, spaced};
use vstd::prelude::*;

verus! {

proof fn lemma_unsupported(sources: Seq<Seq<char>>)
    ensures
        unsupported_source(sources) is None <==> forall|i: int|
            0 <= i < sources.len() ==> (#[trigger] sources[i] == "openalex"@ || sources[i]
                == "crossref"@ || sources[i] == "arxiv"@),
        unsupported_source(sources) is Some ==> sources.contains(unsupported_source(sources)->0)
            && unsupported_source(sources)->0 != "openalex"@ && unsupported_source(sources)->0
            != "crossref"@ && unsupported_source(sources)->0 != "arxiv"@,
    decreases sources.len(),
{
    if sources.len() > 0 {
        let rest = sources.skip(1);
        lemma_unsupported(rest);
        assert forall|i: int| 0 <= i < rest.len() implies #[trigger] rest[i] == sources[i + 1] by {}
        if crate::domain::supported_source(sources[0]) {
            if unsupported_source(rest) is Some {
                let i = choose|i: int| 0 <= i < rest.len() && rest[i] == unsupported_source(rest)->0;
                assert(sources[i + 1] == unsupported_source(rest)->0);
            } else {
                assert forall|i: int| 0 <= i < sources.len() implies (#[trigger] sources[i]
                    == "openalex"@ || sources[i] == "crossref"@ || sources[i] == "arxiv"@) by {
                    if i > 0 {
                        assert(rest[i - 1] == sources[i]);
                    }
                }
            }
            if forall|i: int|
                0 <= i < sources.len() ==> (#[trigger] sources[i] == "openalex"@ || sources[i]
                    == "crossref"@ || sources[i] == "arxiv"@) {
                assert forall|i: int| 0 <= i < rest.len() implies (#[trigger] rest[i]
                    == "openalex"@ || rest[i] == "crossref"@ || rest[i] == "arxiv"@) by {
                    assert(rest[i] == sources[i + 1]);
                }
            }
        } else {
            assert(sources[0] == sources[0]);
        }
    }
}

/// A plan can be used exactly where it asks a question, has a query, searches OpenAlex,
/// Crossref or arXiv only, has dates of the calendar in order, wants a paper at least, and
/// has its thresholds between zero and a hundred and between zero and one.
pub proof fn law_usable_plans(plan: ResearchPlanView)
    ensures
        plan_fault(plan, date_valid(plan.date_from), date_valid(plan.date_to)) is None <==> {
            &&& plan.research_question.len() > 0
            &&& plan.queries.len() > 0
            &&& forall|i: int|
                0 <= i < plan.sources.len() ==> (#[trigger] plan.sources[i] == "openalex"@
                    || plan.sources[i] == "crossref"@ || plan.sources[i] == "arxiv"@)
            &&& plan.date_from is Some ==> calendar_date(plan.date_from->0) is Some
            &&& plan.date_to is Some ==> calendar_date(plan.date_to->0) is Some
            &&& plan.target_papers > 0
            &&& plan.date_from is Some && plan.date_to is Some ==> !text_less(
                plan.date_to->0,
                plan.date_from->0,
            )
            &&& Score::from_bits(0).at_most(plan.min_quality_score)
                && plan.min_quality_score.at_most(Score::from_bits(0x4059_0000_0000_0000))
            &&& Score::from_bits(0).at_most(plan.min_relevance_score)
                && plan.min_relevance_score.at_most(Score::from_bits(0x3ff0_0000_0000_0000))
        },
{
    lemma_unsupported(plan.sources);
}

/// Each fault of a plan is told where it is the first: no question, no query, a source
/// that cannot be searched, a malformed date, no target, reversed dates.
pub proof fn law_plan_faults_are_told(plan: ResearchPlanView)
    ensures
        ({
            let fault = plan_fault(plan, date_valid(plan.date_from), date_valid(plan.date_to));
            &&& fault == Some(PlanFault::MissingQuestion) <==> plan.research_question.len() == 0
            &&& fault == Some(PlanFault::MissingQueries) <==> plan.research_question.len() > 0
                && plan.queries.len() == 0
            &&& fault matches Some(PlanFault::UnsupportedSource(source)) ==> plan.sources.contains(
                source,
            ) && source != "openalex"@ && source != "crossref"@ && source != "arxiv"@
            &&& fault == Some(PlanFault::MalformedDateFrom) ==> plan.date_from is Some
                && calendar_date(plan.date_from->0) is None
            &&& fault == Some(PlanFault::MalformedDateTo) ==> plan.date_to is Some
                && calendar_date(plan.date_to->0) is None
            &&& fault == Some(PlanFault::NoTarget) ==> plan.target_papers == 0
            &&& fault == Some(PlanFault::DatesReversed) ==> text_less(
                plan.date_to->0,
                plan.date_from->0,
            )
        }),
{
    lemma_unsupported(plan.sources);
}

/// A plan in normal form asks the same question with single spaces between its words, has
/// each query, criterion and language once, and is the same in all else.
pub proof fn law_normal_plans_ask_the_same(plan: ResearchPlanView)
    ensures
        ({
            let normal = normal_plan(plan);
            &&& normal.research_question == spaced(plan.research_question)
            &&& values_united(plan.queries, Seq::empty(), normal.queries)
            &&& values_united(plan.inclusion_criteria, Seq::empty(), normal.inclusion_criteria)
            &&& values_united(plan.exclusion_criteria, Seq::empty(), normal.exclusion_criteria)
            &&& values_united(plan.languages, Seq::empty(), normal.languages)
            &&& normal.date_from == plan.date_from && normal.date_to == plan.date_to
            &&& normal.sources == plan.sources && normal.target_papers == plan.target_papers
            &&& normal.include_preprints == plan.include_preprints && normal.include_paywalled
                == plan.include_paywalled && normal.use_google_scholar_library_access
                == plan.use_google_scholar_library_access
            &&& normal.min_quality_score == plan.min_quality_score && normal.min_relevance_score
                == plan.min_relevance_score
        }),
{
    let none = Seq::<Seq<char>>::empty();
    assert(plan.queries + none =~= plan.queries);
    assert(plan.inclusion_criteria + none =~= plan.inclusion_criteria);
    assert(plan.exclusion_criteria + none =~= plan.exclusion_criteria);
    assert(plan.languages + none =~= plan.languages);
    crate::laws::merging::lemma_values_united(plan.queries, none);
    crate::laws::merging::lemma_values_united(plan.inclusion_criteria, none);
    crate::laws::merging::lemma_values_united(plan.exclusion_criteria, none);
    crate::laws::merging::lemma_values_united(plan.languages, none);
}

/// The reranker is asked the question of the plan, with what to include and what to leave
/// out behind it, each where the plan names it.
pub proof fn law_the_reranker_is_asked_the_question(plan: ResearchPlanView)
    ensures
        ({
            let asked = screening_query_of(plan);
            let wanted = "\nInclude: "@ + joined(plan.inclusion_criteria, "; "@);
            let unwanted = "\nExclude: "@ + joined(plan.exclusion_criteria, "; "@);
            let neither = plan.inclusion_criteria.len() == 0 && plan.exclusion_criteria.len() == 0;
            &&& neither ==> asked == plan.research_question
            &&& plan.inclusion_criteria.len() > 0 && plan.exclusion_criteria.len() == 0 ==> asked
                == plan.research_question + wanted
            &&& plan.inclusion_criteria.len() == 0 && plan.exclusion_criteria.len() > 0 ==> asked
                == plan.research_question + unwanted
            &&& plan.inclusion_criteria.len() > 0 && plan.exclusion_criteria.len() > 0 ==> asked
                == plan.research_question + wanted + unwanted
        }),
{
    let none = Seq::<char>::empty();
    let wanted = "\nInclude: "@ + joined(plan.inclusion_criteria, "; "@);
    assert(plan.research_question + none =~= plan.research_question);
    assert((plan.research_question + wanted) + none =~= plan.research_question + wanted);
}

/// The reranker is shown the title, the year, the type, the venue and the abstract of a
/// work, each behind its name.
pub proof fn law_the_reranker_is_shown_the_work(work: WorkRecordView)
    ensures
        ({
            let year = match year_of(work) {
                Some(value) => decimal(value as nat),
                None => "unknown"@,
            };
            screening_passage_of(work) == "Title: "@ + work.title + "\nYear: "@ + year
                + "\nType: "@ + work.work_type + "\nVenue: "@ + work.container_title
                + "\nAbstract: "@ + work.abstract_text
        }),
{
}

/// A work is named by its DOI, else by its arXiv identifier without the version, else by
/// its OpenAlex identifier, else by its title, its year and its first author.
pub proof fn law_a_work_is_named_by_its_best_identifier(work: WorkRecordView)
    ensures
        ({
            let arxiv = if work.ids.contains_key("arxiv"@) {
                arxiv_base_of(work.ids["arxiv"@])
            } else {
                None
            };
            &&& work.ids.contains_key("doi"@) && doi_of(work.ids["doi"@]) is Some ==> identity_of(
                work,
            ) == "doi:"@ + doi_of(work.ids["doi"@])->0
            &&& doi_in(work.ids) is None && arxiv is Some ==> identity_of(work) == "arxiv:"@
                + lowered(arxiv->0)
            &&& doi_in(work.ids) is None && arxiv is None && work.ids.contains_key("openalex"@)
                ==> identity_of(work) == "openalex:"@ + lowered(
                last_segment(work.ids["openalex"@]),
            )
            &&& doi_in(work.ids) is None && arxiv is None && !work.ids.contains_key("openalex"@)
                && year_of(work) is Some && work.authors.len() > 0 ==> identity_of(work)
                == "title:"@ + fingerprint(work.title) + ":"@ + decimal(year_of(work)->0 as nat)
                + ":"@ + lowered(work.authors[0].family)
        }),
{
}

proof fn lemma_url_fault(schemes: Seq<Option<Seq<char>>>)
    ensures
        url_fault(schemes) is None <==> forall|i: int|
            0 <= i < schemes.len() ==> (#[trigger] schemes[i] == Some("http"@) || schemes[i]
                == Some("https"@)),
    decreases schemes.len(),
{
    if schemes.len() > 0 {
        let rest = schemes.skip(1);
        lemma_url_fault(rest);
        assert forall|i: int| 0 <= i < rest.len() implies #[trigger] rest[i] == schemes[i + 1] by {}
        if schemes[0] == Some("http"@) || schemes[0] == Some("https"@) {
            if url_fault(rest) is None {
                assert forall|i: int| 0 <= i < schemes.len() implies (#[trigger] schemes[i] == Some(
                    "http"@,
                ) || schemes[i] == Some("https"@)) by {
                    if i > 0 {
                        assert(rest[i - 1] == schemes[i]);
                    }
                }
            }
            if forall|i: int|
                0 <= i < schemes.len() ==> (#[trigger] schemes[i] == Some("http"@) || schemes[i]
                    == Some("https"@)) {
                assert forall|i: int| 0 <= i < rest.len() implies (#[trigger] rest[i] == Some(
                    "http"@,
                ) || rest[i] == Some("https"@)) by {
                    assert(rest[i] == schemes[i + 1]);
                }
            }
        } else {
            assert(!(schemes[0] == Some("http"@) || schemes[0] == Some("https"@)));
        }
    }
}

/// A reported candidate is taken exactly where it names its task, its query, its source
/// and its title, has an identifier in the form of its kind, gives evidence, has no
/// address but HTTP ones, and has a time.
pub proof fn law_usable_candidates(candidate: AgentCandidateView, time_valid: bool)
    ensures
        candidate_fault(candidate, schemes_of(candidate_urls(candidate)), time_valid) is None <==> {
            &&& trimmed(candidate.task_id).len() > 0
            &&& trimmed(candidate.query).len() > 0
            &&& trimmed(candidate.source).len() > 0
            &&& trimmed(candidate.title).len() > 0
            &&& (candidate.doi is Some && doi_of(candidate.doi->0) is Some) || (
            candidate.arxiv_id is Some && arxiv_of(candidate.arxiv_id->0) is Some) || (
            candidate.openalex_id is Some && openalex_of(candidate.openalex_id->0) is Some)
            &&& candidate.evidence_urls.len() > 0
            &&& forall|i: int|
                0 <= i < candidate.evidence_urls.len() ==> (scheme_of(
                    #[trigger] candidate.evidence_urls[i],
                ) == Some("http"@) || scheme_of(candidate.evidence_urls[i]) == Some("https"@))
            &&& candidate.landing_url is Some ==> scheme_of(candidate.landing_url->0) == Some(
                "http"@,
            ) || scheme_of(candidate.landing_url->0) == Some("https"@)
            &&& time_valid
        },
{
    let urls = candidate_urls(candidate);
    let schemes = schemes_of(urls);
    let evidence = candidate.evidence_urls;
    lemma_url_fault(schemes);
    assert forall|i: int| 0 <= i < evidence.len() implies #[trigger] evidence[i] == urls[i] by {}
    if url_fault(schemes) is None {
        assert forall|i: int| 0 <= i < evidence.len() implies (scheme_of(#[trigger] evidence[i])
            == Some("http"@) || scheme_of(evidence[i]) == Some("https"@)) by {
            assert(schemes[i] == scheme_of(evidence[i]));
        }
        if candidate.landing_url is Some {
            assert(schemes[evidence.len() as int] == scheme_of(candidate.landing_url->0));
        }
    }
    if (forall|i: int|
        0 <= i < evidence.len() ==> (scheme_of(#[trigger] evidence[i]) == Some("http"@)
            || scheme_of(evidence[i]) == Some("https"@))) && (candidate.landing_url is Some
        ==> scheme_of(candidate.landing_url->0) == Some("http"@) || scheme_of(
        candidate.landing_url->0,
    ) == Some("https"@)) {
        assert forall|i: int| 0 <= i < schemes.len() implies (#[trigger] schemes[i] == Some(
            "http"@,
        ) || schemes[i] == Some("https"@)) by {
            if i < evidence.len() {
                assert(schemes[i] == scheme_of(evidence[i]));
            }
        }
    }
}

/// The year of a work is the first number of its date.
pub proof fn law_a_date_gives_its_year(work: WorkRecordView, year: u32, rest: Seq<u32>)
    ensures
        work.issued.date_parts == seq![seq![year] + rest] ==> year_of(work) == Some(year),
        work.issued.date_parts.len() == 0 ==> year_of(work) is None,
{
    if work.issued.date_parts == seq![seq![year] + rest] {
        assert(work.issued.date_parts[0] == seq![year] + rest);
        assert((seq![year] + rest)[0] == year);
    }
}

} // verus!
