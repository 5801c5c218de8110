//! What screening makes of a work: its points, its reasons and its class.

use crate::discovery::{arxiv_in, in_window, openalex_in};
use crate::domain::{
    any_authorized, doi_in, year_of, QualityAssessmentView, ResearchPlanView, WorkRecordView,
};
use crate::quality::{
    age_of, any_named, assessment_of, evidence_synthesis, first_rejections, identifier_points,
    language_wanted, note_if, points_of, rejections, signals_of, type_worth, unsupported_type,
    with_relevance, TypeWorth,
};
use crate::score::Score;
use crate::text::{ascii_lower, begins_with, decimal, first_of, holds_text, lowered, trimmed};
use vstd::prelude::*;

verus! {

/// The types that are no eligible scholarly works.
pub open spec fn refused_types() -> Seq<Seq<char>> {
    seq![
        "dataset"@,
        "editorial"@,
        "peer-review"@,
        "paratext"@,
        "journal"@,
        "proceedings"@,
        "reference-entry"@,
        "grant"@,
        "standard"@,
        "component"@,
        "other"@,
        "news"@,
        "news-article"@,
        "newspaper-article"@,
        "slides"@,
        "presentation"@,
        "poster"@,
        "conference-poster"@,
    ]
}

/// What is among two rows is among the one or the other.
proof fn lemma_among_both(a: Seq<Seq<char>>, b: Seq<Seq<char>>, text: Seq<char>)
    ensures
        (a + b).contains(text) <==> a.contains(text) || b.contains(text),
{
    if a.contains(text) {
        let i = choose|i: int| 0 <= i < a.len() && a[i] == text;
        assert((a + b)[i] == text);
    }
    if b.contains(text) {
        let i = choose|i: int| 0 <= i < b.len() && b[i] == text;
        assert((a + b)[a.len() + i] == text);
    }
}

proof fn lemma_noted(condition: bool, note: Seq<char>, text: Seq<char>)
    ensures
        note_if(condition, note).contains(text) <==> condition && text == note,
{
    if condition {
        assert(note_if(condition, note)[0] == note);
    }
}

/// Each type is worth its points, and only the listed types are refused.
proof fn lemma_worth_of_types(include_preprints: bool)
    ensures
        type_worth("article-journal"@, include_preprints) == TypeWorth::Points(20),
        type_worth("paper-conference"@, include_preprints) == TypeWorth::Points(17),
        type_worth("chapter"@, include_preprints) == TypeWorth::Points(12),
        type_worth("book"@, include_preprints) == TypeWorth::Points(12),
        type_worth("thesis"@, include_preprints) == TypeWorth::Points(12),
        type_worth("report"@, include_preprints) == TypeWorth::Points(12),
        include_preprints ==> type_worth("preprint"@, include_preprints) == TypeWorth::Points(4),
        !include_preprints ==> type_worth("preprint"@, include_preprints)
            == TypeWorth::ExcludedPreprint,
        type_worth("dataset"@, include_preprints) == TypeWorth::Unsupported,
        type_worth("editorial"@, include_preprints) == TypeWorth::Unsupported,
        type_worth("peer-review"@, include_preprints) == TypeWorth::Unsupported,
        type_worth("paratext"@, include_preprints) == TypeWorth::Unsupported,
        type_worth("journal"@, include_preprints) == TypeWorth::Unsupported,
        type_worth("proceedings"@, include_preprints) == TypeWorth::Unsupported,
        type_worth("reference-entry"@, include_preprints) == TypeWorth::Unsupported,
        type_worth("grant"@, include_preprints) == TypeWorth::Unsupported,
        type_worth("standard"@, include_preprints) == TypeWorth::Unsupported,
        type_worth("component"@, include_preprints) == TypeWorth::Unsupported,
        type_worth("other"@, include_preprints) == TypeWorth::Unsupported,
        type_worth("news"@, include_preprints) == TypeWorth::Unsupported,
        type_worth("news-article"@, include_preprints) == TypeWorth::Unsupported,
        type_worth("newspaper-article"@, include_preprints) == TypeWorth::Unsupported,
        type_worth("slides"@, include_preprints) == TypeWorth::Unsupported,
        type_worth("presentation"@, include_preprints) == TypeWorth::Unsupported,
        type_worth("poster"@, include_preprints) == TypeWorth::Unsupported,
        type_worth("conference-poster"@, include_preprints) == TypeWorth::Unsupported,
{
    reveal_strlit("article-journal");
    reveal_strlit("paper-conference");
    reveal_strlit("chapter");
    reveal_strlit("book");
    reveal_strlit("thesis");
    reveal_strlit("report");
    reveal_strlit("preprint");
    reveal_strlit("dataset");
    reveal_strlit("editorial");
    reveal_strlit("peer-review");
    reveal_strlit("paratext");
    reveal_strlit("journal");
    reveal_strlit("proceedings");
    reveal_strlit("reference-entry");
    reveal_strlit("grant");
    reveal_strlit("standard");
    reveal_strlit("component");
    reveal_strlit("other");
    reveal_strlit("news");
    reveal_strlit("news-article");
    reveal_strlit("newspaper-article");
    reveal_strlit("slides");
    reveal_strlit("presentation");
    reveal_strlit("poster");
    reveal_strlit("conference-poster");
    assert("article-journal"@.len() == 15);
    assert("paper-conference"@.len() == 16);
    assert("chapter"@.len() == 7);
    assert("book"@.len() == 4);
    assert("thesis"@.len() == 6);
    assert("report"@.len() == 6);
    assert("preprint"@.len() == 8);
    assert("dataset"@.len() == 7);
    assert("editorial"@.len() == 9);
    assert("peer-review"@.len() == 11);
    assert("paratext"@.len() == 8);
    assert("journal"@.len() == 7);
    assert("proceedings"@.len() == 11);
    assert("reference-entry"@.len() == 15);
    assert("grant"@.len() == 5);
    assert("standard"@.len() == 8);
    assert("component"@.len() == 9);
    assert("other"@.len() == 5);
    assert("news"@.len() == 4);
    assert("news-article"@.len() == 12);
    assert("newspaper-article"@.len() == 17);
    assert("slides"@.len() == 6);
    assert("presentation"@.len() == 12);
    assert("poster"@.len() == 6);
    assert("conference-poster"@.len() == 17);
    assert("report"@[0] != "thesis"@[0]);
    assert("dataset"@[0] != "chapter"@[0]);
    assert("paratext"@[1] != "preprint"@[1]);
    assert("journal"@[0] != "chapter"@[0]);
    assert("reference-entry"@[0] != "article-journal"@[0]);
    assert("standard"@[0] != "preprint"@[0]);
    assert("news"@[0] != "book"@[0]);
    assert("slides"@[0] != "thesis"@[0]);
    assert("slides"@[0] != "report"@[0]);
    assert("poster"@[0] != "thesis"@[0]);
    assert("poster"@[0] != "report"@[0]);
}

proof fn lemma_refused_types(work_type: Seq<char>)
    ensures
        unsupported_type(work_type) <==> refused_types().contains(work_type),
{
    let refused = refused_types();
    assert(refused[0] == "dataset"@);
    assert(refused[1] == "editorial"@);
    assert(refused[2] == "peer-review"@);
    assert(refused[3] == "paratext"@);
    assert(refused[4] == "journal"@);
    assert(refused[5] == "proceedings"@);
    assert(refused[6] == "reference-entry"@);
    assert(refused[7] == "grant"@);
    assert(refused[8] == "standard"@);
    assert(refused[9] == "component"@);
    assert(refused[10] == "other"@);
    assert(refused[11] == "news"@);
    assert(refused[12] == "news-article"@);
    assert(refused[13] == "newspaper-article"@);
    assert(refused[14] == "slides"@);
    assert(refused[15] == "presentation"@);
    assert(refused[16] == "poster"@);
    assert(refused[17] == "conference-poster"@);
    if refused.contains(work_type) {
        let i = choose|i: int| 0 <= i < refused.len() && refused[i] == work_type;
        assert(0 <= i < 18);
    }
}

/// A type is refused exactly where it is one of the listed ones.
proof fn lemma_worth_is_refusal(work_type: Seq<char>, include_preprints: bool)
    ensures
        type_worth(work_type, include_preprints) == TypeWorth::Unsupported
            <==> refused_types().contains(work_type),
        type_worth(work_type, include_preprints) == TypeWorth::ExcludedPreprint
            <==> work_type == "preprint"@ && !include_preprints,
{
    lemma_refused_types(work_type);
    lemma_worth_of_types(include_preprints);
}

/// The words of the signal for a type are those of its parts.
proof fn lemma_type_signals()
    ensures
        "scholarly-type:"@ + "article-journal"@ + ":+"@ + decimal(20) == "scholarly-type:article-journal:+20"@,
        "scholarly-type:"@ + "paper-conference"@ + ":+"@ + decimal(17) == "scholarly-type:paper-conference:+17"@,
        "scholarly-type:"@ + "chapter"@ + ":+"@ + decimal(12) == "scholarly-type:chapter:+12"@,
        "scholarly-type:"@ + "book"@ + ":+"@ + decimal(12) == "scholarly-type:book:+12"@,
        "scholarly-type:"@ + "thesis"@ + ":+"@ + decimal(12) == "scholarly-type:thesis:+12"@,
        "scholarly-type:"@ + "report"@ + ":+"@ + decimal(12) == "scholarly-type:report:+12"@,
        "scholarly-type:"@ + "preprint"@ + ":+"@ + decimal(4) == "scholarly-type:preprint:+4"@,
{
    reveal_with_fuel(decimal, 3);
    reveal_strlit("scholarly-type:");
    reveal_strlit(":+");
    reveal_strlit("article-journal");
    reveal_strlit("scholarly-type:article-journal:+20");
    reveal_strlit("paper-conference");
    reveal_strlit("scholarly-type:paper-conference:+17");
    reveal_strlit("chapter");
    reveal_strlit("scholarly-type:chapter:+12");
    reveal_strlit("book");
    reveal_strlit("scholarly-type:book:+12");
    reveal_strlit("thesis");
    reveal_strlit("scholarly-type:thesis:+12");
    reveal_strlit("report");
    reveal_strlit("scholarly-type:report:+12");
    reveal_strlit("preprint");
    reveal_strlit("scholarly-type:preprint:+4");
    assert("scholarly-type:"@ + "article-journal"@ + ":+"@ + decimal(20) =~= "scholarly-type:article-journal:+20"@);
    assert("scholarly-type:"@ + "paper-conference"@ + ":+"@ + decimal(17) =~= "scholarly-type:paper-conference:+17"@);
    assert("scholarly-type:"@ + "chapter"@ + ":+"@ + decimal(12) =~= "scholarly-type:chapter:+12"@);
    assert("scholarly-type:"@ + "book"@ + ":+"@ + decimal(12) =~= "scholarly-type:book:+12"@);
    assert("scholarly-type:"@ + "thesis"@ + ":+"@ + decimal(12) =~= "scholarly-type:thesis:+12"@);
    assert("scholarly-type:"@ + "report"@ + ":+"@ + decimal(12) =~= "scholarly-type:report:+12"@);
    assert("scholarly-type:"@ + "preprint"@ + ":+"@ + decimal(4) =~= "scholarly-type:preprint:+4"@);
}

proof fn lemma_type_signal_is_given(
    work: WorkRecordView,
    plan: ResearchPlanView,
    citation_signals: Seq<Seq<char>>,
    points: u32,
)
    requires
        type_worth(work.work_type, plan.include_preprints) == TypeWorth::Points(points),
    ensures
        signals_of(work, plan, citation_signals).contains(
            "scholarly-type:"@ + work.work_type + ":+"@ + decimal(points as nat),
        ),
{
    let text = "scholarly-type:"@ + work.work_type + ":+"@ + decimal(points as nat);
    let signals = signals_of(work, plan, citation_signals);
    let at: int = if trimmed(work.abstract_text).len() == 0 {
        1
    } else {
        0
    };
    assert(signals[at] == text);
}

/// Each supported type earns exactly its points: a journal article twenty, a conference
/// paper seventeen, a chapter, a book, a thesis and a report twelve, a preprint four
/// where the plan includes preprints.
pub proof fn law_each_type_earns_its_points(
    work: WorkRecordView,
    plan: ResearchPlanView,
    current_year: u32,
    total: Score,
    citation_signals: Seq<Seq<char>>,
    screened_at: Seq<char>,
)
    ensures
        ({
            let found = assessment_of(work, plan, current_year, total, citation_signals, screened_at);
            &&& work.work_type == "article-journal"@ ==> found.signals.contains(
                "scholarly-type:article-journal:+20"@,
            )
            &&& work.work_type == "paper-conference"@ ==> found.signals.contains(
                "scholarly-type:paper-conference:+17"@,
            )
            &&& work.work_type == "chapter"@ ==> found.signals.contains(
                "scholarly-type:chapter:+12"@,
            )
            &&& work.work_type == "book"@ ==> found.signals.contains(
                "scholarly-type:book:+12"@,
            )
            &&& work.work_type == "thesis"@ ==> found.signals.contains(
                "scholarly-type:thesis:+12"@,
            )
            &&& work.work_type == "report"@ ==> found.signals.contains(
                "scholarly-type:report:+12"@,
            )
            &&& work.work_type == "preprint"@ && plan.include_preprints ==> found.signals.contains(
                "scholarly-type:preprint:+4"@,
            )
        }),
{
    lemma_worth_of_types(plan.include_preprints);
    lemma_type_signals();
    if work.work_type == "article-journal"@ {
        lemma_type_signal_is_given(work, plan, citation_signals, 20);
    }
    if work.work_type == "paper-conference"@ {
        lemma_type_signal_is_given(work, plan, citation_signals, 17);
    }
    if work.work_type == "chapter"@ {
        lemma_type_signal_is_given(work, plan, citation_signals, 12);
    }
    if work.work_type == "book"@ {
        lemma_type_signal_is_given(work, plan, citation_signals, 12);
    }
    if work.work_type == "thesis"@ {
        lemma_type_signal_is_given(work, plan, citation_signals, 12);
    }
    if work.work_type == "report"@ {
        lemma_type_signal_is_given(work, plan, citation_signals, 12);
    }
    if work.work_type == "preprint"@ && plan.include_preprints {
        lemma_type_signal_is_given(work, plan, citation_signals, 4);
    }
}

/// The work as one of another type.
pub open spec fn retyped(work: WorkRecordView, work_type: Seq<char>) -> WorkRecordView {
    WorkRecordView { work_type, ..work }
}

/// A type adds exactly its points to those of a work that earns nothing for its type; a
/// type that is neither listed nor refused adds seven.
pub proof fn law_types_add_their_points(
    work: WorkRecordView,
    plan: ResearchPlanView,
    refused: Seq<char>,
    other: Seq<char>,
)
    requires
        refused_types().contains(refused),
        !refused_types().contains(other),
        other != "article-journal"@,
        other != "paper-conference"@,
        other != "chapter"@,
        other != "book"@,
        other != "thesis"@,
        other != "report"@,
        other != "preprint"@,
    ensures
        ({
            let least = points_of(retyped(work, refused), plan).metadata;
            &&& points_of(retyped(work, "article-journal"@), plan).metadata == least + 20
            &&& points_of(retyped(work, "paper-conference"@), plan).metadata == least + 17
            &&& points_of(retyped(work, "chapter"@), plan).metadata == least + 12
            &&& points_of(retyped(work, "book"@), plan).metadata == least + 12
            &&& points_of(retyped(work, "thesis"@), plan).metadata == least + 12
            &&& points_of(retyped(work, "report"@), plan).metadata == least + 12
            &&& points_of(retyped(work, "preprint"@), plan).metadata == least + (
            if plan.include_preprints {
                4int
            } else {
                0
            })
            &&& points_of(retyped(work, other), plan).metadata == least + 7
        }),
{
    lemma_worth_of_types(plan.include_preprints);
    lemma_worth_is_refusal(refused, plan.include_preprints);
    lemma_worth_is_refusal(other, plan.include_preprints);
}

/// A work earns five points for a title, seven for a named author, five for a year,
/// eight for an abstract, eight for a DOI or else four for an arXiv or OpenAlex
/// identifier, five for a venue; besides these seven for summing up evidence and five
/// for an authorized full text.
pub proof fn law_points_are_for_what_is_known(
    work: WorkRecordView,
    plan: ResearchPlanView,
    title: Seq<char>,
)
    requires
        trimmed(title).len() == 0,
    ensures
        ({
            let points = points_of(work, plan);
            let untitled = points_of(WorkRecordView { title, ..work }, plan);
            let without_authors = points_of(
                WorkRecordView { authors: Seq::empty(), ..work },
                plan,
            );
            let without_date = points_of(
                (WorkRecordView {
                    issued: crate::domain::DatePartsView {
                        date_parts: Seq::empty(),
                        raw: work.issued.raw,
                    },
                    ..work
                }),
                plan,
            );
            let without_abstract = points_of(
                WorkRecordView { abstract_text: title, ..work },
                plan,
            );
            let without_ids = points_of(WorkRecordView { ids: Map::empty(), ..work }, plan);
            let without_venue = points_of(
                WorkRecordView { container_title: Seq::empty(), ..work },
                plan,
            );
            &&& points.metadata - untitled.metadata == if trimmed(work.title).len() > 0 {
                5int
            } else {
                0
            }
            &&& points.metadata - without_authors.metadata == if any_named(work.authors) {
                7int
            } else {
                0
            }
            &&& points.metadata - without_date.metadata == if year_of(work) is Some {
                5int
            } else {
                0
            }
            &&& points.metadata - without_abstract.metadata == if trimmed(work.abstract_text).len()
                > 0 {
                8int
            } else {
                0
            }
            &&& points.metadata - without_ids.metadata == if doi_in(work.ids) is Some {
                8int
            } else if arxiv_in(work.ids) is Some || openalex_in(work.ids) is Some {
                4
            } else {
                0
            }
            &&& points.metadata - without_venue.metadata == if work.container_title.len() > 0 {
                5int
            } else {
                0
            }
            &&& points.synthesis == if evidence_synthesis(work.title) {
                7int
            } else {
                0
            }
            &&& points.fulltext == if any_authorized(work.fulltext_candidates) {
                5int
            } else {
                0
            }
        }),
{
}

/// The notes with one more hold what they held, and that one where it is made.
pub proof fn lemma_then_noted(
    before: Seq<Seq<char>>,
    condition: bool,
    note: Seq<char>,
    text: Seq<char>,
)
    ensures
        (before + note_if(condition, note)).contains(text) <==> before.contains(text) || condition
            && text == note,
{
    lemma_among_both(before, note_if(condition, note), text);
    lemma_noted(condition, note, text);
}

/// The first reasons are those of their conditions.
proof fn lemma_first_reasons(
    work: WorkRecordView,
    plan: ResearchPlanView,
    current_year: u32,
    text: Seq<char>,
)
    ensures
        first_rejections(work, plan, current_year).contains(text) <==> {
            ||| (work.flags.contains_key("is_retracted"@) && work.flags["is_retracted"@]) && text == "retracted or withdrawn record"@
            ||| (work.flags.contains_key("is_paratext"@) && work.flags["is_paratext"@]) && text == "paratext rather than a scholarly work"@
            ||| (trimmed(work.title).len() == 0) && text == "missing title"@
            ||| (!any_named(work.authors)) && text == "missing identifiable authorship"@
            ||| (year_of(work) is None) && text == "missing publication year"@
            ||| (year_of(work) is Some && !in_window(year_of(work)->0, plan)) && text == "publication year outside research plan"@
            ||| (year_of(work) is Some && year_of(work)->0 > current_year + 1) && text == "publication year is implausibly far in the future"@
            ||| (!language_wanted(work.language, plan.languages)) && text == "language excluded by research plan"@
            ||| (work.work_type == "preprint"@ && !plan.include_preprints) && text == "preprints excluded by research plan"@
        },
{
    lemma_worth_is_refusal(work.work_type, plan.include_preprints);
    let s0 = note_if(crate::quality::flag_set(work.flags, "is_retracted"@), "retracted or withdrawn record"@);
    lemma_noted(crate::quality::flag_set(work.flags, "is_retracted"@), "retracted or withdrawn record"@, text);
    let s1 = s0 + note_if(crate::quality::flag_set(work.flags, "is_paratext"@), "paratext rather than a scholarly work"@);
    lemma_then_noted(s0, crate::quality::flag_set(work.flags, "is_paratext"@), "paratext rather than a scholarly work"@, text);
    let s2 = s1 + note_if(trimmed(work.title).len() == 0, "missing title"@);
    lemma_then_noted(s1, trimmed(work.title).len() == 0, "missing title"@, text);
    let s3 = s2 + note_if(!any_named(work.authors), "missing identifiable authorship"@);
    lemma_then_noted(s2, !any_named(work.authors), "missing identifiable authorship"@, text);
    let s4 = s3 + note_if(year_of(work) is None, "missing publication year"@);
    lemma_then_noted(s3, year_of(work) is None, "missing publication year"@, text);
    let s5 = s4 + note_if(year_of(work) is Some && !in_window(year_of(work)->0, plan), "publication year outside research plan"@);
    lemma_then_noted(s4, year_of(work) is Some && !in_window(year_of(work)->0, plan), "publication year outside research plan"@, text);
    let s6 = s5 + note_if(year_of(work) is Some && year_of(work)->0 > current_year + 1, "publication year is implausibly far in the future"@);
    lemma_then_noted(s5, year_of(work) is Some && year_of(work)->0 > current_year + 1, "publication year is implausibly far in the future"@, text);
    let s7 = s6 + note_if(!language_wanted(work.language, plan.languages), "language excluded by research plan"@);
    lemma_then_noted(s6, !language_wanted(work.language, plan.languages), "language excluded by research plan"@, text);
    let s8 = s7 + note_if(type_worth(work.work_type, plan.include_preprints) == TypeWorth::ExcludedPreprint, "preprints excluded by research plan"@);
    lemma_then_noted(s7, type_worth(work.work_type, plan.include_preprints) == TypeWorth::ExcludedPreprint, "preprints excluded by research plan"@, text);
    assert(first_rejections(work, plan, current_year) == s8);
}

/// The last reasons are those of their conditions.
proof fn lemma_last_reasons(
    work: WorkRecordView,
    plan: ResearchPlanView,
    current_year: u32,
    score: Score,
    text: Seq<char>,
)
    ensures
        rejections(work, plan, current_year, score).contains(text) <==> {
            ||| first_rejections(work, plan, current_year).contains(text)
            ||| (refused_types().contains(work.work_type)) && text == "unsupported scholarly type: "@ + work.work_type
            ||| (doi_in(work.ids) is None && arxiv_in(work.ids) is None && openalex_in(work.ids) is None) && text == "missing valid persistent identifier"@
            ||| (!plan.include_paywalled && !any_authorized(work.fulltext_candidates)) && text == "no authorized open-access PDF candidate"@
            ||| (score.less(plan.min_quality_score)) && text == "below configured academic-value threshold"@
        },
{
    lemma_worth_is_refusal(work.work_type, plan.include_preprints);
    let s0 = first_rejections(work, plan, current_year);
    let s1 = s0 + note_if(type_worth(work.work_type, plan.include_preprints) == TypeWorth::Unsupported, "unsupported scholarly type: "@ + work.work_type);
    lemma_then_noted(s0, type_worth(work.work_type, plan.include_preprints) == TypeWorth::Unsupported, "unsupported scholarly type: "@ + work.work_type, text);
    let s2 = s1 + note_if(identifier_points(work.ids) == 0, "missing valid persistent identifier"@);
    lemma_then_noted(s1, identifier_points(work.ids) == 0, "missing valid persistent identifier"@, text);
    let s3 = s2 + note_if(!plan.include_paywalled && !any_authorized(work.fulltext_candidates), "no authorized open-access PDF candidate"@);
    lemma_then_noted(s2, !plan.include_paywalled && !any_authorized(work.fulltext_candidates), "no authorized open-access PDF candidate"@, text);
    let s4 = s3 + note_if(score.less(plan.min_quality_score), "below configured academic-value threshold"@);
    lemma_then_noted(s3, score.less(plan.min_quality_score), "below configured academic-value threshold"@, text);
    assert(rejections(work, plan, current_year, score) == s4);
}

/// The reasons are those of their conditions.
proof fn lemma_reasons(
    work: WorkRecordView,
    plan: ResearchPlanView,
    current_year: u32,
    score: Score,
    text: Seq<char>,
)
    ensures
        rejections(work, plan, current_year, score).contains(text) <==> {
            ||| (work.flags.contains_key("is_retracted"@) && work.flags["is_retracted"@]) && text == "retracted or withdrawn record"@
            ||| (work.flags.contains_key("is_paratext"@) && work.flags["is_paratext"@]) && text == "paratext rather than a scholarly work"@
            ||| (trimmed(work.title).len() == 0) && text == "missing title"@
            ||| (!any_named(work.authors)) && text == "missing identifiable authorship"@
            ||| (year_of(work) is None) && text == "missing publication year"@
            ||| (year_of(work) is Some && !in_window(year_of(work)->0, plan)) && text == "publication year outside research plan"@
            ||| (year_of(work) is Some && year_of(work)->0 > current_year + 1) && text == "publication year is implausibly far in the future"@
            ||| (!language_wanted(work.language, plan.languages)) && text == "language excluded by research plan"@
            ||| (work.work_type == "preprint"@ && !plan.include_preprints) && text == "preprints excluded by research plan"@
            ||| (refused_types().contains(work.work_type)) && text == "unsupported scholarly type: "@ + work.work_type
            ||| (doi_in(work.ids) is None && arxiv_in(work.ids) is None && openalex_in(work.ids) is None) && text == "missing valid persistent identifier"@
            ||| (!plan.include_paywalled && !any_authorized(work.fulltext_candidates)) && text == "no authorized open-access PDF candidate"@
            ||| (score.less(plan.min_quality_score)) && text == "below configured academic-value threshold"@
        },
{
    lemma_first_reasons(work, plan, current_year, text);
    lemma_last_reasons(work, plan, current_year, score, text);
}

/// The words of the reasons differ from one another.
proof fn lemma_reasons_differ(work_type: Seq<char>)
    ensures
        "paratext rather than a scholarly work"@ != "retracted or withdrawn record"@,
        "missing title"@ != "retracted or withdrawn record"@,
        "missing title"@ != "paratext rather than a scholarly work"@,
        "missing identifiable authorship"@ != "retracted or withdrawn record"@,
        "missing identifiable authorship"@ != "paratext rather than a scholarly work"@,
        "missing identifiable authorship"@ != "missing title"@,
        "missing publication year"@ != "retracted or withdrawn record"@,
        "missing publication year"@ != "paratext rather than a scholarly work"@,
        "missing publication year"@ != "missing title"@,
        "missing publication year"@ != "missing identifiable authorship"@,
        "publication year outside research plan"@ != "retracted or withdrawn record"@,
        "publication year outside research plan"@ != "paratext rather than a scholarly work"@,
        "publication year outside research plan"@ != "missing title"@,
        "publication year outside research plan"@ != "missing identifiable authorship"@,
        "publication year outside research plan"@ != "missing publication year"@,
        "publication year is implausibly far in the future"@ != "retracted or withdrawn record"@,
        "publication year is implausibly far in the future"@ != "paratext rather than a scholarly work"@,
        "publication year is implausibly far in the future"@ != "missing title"@,
        "publication year is implausibly far in the future"@ != "missing identifiable authorship"@,
        "publication year is implausibly far in the future"@ != "missing publication year"@,
        "publication year is implausibly far in the future"@ != "publication year outside research plan"@,
        "language excluded by research plan"@ != "retracted or withdrawn record"@,
        "language excluded by research plan"@ != "paratext rather than a scholarly work"@,
        "language excluded by research plan"@ != "missing title"@,
        "language excluded by research plan"@ != "missing identifiable authorship"@,
        "language excluded by research plan"@ != "missing publication year"@,
        "language excluded by research plan"@ != "publication year outside research plan"@,
        "language excluded by research plan"@ != "publication year is implausibly far in the future"@,
        "preprints excluded by research plan"@ != "retracted or withdrawn record"@,
        "preprints excluded by research plan"@ != "paratext rather than a scholarly work"@,
        "preprints excluded by research plan"@ != "missing title"@,
        "preprints excluded by research plan"@ != "missing identifiable authorship"@,
        "preprints excluded by research plan"@ != "missing publication year"@,
        "preprints excluded by research plan"@ != "publication year outside research plan"@,
        "preprints excluded by research plan"@ != "publication year is implausibly far in the future"@,
        "preprints excluded by research plan"@ != "language excluded by research plan"@,
        "missing valid persistent identifier"@ != "retracted or withdrawn record"@,
        "missing valid persistent identifier"@ != "paratext rather than a scholarly work"@,
        "missing valid persistent identifier"@ != "missing title"@,
        "missing valid persistent identifier"@ != "missing identifiable authorship"@,
        "missing valid persistent identifier"@ != "missing publication year"@,
        "missing valid persistent identifier"@ != "publication year outside research plan"@,
        "missing valid persistent identifier"@ != "publication year is implausibly far in the future"@,
        "missing valid persistent identifier"@ != "language excluded by research plan"@,
        "missing valid persistent identifier"@ != "preprints excluded by research plan"@,
        "no authorized open-access PDF candidate"@ != "retracted or withdrawn record"@,
        "no authorized open-access PDF candidate"@ != "paratext rather than a scholarly work"@,
        "no authorized open-access PDF candidate"@ != "missing title"@,
        "no authorized open-access PDF candidate"@ != "missing identifiable authorship"@,
        "no authorized open-access PDF candidate"@ != "missing publication year"@,
        "no authorized open-access PDF candidate"@ != "publication year outside research plan"@,
        "no authorized open-access PDF candidate"@ != "publication year is implausibly far in the future"@,
        "no authorized open-access PDF candidate"@ != "language excluded by research plan"@,
        "no authorized open-access PDF candidate"@ != "preprints excluded by research plan"@,
        "no authorized open-access PDF candidate"@ != "missing valid persistent identifier"@,
        "below configured academic-value threshold"@ != "retracted or withdrawn record"@,
        "below configured academic-value threshold"@ != "paratext rather than a scholarly work"@,
        "below configured academic-value threshold"@ != "missing title"@,
        "below configured academic-value threshold"@ != "missing identifiable authorship"@,
        "below configured academic-value threshold"@ != "missing publication year"@,
        "below configured academic-value threshold"@ != "publication year outside research plan"@,
        "below configured academic-value threshold"@ != "publication year is implausibly far in the future"@,
        "below configured academic-value threshold"@ != "language excluded by research plan"@,
        "below configured academic-value threshold"@ != "preprints excluded by research plan"@,
        "below configured academic-value threshold"@ != "missing valid persistent identifier"@,
        "below configured academic-value threshold"@ != "no authorized open-access PDF candidate"@,
        "retracted or withdrawn record"@ != "unsupported scholarly type: "@ + work_type,
        "paratext rather than a scholarly work"@ != "unsupported scholarly type: "@ + work_type,
        "missing title"@ != "unsupported scholarly type: "@ + work_type,
        "missing identifiable authorship"@ != "unsupported scholarly type: "@ + work_type,
        "missing publication year"@ != "unsupported scholarly type: "@ + work_type,
        "publication year outside research plan"@ != "unsupported scholarly type: "@ + work_type,
        "publication year is implausibly far in the future"@ != "unsupported scholarly type: "@ + work_type,
        "language excluded by research plan"@ != "unsupported scholarly type: "@ + work_type,
        "preprints excluded by research plan"@ != "unsupported scholarly type: "@ + work_type,
        "missing valid persistent identifier"@ != "unsupported scholarly type: "@ + work_type,
        "no authorized open-access PDF candidate"@ != "unsupported scholarly type: "@ + work_type,
        "below configured academic-value threshold"@ != "unsupported scholarly type: "@ + work_type,
{
    reveal_strlit("retracted or withdrawn record");
    reveal_strlit("paratext rather than a scholarly work");
    reveal_strlit("missing title");
    reveal_strlit("missing identifiable authorship");
    reveal_strlit("missing publication year");
    reveal_strlit("publication year outside research plan");
    reveal_strlit("publication year is implausibly far in the future");
    reveal_strlit("language excluded by research plan");
    reveal_strlit("preprints excluded by research plan");
    reveal_strlit("missing valid persistent identifier");
    reveal_strlit("no authorized open-access PDF candidate");
    reveal_strlit("below configured academic-value threshold");
    assert("retracted or withdrawn record"@.len() == 29);
    assert("paratext rather than a scholarly work"@.len() == 37);
    assert("missing title"@.len() == 13);
    assert("missing identifiable authorship"@.len() == 31);
    assert("missing publication year"@.len() == 24);
    assert("publication year outside research plan"@.len() == 38);
    assert("publication year is implausibly far in the future"@.len() == 49);
    assert("language excluded by research plan"@.len() == 34);
    assert("preprints excluded by research plan"@.len() == 35);
    assert("missing valid persistent identifier"@.len() == 35);
    assert("no authorized open-access PDF candidate"@.len() == 39);
    assert("below configured academic-value threshold"@.len() == 41);
    reveal_strlit("unsupported scholarly type: ");
    let unsupported = "unsupported scholarly type: "@ + work_type;
    assert(unsupported[0] == 'u');
    assert("missing valid persistent identifier"@[0] != "preprints excluded by research plan"@[0]);
    assert("retracted or withdrawn record"@[0] == 'r');
    assert("paratext rather than a scholarly work"@[0] == 'p');
    assert("missing title"@[0] == 'm');
    assert("missing identifiable authorship"@[0] == 'm');
    assert("missing publication year"@[0] == 'm');
    assert("publication year outside research plan"@[0] == 'p');
    assert("publication year is implausibly far in the future"@[0] == 'p');
    assert("language excluded by research plan"@[0] == 'l');
    assert("preprints excluded by research plan"@[0] == 'p');
    assert("missing valid persistent identifier"@[0] == 'm');
    assert("no authorized open-access PDF candidate"@[0] == 'n');
    assert("below configured academic-value threshold"@[0] == 'b');
}

/// Each reason is given exactly where it holds, and a work passes the first screening
/// exactly where none does.
pub proof fn law_each_reason_is_given_where_it_holds(
    work: WorkRecordView,
    plan: ResearchPlanView,
    current_year: u32,
    total: Score,
    citation_signals: Seq<Seq<char>>,
    screened_at: Seq<char>,
)
    ensures
        ({
            let found = assessment_of(work, plan, current_year, total, citation_signals, screened_at);
            let reasons = found.rejection_reasons;
            &&& reasons.contains("retracted or withdrawn record"@) <==> work.flags.contains_key("is_retracted"@) && work.flags["is_retracted"@]
            &&& reasons.contains("paratext rather than a scholarly work"@) <==> work.flags.contains_key("is_paratext"@) && work.flags["is_paratext"@]
            &&& reasons.contains("missing title"@) <==> trimmed(work.title).len() == 0
            &&& reasons.contains("missing identifiable authorship"@) <==> !any_named(work.authors)
            &&& reasons.contains("missing publication year"@) <==> year_of(work) is None
            &&& reasons.contains("publication year outside research plan"@) <==> year_of(work) is Some && !in_window(year_of(work)->0, plan)
            &&& reasons.contains("publication year is implausibly far in the future"@) <==> year_of(work) is Some && year_of(work)->0 > current_year + 1
            &&& reasons.contains("language excluded by research plan"@) <==> !language_wanted(work.language, plan.languages)
            &&& reasons.contains("preprints excluded by research plan"@) <==> work.work_type == "preprint"@ && !plan.include_preprints
            &&& reasons.contains("missing valid persistent identifier"@) <==> doi_in(work.ids) is None && arxiv_in(work.ids) is None && openalex_in(work.ids) is None
            &&& reasons.contains("no authorized open-access PDF candidate"@) <==> !plan.include_paywalled && !any_authorized(work.fulltext_candidates)
            &&& reasons.contains("below configured academic-value threshold"@) <==> found.score.less(plan.min_quality_score)
            &&& reasons.contains("unsupported scholarly type: "@ + work.work_type) <==> refused_types().contains(
                work.work_type,
            )
            &&& found.accepted <==> forall|text: Seq<char>| !#[trigger] reasons.contains(text)
        }),
{
    let found = assessment_of(work, plan, current_year, total, citation_signals, screened_at);
    let reasons = found.rejection_reasons;
    lemma_reasons_differ(work.work_type);
    lemma_reasons(work, plan, current_year, found.score, "retracted or withdrawn record"@);
    lemma_reasons(work, plan, current_year, found.score, "paratext rather than a scholarly work"@);
    lemma_reasons(work, plan, current_year, found.score, "missing title"@);
    lemma_reasons(work, plan, current_year, found.score, "missing identifiable authorship"@);
    lemma_reasons(work, plan, current_year, found.score, "missing publication year"@);
    lemma_reasons(work, plan, current_year, found.score, "publication year outside research plan"@);
    lemma_reasons(work, plan, current_year, found.score, "publication year is implausibly far in the future"@);
    lemma_reasons(work, plan, current_year, found.score, "language excluded by research plan"@);
    lemma_reasons(work, plan, current_year, found.score, "preprints excluded by research plan"@);
    lemma_reasons(work, plan, current_year, found.score, "missing valid persistent identifier"@);
    lemma_reasons(work, plan, current_year, found.score, "no authorized open-access PDF candidate"@);
    lemma_reasons(work, plan, current_year, found.score, "below configured academic-value threshold"@);
    lemma_reasons(work, plan, current_year, found.score, "unsupported scholarly type: "@ + work.work_type);
    if reasons.len() > 0 {
        assert(reasons.contains(reasons[0]));
    }
}

/// Only the listed types are refused for their type: a work of another type never gets
/// such a reason.
pub proof fn law_only_listed_types_are_refused(
    work: WorkRecordView,
    plan: ResearchPlanView,
    current_year: u32,
    total: Score,
    citation_signals: Seq<Seq<char>>,
    screened_at: Seq<char>,
    text: Seq<char>,
)
    requires
        !refused_types().contains(work.work_type),
        begins_with(text, "unsupported scholarly type: "@),
    ensures
        !assessment_of(work, plan, current_year, total, citation_signals, screened_at).rejection_reasons.contains(text),
{
    let found = assessment_of(work, plan, current_year, total, citation_signals, screened_at);
    lemma_reasons(work, plan, current_year, found.score, text);
    reveal_strlit("unsupported scholarly type: ");
    assert("unsupported scholarly type: "@.len() == 28);
    assert(text[0] == "unsupported scholarly type: "@[0]);
    lemma_reasons_differ(work.work_type);
    reveal_strlit("retracted or withdrawn record");
    reveal_strlit("paratext rather than a scholarly work");
    reveal_strlit("missing title");
    reveal_strlit("missing identifiable authorship");
    reveal_strlit("missing publication year");
    reveal_strlit("publication year outside research plan");
    reveal_strlit("publication year is implausibly far in the future");
    reveal_strlit("language excluded by research plan");
    reveal_strlit("preprints excluded by research plan");
    reveal_strlit("missing valid persistent identifier");
    reveal_strlit("no authorized open-access PDF candidate");
    reveal_strlit("below configured academic-value threshold");
    assert("retracted or withdrawn record"@.len() == 29);
    assert("paratext rather than a scholarly work"@.len() == 37);
    assert("missing title"@.len() == 13);
    assert("missing identifiable authorship"@.len() == 31);
    assert("missing publication year"@.len() == 24);
    assert("publication year outside research plan"@.len() == 38);
    assert("publication year is implausibly far in the future"@.len() == 49);
    assert("language excluded by research plan"@.len() == 34);
    assert("preprints excluded by research plan"@.len() == 35);
    assert("missing valid persistent identifier"@.len() == 35);
    assert("no authorized open-access PDF candidate"@.len() == 39);
    assert("below configured academic-value threshold"@.len() == 41);
    assert("retracted or withdrawn record"@[0] == 'r');
    assert("paratext rather than a scholarly work"@[0] == 'p');
    assert("missing title"@[0] == 'm');
    assert("missing identifiable authorship"@[0] == 'm');
    assert("missing publication year"@[0] == 'm');
    assert("publication year outside research plan"@[0] == 'p');
    assert("publication year is implausibly far in the future"@[0] == 'p');
    assert("language excluded by research plan"@[0] == 'l');
    assert("preprints excluded by research plan"@[0] == 'p');
    assert("missing valid persistent identifier"@[0] == 'm');
    assert("no authorized open-access PDF candidate"@[0] == 'n');
    assert("below configured academic-value threshold"@[0] == 'b');
}

/// The signals are those of their conditions, that of the type and those of the citations.
proof fn lemma_signals(
    work: WorkRecordView,
    plan: ResearchPlanView,
    citation_signals: Seq<Seq<char>>,
    points: u32,
    text: Seq<char>,
)
    requires
        points == crate::quality::type_points(
            type_worth(work.work_type, plan.include_preprints),
        ),
    ensures
        signals_of(work, plan, citation_signals).contains(text) <==> {
            ||| (trimmed(work.abstract_text).len() == 0) && text == "screening-abstract-unavailable:+0"@
            ||| (doi_in(work.ids) is Some) && text == "persistent-identifier:doi:+8"@
            ||| (doi_in(work.ids) is None && (arxiv_in(work.ids) is Some || openalex_in(work.ids) is Some)) && text == "persistent-identifier:repository:+4"@
            ||| (work.container_title.len() > 0) && text == "venue-metadata:+5"@
            ||| (evidence_synthesis(work.title)) && text == "evidence-synthesis:+7"@
            ||| (any_authorized(work.fulltext_candidates)) && text == "authorized-fulltext:+5"@
            ||| text == "scholarly-type:"@ + work.work_type + ":+"@ + decimal(points as nat)
            ||| citation_signals.contains(text)
        },
{
    let kind = "scholarly-type:"@ + work.work_type + ":+"@ + decimal(points as nat);
    let row = seq![kind];
    assert(row.contains(text) <==> text == kind) by {
        assert(row[0] == kind);
    }
    let n0 = note_if(trimmed(work.abstract_text).len() == 0, "screening-abstract-unavailable:+0"@);
    lemma_noted(trimmed(work.abstract_text).len() == 0, "screening-abstract-unavailable:+0"@, text);
    let n1 = note_if(identifier_points(work.ids) == 8, "persistent-identifier:doi:+8"@);
    lemma_noted(identifier_points(work.ids) == 8, "persistent-identifier:doi:+8"@, text);
    let n2 = note_if(identifier_points(work.ids) == 4, "persistent-identifier:repository:+4"@);
    lemma_noted(identifier_points(work.ids) == 4, "persistent-identifier:repository:+4"@, text);
    let n3 = note_if(work.container_title.len() > 0, "venue-metadata:+5"@);
    lemma_noted(work.container_title.len() > 0, "venue-metadata:+5"@, text);
    let n4 = note_if(evidence_synthesis(work.title), "evidence-synthesis:+7"@);
    lemma_noted(evidence_synthesis(work.title), "evidence-synthesis:+7"@, text);
    let n5 = note_if(any_authorized(work.fulltext_candidates), "authorized-fulltext:+5"@);
    lemma_noted(any_authorized(work.fulltext_candidates), "authorized-fulltext:+5"@, text);
    let s1 = n0 + row;
    lemma_among_both(n0, row, text);
    let s2 = s1 + n1;
    lemma_among_both(s1, n1, text);
    let s3 = s2 + n2;
    lemma_among_both(s2, n2, text);
    let s4 = s3 + n3;
    lemma_among_both(s3, n3, text);
    let s5 = s4 + citation_signals;
    lemma_among_both(s4, citation_signals, text);
    let s6 = s5 + n4;
    lemma_among_both(s5, n4, text);
    let s7 = s6 + n5;
    lemma_among_both(s6, n5, text);
    assert(signals_of(work, plan, citation_signals) == s7);
}

/// Each signal is given exactly where it holds, beside those of the citations.
pub proof fn law_each_signal_is_given_where_it_holds(
    work: WorkRecordView,
    plan: ResearchPlanView,
    current_year: u32,
    total: Score,
    citation_signals: Seq<Seq<char>>,
    screened_at: Seq<char>,
)
    requires
        !citation_signals.contains("screening-abstract-unavailable:+0"@),
        !citation_signals.contains("persistent-identifier:doi:+8"@),
        !citation_signals.contains("persistent-identifier:repository:+4"@),
        !citation_signals.contains("venue-metadata:+5"@),
        !citation_signals.contains("evidence-synthesis:+7"@),
        !citation_signals.contains("authorized-fulltext:+5"@),
    ensures
        ({
            let signals = assessment_of(work, plan, current_year, total, citation_signals, screened_at).signals;
            &&& signals.contains("screening-abstract-unavailable:+0"@) <==> trimmed(work.abstract_text).len() == 0
            &&& signals.contains("persistent-identifier:doi:+8"@) <==> doi_in(work.ids) is Some
            &&& signals.contains("persistent-identifier:repository:+4"@) <==> doi_in(work.ids) is None && (arxiv_in(work.ids) is Some || openalex_in(work.ids) is Some)
            &&& signals.contains("venue-metadata:+5"@) <==> work.container_title.len() > 0
            &&& signals.contains("evidence-synthesis:+7"@) <==> evidence_synthesis(work.title)
            &&& signals.contains("authorized-fulltext:+5"@) <==> any_authorized(work.fulltext_candidates)
            &&& forall|i: int|
                0 <= i < citation_signals.len() ==> signals.contains(
                    #[trigger] citation_signals[i],
                )
        }),
{
    let points = crate::quality::type_points(type_worth(work.work_type, plan.include_preprints));
    let kind = "scholarly-type:"@ + work.work_type + ":+"@ + decimal(points as nat);
    reveal_strlit("screening-abstract-unavailable:+0");
    reveal_strlit("persistent-identifier:doi:+8");
    reveal_strlit("persistent-identifier:repository:+4");
    reveal_strlit("venue-metadata:+5");
    reveal_strlit("evidence-synthesis:+7");
    reveal_strlit("authorized-fulltext:+5");
    assert("screening-abstract-unavailable:+0"@.len() == 33);
    assert("persistent-identifier:doi:+8"@.len() == 28);
    assert("persistent-identifier:repository:+4"@.len() == 35);
    assert("venue-metadata:+5"@.len() == 17);
    assert("evidence-synthesis:+7"@.len() == 21);
    assert("authorized-fulltext:+5"@.len() == 22);
    reveal_strlit("scholarly-type:");
    assert(kind[0] == 's' && kind[1] == 'c' && kind[2] == 'h');
    assert("screening-abstract-unavailable:+0"@[2] == 'r');
    assert("persistent-identifier:doi:+8"@[0] == 'p');
    assert("persistent-identifier:repository:+4"@[0] == 'p');
    assert("venue-metadata:+5"@[0] == 'v');
    assert("evidence-synthesis:+7"@[0] == 'e');
    assert("authorized-fulltext:+5"@[0] == 'a');
    lemma_signals(work, plan, citation_signals, points, "screening-abstract-unavailable:+0"@);
    lemma_signals(work, plan, citation_signals, points, "persistent-identifier:doi:+8"@);
    lemma_signals(work, plan, citation_signals, points, "persistent-identifier:repository:+4"@);
    lemma_signals(work, plan, citation_signals, points, "venue-metadata:+5"@);
    lemma_signals(work, plan, citation_signals, points, "evidence-synthesis:+7"@);
    lemma_signals(work, plan, citation_signals, points, "authorized-fulltext:+5"@);
    assert forall|i: int| 0 <= i < citation_signals.len() implies assessment_of(work, plan, current_year, total, citation_signals, screened_at).signals.contains(
        #[trigger] citation_signals[i],
    ) by {
        lemma_signals(work, plan, citation_signals, points, citation_signals[i]);
    }
}

/// The number eighty.
pub const TIER_A: u64 = 0x4054_0000_0000_0000;

/// The number sixty-five.
pub const TIER_B: u64 = 0x4050_4000_0000_0000;

/// The number fifty.
pub const TIER_C: u64 = 0x4049_0000_0000_0000;

/// The class of a work is A from a score of eighty on, B from sixty-five on, C from fifty
/// on, and D below.
pub proof fn law_the_class_follows_the_score(
    work: WorkRecordView,
    plan: ResearchPlanView,
    current_year: u32,
    total: Score,
    citation_signals: Seq<Seq<char>>,
    screened_at: Seq<char>,
)
    ensures
        ({
            let found = assessment_of(work, plan, current_year, total, citation_signals, screened_at);
            &&& found.tier == "A"@ <==> Score::from_bits(TIER_A).at_most(found.score)
            &&& found.tier == "B"@ <==> Score::from_bits(TIER_B).at_most(found.score)
                && !Score::from_bits(TIER_A).at_most(found.score)
            &&& found.tier == "C"@ <==> Score::from_bits(TIER_C).at_most(found.score)
                && !Score::from_bits(TIER_B).at_most(found.score)
                && !Score::from_bits(TIER_A).at_most(found.score)
            &&& found.tier == "D"@ <==> !Score::from_bits(TIER_C).at_most(found.score)
                && !Score::from_bits(TIER_B).at_most(found.score)
                && !Score::from_bits(TIER_A).at_most(found.score)
        }),
{
    reveal_strlit("A");
    reveal_strlit("B");
    reveal_strlit("C");
    reveal_strlit("D");
    assert("A"@[0] == 'A' && "B"@[0] == 'B' && "C"@[0] == 'C' && "D"@[0] == 'D');
}

/// The number zero.
pub const NOTHING: u64 = 0;

/// The number one hundred.
pub const FULL: u64 = 0x4059_0000_0000_0000;

/// A score between zero and a hundred is what the points add up to; one outside is moved
/// to the nearer bound. Nothing is known of the relevance yet.
pub proof fn law_a_fair_score_stays(
    work: WorkRecordView,
    plan: ResearchPlanView,
    current_year: u32,
    total: Score,
    citation_signals: Seq<Seq<char>>,
    screened_at: Seq<char>,
)
    ensures
        ({
            let found = assessment_of(work, plan, current_year, total, citation_signals, screened_at);
            &&& total.within(Score::from_bits(NOTHING), Score::from_bits(FULL)) ==> found.score
                == total
            &&& total.less(Score::from_bits(NOTHING)) ==> found.score == Score::from_bits(NOTHING)
            &&& Score::from_bits(FULL).less(total) && !total.less(Score::from_bits(NOTHING))
                ==> found.score == Score::from_bits(FULL)
            &&& found.relevance_score == Score::from_bits(NOTHING)
            &&& found.relevance_logit is None
            &&& found.priority_score == Score::from_bits(NOTHING)
            &&& found.screened_at == screened_at
        }),
{
}

/// The number one.
pub const CERTAIN: u64 = 0x3ff0_0000_0000_0000;

/// Relevance adds to what screening found and changes none of it: score, class and
/// signals stay, the earlier reasons stay, and one reason follows them exactly where the
/// relevance is too low.
pub proof fn law_relevance_adds_to_what_was_found(
    found: QualityAssessmentView,
    logit: Score,
    relevance: Score,
    priority: Score,
    plan: ResearchPlanView,
)
    ensures
        ({
            let ranked = with_relevance(found, logit, relevance, priority, plan);
            &&& ranked.score == found.score
            &&& ranked.tier == found.tier
            &&& ranked.signals == found.signals
            &&& ranked.screened_at == found.screened_at
            &&& ranked.relevance_logit == Some(logit)
            &&& ranked.priority_score == priority
            &&& relevance.within(Score::from_bits(NOTHING), Score::from_bits(CERTAIN))
                ==> ranked.relevance_score == relevance
            &&& relevance.less(Score::from_bits(NOTHING)) ==> ranked.relevance_score
                == Score::from_bits(NOTHING)
            &&& Score::from_bits(CERTAIN).less(relevance) && !relevance.less(
                Score::from_bits(NOTHING),
            ) ==> ranked.relevance_score == Score::from_bits(CERTAIN)
            &&& ranked.relevance_score.less(plan.min_relevance_score) ==> ranked.rejection_reasons
                == found.rejection_reasons.push("below configured relevance threshold"@)
            &&& !ranked.relevance_score.less(plan.min_relevance_score) ==> ranked.rejection_reasons
                == found.rejection_reasons
            &&& ranked.accepted <==> found.rejection_reasons.len() == 0
                && plan.min_quality_score.at_most(found.score) && plan.min_relevance_score.at_most(
                ranked.relevance_score,
            )
        }),
{
    let note = note_if(true, "below configured relevance threshold"@);
    assert(found.rejection_reasons + note =~= found.rejection_reasons.push(
        "below configured relevance threshold"@,
    ));
    assert(found.rejection_reasons + Seq::<Seq<char>>::empty() =~= found.rejection_reasons);
}

/// Citations count over the years since the work appeared, and over one year where it is
/// of this year, of a later one, or of none that is known.
pub proof fn law_citations_count_by_the_year(year: Option<u32>, current_year: u32)
    ensures
        age_of(year, current_year) >= 1,
        year matches Some(value) ==> value < current_year ==> value + age_of(year, current_year)
            == current_year,
        year matches Some(value) ==> value >= current_year ==> age_of(year, current_year) == 1,
        year is None ==> age_of(year, current_year) == 1,
{
}

/// A work sums up evidence exactly where its title, in lowercase, speaks of a systematic
/// review, a meta-analysis, a scoping review or a survey.
pub proof fn law_reviews_sum_up_evidence(title: Seq<char>)
    ensures
        evidence_synthesis(title) <==> {
            ||| holds_text(lowered(title), "systematic review"@)
            ||| holds_text(lowered(title), "meta-analysis"@)
            ||| holds_text(lowered(title), "meta analysis"@)
            ||| holds_text(lowered(title), "scoping review"@)
            ||| holds_text(lowered(title), "survey"@)
        },
{
}

/// Every language is wanted where the plan names none, and so is a work whose language is
/// not known; a language that the plan names is wanted.
pub proof fn law_named_languages_are_wanted(language: Seq<char>, languages: Seq<Seq<char>>)
    ensures
        languages.len() == 0 ==> language_wanted(language, languages),
        trimmed(language).len() == 0 ==> language_wanted(language, languages),
        languages.contains(language) ==> language_wanted(language, languages),
{
    if languages.contains(language) {
        let i = choose|i: int| 0 <= i < languages.len() && languages[i] == language;
        assert(crate::quality::same_language(language, languages[i]));
    }
}

/// A language of a region is wanted where the plan names the language, and a language where
/// the plan names it in a region, whatever their case.
pub proof fn law_regions_make_no_difference(
    tag: Seq<char>,
    region: Seq<char>,
    languages: Seq<Seq<char>>,
)
    requires
        !tag.contains('-'),
    ensures
        languages.contains(tag) ==> language_wanted(tag + "-"@ + region, languages),
        languages.contains(tag + "-"@ + region) ==> language_wanted(tag, languages),
        languages.contains(ascii_lower(tag)) ==> language_wanted(tag, languages),
{
    reveal_strlit("-");
    let full = tag + "-"@ + region;
    lemma_primary_tag(tag, "-"@ + region);
    lemma_primary_tag(tag, Seq::empty());
    assert(full =~= tag + ("-"@ + region));
    assert(tag + Seq::<char>::empty() =~= tag);
    if languages.contains(tag) {
        let i = choose|i: int| 0 <= i < languages.len() && languages[i] == tag;
        assert(crate::quality::same_language(full, languages[i]));
    }
    if languages.contains(full) {
        let i = choose|i: int| 0 <= i < languages.len() && languages[i] == full;
        assert(crate::quality::same_language(tag, languages[i]));
    }
    if languages.contains(ascii_lower(tag)) {
        let i = choose|i: int| 0 <= i < languages.len() && languages[i] == ascii_lower(tag);
        assert(ascii_lower(ascii_lower(tag)) =~= ascii_lower(tag));
        assert(crate::quality::same_language(tag, languages[i]));
    }
}

proof fn lemma_primary_tag(tag: Seq<char>, rest: Seq<char>)
    requires
        !tag.contains('-'),
        rest.len() > 0 ==> rest[0] == '-',
    ensures
        crate::quality::primary_tag(tag + rest) == tag,
{
    lemma_first_hyphen(tag, rest);
    assert((tag + rest).take(tag.len() as int) =~= tag);
}

proof fn lemma_first_hyphen(tag: Seq<char>, rest: Seq<char>)
    requires
        !tag.contains('-'),
        rest.len() > 0 ==> rest[0] == '-',
    ensures
        first_of(tag + rest, "-"@) == tag.len(),
    decreases tag.len(),
{
    reveal_strlit("-");
    assert(forall|c: char| "-"@.contains(c) <==> c == '-') by {
        assert("-"@[0] == '-');
    }
    let all = tag + rest;
    if tag.len() > 0 {
        assert(tag[0] != '-');
        assert(all[0] == tag[0]);
        let fewer = tag.skip(1);
        assert(!fewer.contains('-')) by {
            if fewer.contains('-') {
                let i = choose|i: int| 0 <= i < fewer.len() && fewer[i] == '-';
                assert(tag[i + 1] == '-');
            }
        }
        lemma_first_hyphen(fewer, rest);
        assert(all.drop_first() =~= fewer + rest);
    } else {
        assert(all =~= rest);
    }
}

} // verus!
