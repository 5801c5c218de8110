//! The academic value of works, and whether they pass screening.

use crate::discovery::{arxiv_in, find_arxiv, find_openalex, in_window, openalex_in, read_year};
use crate::domain::{
    any_authorized, doi_in, find_doi, year_of, Author, AuthorView, QualityAssessment,
    QualityAssessmentView, ResearchPlan, ResearchPlanView, WorkRecord, WorkRecordView,
};
use crate::model::views;
use crate::score::{Score, EIGHTY, FIFTY, HUNDRED, ONE, SIXTY_FIVE, ZERO};
use crate::table::TextMap;
use crate::text::{
    ascii_lower, chars_of, contains, decimal, decimal_text, eq_ignore_ascii_case,
    find_first, first_of, holds_text, is_blank, lower, lowered, same_text, text_of, texts, trimmed,
};
use vstd::prelude::*;
use vstd::string::StringExecFns;

verus! {

/// The flag is set.
pub open spec fn flag_set(flags: Map<Seq<char>, bool>, name: Seq<char>) -> bool {
    flags.contains_key(name) && flags[name]
}

/// Whether the flag is set.
pub fn is_set(flags: &TextMap<bool>, name: &str) -> (r: bool)
    ensures
        r == flag_set(flags@, name@),
{
    match flags.get(name) {
        Some(flag) => *flag,
        None => false,
    }
}

/// The author has a name that is not blank.
pub open spec fn named(author: AuthorView) -> bool {
    trimmed(author.literal).len() > 0 || trimmed(author.family).len() > 0 || trimmed(
        author.given,
    ).len() > 0
}

/// Some author has a name.
pub open spec fn any_named(authors: Seq<AuthorView>) -> bool {
    exists|i: int| 0 <= i < authors.len() && named(#[trigger] authors[i])
}

/// Whether some author has a name.
pub fn has_named_author(authors: &Vec<Author>) -> (r: bool)
    ensures
        r == any_named(views(authors@)),
{
    let ghost all = views(authors@);
    let mut i: usize = 0;
    while i < authors.len()
        invariant
            i <= authors@.len(),
            all == views(authors@),
            forall|j: int| 0 <= j < i ==> !named(#[trigger] all[j]),
        decreases authors@.len() - i,
    {
        assert(all[i as int] == authors@[i as int]@);
        if !is_blank(&authors[i].literal) || !is_blank(&authors[i].family) || !is_blank(
            &authors[i].given,
        ) {
            return true;
        }
        i += 1;
    }
    false
}

/// The tag of a language before its first hyphen.
pub open spec fn primary_tag(language: Seq<char>) -> Seq<char> {
    language.take(first_of(language, "-"@) as int)
}

/// Both tags name one language, as a whole or by their first part.
pub open spec fn same_language(a: Seq<char>, b: Seq<char>) -> bool {
    ascii_lower(a) == ascii_lower(b) || ascii_lower(primary_tag(a)) == ascii_lower(primary_tag(b))
}

/// The language is one that the plan names, or one of the two says nothing.
pub open spec fn language_wanted(language: Seq<char>, languages: Seq<Seq<char>>) -> bool {
    ||| languages.len() == 0
    ||| trimmed(language).len() == 0
    ||| exists|i: int| 0 <= i < languages.len() && same_language(language, #[trigger] languages[i])
}

fn first_tag(language: &str) -> (r: String)
    ensures
        r@ == primary_tag(language@),
{
    let chars = chars_of(language);
    let at = find_first(&chars, "-");
    assert(chars@.subrange(0, at as int) =~= chars@.take(at as int));
    text_of(&chars, 0, at)
}

fn wants_language(language: &str, languages: &Vec<String>) -> (r: bool)
    ensures
        r == language_wanted(language@, texts(languages@)),
{
    if languages.len() == 0 || is_blank(language) {
        return true;
    }
    let ghost all = texts(languages@);
    let primary = first_tag(language);
    let mut i: usize = 0;
    while i < languages.len()
        invariant
            i <= languages@.len(),
            all == texts(languages@),
            primary@ == primary_tag(language@),
            forall|j: int| 0 <= j < i ==> !same_language(language@, #[trigger] all[j]),
        decreases languages@.len() - i,
    {
        assert(all[i as int] == languages@[i as int]@);
        if eq_ignore_ascii_case(language, &languages[i]) || eq_ignore_ascii_case(
            &primary,
            &first_tag(&languages[i]),
        ) {
            return true;
        }
        i += 1;
    }
    false
}

/// What a type of work is worth.
#[derive(Clone, Copy, Debug, PartialEq, Eq, Structural)]
pub enum TypeWorth {
    Points(u32),
    ExcludedPreprint,
    Unsupported,
}

/// The type is of news, slides or a poster.
pub open spec fn passing_format(work_type: Seq<char>) -> bool {
    work_type == "news"@ || work_type == "news-article"@ || work_type == "newspaper-article"@
        || work_type == "slides"@ || work_type == "presentation"@ || work_type == "poster"@
        || work_type == "conference-poster"@
}

/// The type is of what is no eligible scholarly work.
pub open spec fn unsupported_type(work_type: Seq<char>) -> bool {
    work_type == "dataset"@ || work_type == "editorial"@ || work_type == "peer-review"@ || work_type
        == "paratext"@ || work_type == "journal"@ || work_type == "proceedings"@ || work_type
        == "reference-entry"@ || work_type == "grant"@ || work_type == "standard"@ || work_type
        == "component"@ || work_type == "other"@ || passing_format(work_type)
}

fn is_passing_format(work_type: &str) -> (r: bool)
    ensures
        r == passing_format(work_type@),
{
    same_text(work_type, "news") || same_text(work_type, "news-article") || same_text(
        work_type,
        "newspaper-article",
    ) || same_text(work_type, "slides") || same_text(work_type, "presentation") || same_text(
        work_type,
        "poster",
    ) || same_text(work_type, "conference-poster")
}

fn is_unsupported_type(work_type: &str) -> (r: bool)
    ensures
        r == unsupported_type(work_type@),
{
    same_text(work_type, "dataset") || same_text(work_type, "editorial") || same_text(
        work_type,
        "peer-review",
    ) || same_text(work_type, "paratext") || same_text(work_type, "journal") || same_text(
        work_type,
        "proceedings",
    ) || same_text(work_type, "reference-entry") || same_text(work_type, "grant") || same_text(
        work_type,
        "standard",
    ) || same_text(work_type, "component") || same_text(work_type, "other") || is_passing_format(
        work_type,
    )
}

/// What a type of work is worth.
pub open spec fn type_worth(work_type: Seq<char>, include_preprints: bool) -> TypeWorth {
    if work_type == "article-journal"@ {
        TypeWorth::Points(20)
    } else if work_type == "paper-conference"@ {
        TypeWorth::Points(17)
    } else if work_type == "chapter"@ || work_type == "book"@ || work_type == "thesis"@ || work_type
        == "report"@ {
        TypeWorth::Points(12)
    } else if work_type == "preprint"@ {
        if include_preprints {
            TypeWorth::Points(4)
        } else {
            TypeWorth::ExcludedPreprint
        }
    } else if unsupported_type(work_type) {
        TypeWorth::Unsupported
    } else {
        TypeWorth::Points(7)
    }
}

/// What a type of work is worth.
pub fn rate_type(work_type: &str, include_preprints: bool) -> (r: TypeWorth)
    ensures
        r == type_worth(work_type@, include_preprints),
{
    if same_text(work_type, "article-journal") {
        TypeWorth::Points(20)
    } else if same_text(work_type, "paper-conference") {
        TypeWorth::Points(17)
    } else if same_text(work_type, "chapter") || same_text(work_type, "book") || same_text(
        work_type,
        "thesis",
    ) || same_text(work_type, "report") {
        TypeWorth::Points(12)
    } else if same_text(work_type, "preprint") {
        if include_preprints {
            TypeWorth::Points(4)
        } else {
            TypeWorth::ExcludedPreprint
        }
    } else if is_unsupported_type(work_type) {
        TypeWorth::Unsupported
    } else {
        TypeWorth::Points(7)
    }
}

/// The points of a type.
pub open spec fn type_points(worth: TypeWorth) -> u32 {
    match worth {
        TypeWorth::Points(points) => points,
        _ => 0,
    }
}

/// What the identifiers of a work are worth.
pub open spec fn identifier_points(ids: Map<Seq<char>, Seq<char>>) -> u32 {
    if doi_in(ids) is Some {
        8
    } else if arxiv_in(ids) is Some || openalex_in(ids) is Some {
        4
    } else {
        0
    }
}

/// The title says that the work sums up the evidence of others.
pub open spec fn evidence_synthesis(title: Seq<char>) -> bool {
    let plain = lowered(title);
    ||| holds_text(plain, "systematic review"@)
    ||| holds_text(plain, "meta-analysis"@)
    ||| holds_text(plain, "meta analysis"@)
    ||| holds_text(plain, "scoping review"@)
    ||| holds_text(plain, "survey"@)
}

fn is_synthesis(title: &str) -> (r: bool)
    ensures
        r == evidence_synthesis(title@),
{
    let plain = lower(title);
    contains(&plain, "systematic review") || contains(&plain, "meta-analysis") || contains(
        &plain,
        "meta analysis",
    ) || contains(&plain, "scoping review") || contains(&plain, "survey")
}

/// The points of a work apart from its citations.
#[derive(Clone, Copy, Debug, PartialEq, Eq, Structural)]
pub struct Points {
    /// For what is known of the work, before its citations count.
    pub metadata: u32,
    /// For summing up evidence.
    pub synthesis: u32,
    /// For an authorized full text.
    pub fulltext: u32,
}

/// The number where the condition holds, else zero.
pub open spec fn points_if(condition: bool, points: u32) -> int {
    if condition {
        points as int
    } else {
        0
    }
}

/// The points of a work apart from its citations.
pub open spec fn points_of(work: WorkRecordView, plan: ResearchPlanView) -> Points {
    Points {
        metadata: (points_if(trimmed(work.title).len() > 0, 5) + points_if(
            any_named(work.authors),
            7,
        ) + points_if(year_of(work) is Some, 5) + points_if(
            trimmed(work.abstract_text).len() > 0,
            8,
        ) + type_points(type_worth(work.work_type, plan.include_preprints)) + identifier_points(
            work.ids,
        ) + points_if(work.container_title.len() > 0, 5)) as u32,
        synthesis: points_if(evidence_synthesis(work.title), 7) as u32,
        fulltext: points_if(any_authorized(work.fulltext_candidates), 5) as u32,
    }
}

fn points_when(condition: bool, points: u32) -> (r: u32)
    ensures
        r == points_if(condition, points),
{
    if condition {
        points
    } else {
        0
    }
}

fn rate_identifiers(record: &WorkRecord) -> (r: u32)
    ensures
        r == identifier_points(record@.ids),
{
    if find_doi(&record.ids).is_some() {
        8
    } else if find_arxiv(&record.ids).is_some() || find_openalex(&record.ids).is_some() {
        4
    } else {
        0
    }
}

/// The points of the work apart from its citations.
pub fn count_points(record: &WorkRecord, plan: &ResearchPlan) -> (r: Points)
    ensures
        r == points_of(record@, plan@),
{
    let type_part: u32 = match rate_type(&record.work_type, plan.include_preprints) {
        TypeWorth::Points(points) => points,
        TypeWorth::ExcludedPreprint => 0,
        TypeWorth::Unsupported => 0,
    };
    let metadata: u32 = points_when(!is_blank(&record.title), 5) + points_when(
        has_named_author(&record.authors),
        7,
    ) + points_when(record.year().is_some(), 5) + points_when(
        !is_blank(&record.abstract_text),
        8,
    ) + type_part + rate_identifiers(record) + points_when(
        !record.container_title.as_str().is_empty(),
        5,
    );
    Points {
        metadata,
        synthesis: points_when(is_synthesis(&record.title), 7),
        fulltext: points_when(record.has_authorized_fulltext(), 5),
    }
}

/// Over how many years the citations of a work count.
pub open spec fn age_of(year: Option<u32>, current_year: u32) -> u32 {
    match year {
        Some(value) => if value < current_year {
            (current_year - value) as u32
        } else {
            1
        },
        None => 1,
    }
}

/// Over how many years the citations of the work count: at least one.
pub fn citation_age(record: &WorkRecord, current_year: u32) -> (r: u32)
    ensures
        r == age_of(year_of(record@), current_year),
        r >= 1,
{
    match record.year() {
        Some(year) => {
            if year < current_year {
                current_year - year
            } else {
                1
            }
        },
        None => 1,
    }
}

/// What the citations of a work add: the score with them and all other points, and
/// the signals that say how much each figure adds.
#[derive(Debug)]
pub struct CitationEvidence {
    pub total: Score,
    pub signals: Vec<String>,
}

/// The text, where the condition holds.
pub open spec fn note_if(condition: bool, text: Seq<char>) -> Seq<Seq<char>> {
    if condition {
        seq![text]
    } else {
        Seq::empty()
    }
}

/// The class of a score.
pub open spec fn tier_of(score: Score) -> Seq<char> {
    if Score::from_bits(EIGHTY).at_most(score) {
        "A"@
    } else if Score::from_bits(SIXTY_FIVE).at_most(score) {
        "B"@
    } else if Score::from_bits(FIFTY).at_most(score) {
        "C"@
    } else {
        "D"@
    }
}

/// The class of the score.
pub fn tier(score: Score) -> (r: String)
    ensures
        r@ == tier_of(score),
{
    if Score::from_bits(EIGHTY).is_at_most(&score) {
        "A".to_owned()
    } else if Score::from_bits(SIXTY_FIVE).is_at_most(&score) {
        "B".to_owned()
    } else if Score::from_bits(FIFTY).is_at_most(&score) {
        "C".to_owned()
    } else {
        "D".to_owned()
    }
}

/// What speaks against a work apart from its kind, its identifiers, its full text and
/// its score, and whether it is a preprint that the plan leaves out.
pub open spec fn first_rejections(
    work: WorkRecordView,
    plan: ResearchPlanView,
    current_year: u32,
) -> Seq<Seq<char>> {
    let year = year_of(work);
    note_if(flag_set(work.flags, "is_retracted"@), "retracted or withdrawn record"@) + note_if(
        flag_set(work.flags, "is_paratext"@),
        "paratext rather than a scholarly work"@,
    ) + note_if(trimmed(work.title).len() == 0, "missing title"@) + note_if(
        !any_named(work.authors),
        "missing identifiable authorship"@,
    ) + note_if(year is None, "missing publication year"@) + note_if(
        year is Some && !in_window(year->0, plan),
        "publication year outside research plan"@,
    ) + note_if(
        year is Some && year->0 > current_year + 1,
        "publication year is implausibly far in the future"@,
    ) + note_if(
        !language_wanted(work.language, plan.languages),
        "language excluded by research plan"@,
    ) + note_if(
        type_worth(work.work_type, plan.include_preprints) == TypeWorth::ExcludedPreprint,
        "preprints excluded by research plan"@,
    )
}

/// Why a work with the score does not pass, each reason once and in order.
pub open spec fn rejections(
    work: WorkRecordView,
    plan: ResearchPlanView,
    current_year: u32,
    score: Score,
) -> Seq<Seq<char>> {
    first_rejections(work, plan, current_year) + note_if(
        type_worth(work.work_type, plan.include_preprints) == TypeWorth::Unsupported,
        "unsupported scholarly type: "@ + work.work_type,
    ) + note_if(identifier_points(work.ids) == 0, "missing valid persistent identifier"@) + note_if(
        !plan.include_paywalled && !any_authorized(work.fulltext_candidates),
        "no authorized open-access PDF candidate"@,
    ) + note_if(
        score.less(plan.min_quality_score),
        "below configured academic-value threshold"@,
    )
}

/// What speaks for a work, and how much.
pub open spec fn signals_of(
    work: WorkRecordView,
    plan: ResearchPlanView,
    citation_signals: Seq<Seq<char>>,
) -> Seq<Seq<char>> {
    let points = type_points(type_worth(work.work_type, plan.include_preprints));
    note_if(
        trimmed(work.abstract_text).len() == 0,
        "screening-abstract-unavailable:+0"@,
    ) + seq!["scholarly-type:"@ + work.work_type + ":+"@ + decimal(points as nat)] + note_if(
        identifier_points(work.ids) == 8,
        "persistent-identifier:doi:+8"@,
    ) + note_if(identifier_points(work.ids) == 4, "persistent-identifier:repository:+4"@) + note_if(
        work.container_title.len() > 0,
        "venue-metadata:+5"@,
    ) + citation_signals + note_if(evidence_synthesis(work.title), "evidence-synthesis:+7"@)
        + note_if(any_authorized(work.fulltext_candidates), "authorized-fulltext:+5"@)
}

/// What screening finds of a work before its relevance is known.
pub open spec fn assessment_of(
    work: WorkRecordView,
    plan: ResearchPlanView,
    current_year: u32,
    total: Score,
    citation_signals: Seq<Seq<char>>,
    screened_at: Seq<char>,
) -> QualityAssessmentView {
    let score = total.bounded(Score::from_bits(ZERO), Score::from_bits(HUNDRED));
    let reasons = rejections(work, plan, current_year, score);
    QualityAssessmentView {
        score,
        tier: tier_of(score),
        relevance_score: Score::from_bits(ZERO),
        relevance_logit: None,
        priority_score: Score::from_bits(ZERO),
        accepted: reasons.len() == 0,
        signals: signals_of(work, plan, citation_signals),
        rejection_reasons: reasons,
        screened_at,
    }
}

/// Adds the text to the notes, where the condition holds.
pub fn note(notes: &mut Vec<String>, condition: bool, text: &str)
    ensures
        texts(final(notes)@) == texts(old(notes)@) + note_if(condition, text@),
{
    let ghost before = texts(notes@);
    if condition {
        notes.push(text.to_owned());
        assert(texts(notes@) =~= before.push(text@));
    }
    assert(texts(notes@) =~= before + note_if(condition, text@));
}

fn collect_rejections(
    record: &WorkRecord,
    plan: &ResearchPlan,
    current_year: u32,
    score: Score,
) -> (r: Vec<String>)
    ensures
        texts(r@) == rejections(record@, plan@, current_year, score),
{
    let mut reasons: Vec<String> = Vec::new();
    assert(texts(reasons@) =~= Seq::<Seq<char>>::empty());
    note(&mut reasons, is_set(&record.flags, "is_retracted"), "retracted or withdrawn record");
    assert(Seq::<Seq<char>>::empty() + note_if(
        flag_set(record@.flags, "is_retracted"@),
        "retracted or withdrawn record"@,
    ) =~= note_if(
        flag_set(record@.flags, "is_retracted"@),
        "retracted or withdrawn record"@,
    ));
    note(
        &mut reasons,
        is_set(&record.flags, "is_paratext"),
        "paratext rather than a scholarly work",
    );
    note(&mut reasons, is_blank(&record.title), "missing title");
    note(&mut reasons, !has_named_author(&record.authors), "missing identifiable authorship");
    let year = record.year();
    note(&mut reasons, year.is_none(), "missing publication year");
    let outside = match year {
        Some(value) => {
            let early = match read_year(&plan.date_from) {
                Some(from) => value < from,
                None => false,
            };
            let late = match read_year(&plan.date_to) {
                Some(to) => value > to,
                None => false,
            };
            early || late
        },
        None => false,
    };
    note(&mut reasons, outside, "publication year outside research plan");
    let future = match year {
        Some(value) => value > current_year && value - current_year > 1,
        None => false,
    };
    note(&mut reasons, future, "publication year is implausibly far in the future");
    note(
        &mut reasons,
        !wants_language(&record.language, &plan.languages),
        "language excluded by research plan",
    );
    let worth = rate_type(&record.work_type, plan.include_preprints);
    note(
        &mut reasons,
        worth == TypeWorth::ExcludedPreprint,
        "preprints excluded by research plan",
    );
    let mut unsupported = "unsupported scholarly type: ".to_owned();
    unsupported.append(&record.work_type);
    note(&mut reasons, worth == TypeWorth::Unsupported, &unsupported);
    note(&mut reasons, rate_identifiers(record) == 0, "missing valid persistent identifier");
    note(
        &mut reasons,
        !plan.include_paywalled && !record.has_authorized_fulltext(),
        "no authorized open-access PDF candidate",
    );
    note(
        &mut reasons,
        score.is_less(&plan.min_quality_score),
        "below configured academic-value threshold",
    );
    reasons
}

fn collect_signals(record: &WorkRecord, plan: &ResearchPlan, citation_signals: Vec<String>) -> (r:
    Vec<String>)
    ensures
        texts(r@) == signals_of(record@, plan@, texts(citation_signals@)),
{
    let mut signals: Vec<String> = Vec::new();
    let ghost none = Seq::<Seq<char>>::empty();
    assert(texts(signals@) =~= none);
    let blank = is_blank(&record.abstract_text);
    note(&mut signals, blank, "screening-abstract-unavailable:+0");
    assert(none + note_if(blank, "screening-abstract-unavailable:+0"@) =~= note_if(
        blank,
        "screening-abstract-unavailable:+0"@,
    ));
    let points: u32 = match rate_type(&record.work_type, plan.include_preprints) {
        TypeWorth::Points(points) => points,
        TypeWorth::ExcludedPreprint => 0,
        TypeWorth::Unsupported => 0,
    };
    let mut worth = "scholarly-type:".to_owned();
    worth.append(&record.work_type);
    worth.append(":+");
    worth.append(&decimal_text(points as u64));
    let ghost before = texts(signals@);
    let ghost added = worth@;
    signals.push(worth);
    assert(texts(signals@) =~= before + seq![added]);
    let identifiers = rate_identifiers(record);
    note(&mut signals, identifiers == 8, "persistent-identifier:doi:+8");
    note(&mut signals, identifiers == 4, "persistent-identifier:repository:+4");
    note(&mut signals, !record.container_title.as_str().is_empty(), "venue-metadata:+5");
    let ghost head = signals@;
    let mut more = citation_signals;
    let ghost tail = more@;
    signals.append(&mut more);
    assert(texts(signals@) =~= texts(head) + texts(tail));
    note(&mut signals, is_synthesis(&record.title), "evidence-synthesis:+7");
    note(&mut signals, record.has_authorized_fulltext(), "authorized-fulltext:+5");
    signals
}

/// What screening finds of the work before its relevance is known. The total is
/// what its points and its citations add up to.
pub fn assess(
    record: &WorkRecord,
    plan: &ResearchPlan,
    current_year: u32,
    evidence: CitationEvidence,
    screened_at: String,
) -> (r: QualityAssessment)
    ensures
        r@ == assessment_of(
            record@,
            plan@,
            current_year,
            evidence.total,
            texts(evidence.signals@),
            screened_at@,
        ),
{
    let zero = Score::from_bits(ZERO);
    let score = evidence.total.clamp(&zero, &Score::from_bits(HUNDRED));
    let rejection_reasons = collect_rejections(record, plan, current_year, score);
    QualityAssessment {
        score,
        tier: tier(score),
        relevance_score: zero,
        relevance_logit: None,
        priority_score: zero,
        accepted: rejection_reasons.len() == 0,
        signals: collect_signals(record, plan, evidence.signals),
        rejection_reasons,
        screened_at,
    }
}

/// The relevance that counts: the reranker's, moved between zero and one.
pub fn counted_relevance(relevance: Score) -> (r: Score)
    ensures
        r == relevance.bounded(Score::from_bits(ZERO), Score::from_bits(ONE)),
{
    relevance.clamp(&Score::from_bits(ZERO), &Score::from_bits(ONE))
}

/// What screening finds of a work once its relevance is known.
pub open spec fn with_relevance(
    assessment: QualityAssessmentView,
    logit: Score,
    relevance: Score,
    priority: Score,
    plan: ResearchPlanView,
) -> QualityAssessmentView {
    let counted = relevance.bounded(Score::from_bits(ZERO), Score::from_bits(ONE));
    let reasons = assessment.rejection_reasons + note_if(
        counted.less(plan.min_relevance_score),
        "below configured relevance threshold"@,
    );
    QualityAssessmentView {
        relevance_score: counted,
        relevance_logit: Some(logit),
        priority_score: priority,
        accepted: reasons.len() == 0 && plan.min_quality_score.at_most(assessment.score)
            && plan.min_relevance_score.at_most(counted),
        rejection_reasons: reasons,
        ..assessment
    }
}

/// What screening finds of a work once its relevance is known. The priority is what
/// relevance and quality make together.
pub fn add_relevance(
    assessment: QualityAssessment,
    relevance_logit: Score,
    relevance_score: Score,
    priority_score: Score,
    plan: &ResearchPlan,
) -> (r: QualityAssessment)
    ensures
        r@ == with_relevance(
            assessment@,
            relevance_logit,
            relevance_score,
            priority_score,
            plan@,
        ),
{
    let counted = counted_relevance(relevance_score);
    let mut reasons = assessment.rejection_reasons;
    note(
        &mut reasons,
        counted.is_less(&plan.min_relevance_score),
        "below configured relevance threshold",
    );
    QualityAssessment {
        score: assessment.score,
        tier: assessment.tier,
        relevance_score: counted,
        relevance_logit: Some(relevance_logit),
        priority_score,
        accepted: reasons.len() == 0 && plan.min_quality_score.is_at_most(&assessment.score)
            && plan.min_relevance_score.is_at_most(&counted),
        signals: assessment.signals,
        rejection_reasons: reasons,
        screened_at: assessment.screened_at,
    }
}

/// A retracted work never passes, whatever its score and its relevance are, and the
/// reason stays listed.
pub proof fn law_retracted_work_never_passes(
    work: WorkRecordView,
    plan: ResearchPlanView,
    current_year: u32,
    total: Score,
    signals: Seq<Seq<char>>,
    screened_at: Seq<char>,
    logit: Score,
    relevance: Score,
    priority: Score,
)
    requires
        flag_set(work.flags, "is_retracted"@),
    ensures
        ({
            let found = assessment_of(work, plan, current_year, total, signals, screened_at);
            let ranked = with_relevance(found, logit, relevance, priority, plan);
            &&& !found.accepted && !ranked.accepted
            &&& found.rejection_reasons.contains("retracted or withdrawn record"@)
            &&& ranked.rejection_reasons.contains("retracted or withdrawn record"@)
        }),
{
    let found = assessment_of(work, plan, current_year, total, signals, screened_at);
    let ranked = with_relevance(found, logit, relevance, priority, plan);
    assert(found.rejection_reasons[0] == "retracted or withdrawn record"@);
    assert(ranked.rejection_reasons[0] == found.rejection_reasons[0]);
}

/// The unsupported types are none of those that earn points.
proof fn lemma_unsupported_types_earn_nothing(work_type: Seq<char>, include_preprints: bool)
    requires
        unsupported_type(work_type),
    ensures
        type_worth(work_type, include_preprints) == TypeWorth::Unsupported,
{
    reveal_strlit("article-journal");
    reveal_strlit("paper-conference");
    reveal_strlit("chapter");
    reveal_strlit("book");
    reveal_strlit("thesis");
    reveal_strlit("report");
    reveal_strlit("preprint");
    reveal_strlit("dataset");
    reveal_strlit("editorial");
    reveal_strlit("peer-review");
    reveal_strlit("paratext");
    reveal_strlit("journal");
    reveal_strlit("proceedings");
    reveal_strlit("reference-entry");
    reveal_strlit("grant");
    reveal_strlit("standard");
    reveal_strlit("component");
    reveal_strlit("other");
    reveal_strlit("news");
    reveal_strlit("news-article");
    reveal_strlit("newspaper-article");
    reveal_strlit("slides");
    reveal_strlit("presentation");
    reveal_strlit("poster");
    reveal_strlit("conference-poster");
    let w = work_type;
    let scored = seq![
        "article-journal"@,
        "paper-conference"@,
        "chapter"@,
        "book"@,
        "thesis"@,
        "report"@,
        "preprint"@,
    ];
    assert forall|i: int| 0 <= i < scored.len() implies w != #[trigger] scored[i] by {
        if w == scored[i] {
            assert(w[0] == scored[i][0]);
            assert(w[1] == scored[i][1]);
            assert(w[2] == scored[i][2]);
            assert(w[3] == scored[i][3]);
        }
    }
    assert(scored[0] == "article-journal"@);
    assert(scored[1] == "paper-conference"@);
    assert(scored[2] == "chapter"@);
    assert(scored[3] == "book"@);
    assert(scored[4] == "thesis"@);
    assert(scored[5] == "report"@);
    assert(scored[6] == "preprint"@);
}

/// A note between others is among them.
proof fn lemma_note_is_kept(
    before: Seq<Seq<char>>,
    note: Seq<char>,
    first: Seq<Seq<char>>,
    second: Seq<Seq<char>>,
    third: Seq<Seq<char>>,
)
    ensures
        (before + seq![note] + first + second + third).contains(note),
{
    assert((before + seq![note] + first + second + third)[before.len() as int] == note);
}

/// News, slides and posters never pass, nor do editorials, peer reviews, datasets and
/// the like, whatever their score and their relevance are, and the reason stays listed.
pub proof fn law_unsupported_types_never_pass(
    work: WorkRecordView,
    plan: ResearchPlanView,
    current_year: u32,
    total: Score,
    signals: Seq<Seq<char>>,
    screened_at: Seq<char>,
    logit: Score,
    relevance: Score,
    priority: Score,
)
    requires
        unsupported_type(work.work_type),
    ensures
        ({
            let found = assessment_of(work, plan, current_year, total, signals, screened_at);
            let ranked = with_relevance(found, logit, relevance, priority, plan);
            let reason = "unsupported scholarly type: "@ + work.work_type;
            &&& !found.accepted && !ranked.accepted
            &&& found.rejection_reasons.contains(reason)
            &&& ranked.rejection_reasons.contains(reason)
        }),
{
    let score = total.bounded(Score::from_bits(ZERO), Score::from_bits(HUNDRED));
    lemma_unsupported_types_earn_nothing(work.work_type, plan.include_preprints);
    lemma_note_is_kept(
        first_rejections(work, plan, current_year),
        "unsupported scholarly type: "@ + work.work_type,
        note_if(identifier_points(work.ids) == 0, "missing valid persistent identifier"@),
        note_if(
            !plan.include_paywalled && !any_authorized(work.fulltext_candidates),
            "no authorized open-access PDF candidate"@,
        ),
        note_if(
            score.less(plan.min_quality_score),
            "below configured academic-value threshold"@,
        ),
    );
    let reason = "unsupported scholarly type: "@ + work.work_type;
    let found = assessment_of(work, plan, current_year, total, signals, screened_at);
    let ranked = with_relevance(found, logit, relevance, priority, plan);
    let at = choose|at: int|
        0 <= at < found.rejection_reasons.len() && found.rejection_reasons[at] == reason;
    assert(ranked.rejection_reasons[at] == reason);
}

/// A work that no public abstract is known of is not rejected for that: with the same
/// score the same reasons speak against it as with an abstract.
pub proof fn law_a_missing_abstract_is_no_reason(
    work: WorkRecordView,
    plan: ResearchPlanView,
    current_year: u32,
    score: Score,
    abstract_text: Seq<char>,
)
    ensures
        rejections(work, plan, current_year, score) == rejections(
            (WorkRecordView { abstract_text, ..work }),
            plan,
            current_year,
            score,
        ),
{
}

/// What passes meets both thresholds of the plan, and nothing speaks against it.
pub proof fn law_accepted_works_meet_the_thresholds(
    assessment: QualityAssessmentView,
    logit: Score,
    relevance: Score,
    priority: Score,
    plan: ResearchPlanView,
)
    requires
        with_relevance(assessment, logit, relevance, priority, plan).accepted,
    ensures
        assessment.rejection_reasons.len() == 0,
        plan.min_quality_score.at_most(assessment.score),
        plan.min_relevance_score.at_most(
            with_relevance(assessment, logit, relevance, priority, plan).relevance_score,
        ),
{
}

/// A score is between zero and a hundred, wherever its parts add up to a number.
pub proof fn law_scores_are_within_bounds(
    work: WorkRecordView,
    plan: ResearchPlanView,
    current_year: u32,
    total: Score,
    signals: Seq<Seq<char>>,
    screened_at: Seq<char>,
)
    requires
        total.number(),
    ensures
        assessment_of(work, plan, current_year, total, signals, screened_at).score.within(
            Score::from_bits(ZERO),
            Score::from_bits(HUNDRED),
        ),
{
}

} // verus!
