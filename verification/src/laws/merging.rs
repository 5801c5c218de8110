//! What merging two records of one work keeps of them.

use crate::domain::{
    author_at, doi_in, merged, place_of, same_author, same_source, with_author, with_authors,
    with_places, with_sources, AuthorView, FullTextCandidateView, ProvenanceSourceView,
    WorkRecordView,
};
use crate::score::Score;
use crate::text::{ascii_lower, byte_len, lowered};
use crate::util::{distinct, law_distinct_texts_are_complete, law_distinct_texts_differ, spaced};
use vstd::prelude::*;

verus! {

/// A text that two records have is kept: it is that of one of them, it is not empty
/// where one of them is not, and the record that has precedence is heard first.
pub open spec fn text_kept(
    second_first: bool,
    first: Seq<char>,
    second: Seq<char>,
    kept: Seq<char>,
) -> bool {
    &&& kept == first || kept == second
    &&& first.len() > 0 || second.len() > 0 ==> kept.len() > 0
    &&& !second_first && first.len() > 0 ==> kept == first
    &&& second_first && second.len() > 0 ==> kept == second
}

/// The values are those of both lists with single spaces between their words: of every
/// value that is not blank there is one that equals it in lowercase, and none is there
/// twice.
pub open spec fn values_united(
    first: Seq<Seq<char>>,
    second: Seq<Seq<char>>,
    united: Seq<Seq<char>>,
) -> bool {
    &&& forall|value: Seq<char>|
        (first.contains(value) || second.contains(value)) && spaced(value).len() > 0 ==> exists|
            i: int,
        |
            0 <= i < united.len() && lowered(united[i]) == lowered(#[trigger] spaced(value))
    &&& forall|i: int|
        0 <= i < united.len() ==> exists|value: Seq<char>|
            (first.contains(value) || second.contains(value)) && #[trigger] spaced(value)
                == #[trigger] united[i]
    &&& forall|i: int, j: int|
        0 <= i < j < united.len() ==> lowered(#[trigger] united[i]) != lowered(
            #[trigger] united[j],
        )
}

proof fn lemma_distinct_texts_come_from(values: Seq<Seq<char>>, i: int)
    requires
        0 <= i < distinct(values).len(),
    ensures
        exists|k: int| 0 <= k < values.len() && spaced(#[trigger] values[k]) == distinct(values)[i],
    decreases values.len(),
{
    let kept = distinct(values.drop_last());
    if i < kept.len() {
        lemma_distinct_texts_come_from(values.drop_last(), i);
        let k = choose|k: int|
            0 <= k < values.drop_last().len() && spaced(#[trigger] values.drop_last()[k])
                == kept[i];
        assert(values[k] == values.drop_last()[k]);
    } else {
        assert(spaced(values[values.len() - 1]) == distinct(values)[i]);
    }
}

/// The distinct texts of two lists are the values of both.
pub proof fn lemma_values_united(first: Seq<Seq<char>>, second: Seq<Seq<char>>)
    ensures
        values_united(first, second, distinct(first + second)),
{
    let all = first + second;
    let united = distinct(all);
    law_distinct_texts_differ(all);
    assert forall|value: Seq<char>|
        (first.contains(value) || second.contains(value)) && spaced(value).len()
            > 0 implies exists|i: int|
        0 <= i < united.len() && lowered(united[i]) == lowered(#[trigger] spaced(value)) by {
        let k: int = if first.contains(value) {
            choose|k: int| 0 <= k < first.len() && first[k] == value
        } else {
            first.len() + choose|k: int| 0 <= k < second.len() && second[k] == value
        };
        assert(all[k] == value);
        law_distinct_texts_are_complete(all, k);
    }
    assert forall|i: int| 0 <= i < united.len() implies exists|value: Seq<char>|
        (first.contains(value) || second.contains(value)) && #[trigger] spaced(value)
            == #[trigger] united[i] by {
        lemma_distinct_texts_come_from(all, i);
        let k = choose|k: int| 0 <= k < all.len() && spaced(#[trigger] all[k]) == united[i];
        if k < first.len() {
            assert(first.contains(all[k]));
        } else {
            assert(second[k - first.len()] == all[k]);
            assert(second.contains(all[k]));
        }
    }
}

/// The second record is of the article in a journal or in proceedings that the preprint
/// of the first became: it has a DOI and a venue.
pub open spec fn published_later(first: WorkRecordView, second: WorkRecordView) -> bool {
    &&& ascii_lower(first.work_type) == "preprint"@
    &&& second.work_type == "article-journal"@ || second.work_type == "paper-conference"@
    &&& doi_in(second.ids) is Some
    &&& second.container_title.len() > 0
}

proof fn lemma_preprint_is_lowercase()
    ensures
        ascii_lower("preprint"@) == "preprint"@,
{
    reveal_strlit("preprint");
    assert(ascii_lower("preprint"@) =~= "preprint"@);
}

/// Merging loses no bibliographic text: wherever either record has a venue, publisher,
/// volume, issue, page, article number, language or URL, the merged record has that of
/// one of them. The first record is heard first, but for the article that a preprint
/// became, which is heard first in all but the language.
pub proof fn law_merge_loses_no_text(first: WorkRecordView, second: WorkRecordView)
    ensures
        ({
            let kept = merged(first, second);
            let later = published_later(first, second);
            &&& text_kept(
                later,
                first.container_title,
                second.container_title,
                kept.container_title,
            )
            &&& text_kept(later, first.publisher, second.publisher, kept.publisher)
            &&& text_kept(later, first.volume, second.volume, kept.volume)
            &&& text_kept(later, first.issue, second.issue, kept.issue)
            &&& text_kept(later, first.page, second.page, kept.page)
            &&& text_kept(later, first.article_number, second.article_number, kept.article_number)
            &&& text_kept(false, first.language, second.language, kept.language)
            &&& text_kept(later, first.url, second.url, kept.url)
        }),
{
    lemma_preprint_is_lowercase();
}

/// The merged title is that of the article that a preprint became, where it has one;
/// else it is one of the two titles, and neither is longer. The abstract is one of the
/// two, and neither is longer; what is equally long is that of the first record.
pub proof fn law_merge_keeps_the_longer_text(first: WorkRecordView, second: WorkRecordView)
    ensures
        ({
            let kept = merged(first, second);
            &&& published_later(first, second) ==> text_kept(
                true,
                first.title,
                second.title,
                kept.title,
            )
            &&& kept.title == first.title || kept.title == second.title
            &&& !published_later(first, second) ==> byte_len(kept.title) >= byte_len(first.title)
                && byte_len(kept.title) >= byte_len(second.title)
            &&& !published_later(first, second) && byte_len(first.title) == byte_len(second.title)
                ==> kept.title == first.title
            &&& kept.abstract_text == first.abstract_text || kept.abstract_text
                == second.abstract_text
            &&& byte_len(kept.abstract_text) >= byte_len(first.abstract_text)
            &&& byte_len(kept.abstract_text) >= byte_len(second.abstract_text)
            &&& byte_len(first.abstract_text) == byte_len(second.abstract_text)
                ==> kept.abstract_text == first.abstract_text
        }),
{
    lemma_preprint_is_lowercase();
}

/// The merged date is that of one of the records: a known date is never lost, the first
/// is heard first, but for the article that a preprint became.
pub proof fn law_merge_keeps_a_known_date(first: WorkRecordView, second: WorkRecordView)
    ensures
        ({
            let kept = merged(first, second).issued;
            &&& kept == first.issued || kept == second.issued
            &&& first.issued.date_parts.len() > 0 || second.issued.date_parts.len() > 0
                ==> kept.date_parts.len() > 0
            &&& !published_later(first, second) && first.issued.date_parts.len() > 0 ==> kept
                == first.issued
            &&& published_later(first, second) && second.issued.date_parts.len() > 0 ==> kept
                == second.issued
        }),
{
    lemma_preprint_is_lowercase();
}

/// The merged record is of the type of the first, but for a preprint that became an
/// article: then it is that article. What screening found and the version of the format
/// stay those of the first.
pub proof fn law_merge_keeps_the_type(first: WorkRecordView, second: WorkRecordView)
    ensures
        !published_later(first, second) ==> merged(first, second).work_type == first.work_type,
        published_later(first, second) ==> merged(first, second).work_type == second.work_type,
        merged(first, second).quality == first.quality,
        merged(first, second).schema_version == first.schema_version,
{
    lemma_preprint_is_lowercase();
}

/// Merging unites the keywords, the subjects, the ISSNs and the ISBNs of two records.
pub proof fn law_merge_unites_the_lists(first: WorkRecordView, second: WorkRecordView)
    ensures
        values_united(first.keywords, second.keywords, merged(first, second).keywords),
        values_united(first.subjects, second.subjects, merged(first, second).subjects),
        values_united(first.issn, second.issn, merged(first, second).issn),
        values_united(first.isbn, second.isbn, merged(first, second).isbn),
{
    lemma_values_united(first.keywords, second.keywords);
    lemma_values_united(first.subjects, second.subjects);
    lemma_values_united(first.issn, second.issn);
    lemma_values_united(first.isbn, second.isbn);
}

/// A figure that two records have is kept: it is that of one of them, it is there where
/// one of them has it, and neither exceeds it.
pub open spec fn figure_kept(
    first: Option<Score>,
    second: Option<Score>,
    kept: Option<Score>,
) -> bool {
    &&& kept == first || kept == second
    &&& first is Some || second is Some ==> kept is Some
    &&& first matches Some(a) ==> !kept->0.less(a)
    &&& second matches Some(b) ==> !kept->0.less(b)
    &&& first is Some && second is Some && (first->0.number() || second->0.number())
        ==> kept->0.number()
}

/// The merged record has the greater of the citation counts and of each other figure.
pub proof fn law_merge_keeps_the_greater_figures(first: WorkRecordView, second: WorkRecordView)
    ensures
        ({
            let a = first.metrics;
            let b = second.metrics;
            let kept = merged(first, second).metrics;
            &&& kept.cited_by_count == a.cited_by_count || kept.cited_by_count == b.cited_by_count
            &&& kept.cited_by_count >= a.cited_by_count && kept.cited_by_count >= b.cited_by_count
            &&& kept.influential_citation_count == a.influential_citation_count
                || kept.influential_citation_count == b.influential_citation_count
            &&& kept.influential_citation_count >= a.influential_citation_count
            &&& kept.influential_citation_count >= b.influential_citation_count
            &&& figure_kept(a.fwci, b.fwci, kept.fwci)
            &&& figure_kept(a.citation_percentile, b.citation_percentile, kept.citation_percentile)
        }),
{
}

/// Every flag that one of the records has is in the merged record, and no other.
pub proof fn law_merge_keeps_every_flag(
    first: WorkRecordView,
    second: WorkRecordView,
    name: Seq<char>,
)
    ensures
        merged(first, second).flags.contains_key(name) <==> first.flags.contains_key(name)
            || second.flags.contains_key(name),
{
}

/// Authors with one and the same ORCID are one author, and so are authors whose given
/// and family names are the same and leave something to compare.
pub proof fn law_one_orcid_is_one_author(left: AuthorView, right: AuthorView)
    ensures
        left.orcid is Some && left.orcid == right.orcid ==> same_author(left, right),
        left.given == right.given && left.family == right.family && left.family.len() > 0
            && crate::domain::author_name(left).len() > 0 ==> same_author(left, right),
{
}

/// What is known of one author from two records is kept: names of the one or the other,
/// the first heard first, an ORCID where one has it, all affiliations, and all
/// identifiers.
pub open spec fn author_kept(first: AuthorView, second: AuthorView, kept: AuthorView) -> bool {
    &&& text_kept(false, first.given, second.given, kept.given)
    &&& text_kept(false, first.family, second.family, kept.family)
    &&& text_kept(false, first.literal, second.literal, kept.literal)
    &&& first.orcid is Some ==> kept.orcid == first.orcid
    &&& first.orcid is None ==> kept.orcid == second.orcid
    &&& values_united(first.affiliations, second.affiliations, kept.affiliations)
    &&& forall|key: Seq<char>| #[trigger]
        kept.ids.contains_key(key) <==> first.ids.contains_key(key) || second.ids.contains_key(key)
    &&& forall|key: Seq<char>|
        second.ids.contains_key(key) ==> #[trigger] kept.ids[key] == second.ids[key]
    &&& forall|key: Seq<char>|
        first.ids.contains_key(key) && !second.ids.contains_key(key) ==> #[trigger] kept.ids[key]
            == first.ids[key]
}

/// Two records that name one author name that author once when merged, with what either
/// says; two records that name different authors name both, in order.
pub proof fn law_merge_recognizes_an_author(
    first: WorkRecordView,
    second: WorkRecordView,
    a: AuthorView,
    b: AuthorView,
)
    requires
        first.authors == seq![a],
        second.authors == seq![b],
    ensures
        same_author(a, b) ==> merged(first, second).authors.len() == 1 && author_kept(
            a,
            b,
            merged(first, second).authors[0],
        ),
        !same_author(a, b) ==> merged(first, second).authors == seq![a, b],
{
    reveal_with_fuel(with_authors, 2);
    reveal_with_fuel(author_at, 2);
    lemma_values_united(a.affiliations, b.affiliations);
    assert(second.authors.drop_last() =~= Seq::empty());
    assert(first.authors.skip(1) =~= Seq::empty());
    assert(with_authors(first.authors, second.authors) == with_author(first.authors, b));
}

/// The authors keep their places, and their names where they have one.
pub open spec fn authors_stay(before: Seq<AuthorView>, after: Seq<AuthorView>) -> bool {
    &&& before.len() <= after.len()
    &&& forall|i: int|
        0 <= i < before.len() ==> {
            &&& before[i].given.len() > 0 ==> (#[trigger] after[i]).given == before[i].given
            &&& before[i].family.len() > 0 ==> after[i].family == before[i].family
            &&& before[i].literal.len() > 0 ==> after[i].literal == before[i].literal
            &&& before[i].orcid is Some ==> after[i].orcid == before[i].orcid
        }
}

proof fn lemma_author_at(target: Seq<AuthorView>, candidate: AuthorView)
    ensures
        author_at(target, candidate) <= target.len(),
        forall|i: int|
            0 <= i < author_at(target, candidate) ==> !same_author(#[trigger] target[i], candidate),
    decreases target.len(),
{
    if target.len() > 0 && !same_author(target[0], candidate) {
        lemma_author_at(target.skip(1), candidate);
        assert forall|i: int| 0 <= i < author_at(target, candidate) implies !same_author(
            #[trigger] target[i],
            candidate,
        ) by {
            if i > 0 {
                assert(target[i] == target.skip(1)[i - 1]);
            }
        }
    }
}

proof fn lemma_authors_stay(target: Seq<AuthorView>, candidates: Seq<AuthorView>)
    ensures
        authors_stay(target, with_authors(target, candidates)),
        with_authors(target, candidates).len() <= target.len() + candidates.len(),
    decreases candidates.len(),
{
    if candidates.len() > 0 {
        let rest = with_authors(target, candidates.drop_last());
        lemma_authors_stay(target, candidates.drop_last());
        lemma_author_at(rest, candidates.last());
        let whole = with_author(rest, candidates.last());
        assert forall|i: int| 0 <= i < target.len() implies {
            &&& target[i].given.len() > 0 ==> (#[trigger] whole[i]).given == target[i].given
            &&& target[i].family.len() > 0 ==> whole[i].family == target[i].family
            &&& target[i].literal.len() > 0 ==> whole[i].literal == target[i].literal
            &&& target[i].orcid is Some ==> whole[i].orcid == target[i].orcid
        } by {
            assert(rest[i].given.len() > 0 ==> rest[i].given == rest[i].given);
        }
    }
}

/// The authors of the first record keep their places and their names, and merging names
/// no more authors than both records do.
pub proof fn law_merge_keeps_the_authors(first: WorkRecordView, second: WorkRecordView)
    ensures
        authors_stay(first.authors, merged(first, second).authors),
        merged(first, second).authors.len() <= first.authors.len() + second.authors.len(),
{
    lemma_authors_stay(first.authors, second.authors);
}

/// No two of the authors are the same.
pub open spec fn all_different(authors: Seq<AuthorView>) -> bool {
    forall|i: int, j: int|
        0 <= i < j < authors.len() ==> !same_author(#[trigger] authors[i], #[trigger] authors[j])
}

proof fn lemma_different_authors_follow(target: Seq<AuthorView>, candidates: Seq<AuthorView>)
    requires
        all_different(target + candidates),
    ensures
        with_authors(target, candidates) == target + candidates,
    decreases candidates.len(),
{
    if candidates.len() > 0 {
        let shorter = candidates.drop_last();
        let all = target + candidates;
        assert forall|i: int, j: int| 0 <= i < j < (target + shorter).len() implies !same_author(
            #[trigger] (target + shorter)[i],
            #[trigger] (target + shorter)[j],
        ) by {
            assert((target + shorter)[i] == all[i] && (target + shorter)[j] == all[j]);
        }
        lemma_different_authors_follow(target, shorter);
        let rest = target + shorter;
        lemma_author_first(rest, candidates.last());
        if author_at(rest, candidates.last()) < rest.len() {
            let at = author_at(rest, candidates.last()) as int;
            assert(rest[at] == all[at]);
            assert(candidates.last() == all[all.len() - 1]);
            assert(false);
        }
        assert(rest.push(candidates.last()) =~= all);
    } else {
        assert(target + candidates =~= target);
    }
}

proof fn lemma_author_first(target: Seq<AuthorView>, candidate: AuthorView)
    ensures
        author_at(target, candidate) <= target.len(),
        author_at(target, candidate) < target.len() ==> same_author(
            target[author_at(target, candidate) as int],
            candidate,
        ),
    decreases target.len(),
{
    if target.len() > 0 && !same_author(target[0], candidate) {
        lemma_author_first(target.skip(1), candidate);
    }
}

/// Authors of whom no two are the same all stay as they are, those of the first record
/// before those of the second.
pub proof fn law_merge_loses_no_author(first: WorkRecordView, second: WorkRecordView)
    requires
        all_different(first.authors + second.authors),
    ensures
        merged(first, second).authors == first.authors + second.authors,
{
    lemma_different_authors_follow(first.authors, second.authors);
}

/// Sources of which no two are the same all stay as they are, those of the first record
/// before those of the second; a source is the same where its name and its identifier
/// there are.
pub proof fn law_merge_lists_every_source(first: WorkRecordView, second: WorkRecordView)
    requires
        forall|i: int, j: int|
            #![trigger first.provenance[i], second.provenance[j]]
            0 <= i < first.provenance.len() && 0 <= j < second.provenance.len()
                ==> first.provenance[i].source != second.provenance[j].source
                || first.provenance[i].source_id != second.provenance[j].source_id,
        forall|i: int, j: int|
            0 <= i < j < second.provenance.len() ==> (#[trigger] second.provenance[i]).source != (
            #[trigger] second.provenance[j]).source || second.provenance[i].source_id
                != second.provenance[j].source_id,
    ensures
        merged(first, second).provenance == first.provenance + second.provenance,
{
    lemma_different_sources_follow(first.provenance, second.provenance);
}

proof fn lemma_different_sources_follow(
    target: Seq<ProvenanceSourceView>,
    candidates: Seq<ProvenanceSourceView>,
)
    requires
        forall|i: int, j: int|
            #![trigger target[i], candidates[j]]
            0 <= i < target.len() && 0 <= j < candidates.len() ==> !same_source(
                target[i],
                candidates[j],
            ),
        forall|i: int, j: int|
            0 <= i < j < candidates.len() ==> !same_source(
                #[trigger] candidates[i],
                #[trigger] candidates[j],
            ),
    ensures
        with_sources(target, candidates) == target + candidates,
    decreases candidates.len(),
{
    if candidates.len() > 0 {
        let shorter = candidates.drop_last();
        lemma_different_sources_follow(target, shorter);
        let rest = target + shorter;
        assert forall|i: int| 0 <= i < rest.len() implies !same_source(
            #[trigger] rest[i],
            candidates.last(),
        ) by {
            let last = candidates[candidates.len() - 1];
            if i < target.len() {
                assert(rest[i] == target[i]);
            } else {
                assert(rest[i] == candidates[i - target.len()]);
            }
        }
        assert(rest.push(candidates.last()) =~= target + candidates);
    } else {
        assert(target + candidates =~= target);
    }
}

/// Two records that offer a full text at one place offer it once when merged: authorized
/// where one of them says so, and under the license that one of them names, the first
/// heard first. Full texts at different places are both offered.
pub proof fn law_merge_recognizes_a_place(
    first: WorkRecordView,
    second: WorkRecordView,
    a: FullTextCandidateView,
    b: FullTextCandidateView,
)
    requires
        first.fulltext_candidates == seq![a],
        second.fulltext_candidates == seq![b],
    ensures
        ({
            let places = merged(first, second).fulltext_candidates;
            &&& a.url == b.url ==> {
                &&& places.len() == 1
                &&& places[0].url == a.url && places[0].source == a.source && places[0].version
                    == a.version && places[0].content_type == a.content_type
                &&& text_kept(false, a.license, b.license, places[0].license)
                &&& places[0].authorized <==> a.authorized || b.authorized
            }
            &&& a.url != b.url ==> places == seq![a, b]
        }),
{
    reveal_with_fuel(with_places, 2);
    reveal_with_fuel(place_of, 2);
    assert(second.fulltext_candidates.drop_last() =~= Seq::empty());
    assert(first.fulltext_candidates.skip(1) =~= Seq::empty());
}

} // verus!
