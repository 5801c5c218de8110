//! What the answers of the scholarly sources say of a work.

use crate::adapters::json_text;
use crate::discovery::{
    aliases_of, arxiv_finding, arxiv_in, arxiv_names, arxiv_work, bare_words, chars_in_bytes,
    crossref_answer, crossref_hit, crossref_place, crossref_places, crossref_work, date_prefix,
    date_under, dated, findings_of, has_persistent_id, in_open_repository, in_window, indexed_words,
    inverted_text, known_under, license_among, missing_items, name_parts, open_license,
    open_repository, openalex_fulltext, openalex_hit, openalex_in, openalex_place, openalex_places,
    openalex_work, requested_entry, type_of, with_aliases, with_batch, with_entries, with_finding,
    with_scholar, year_or_zero, ArxivEntryView, DiscoveredWorkView, Findings, PlacedWord,
};
use crate::domain::{
    any_authorized, doi_in, merged, year_of, FullTextCandidateView, ResearchPlanView,
    WorkRecordView,
};
use crate::json::{each, each_field, field_of, lemma_member_at, strings_in, JsonView};
use crate::order::{law_ordered, ordered};
use crate::score::Score;
use crate::text::{
    ascii_lower, decimal, finishes_with, holds_text, joined, lowered, past_last_of, replaced,
};
use crate::util::{
    arxiv_match, arxiv_of, doi_of, fingerprint, law_arxiv_normal_form, spaced, unmarked,
    without_version,
};
use vstd::prelude::*;
use vstd::utf8::is_ascii_chars;

verus! {

/// The strings of a list that holds strings alone are those of the list.
proof fn lemma_all_strings(items: Seq<Option<JsonView>>, texts: Seq<Seq<char>>)
    requires
        items.len() == texts.len(),
        forall|i: int|
            0 <= i < items.len() ==> #[trigger] items[i] == Some(JsonView::Text(texts[i])),
    ensures
        strings_in(items) == texts,
    decreases items.len(),
{
    if items.len() > 0 {
        assert forall|i: int| 0 <= i < items.drop_last().len() implies #[trigger] items.drop_last()[i]
            == Some(JsonView::Text(texts.drop_last()[i])) by {
            assert(items.drop_last()[i] == items[i]);
        }
        lemma_all_strings(items.drop_last(), texts.drop_last());
        assert(items[items.len() - 1] == Some(JsonView::Text(texts[items.len() - 1])));
        assert(strings_in(items) =~= texts);
    } else {
        assert(texts =~= Seq::empty());
    }
}

/// The value is a list of the texts.
pub open spec fn list_of(value: Option<JsonView>, texts: Seq<Seq<char>>) -> bool {
    value matches Some(JsonView::List(items)) && items.len() == texts.len() && forall|i: int|
        0 <= i < items.len() ==> #[trigger] items[i] == JsonView::Text(texts[i])
}

/// The value is a list of objects that have the texts under the key.
pub open spec fn list_under(value: Option<JsonView>, key: Seq<char>, texts: Seq<Seq<char>>) -> bool {
    value matches Some(JsonView::List(items)) && items.len() == texts.len() && forall|i: int|
        0 <= i < items.len() ==> (#[trigger] items[i]).member(key) == Some(JsonView::Text(texts[i]))
}

proof fn lemma_list_of(value: Option<JsonView>, texts: Seq<Seq<char>>)
    requires
        list_of(value, texts),
    ensures
        strings_in(each(crate::json::items_at(value))) == texts,
{
    lemma_all_strings(each(crate::json::items_at(value)), texts);
}

proof fn lemma_list_under(value: Option<JsonView>, key: Seq<char>, texts: Seq<Seq<char>>)
    requires
        list_under(value, key, texts),
    ensures
        strings_in(each_field(crate::json::items_at(value), key)) == texts,
{
    lemma_all_strings(each_field(crate::json::items_at(value), key), texts);
}

/// The value is the number.
pub open spec fn number_is(value: Option<JsonView>, number: u64) -> bool {
    value matches Some(JsonView::Number(view)) && view.unsigned == Some(number)
}

/// The value is the floating-point number.
pub open spec fn figure_is(value: Option<JsonView>, figure: Score) -> bool {
    value matches Some(JsonView::Number(view)) && view.floating == Some(figure)
}

/// What a Crossref record says of a work under each of its names is what is known of the
/// work afterwards: publisher, volume, issue, pages, article number, language and URL are
/// the texts that the record gives, and its title and its venue the first of each.
pub proof fn law_crossref_texts_are_taken(
    value: JsonView,
    now_millis: i64,
    retrieved_at: Seq<char>,
    text: Seq<char>,
)
    ensures
        value.member("publisher"@) == Some(JsonView::Text(text)) ==> crossref_work(value, now_millis, retrieved_at).publisher == text,
        value.member("publisher"@) is None ==> crossref_work(value, now_millis, retrieved_at).publisher == Seq::<char>::empty(),
        value.member("volume"@) == Some(JsonView::Text(text)) ==> crossref_work(value, now_millis, retrieved_at).volume == text,
        value.member("volume"@) is None ==> crossref_work(value, now_millis, retrieved_at).volume == Seq::<char>::empty(),
        value.member("issue"@) == Some(JsonView::Text(text)) ==> crossref_work(value, now_millis, retrieved_at).issue == text,
        value.member("issue"@) is None ==> crossref_work(value, now_millis, retrieved_at).issue == Seq::<char>::empty(),
        value.member("page"@) == Some(JsonView::Text(text)) ==> crossref_work(value, now_millis, retrieved_at).page == text,
        value.member("page"@) is None ==> crossref_work(value, now_millis, retrieved_at).page == Seq::<char>::empty(),
        value.member("article-number"@) == Some(JsonView::Text(text)) ==> crossref_work(value, now_millis, retrieved_at).article_number == text,
        value.member("article-number"@) is None ==> crossref_work(value, now_millis, retrieved_at).article_number == Seq::<char>::empty(),
        value.member("language"@) == Some(JsonView::Text(text)) ==> crossref_work(value, now_millis, retrieved_at).language == text,
        value.member("language"@) is None ==> crossref_work(value, now_millis, retrieved_at).language == Seq::<char>::empty(),
        value.member("URL"@) == Some(JsonView::Text(text)) ==> crossref_work(value, now_millis, retrieved_at).url == text,
        value.member("URL"@) is None ==> crossref_work(value, now_millis, retrieved_at).url == Seq::<char>::empty(),
        value.member("title"@) matches Some(JsonView::List(items)) ==> items.len() > 0 && items[0]
            == JsonView::Text(text) ==> crossref_work(value, now_millis, retrieved_at).title == text,
        value.member("title"@) is None ==> crossref_work(value, now_millis, retrieved_at).title == Seq::<char>::empty(),
        value.member("container-title"@) matches Some(JsonView::List(items)) ==> items.len() > 0 && items[0]
            == JsonView::Text(text) ==> crossref_work(value, now_millis, retrieved_at).container_title == text,
        value.member("container-title"@) is None ==> crossref_work(value, now_millis, retrieved_at).container_title == Seq::<char>::empty(),
        value.member("abstract"@) == Some(JsonView::Text(text)) ==> crossref_work(value, now_millis, retrieved_at).abstract_text == unmarked(
            text,
        ),
        value.member("type"@) == Some(JsonView::Text(text)) ==> crossref_work(value, now_millis, retrieved_at).work_type == type_of(text),
        value.member("DOI"@) == Some(JsonView::Text(text)) ==> doi_of(text) is Some ==> crossref_work(value, now_millis, retrieved_at).ids
            == Map::<Seq<char>, Seq<char>>::empty().insert("doi"@, doi_of(text)->0),
        value.member("DOI"@) == Some(JsonView::Text(text)) ==> crossref_work(value, now_millis, retrieved_at).provenance.len() == 1
            && crossref_work(value, now_millis, retrieved_at).provenance[0].source == "crossref"@ && crossref_work(value, now_millis, retrieved_at).provenance[0].source_id == text
            && crossref_work(value, now_millis, retrieved_at).provenance[0].retrieved_at == retrieved_at,
{
}

/// The subjects, the ISSNs and the ISBNs of a Crossref record are those that it lists, and
/// its citation count is the one that it gives.
pub proof fn law_crossref_lists_are_taken(
    value: JsonView,
    now_millis: i64,
    retrieved_at: Seq<char>,
    texts: Seq<Seq<char>>,
    number: u64,
)
    ensures
        list_of(value.member("subject"@), texts) ==> crossref_work(value, now_millis, retrieved_at).subjects == texts,
        list_of(value.member("ISSN"@), texts) ==> crossref_work(value, now_millis, retrieved_at).issn == texts,
        list_of(value.member("ISBN"@), texts) ==> crossref_work(value, now_millis, retrieved_at).isbn == texts,
        number_is(value.member("is-referenced-by-count"@), number) ==> crossref_work(value, now_millis, retrieved_at).metrics.cited_by_count
            == number,
        crossref_work(value, now_millis, retrieved_at).keywords == Seq::<Seq<char>>::empty(),
{
    if list_of(value.member("subject"@), texts) {
        lemma_list_of(value.member("subject"@), texts);
    }
    if list_of(value.member("ISSN"@), texts) {
        lemma_list_of(value.member("ISSN"@), texts);
    }
    if list_of(value.member("ISBN"@), texts) {
        lemma_list_of(value.member("ISBN"@), texts);
    }
}

/// The authors of a Crossref record are those that it lists, each with the names, the
/// ORCID and the affiliations that the record gives.
pub proof fn law_crossref_authors_are_taken(
    value: JsonView,
    now_millis: i64,
    retrieved_at: Seq<char>,
    items: Seq<JsonView>,
    i: int,
    text: Seq<char>,
    texts: Seq<Seq<char>>,
)
    requires
        value.member("author"@) == Some(JsonView::List(items)),
        0 <= i < items.len(),
    ensures
        ({
            let authors = crossref_work(value, now_millis, retrieved_at).authors;
            &&& authors.len() == items.len()
            &&& items[i].member("given"@) == Some(JsonView::Text(text)) ==> authors[i].given == text
            &&& items[i].member("family"@) == Some(JsonView::Text(text)) ==> authors[i].family
                == text
            &&& authors[i].literal == spaced(authors[i].given + " "@ + authors[i].family)
            &&& items[i].member("ORCID"@) == Some(JsonView::Text(text)) && text.len() > 0
                ==> authors[i].orcid == Some(text)
            &&& items[i].member("ORCID"@) is None ==> authors[i].orcid is None
            &&& list_under(items[i].member("affiliation"@), "name"@, texts)
                ==> authors[i].affiliations == texts
        }),
{
    if list_under(items[i].member("affiliation"@), "name"@, texts) {
        lemma_list_under(items[i].member("affiliation"@), "name"@, texts);
    }
}

/// The date of a Crossref record is that of the print, else that of the publication
/// online, else that of the issue, else that of the record.
pub proof fn law_crossref_dates_by_precedence(
    value: JsonView,
    now_millis: i64,
    retrieved_at: Seq<char>,
)
    ensures
        ({
            let parts = crossref_work(value, now_millis, retrieved_at).issued.date_parts;
            let print = date_under(value, "published-print"@);
            let online = date_under(value, "published-online"@);
            let issued = date_under(value, "issued"@);
            &&& print.len() > 0 ==> parts == print
            &&& print.len() == 0 && online.len() > 0 ==> parts == online
            &&& print.len() == 0 && online.len() == 0 && issued.len() > 0 ==> parts == issued
            &&& print.len() == 0 && online.len() == 0 && issued.len() == 0 ==> parts == date_under(
                value,
                "created"@,
            )
        }),
{
}

/// A date of a Crossref record has the numbers that the record lists.
pub proof fn law_crossref_dates_have_their_numbers(
    value: JsonView,
    key: Seq<char>,
    row: Seq<JsonView>,
    numbers: Seq<u32>,
)
    requires
        field_of(value.member(key), "date-parts"@) == Some(
            JsonView::List(seq![JsonView::List(row)]),
        ),
        row.len() == numbers.len(),
        forall|i: int|
            0 <= i < row.len() ==> number_is(Some(#[trigger] row[i]), numbers[i] as u64),
    ensures
        date_under(value, key) == seq![numbers],
{
    let rows = seq![JsonView::List(row)];
    reveal_with_fuel(crate::discovery::number_lists, 2);
    assert(rows.drop_last() =~= Seq::empty());
    lemma_numbers(row, numbers);
    assert(date_under(value, key) =~= seq![numbers]);
}

proof fn lemma_numbers(row: Seq<JsonView>, numbers: Seq<u32>)
    requires
        row.len() == numbers.len(),
        forall|i: int|
            0 <= i < row.len() ==> number_is(Some(#[trigger] row[i]), numbers[i] as u64),
    ensures
        crate::discovery::numbers_in(row) == numbers,
    decreases row.len(),
{
    if row.len() > 0 {
        assert forall|i: int| 0 <= i < row.drop_last().len() implies number_is(
            Some(#[trigger] row.drop_last()[i]),
            numbers.drop_last()[i] as u64,
        ) by {
            assert(row.drop_last()[i] == row[i]);
        }
        lemma_numbers(row.drop_last(), numbers.drop_last());
        assert(number_is(Some(row[row.len() - 1]), numbers[row.len() - 1] as u64));
        assert(crate::discovery::numbers_in(row) =~= numbers);
    } else {
        assert(numbers =~= Seq::empty());
    }
}

/// What an OpenAlex record says of a work under each of its names is what is known of the
/// work afterwards.
pub proof fn law_openalex_texts_are_taken(
    value: JsonView,
    retrieved_at: Seq<char>,
    text: Seq<char>,
)
    ensures
        ({
            let work = openalex_work(value, retrieved_at);
            let place = value.member("primary_location"@);
            let venue = field_of(place, "source"@);
            let biblio = value.member("biblio"@);
            &&& value.member("title"@) == Some(JsonView::Text(text)) ==> work.title == text
            &&& value.member("language"@) == Some(JsonView::Text(text)) ==> work.language == text
            &&& value.member("type"@) == Some(JsonView::Text(text)) ==> work.work_type == type_of(
                text,
            )
            &&& value.member("publication_date"@) == Some(JsonView::Text(text)) ==> work.issued.raw
                == text
            &&& field_of(venue, "display_name"@) == Some(JsonView::Text(text))
                ==> work.container_title == text
            &&& field_of(venue, "host_organization_name"@) == Some(JsonView::Text(text))
                ==> work.publisher == text
            &&& field_of(biblio, "volume"@) == Some(JsonView::Text(text)) ==> work.volume == text
            &&& field_of(biblio, "issue"@) == Some(JsonView::Text(text)) ==> work.issue == text
            &&& value.member("doi"@) == Some(JsonView::Text(text)) && text.len() > 0 ==> work.url
                == text
            &&& value.member("doi"@) is None && field_of(place, "landing_page_url"@) == Some(
                JsonView::Text(text),
            ) && text.len() > 0 ==> work.url == text
            &&& value.member("doi"@) is None && field_of(place, "landing_page_url"@) is None
                && value.member("id"@) == Some(JsonView::Text(text)) ==> work.url == text
            &&& value.member("id"@) == Some(JsonView::Text(text)) ==> work.provenance.len() == 1
                && work.provenance[0].source == "openalex"@ && work.provenance[0].source_id == text
                && work.provenance[0].retrieved_at == retrieved_at
        }),
{
}

/// The pages of an OpenAlex record are those from the first to the last that it names.
pub proof fn law_openalex_pages_are_taken(
    value: JsonView,
    retrieved_at: Seq<char>,
    first: Seq<char>,
    last: Seq<char>,
)
    requires
        field_of(value.member("biblio"@), "first_page"@) == Some(JsonView::Text(first)),
        field_of(value.member("biblio"@), "last_page"@) == Some(JsonView::Text(last)),
    ensures
        first.len() > 0 && last.len() > 0 && first != last ==> openalex_work(value, retrieved_at).page == first + "-"@ + last,
        first == last || last.len() == 0 ==> openalex_work(value, retrieved_at).page == first,
        first.len() == 0 ==> openalex_work(value, retrieved_at).page == last,
{
}

/// The keywords, topics and ISSNs of an OpenAlex record are those that it lists, and its
/// figures and flags those that it gives.
pub proof fn law_openalex_lists_are_taken(
    value: JsonView,
    retrieved_at: Seq<char>,
    texts: Seq<Seq<char>>,
    number: u64,
    figure: Score,
)
    ensures
        ({
            let work = openalex_work(value, retrieved_at);
            let venue = field_of(value.member("primary_location"@), "source"@);
            &&& list_under(value.member("keywords"@), "display_name"@, texts) ==> work.keywords
                == texts
            &&& list_under(value.member("topics"@), "display_name"@, texts) ==> work.subjects
                == texts
            &&& list_of(field_of(venue, "issn"@), texts) ==> work.issn == texts
            &&& number_is(value.member("cited_by_count"@), number) ==> work.metrics.cited_by_count
                == number
            &&& work.metrics.influential_citation_count == 0
            &&& figure_is(value.member("fwci"@), figure) ==> work.metrics.fwci == Some(figure)
            &&& figure_is(
                field_of(value.member("citation_normalized_percentile"@), "value"@),
                figure,
            ) ==> work.metrics.citation_percentile == Some(figure)
            &&& work.flags.contains_key("is_retracted"@) && (work.flags["is_retracted"@]
                <==> value.member("is_retracted"@) == Some(JsonView::Bool(true)))
            &&& work.flags.contains_key("is_paratext"@) && (work.flags["is_paratext"@]
                <==> value.member("is_paratext"@) == Some(JsonView::Bool(true)))
        }),
{
    let venue = field_of(value.member("primary_location"@), "source"@);
    if list_under(value.member("keywords"@), "display_name"@, texts) {
        lemma_list_under(value.member("keywords"@), "display_name"@, texts);
    }
    if list_under(value.member("topics"@), "display_name"@, texts) {
        lemma_list_under(value.member("topics"@), "display_name"@, texts);
    }
    if list_of(field_of(venue, "issn"@), texts) {
        lemma_list_of(field_of(venue, "issn"@), texts);
    }
    reveal_strlit("is_retracted");
    reveal_strlit("is_paratext");
    assert("is_retracted"@.len() == 12 && "is_paratext"@.len() == 11);
}

/// The identifiers of an OpenAlex record are its own, and the DOI, the PubMed and the
/// Microsoft Academic identifiers that it names.
pub proof fn law_openalex_identifiers_are_taken(
    value: JsonView,
    retrieved_at: Seq<char>,
    text: Seq<char>,
)
    requires
        text.len() > 0,
    ensures
        ({
            let ids = openalex_work(value, retrieved_at).ids;
            let named = value.member("ids"@);
            &&& value.member("id"@) == Some(JsonView::Text(text)) ==> ids.contains_key("openalex"@)
                && ids["openalex"@] == text
            &&& field_of(named, "doi"@) == Some(JsonView::Text(text)) ==> doi_of(text) is Some
                ==> ids.contains_key("doi"@) && ids["doi"@] == doi_of(text)->0
            &&& field_of(named, "doi"@) == Some(JsonView::Text(text)) ==> doi_of(text) is None
                ==> ids.contains_key("doi"@) && ids["doi"@] == text
            &&& field_of(named, "pmid"@) == Some(JsonView::Text(text)) ==> ids.contains_key(
                "pmid"@,
            ) && ids["pmid"@] == text
            &&& field_of(named, "mag"@) == Some(JsonView::Text(text)) ==> ids.contains_key("mag"@)
                && ids["mag"@] == text
            &&& field_of(named, "doi"@) is None ==> !ids.contains_key("doi"@)
            &&& field_of(named, "pmid"@) is None ==> !ids.contains_key("pmid"@)
            &&& field_of(named, "mag"@) is None ==> !ids.contains_key("mag"@)
        }),
{
    reveal_strlit("openalex");
    reveal_strlit("doi");
    reveal_strlit("pmid");
    reveal_strlit("mag");
    assert("openalex"@.len() == 8 && "doi"@.len() == 3 && "pmid"@.len() == 4 && "mag"@.len() == 3);
    assert("doi"@[0] == 'd' && "mag"@[0] == 'm');
    let named = value.member("ids"@);
    if field_of(named, "doi"@) == Some(JsonView::Text(text)) && doi_of(text) is Some {
        crate::util::law_doi_normal_form(text);
    }
}

/// The authors of an OpenAlex record are those that it lists, each with the name, the
/// ORCID, the institutions and the identifier that the record gives.
pub proof fn law_openalex_authors_are_taken(
    value: JsonView,
    retrieved_at: Seq<char>,
    items: Seq<JsonView>,
    i: int,
    text: Seq<char>,
    texts: Seq<Seq<char>>,
)
    requires
        value.member("authorships"@) == Some(JsonView::List(items)),
        0 <= i < items.len(),
    ensures
        ({
            let authors = openalex_work(value, retrieved_at).authors;
            let said = items[i].member("author"@);
            &&& authors.len() == items.len()
            &&& field_of(said, "display_name"@) == Some(JsonView::Text(text)) ==> authors[i].literal
                == text && authors[i].given == name_parts(text).0 && authors[i].family
                == name_parts(text).1
            &&& field_of(said, "orcid"@) == Some(JsonView::Text(text)) && text.len() > 0
                ==> authors[i].orcid == Some(text)
            &&& field_of(said, "orcid"@) is None ==> authors[i].orcid is None
            &&& field_of(said, "id"@) == Some(JsonView::Text(text)) && text.len() > 0
                ==> authors[i].ids.contains_key("openalex"@) && authors[i].ids["openalex"@] == text
            &&& list_under(items[i].member("institutions"@), "display_name"@, texts)
                ==> authors[i].affiliations == texts
        }),
{
    if list_under(items[i].member("institutions"@), "display_name"@, texts) {
        lemma_list_under(items[i].member("institutions"@), "display_name"@, texts);
    }
}

/// A full name falls into what precedes its last space and what follows it: the family
/// name is one word, and both together with the space are the name.
pub proof fn law_the_last_word_is_the_family_name(name: Seq<char>)
    ensures
        ({
            let parts = name_parts(name);
            &&& !parts.1.contains(' ')
            &&& name.contains(' ') ==> parts.0 + " "@ + parts.1 == name
            &&& !name.contains(' ') ==> parts.0.len() == 0 && parts.1 == name
        }),
{
    reveal_strlit(" ");
    lemma_past_last_space(name);
    let at = past_last_of(name, " "@) as int;
    let parts = name_parts(name);
    if at > 0 {
        assert(parts.0 + " "@ + parts.1 =~= name);
        assert(name[at - 1] == ' ');
        assert forall|i: int| 0 <= i < parts.1.len() implies parts.1[i] != ' ' by {
            assert(parts.1[i] == name[at + i]);
        }
    }
}

proof fn lemma_past_last_space(name: Seq<char>)
    ensures
        past_last_of(name, " "@) <= name.len(),
        past_last_of(name, " "@) > 0 ==> name[past_last_of(name, " "@) - 1] == ' ',
        forall|i: int| past_last_of(name, " "@) <= i < name.len() ==> #[trigger] name[i] != ' ',
    decreases name.len(),
{
    reveal_strlit(" ");
    assert(" "@ =~= seq![' ']);
    assert(forall|c: char| " "@.contains(c) <==> c == ' ') by {
        assert(" "@[0] == ' ');
    }
    if name.len() > 0 && name.last() != ' ' {
        lemma_past_last_space(name.drop_last());
        assert forall|i: int| past_last_of(name, " "@) <= i < name.len() implies #[trigger] name[i]
            != ' ' by {
            if i < name.len() - 1 {
                assert(name[i] == name.drop_last()[i]);
            }
        }
    }
}

/// What an arXiv entry says of a work is what is known of it afterwards: a preprint in
/// arXiv under its identifier, with the title, the summary, the authors, the date and the
/// categories of the entry, and its PDF in arXiv as an authorized full text.
pub proof fn law_arxiv_entries_are_taken(
    entry: ArxivEntryView,
    arxiv_id: Seq<char>,
    retrieved_at: Seq<char>,
)
    ensures
        ({
            let work = arxiv_work(entry, arxiv_id, retrieved_at);
            &&& work.ids.contains_key("arxiv"@) && work.ids["arxiv"@] == arxiv_id
            &&& entry.doi matches Some(doi) ==> doi_of(doi) is Some ==> work.ids.contains_key(
                "doi"@,
            ) && work.ids["doi"@] == doi_of(doi)->0
            &&& entry.doi is None ==> !work.ids.contains_key("doi"@)
            &&& work.title == spaced(entry.title)
            &&& work.abstract_text == spaced(entry.summary)
            &&& work.work_type == "preprint"@
            &&& work.container_title == "arXiv"@
            &&& work.url == "https://arxiv.org/abs/"@ + arxiv_id
            &&& work.subjects.len() == entry.categories.len()
            &&& forall|i: int|
                0 <= i < entry.categories.len() ==> #[trigger] work.subjects[i]
                    == entry.categories[i].term
            &&& work.authors.len() == entry.authors.len()
            &&& forall|i: int|
                0 <= i < entry.authors.len() ==> (#[trigger] work.authors[i]).literal == spaced(
                    entry.authors[i].name,
                )
            &&& work.issued.raw == date_prefix(entry.published)
            &&& work.fulltext_candidates.len() == 1
            &&& work.fulltext_candidates[0].url == "https://arxiv.org/pdf/"@ + arxiv_id
            &&& work.fulltext_candidates[0].source == "arxiv"@
            &&& work.fulltext_candidates[0].content_type == "application/pdf"@
            &&& work.fulltext_candidates[0].version == "submittedVersion"@
            &&& work.fulltext_candidates[0].authorized
            &&& entry.license matches Some(license) ==> work.fulltext_candidates[0].license
                == license
            &&& work.provenance.len() == 1 && work.provenance[0].source == "arxiv"@
                && work.provenance[0].source_id == arxiv_id && work.provenance[0].retrieved_at
                == retrieved_at
        }),
{
    reveal_strlit("arxiv");
    reveal_strlit("doi");
    assert("arxiv"@.len() == 5 && "doi"@.len() == 3);
}

/// A date that was read from a text has its year, month and day, and keeps the text; a
/// text that is no date is kept without them.
pub proof fn law_dates_keep_their_text(text: Seq<char>, year: u32, month: u32, day: u32)
    requires
        year <= 9999,
    ensures
        dated(text, Some((year as i32, month, day))).date_parts == seq![seq![year, month, day]],
        dated(text, Some((year as i32, month, day))).raw == text,
        dated(text, None).date_parts.len() == 0,
        dated(text, None).raw == text,
{
    assert((year as i32) as u32 == year) by (bit_vector)
        requires
            year <= 9999,
    ;
}

/// The type of a work is that of its source under the name of the corpus, whatever its
/// case and whether it is written with hyphens or underscores; a type that the corpus
/// names likewise stays.
pub proof fn law_types_are_named_alike(value: Seq<char>, plain: Seq<char>)
    requires
        plain == replaced(lowered(value), "_"@, "-"@),
    ensures
        plain == "journal-article"@ ==> type_of(value) == "article-journal"@,
        plain == "article"@ ==> type_of(value) == "article-journal"@,
        plain == "proceedings-article"@ ==> type_of(value) == "paper-conference"@,
        plain == "proceedings"@ ==> type_of(value) == "paper-conference"@,
        plain == "book-chapter"@ ==> type_of(value) == "chapter"@,
        plain == "posted-content"@ ==> type_of(value) == "preprint"@,
        plain == "preprint"@ ==> type_of(value) == "preprint"@,
        plain == "dissertation"@ ==> type_of(value) == "thesis"@,
        plain == "article-journal"@ ==> type_of(value) == "article-journal"@,
        plain == "paper-conference"@ ==> type_of(value) == "paper-conference"@,
        plain == "chapter"@ ==> type_of(value) == "chapter"@,
        plain == "book"@ ==> type_of(value) == "book"@,
        plain == "thesis"@ ==> type_of(value) == "thesis"@,
        plain == "report"@ ==> type_of(value) == "report"@,
        plain == "dataset"@ ==> type_of(value) == "dataset"@,
        plain == "editorial"@ ==> type_of(value) == "editorial"@,
        plain.len() == 0 ==> type_of(value) == "article"@,
{
    reveal_strlit("journal-article");
    reveal_strlit("article");
    reveal_strlit("proceedings-article");
    reveal_strlit("proceedings");
    reveal_strlit("book-chapter");
    reveal_strlit("posted-content");
    reveal_strlit("preprint");
    reveal_strlit("dissertation");
    reveal_strlit("article-journal");
    reveal_strlit("paper-conference");
    reveal_strlit("chapter");
    reveal_strlit("book");
    reveal_strlit("thesis");
    reveal_strlit("report");
    reveal_strlit("dataset");
    reveal_strlit("editorial");
    assert("journal-article"@.len() == 15);
    assert("article"@.len() == 7);
    assert("proceedings-article"@.len() == 19);
    assert("proceedings"@.len() == 11);
    assert("book-chapter"@.len() == 12);
    assert("posted-content"@.len() == 14);
    assert("preprint"@.len() == 8);
    assert("dissertation"@.len() == 12);
    assert("article-journal"@.len() == 15);
    assert("paper-conference"@.len() == 16);
    assert("chapter"@.len() == 7);
    assert("book"@.len() == 4);
    assert("thesis"@.len() == 6);
    assert("report"@.len() == 6);
    assert("dataset"@.len() == 7);
    assert("editorial"@.len() == 9);
    assert("book-chapter"@[0] != "dissertation"@[0]);
    assert("article-journal"@[0] != "journal-article"@[0]);
    assert("chapter"@[0] != "article"@[0]);
    assert("dataset"@[0] != "article"@[0]);
}

/// A license is open exactly where its text, in lowercase, names Creative Commons, its
/// public domain, Open Data Commons or a statement of no copyright.
pub proof fn law_open_licenses_are_named(value: Seq<char>)
    ensures
        open_license(value) <==> {
            ||| holds_text(lowered(value), "creativecommons.org/licenses/"@)
            ||| holds_text(lowered(value), "creativecommons.org/publicdomain/"@)
            ||| holds_text(lowered(value), "opendatacommons.org/licenses/"@)
            ||| holds_text(lowered(value), "rightsstatements.org/vocab/noc-"@)
        },
{
}

/// A host is of an open repository exactly where it is that of arXiv, of NCBI, of Europe
/// PMC, of Zenodo or of HAL, or lies below one of them.
pub proof fn law_open_repositories_are_named(host: Seq<char>, plain: Seq<char>)
    requires
        plain == lowered(host),
    ensures
        open_repository(host) <==> {
            ||| plain == "arxiv.org"@ || finishes_with(plain, ".arxiv.org"@)
            ||| plain == "ncbi.nlm.nih.gov"@ || finishes_with(plain, ".ncbi.nlm.nih.gov"@)
            ||| plain == "europepmc.org"@ || finishes_with(plain, ".europepmc.org"@)
            ||| plain == "zenodo.org"@ || finishes_with(plain, ".zenodo.org"@)
            ||| plain == "hal.science"@ || finishes_with(plain, ".hal.science"@)
        },
{
    reveal_strlit(".");
    reveal_strlit("arxiv.org");
    reveal_strlit(".arxiv.org");
    assert("."@ + "arxiv.org"@ =~= ".arxiv.org"@);
    reveal_strlit("ncbi.nlm.nih.gov");
    reveal_strlit(".ncbi.nlm.nih.gov");
    assert("."@ + "ncbi.nlm.nih.gov"@ =~= ".ncbi.nlm.nih.gov"@);
    reveal_strlit("europepmc.org");
    reveal_strlit(".europepmc.org");
    assert("."@ + "europepmc.org"@ =~= ".europepmc.org"@);
    reveal_strlit("zenodo.org");
    reveal_strlit(".zenodo.org");
    assert("."@ + "zenodo.org"@ =~= ".zenodo.org"@);
    reveal_strlit("hal.science");
    reveal_strlit(".hal.science");
    assert("."@ + "hal.science"@ =~= ".hal.science"@);
}

/// The license is one for the version of the full text, is in force, and is open.
pub open spec fn permits(license: JsonView, version: Seq<char>, now_millis: i64) -> bool {
    let covered = crate::json::text_at(license.member("content-version"@));
    let start = crate::json::signed_at(field_of(license.member("start"@), "timestamp"@));
    &&& covered.len() == 0 || version.len() == 0 || crate::text::ascii_lower(covered)
        == crate::text::ascii_lower(version)
    &&& start matches Some(millis) ==> millis <= now_millis
    &&& open_license(crate::json::text_at(license.member("URL"@)))
}

/// A full text of a Crossref record is licensed exactly where one of the licenses of the
/// record permits it, and then that license is named.
pub proof fn law_one_license_is_enough(
    licenses: Seq<JsonView>,
    version: Seq<char>,
    now_millis: i64,
    fallback: Seq<char>,
)
    ensures
        license_among(licenses, version, now_millis, fallback).1 <==> exists|i: int|
            0 <= i < licenses.len() && permits(#[trigger] licenses[i], version, now_millis),
        license_among(licenses, version, now_millis, fallback).1 ==> exists|i: int|
            0 <= i < licenses.len() && permits(#[trigger] licenses[i], version, now_millis)
                && crate::json::text_at(licenses[i].member("URL"@)) == license_among(
                licenses,
                version,
                now_millis,
                fallback,
            ).0,
    decreases licenses.len(),
{
    if licenses.len() > 0 {
        let url = crate::json::text_at(licenses[0].member("URL"@));
        let next = if fallback.len() == 0 {
            url
        } else {
            fallback
        };
        let rest = licenses.skip(1);
        law_one_license_is_enough(rest, version, now_millis, fallback);
        law_one_license_is_enough(rest, version, now_millis, next);
        assert forall|i: int| 0 <= i < rest.len() implies #[trigger] rest[i] == licenses[i + 1] by {}
        let found = license_among(licenses, version, now_millis, fallback);
        if permits(licenses[0], version, now_millis) {
            assert(found == (url, true));
        } else {
            let deeper = license_among(rest, version, now_millis, fallback);
            let other = license_among(rest, version, now_millis, next);
            assert(found == deeper || found == other);
            if found.1 {
                let k = choose|k: int|
                    0 <= k < rest.len() && permits(#[trigger] rest[k], version, now_millis)
                        && crate::json::text_at(rest[k].member("URL"@)) == found.0;
                assert(permits(licenses[k + 1], version, now_millis));
            }
            if exists|i: int|
                0 <= i < licenses.len() && permits(#[trigger] licenses[i], version, now_millis) {
                let i = choose|i: int|
                    0 <= i < licenses.len() && permits(#[trigger] licenses[i], version, now_millis);
                assert(i > 0);
                assert(permits(rest[i - 1], version, now_millis));
            }
        }
    }
}

/// What a link of a Crossref record offers is at its address, in its version and of its
/// media type, and is authorized exactly where a license permits it or its repository is
/// open.
pub proof fn law_crossref_links_are_taken(
    value: JsonView,
    link: JsonView,
    now_millis: i64,
    licenses: Seq<JsonView>,
    url: Seq<char>,
    version: Seq<char>,
    media: Seq<char>,
)
    requires
        value.member("license"@) == Some(JsonView::List(licenses)),
        link.member("URL"@) == Some(JsonView::Text(url)),
        link.member("content-version"@) == Some(JsonView::Text(version)),
        link.member("content-type"@) == Some(JsonView::Text(media)),
    ensures
        ({
            let place = crossref_place(value, link, now_millis);
            &&& place.url == url
            &&& place.version == version
            &&& place.content_type == media
            &&& place.source == "crossref"@
            &&& place.authorized <==> in_open_repository(url) || exists|i: int|
                0 <= i < licenses.len() && permits(#[trigger] licenses[i], version, now_millis)
        }),
{
    law_one_license_is_enough(licenses, version, now_millis, Seq::empty());
}

/// Every link of a Crossref record to a PDF is offered, and nothing else is.
pub proof fn law_every_pdf_link_is_offered(
    value: JsonView,
    links: Seq<JsonView>,
    now_millis: i64,
    place: FullTextCandidateView,
)
    ensures
        crossref_places(value, links, now_millis).contains(place) <==> exists|i: int|
            0 <= i < links.len() && #[trigger] crossref_place(value, links[i], now_millis) == place
                && holds_text(lowered(place.content_type), "pdf"@) && place.url.len() > 0,
    decreases links.len(),
{
    let all = crossref_places(value, links, now_millis);
    if links.len() > 0 {
        let rest = crossref_places(value, links.drop_last(), now_millis);
        law_every_pdf_link_is_offered(value, links.drop_last(), now_millis, place);
        let last = crossref_place(value, links.last(), now_millis);
        assert(links[links.len() - 1] == links.last());
        assert forall|i: int| 0 <= i < links.len() - 1 implies #[trigger] links.drop_last()[i]
            == links[i] by {}
        if all.contains(place) {
            let k = choose|k: int| 0 <= k < all.len() && all[k] == place;
            if k < rest.len() {
                assert(rest[k] == place);
                assert(rest.contains(place));
                let i = choose|i: int|
                    0 <= i < links.drop_last().len() && #[trigger] crossref_place(
                        value,
                        links.drop_last()[i],
                        now_millis,
                    ) == place && holds_text(lowered(place.content_type), "pdf"@)
                        && place.url.len() > 0;
                assert(crossref_place(value, links[i], now_millis) == place);
            } else {
                assert(crossref_place(value, links[links.len() - 1], now_millis) == place);
            }
        }
        if exists|i: int|
            0 <= i < links.len() && #[trigger] crossref_place(value, links[i], now_millis) == place
                && holds_text(lowered(place.content_type), "pdf"@) && place.url.len() > 0 {
            let i = choose|i: int|
                0 <= i < links.len() && #[trigger] crossref_place(value, links[i], now_millis)
                    == place && holds_text(lowered(place.content_type), "pdf"@) && place.url.len()
                    > 0;
            if i < links.len() - 1 {
                assert(crossref_place(value, links.drop_last()[i], now_millis) == place);
                let k = choose|k: int| 0 <= k < rest.len() && rest[k] == place;
                assert(all[k] == place);
            } else {
                assert(all.last() == place);
                assert(all[all.len() - 1] == place);
            }
        }
    }
}

/// What a location of an OpenAlex record offers is at its address, in its version and
/// under its license, and is authorized exactly where the location, the license or the
/// repository is open.
pub proof fn law_openalex_locations_are_taken(
    location: JsonView,
    open: bool,
    url: Seq<char>,
    version: Seq<char>,
    license: Seq<char>,
)
    requires
        location.member("pdf_url"@) == Some(JsonView::Text(url)),
        location.member("version"@) == Some(JsonView::Text(version)),
        location.member("license"@) == Some(JsonView::Text(license)),
    ensures
        ({
            let place = openalex_place(Some(location), open);
            &&& place.url == url
            &&& place.version == version
            &&& place.license == license
            &&& place.source == "openalex"@
            &&& place.content_type == "application/pdf"@
            &&& place.authorized <==> open || open_license(license) || in_open_repository(url)
        }),
{
}

/// Every location of an OpenAlex record with a PDF is offered, open where OpenAlex says
/// so; the best open location is offered besides where none of them is authorized.
pub proof fn law_every_openalex_location_is_offered(
    value: JsonView,
    locations: Seq<JsonView>,
    i: int,
)
    requires
        value.member("locations"@) == Some(JsonView::List(locations)),
        0 <= i < locations.len(),
        crate::json::text_at(locations[i].member("pdf_url"@)).len() > 0,
    ensures
        openalex_fulltext(value).contains(
            openalex_place(
                Some(locations[i]),
                locations[i].member("is_oa"@) == Some(JsonView::Bool(true)),
            ),
        ),
{
    lemma_location_is_offered(locations, i);
    let place = openalex_place(
        Some(locations[i]),
        locations[i].member("is_oa"@) == Some(JsonView::Bool(true)),
    );
    let places = openalex_places(locations);
    let k = choose|k: int| 0 <= k < places.len() && places[k] == place;
    assert(openalex_fulltext(value)[k] == place);
}

proof fn lemma_location_is_offered(locations: Seq<JsonView>, i: int)
    requires
        0 <= i < locations.len(),
        crate::json::text_at(locations[i].member("pdf_url"@)).len() > 0,
    ensures
        openalex_places(locations).contains(
            openalex_place(
                Some(locations[i]),
                locations[i].member("is_oa"@) == Some(JsonView::Bool(true)),
            ),
        ),
    decreases locations.len(),
{
    let place = openalex_place(
        Some(locations[i]),
        locations[i].member("is_oa"@) == Some(JsonView::Bool(true)),
    );
    let all = openalex_places(locations);
    let rest = openalex_places(locations.drop_last());
    if i < locations.len() - 1 {
        lemma_location_is_offered(locations.drop_last(), i);
        let k = choose|k: int| 0 <= k < rest.len() && rest[k] == place;
        assert(all[k] == place);
    } else {
        assert(all[all.len() - 1] == place);
    }
}

/// The best open location of an OpenAlex record is offered where none of its locations
/// is authorized, and only then.
pub proof fn law_the_best_location_is_a_last_resort(value: JsonView, best: JsonView)
    requires
        value.member("best_oa_location"@) == Some(best),
        crate::json::text_at(best.member("pdf_url"@)).len() > 0,
    ensures
        ({
            let places = openalex_places(crate::json::items_at(value.member("locations"@)));
            let open = field_of(value.member("open_access"@), "is_oa"@) == Some(
                JsonView::Bool(true),
            );
            &&& any_authorized(places) ==> openalex_fulltext(value) == places
            &&& !any_authorized(places) ==> openalex_fulltext(value) == places.push(
                openalex_place(Some(best), open),
            )
        }),
{
}

/// An abstract is made of the words of its index by their positions: they are the words
/// of the index, each at each of its positions, and no later one has a lesser position.
pub proof fn law_an_abstract_goes_by_position(members: Seq<(Seq<char>, JsonView)>)
    ensures
        exists|words: Seq<(u64, Seq<char>)>|
            {
                &&& #[trigger] words.to_multiset() == indexed_words(members).to_multiset()
                &&& forall|i: int, j: int|
                    0 <= i < j < words.len() ==> (#[trigger] words[i]).0 <= (#[trigger] words[j]).0
                &&& inverted_text(Some(JsonView::Object(members))) == spaced(
                    joined(Seq::new(words.len(), |i: int| words[i].1), " "@),
                )
            },
{
    let words = ordered::<PlacedWord>(indexed_words(members));
    law_ordered::<PlacedWord>(indexed_words(members));
    assert(bare_words(words) =~= Seq::new(words.len(), |i: int| words[i].1));
    assert(words.to_multiset() == indexed_words(members).to_multiset());
}

/// Findings that go by a common name make one work: the first with what the second says.
pub proof fn law_findings_of_one_name_are_one_work(
    first: DiscoveredWorkView,
    second: DiscoveredWorkView,
    name: Seq<char>,
)
    requires
        aliases_of(first.record).contains(name),
        aliases_of(second.record).contains(name),
    ensures
        ({
            let works = findings_of(seq![first, second]).works;
            &&& works.len() == 1
            &&& works[0].record == merged(first.record, second.record)
            &&& works[0].raw_records == first.raw_records + second.raw_records
        }),
{
    let both = seq![first, second];
    reveal_with_fuel(findings_of, 3);
    assert(both.drop_last() =~= seq![first]);
    assert(seq![first].drop_last() =~= Seq::empty());
    let empty = Findings { works: Seq::empty(), aliases: Map::empty() };
    let names = aliases_of(first.record);
    lemma_nothing_known(names);
    let one = with_finding(empty, first);
    assert(one.works =~= seq![first]);
    assert(findings_of(seq![first]) == one);
    lemma_names_lead_to(Map::empty(), names, 0, name);
    lemma_known_by_a_name(one.aliases, aliases_of(second.record), name);
    lemma_names_lead_to_one(names, 0);
    let index = known_under(one.aliases, aliases_of(second.record))->0;
    assert(index == 0);
}

proof fn lemma_nothing_known(names: Seq<Seq<char>>)
    ensures
        known_under(Map::empty(), names) is None,
    decreases names.len(),
{
    if names.len() > 0 {
        lemma_nothing_known(names.skip(1));
    }
}

proof fn lemma_names_lead_to(
    aliases: Map<Seq<char>, usize>,
    names: Seq<Seq<char>>,
    index: usize,
    name: Seq<char>,
)
    requires
        names.contains(name),
    ensures
        with_aliases(aliases, names, index).contains_key(name),
    decreases names.len(),
{
    let i = choose|i: int| 0 <= i < names.len() && names[i] == name;
    if i < names.len() - 1 {
        assert(names.drop_last()[i] == name);
        lemma_names_lead_to(aliases, names.drop_last(), index, name);
    }
}

proof fn lemma_names_lead_to_one(names: Seq<Seq<char>>, index: usize)
    ensures
        forall|name: Seq<char>| #[trigger]
            with_aliases(Map::empty(), names, index).contains_key(name) ==> with_aliases(
                Map::empty(),
                names,
                index,
            )[name] == index,
    decreases names.len(),
{
    if names.len() > 0 {
        lemma_names_lead_to_one(names.drop_last(), index);
        let rest = with_aliases(Map::empty(), names.drop_last(), index);
        let all = with_aliases(Map::empty(), names, index);
        assert forall|name: Seq<char>| #[trigger] all.contains_key(name) implies all[name]
            == index by {
            assert(name != names.last() ==> rest.contains_key(name));
        }
    }
}

proof fn lemma_known_by_a_name(
    aliases: Map<Seq<char>, usize>,
    names: Seq<Seq<char>>,
    name: Seq<char>,
)
    requires
        names.contains(name),
        aliases.contains_key(name),
    ensures
        known_under(aliases, names) is Some,
        exists|other: Seq<char>| #[trigger]
            aliases.contains_key(other) && known_under(aliases, names) == Some(aliases[other]),
    decreases names.len(),
{
    if !aliases.contains_key(names[0]) {
        let i = choose|i: int| 0 <= i < names.len() && names[i] == name;
        assert(names.skip(1)[i - 1] == name);
        lemma_known_by_a_name(aliases, names.skip(1), name);
    }
}

/// Findings with one DOI, with one OpenAlex identifier, or with one arXiv identifier in
/// any version are one work; so are findings without any of these whose titles, as far as
/// they are compared, and years are the same.
pub proof fn law_findings_of_one_identifier_are_one_work(
    first: DiscoveredWorkView,
    second: DiscoveredWorkView,
)
    requires
        ({
            ||| doi_in(first.record.ids) is Some && doi_in(first.record.ids) == doi_in(
                second.record.ids,
            )
            ||| openalex_in(first.record.ids) is Some && openalex_in(first.record.ids)
                == openalex_in(second.record.ids)
            ||| arxiv_in(first.record.ids) is Some && arxiv_in(second.record.ids) is Some
                && without_version(arxiv_in(first.record.ids)->0) == without_version(
                arxiv_in(second.record.ids)->0,
            )
            ||| !has_persistent_id(first.record.ids) && !has_persistent_id(second.record.ids)
                && fingerprint(first.record.title) == fingerprint(second.record.title) && year_of(
                first.record,
            ) == year_of(second.record)
        }),
    ensures
        findings_of(seq![first, second]).works.len() == 1,
        findings_of(seq![first, second]).works[0].record == merged(first.record, second.record),
{
    lemma_names_of_identifiers(first.record);
    lemma_names_of_identifiers(second.record);
    if doi_in(first.record.ids) is Some && doi_in(first.record.ids) == doi_in(second.record.ids) {
        law_findings_of_one_name_are_one_work(first, second, "doi:"@ + doi_in(first.record.ids)->0);
    } else if openalex_in(first.record.ids) is Some && openalex_in(first.record.ids)
        == openalex_in(second.record.ids) {
        law_findings_of_one_name_are_one_work(
            first,
            second,
            "openalex:"@ + lowered(openalex_in(first.record.ids)->0),
        );
    } else if arxiv_in(first.record.ids) is Some {
        law_findings_of_one_name_are_one_work(
            first,
            second,
            "arxiv:"@ + lowered(without_version(arxiv_in(first.record.ids)->0)),
        );
    } else {
        law_findings_of_one_name_are_one_work(
            first,
            second,
            "title:"@ + fingerprint(first.record.title) + ":"@ + decimal(
                year_or_zero(first.record) as nat,
            ),
        );
    }
}

/// A work goes by the name of each of its identifiers.
proof fn lemma_names_of_identifiers(work: WorkRecordView)
    ensures
        doi_in(work.ids) is Some ==> aliases_of(work).contains("doi:"@ + doi_in(work.ids)->0),
        openalex_in(work.ids) is Some ==> aliases_of(work).contains(
            "openalex:"@ + lowered(openalex_in(work.ids)->0),
        ),
        arxiv_in(work.ids) is Some ==> aliases_of(work).contains(
            "arxiv:"@ + lowered(without_version(arxiv_in(work.ids)->0)),
        ),
        !has_persistent_id(work.ids) ==> aliases_of(work).contains(
            "title:"@ + fingerprint(work.title) + ":"@ + decimal(year_or_zero(work) as nat),
        ),
{
    let names = aliases_of(work);
    let d: int = if doi_in(work.ids) is Some {
        1
    } else {
        0
    };
    let a = arxiv_names(work.ids).len() as int;
    if d == 1 {
        assert(names[1] == "doi:"@ + doi_in(work.ids)->0);
    }
    if arxiv_in(work.ids) is Some {
        let id = arxiv_in(work.ids)->0;
        law_arxiv_normal_form(work.ids["arxiv"@]);
        assert(arxiv_names(work.ids)[1] == "arxiv:"@ + lowered(without_version(id)));
        assert(names[2 + d] == "arxiv:"@ + lowered(without_version(id)));
    }
    if openalex_in(work.ids) is Some {
        assert(names[1 + d + a] == "openalex:"@ + lowered(openalex_in(work.ids)->0));
    }
    if !has_persistent_id(work.ids) {
        assert(names[1] == "title:"@ + fingerprint(work.title) + ":"@ + decimal(
            year_or_zero(work) as nat,
        ));
    }
}

/// A work that Crossref describes is retracted exactly where what its record says of
/// updates, of what it updates, or of relations speaks of a retraction.
pub proof fn law_retractions_are_heard(
    value: JsonView,
    now_millis: i64,
    retrieved_at: Seq<char>,
)
    ensures
        ({
            let flags = crossref_work(value, now_millis, retrieved_at).flags;
            &&& flags.contains_key("is_retracted"@)
            &&& flags["is_retracted"@] <==> exists|part: JsonView|
                (value.member("update-to"@) == Some(part) || value.member("updated-by"@) == Some(
                    part,
                ) || value.member("relation"@) == Some(part)) && holds_text(
                    lowered(#[trigger] json_text(part)),
                    "retract"@,
                )
        }),
{
}

/// A response is kept as it came, with its source, its identifier there and the time.
pub proof fn law_responses_are_kept_as_they_came(
    value: JsonView,
    now_millis: i64,
    retrieved_at: Seq<char>,
    entry: ArxivEntryView,
    id: Seq<char>,
)
    ensures
        ({
            let a = openalex_hit(value, retrieved_at);
            let b = crossref_hit(value, now_millis, retrieved_at);
            let c = arxiv_finding(entry, id, retrieved_at);
            &&& a.record == openalex_work(value, retrieved_at)
            &&& a.raw_records.len() == 1 && a.raw_records[0].raw == value
                && a.raw_records[0].source == "openalex"@ && a.raw_records[0].retrieved_at
                == retrieved_at
            &&& value.member("id"@) == Some(JsonView::Text(id)) ==> a.raw_records[0].source_id == id
            &&& b.record == crossref_work(value, now_millis, retrieved_at)
            &&& b.raw_records.len() == 1 && b.raw_records[0].raw == value
                && b.raw_records[0].source == "crossref"@ && b.raw_records[0].retrieved_at
                == retrieved_at
            &&& b.record.ids.contains_key("doi"@) ==> b.raw_records[0].source_id
                == b.record.ids["doi"@]
            &&& c.record == arxiv_work(entry, id, retrieved_at)
            &&& c.raw_records.len() == 1 && c.raw_records[0].source == "arxiv"@
                && c.raw_records[0].source_id == id && c.raw_records[0].retrieved_at == retrieved_at
        }),
{
}

/// The answer to a lookup by DOI is the work that its message describes.
pub proof fn law_a_lookup_gives_its_message(
    payload: JsonView,
    value: JsonView,
    doi: Seq<char>,
    now_millis: i64,
    retrieved_at: Seq<char>,
)
    ensures
        payload.member("message"@) == Some(value) ==> (crossref_answer(
            payload,
            doi,
            now_millis,
            retrieved_at,
        ) matches Some(found) && found.record == crossref_work(value, now_millis, retrieved_at)
            && found.raw_records.len() == 1 && found.raw_records[0].raw == value),
        payload.member("message"@) is None ==> crossref_answer(
            payload,
            doi,
            now_millis,
            retrieved_at,
        ) is None,
{
}

/// A page of results is taken in up to the limit, from its beginning.
pub proof fn law_results_are_taken_up_to_the_limit(items: Seq<JsonView>, limit: nat, have: nat)
    requires
        have <= limit,
    ensures
        ({
            let taken = missing_items(items, limit, have);
            &&& have + taken.len() <= limit
            &&& taken.len() == items.len() || have + taken.len() == limit
            &&& taken.len() <= items.len()
            &&& forall|i: int| 0 <= i < taken.len() ==> #[trigger] taken[i] == items[i]
        }),
{
}

/// Semantic Scholar adds to what is known of a work: its identifier there, the greater
/// citation count, the influential citations, and its open PDF as one more full text;
/// everything else stays.
pub proof fn law_scholar_adds_to_a_work(
    work: DiscoveredWorkView,
    value: JsonView,
    retrieved_at: Seq<char>,
    number: u64,
    text: Seq<char>,
)
    ensures
        ({
            let known = with_scholar(work, value, retrieved_at);
            let before = work.record;
            let pdf = value.member("openAccessPdf"@);
            &&& known.record.metrics.cited_by_count >= before.metrics.cited_by_count
            &&& number_is(value.member("citationCount"@), number)
                ==> known.record.metrics.cited_by_count >= number && (
            known.record.metrics.cited_by_count == number || known.record.metrics.cited_by_count
                == before.metrics.cited_by_count)
            &&& number_is(value.member("influentialCitationCount"@), number)
                ==> known.record.metrics.influential_citation_count == number
            &&& known.record.metrics.fwci == before.metrics.fwci
            &&& known.record.metrics.citation_percentile == before.metrics.citation_percentile
            &&& value.member("paperId"@) == Some(JsonView::Text(text)) ==> known.record.ids
                == before.ids.insert("semantic_scholar"@, text)
            &&& value.member("paperId"@) is None ==> known.record.ids == before.ids
            &&& field_of(pdf, "url"@) is None ==> known.record.fulltext_candidates
                == before.fulltext_candidates
            &&& field_of(pdf, "url"@) == Some(JsonView::Text(text)) && text.len() > 0 ==> {
                let places = known.record.fulltext_candidates;
                &&& places.len() == before.fulltext_candidates.len() + 1
                &&& places.drop_last() == before.fulltext_candidates
                &&& places.last().url == text
                &&& places.last().source == "semantic_scholar"@
                &&& places.last().content_type == "application/pdf"@
                &&& places.last().authorized <==> value.member("isOpenAccess"@) == Some(
                    JsonView::Bool(true),
                )
            }
            &&& known.raw_records.len() == work.raw_records.len() + 1
            &&& known.raw_records.drop_last() == work.raw_records
            &&& known.raw_records.last().raw == value && known.raw_records.last().source
                == "semantic_scholar"@ && known.raw_records.last().retrieved_at == retrieved_at
            &&& known.record.title == before.title && known.record.abstract_text
                == before.abstract_text && known.record.authors == before.authors
                && known.record.issued == before.issued && known.record.work_type
                == before.work_type && known.record.flags == before.flags
                && known.record.provenance == before.provenance && known.record.container_title
                == before.container_title
        }),
{
    let known = with_scholar(work, value, retrieved_at);
    assert(known.raw_records.drop_last() =~= work.raw_records);
    if known.record.fulltext_candidates.len() > work.record.fulltext_candidates.len() {
        assert(known.record.fulltext_candidates.drop_last()
            =~= work.record.fulltext_candidates);
    }
}

/// What Semantic Scholar says of a batch goes to the works of the batch, one by one; all
/// other works stay.
pub proof fn law_a_batch_goes_to_its_works(
    works: Seq<DiscoveredWorkView>,
    offset: nat,
    payload: Seq<Option<JsonView>>,
    retrieved_at: Seq<char>,
    i: int,
)
    requires
        0 <= i < works.len(),
    ensures
        ({
            let known = with_batch(works, offset, payload, retrieved_at);
            &&& known.len() == works.len()
            &&& i < offset || i >= offset + payload.len() ==> known[i] == works[i]
            &&& offset <= i < offset + payload.len() ==> (payload[i - offset] matches Some(value)
                ==> known[i] == with_scholar(works[i], value, retrieved_at))
            &&& offset <= i < offset + payload.len() && payload[i - offset] is None ==> known[i]
                == works[i]
        }),
{
}

/// A date is cut from a text in ASCII behind its first ten characters.
pub proof fn law_dates_have_ten_characters(text: Seq<char>)
    requires
        is_ascii_chars(text),
        text.len() >= 10,
    ensures
        date_prefix(text) == text.take(10),
{
    lemma_ascii_bytes(text, 10);
}

proof fn lemma_ascii_bytes(text: Seq<char>, bytes: nat)
    requires
        is_ascii_chars(text),
        bytes <= text.len(),
    ensures
        chars_in_bytes(text, bytes) == Some(bytes),
    decreases bytes,
{
    if bytes > 0 {
        let rest = text.skip(1);
        assert(text[0] <= '\u{7f}');
        assert forall|i: int| 0 <= i < rest.len() implies '\0' <= #[trigger] rest[i] <= '\u{7f}' by {
            assert(rest[i] == text[i + 1]);
        }
        lemma_ascii_bytes(rest, (bytes - 1) as nat);
    }
}

/// Of the entries of a feed the first is taken that is of the requested work, and none
/// where there is no such entry.
pub proof fn law_the_requested_entry_is_taken(id: Seq<char>, entries: Seq<ArxivEntryView>)
    ensures
        requested_entry(id, entries) matches Some(entry) ==> entries.contains(entry)
            && arxiv_match(id, entry.id),
        requested_entry(id, entries) is None ==> forall|i: int|
            0 <= i < entries.len() ==> !arxiv_match(id, (#[trigger] entries[i]).id),
    decreases entries.len(),
{
    if entries.len() > 0 {
        if arxiv_match(id, entries[0].id) {
            assert(entries.contains(entries[0]));
        } else {
            let rest = entries.skip(1);
            law_the_requested_entry_is_taken(id, rest);
            if requested_entry(id, rest) is Some {
                let k = choose|k: int| 0 <= k < rest.len() && rest[k] == requested_entry(id, rest)->0;
                assert(entries[k + 1] == rest[k]);
            } else {
                assert forall|i: int| 0 <= i < entries.len() implies !arxiv_match(
                    id,
                    (#[trigger] entries[i]).id,
                ) by {
                    if i > 0 {
                        assert(entries[i] == rest[i - 1]);
                    }
                }
            }
        }
    }
}

/// A request that names a version is met by that version alone, and one that names none by
/// every version of the work; case makes no difference.
pub proof fn law_versions_are_matched(requested: Seq<char>, candidate: Seq<char>)
    requires
        arxiv_of(requested) is Some,
        arxiv_of(candidate) is Some,
    ensures
        ({
            let wanted = arxiv_of(requested)->0;
            let found = arxiv_of(candidate)->0;
            &&& wanted == found && without_version(wanted) != wanted ==> arxiv_match(
                requested,
                candidate,
            )
            &&& without_version(wanted) != wanted && arxiv_match(requested, candidate)
                ==> ascii_lower(wanted) == ascii_lower(found)
            &&& without_version(wanted) == wanted ==> (arxiv_match(requested, candidate)
                <==> ascii_lower(without_version(found)) == ascii_lower(wanted))
        }),
{
}

/// The works of a feed are taken in order behind those that are there: those that lie in
/// the publication window, up to the limit.
pub proof fn law_feeds_are_taken_within_the_window(
    output: Seq<DiscoveredWorkView>,
    entries: Seq<ArxivEntryView>,
    limit: nat,
    plan: ResearchPlanView,
    retrieved_at: Seq<char>,
)
    requires
        output.len() < limit,
    ensures
        with_entries(output, entries, limit, plan, retrieved_at) matches Some(works) ==> {
            &&& output.len() <= works.len() <= limit
            &&& forall|i: int| 0 <= i < output.len() ==> #[trigger] works[i] == output[i]
            &&& forall|i: int|
                output.len() <= i < works.len() ==> (year_of((#[trigger] works[i]).record) is None
                    || in_window(year_of(works[i].record)->0, plan))
            &&& forall|i: int|
                output.len() <= i < works.len() ==> exists|k: int|
                    0 <= k < entries.len() && #[trigger] works[i] == arxiv_finding(
                        #[trigger] entries[k],
                        arxiv_of(entries[k].id)->0,
                        retrieved_at,
                    )
            &&& works.len() < limit ==> forall|k: int|
                0 <= k < entries.len() ==> arxiv_of((#[trigger] entries[k]).id) is Some && ({
                    let finding = arxiv_finding(
                        entries[k],
                        arxiv_of(entries[k].id)->0,
                        retrieved_at,
                    );
                    (year_of(finding.record) is None || in_window(
                        year_of(finding.record)->0,
                        plan,
                    )) ==> works.contains(finding)
                })
        },
    decreases entries.len(),
{
    if entries.len() > 0 && arxiv_of(entries[0].id) is Some {
        let finding = arxiv_finding(entries[0], arxiv_of(entries[0].id)->0, retrieved_at);
        let fits = year_of(finding.record) is None || in_window(year_of(finding.record)->0, plan);
        let next = if fits {
            output.push(finding)
        } else {
            output
        };
        let rest = entries.skip(1);
        let end = with_entries(output, entries, limit, plan, retrieved_at);
        if next.len() < limit {
            law_feeds_are_taken_within_the_window(next, rest, limit, plan, retrieved_at);
            if end is Some {
                let works = end->0;
                assert forall|i: int| 0 <= i < output.len() implies #[trigger] works[i]
                    == output[i] by {
                    assert(works[i] == next[i]);
                }
                if fits {
                    assert(works[output.len() as int] == next[output.len() as int]);
                }
                assert forall|i: int| output.len() <= i < works.len() implies (year_of(
                    (#[trigger] works[i]).record,
                ) is None || in_window(year_of(works[i].record)->0, plan)) by {
                    if i < next.len() {
                        assert(works[i] == next[i]);
                    }
                }
                assert forall|i: int| output.len() <= i < works.len() implies exists|k: int|
                    0 <= k < entries.len() && #[trigger] works[i] == arxiv_finding(
                        #[trigger] entries[k],
                        arxiv_of(entries[k].id)->0,
                        retrieved_at,
                    ) by {
                    if i < next.len() {
                        assert(works[i] == finding);
                        assert(entries[0] == entries[0]);
                    } else {
                        let k = choose|k: int|
                            0 <= k < rest.len() && works[i] == arxiv_finding(
                                #[trigger] rest[k],
                                arxiv_of(rest[k].id)->0,
                                retrieved_at,
                            );
                        assert(entries[k + 1] == rest[k]);
                    }
                }
                if works.len() < limit {
                    assert forall|k: int| 0 <= k < entries.len() implies arxiv_of(
                        (#[trigger] entries[k]).id,
                    ) is Some && ({
                        let other = arxiv_finding(
                            entries[k],
                            arxiv_of(entries[k].id)->0,
                            retrieved_at,
                        );
                        (year_of(other.record) is None || in_window(year_of(other.record)->0, plan))
                            ==> works.contains(other)
                    }) by {
                        if k > 0 {
                            assert(entries[k] == rest[k - 1]);
                        } else if fits {
                            assert(works[output.len() as int] == finding);
                        }
                    }
                }
            }
        } else {
            if end is Some {
                assert(end->0 == next);
                assert(fits);
                assert(next[output.len() as int] == finding);
                assert(entries[0] == entries[0]);
            }
        }
    }
}

/// Where no license permits a full text, the one that was named before stays named; the
/// first that is for the version is named where none was.
pub proof fn law_the_first_license_stays_named(
    licenses: Seq<JsonView>,
    version: Seq<char>,
    now_millis: i64,
    fallback: Seq<char>,
)
    ensures
        !license_among(licenses, version, now_millis, fallback).1 && fallback.len() > 0
            ==> license_among(licenses, version, now_millis, fallback).0 == fallback,
        ({
            let covered = crate::json::text_at(licenses[0].member("content-version"@));
            let url = crate::json::text_at(licenses[0].member("URL"@));
            licenses.len() > 0 && (covered.len() == 0 || version.len() == 0 || ascii_lower(covered)
                == ascii_lower(version)) && url.len() > 0 && fallback.len() == 0 && !license_among(
                licenses,
                version,
                now_millis,
                fallback,
            ).1 ==> license_among(licenses, version, now_millis, fallback).0 == url
        }),
    decreases licenses.len(),
{
    if licenses.len() > 0 {
        let url = crate::json::text_at(licenses[0].member("URL"@));
        let next = if fallback.len() == 0 {
            url
        } else {
            fallback
        };
        law_the_first_license_stays_named(licenses.skip(1), version, now_millis, fallback);
        law_the_first_license_stays_named(licenses.skip(1), version, now_millis, next);
    }
}

/// An arXiv entry is kept as a response with all that it says, each under its own name.
pub proof fn law_arxiv_entries_are_kept_whole(entry: ArxivEntryView)
    ensures
        ({
            let kept = crate::discovery::entry_view(entry);
            &&& kept.member("id"@) == Some(JsonView::Text(entry.id))
            &&& kept.member("title"@) == Some(JsonView::Text(entry.title))
            &&& kept.member("summary"@) == Some(JsonView::Text(entry.summary))
            &&& kept.member("published"@) == Some(JsonView::Text(entry.published))
            &&& entry.doi matches Some(doi) ==> kept.member("doi"@) == Some(JsonView::Text(doi))
            &&& entry.doi is None ==> kept.member("doi"@) == Some(JsonView::Null)
            &&& entry.license matches Some(license) ==> kept.member("license"@) == Some(
                JsonView::Text(license),
            )
            &&& kept.member("author"@) matches Some(JsonView::List(authors)) && authors.len()
                == entry.authors.len() && forall|i: int|
                0 <= i < authors.len() ==> #[trigger] authors[i] == JsonView::Object(
                    seq![("name"@, JsonView::Text(entry.authors[i].name))],
                )
            &&& kept.member("category"@) matches Some(JsonView::List(categories))
                && categories.len() == entry.categories.len() && forall|i: int|
                0 <= i < categories.len() ==> #[trigger] categories[i] == JsonView::Object(
                    seq![("@term"@, JsonView::Text(entry.categories[i].term))],
                )
        }),
{
    let members = crate::discovery::entry_view(entry)->Object_0;
    reveal_strlit("id");
    reveal_strlit("title");
    reveal_strlit("summary");
    reveal_strlit("published");
    reveal_strlit("author");
    reveal_strlit("category");
    reveal_strlit("doi");
    reveal_strlit("license");
    assert("id"@.len() == 2);
    assert("title"@.len() == 5);
    assert("summary"@.len() == 7);
    assert("published"@.len() == 9);
    assert("author"@.len() == 6);
    assert("category"@.len() == 8);
    assert("doi"@.len() == 3);
    assert("license"@.len() == 7);
    lemma_member_at(members, "id"@, 0);
    lemma_member_at(members, "title"@, 1);
    lemma_member_at(members, "summary"@, 2);
    lemma_member_at(members, "published"@, 3);
    lemma_member_at(members, "author"@, 4);
    lemma_member_at(members, "category"@, 5);
    lemma_member_at(members, "doi"@, 6);
    assert("license"@[0] != "summary"@[0]);
    lemma_member_at(members, "license"@, 7);
}

/// An author of whom only the whole name is known has that name with single spaces, and
/// its last word as the family name.
pub proof fn law_whole_names_are_taken_apart(name: Seq<char>)
    ensures
        ({
            let author = crate::discovery::literal_author(name);
            &&& author.literal == spaced(name)
            &&& !author.family.contains(' ')
            &&& author.literal.contains(' ') ==> author.given + " "@ + author.family
                == author.literal
            &&& !author.literal.contains(' ') ==> author.family == author.literal
                && author.given.len() == 0
            &&& author.orcid is None && author.affiliations.len() == 0
        }),
{
    law_the_last_word_is_the_family_name(spaced(name));
}

/// A work that was looked up in OpenAlex is kept with the record that it was read from,
/// under its OpenAlex identifier.
pub proof fn law_openalex_lookups_are_kept(value: JsonView, retrieved_at: Seq<char>)
    ensures
        ({
            let found = crate::discovery::openalex_finding(value, retrieved_at);
            &&& found.record == openalex_work(value, retrieved_at)
            &&& found.raw_records.len() == 1
            &&& found.raw_records[0].source == "openalex"@
            &&& found.raw_records[0].raw == value
            &&& found.raw_records[0].retrieved_at == retrieved_at
            &&& found.raw_records[0].source_id == crate::json::text_at(value.member("id"@))
        }),
{
    reveal_strlit("openalex");
    reveal_strlit("doi");
    reveal_strlit("pmid");
    reveal_strlit("mag");
    assert("openalex"@.len() == 8 && "doi"@.len() == 3 && "pmid"@.len() == 4 && "mag"@.len() == 3);
}

} // verus!
