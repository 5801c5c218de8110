//! Finding works: what the scholarly sources are asked, and what their answers say.

use crate::adapters::{
    append_path_segment, calendar_date, json_text, parse_date, parse_url, url_parts,
    url_with_segment,
};
use crate::config::{placeholder, placeholder_value, ConfigError, Settings};
use crate::domain::{
    any_authorized, bare_work, doi_in, find_doi, identity_of, law_merge_keeps_identifiers,
    law_merge_keeps_provenance, merged, no_author, same_source, source_known, year_of, Author,
    AuthorView, DateParts, DatePartsView, FullTextCandidate, FullTextCandidateView, Metrics,
    RawSourceRecord, RawSourceRecordView, ResearchPlan, ResearchPlanView, WorkRecord,
    WorkRecordView,
};
use crate::json::{
    count, each, each_field, field, field_of, first_string, first_string_at, floating, floating_at,
    insert, is_true, item, items_at, list, member_views, object, plain_text, seen,
    signed, signed_at, string, string_at, strings, strings_in, strings_under, text, text_at,
    true_at, unsigned, unsigned_at, Json, JsonView,
};
use crate::model::{duplicate_all, duplicate_option, opt_view, views, Duplicate};
use crate::order::{ordered, sort, Ranked};
use crate::table::TextMap;
use crate::text::{
    all_digits, ascii_digit, ascii_lower, ascii_lower_char, begins_with, chars_of, contains,
    decimal, decimal_text, ends_with, eq_ignore_ascii_case, find_past_last, finishes_with, found_at,
    holds_text, join, joined, lower, lowered, opt_text, parse_unsigned, past_last_of, replace,
    replaced, same_text, text_of, texts, trimmed, trimmed_end_of, unsigned_value,
};
use crate::util::{
    arxiv_base_id, arxiv_base_of, arxiv_ids_match, arxiv_match, arxiv_of, doi_of, fingerprint,
    last_segment, law_arxiv_normal_form, lemma_arxiv_lowercase_differs, normalize_arxiv,
    normalize_doi, normalize_openalex, normalize_space, openalex_of, spaced, strip_markup,
    title_fingerprint, unmarked, without_version,
};
use vstd::multiset::Multiset;
use vstd::prelude::*;
use vstd::string::StringExecFns;
use vstd::utf8::is_ascii_chars;

verus! {

/// A work that was found, with the responses that it was read from.
#[derive(Debug)]
pub struct DiscoveredWork {
    pub record: WorkRecord,
    pub raw_records: Vec<RawSourceRecord>,
}

/// What a `DiscoveredWork` holds.
#[verifier::ext_equal]
pub struct DiscoveredWorkView {
    pub record: WorkRecordView,
    pub raw_records: Seq<RawSourceRecordView>,
}

impl View for DiscoveredWork {
    type V = DiscoveredWorkView;

    open spec fn view(&self) -> DiscoveredWorkView {
        DiscoveredWorkView {
            record: self.record@,
            raw_records: views(self.raw_records@),
        }
    }
}

impl Duplicate for DiscoveredWork {
    fn duplicate(&self) -> (r: DiscoveredWork) {
        DiscoveredWork {
            record: self.record.duplicate(),
            raw_records: duplicate_all(&self.raw_records),
        }
    }
}

/// An author of an arXiv entry.
#[derive(Debug)]
pub struct ArxivAuthor {
    pub name: String,
}

/// What a `ArxivAuthor` holds.
#[verifier::ext_equal]
pub struct ArxivAuthorView {
    pub name: Seq<char>,
}

impl View for ArxivAuthor {
    type V = ArxivAuthorView;

    open spec fn view(&self) -> ArxivAuthorView {
        ArxivAuthorView {
            name: self.name@,
        }
    }
}

impl Duplicate for ArxivAuthor {
    fn duplicate(&self) -> (r: ArxivAuthor) {
        ArxivAuthor {
            name: self.name.clone(),
        }
    }
}

/// A category of an arXiv entry.
#[derive(Debug)]
pub struct ArxivCategory {
    pub term: String,
}

/// What a `ArxivCategory` holds.
#[verifier::ext_equal]
pub struct ArxivCategoryView {
    pub term: Seq<char>,
}

impl View for ArxivCategory {
    type V = ArxivCategoryView;

    open spec fn view(&self) -> ArxivCategoryView {
        ArxivCategoryView {
            term: self.term@,
        }
    }
}

impl Duplicate for ArxivCategory {
    fn duplicate(&self) -> (r: ArxivCategory) {
        ArxivCategory {
            term: self.term.clone(),
        }
    }
}

/// An entry of an arXiv feed.
#[derive(Debug)]
pub struct ArxivEntry {
    pub id: String,
    pub title: String,
    pub summary: String,
    pub published: String,
    pub authors: Vec<ArxivAuthor>,
    pub categories: Vec<ArxivCategory>,
    pub doi: Option<String>,
    pub license: Option<String>,
}

/// What a `ArxivEntry` holds.
#[verifier::ext_equal]
pub struct ArxivEntryView {
    pub id: Seq<char>,
    pub title: Seq<char>,
    pub summary: Seq<char>,
    pub published: Seq<char>,
    pub authors: Seq<ArxivAuthorView>,
    pub categories: Seq<ArxivCategoryView>,
    pub doi: Option<Seq<char>>,
    pub license: Option<Seq<char>>,
}

impl View for ArxivEntry {
    type V = ArxivEntryView;

    open spec fn view(&self) -> ArxivEntryView {
        ArxivEntryView {
            id: self.id@,
            title: self.title@,
            summary: self.summary@,
            published: self.published@,
            authors: views(self.authors@),
            categories: views(self.categories@),
            doi: opt_text(self.doi),
            license: opt_text(self.license),
        }
    }
}

impl Duplicate for ArxivEntry {
    fn duplicate(&self) -> (r: ArxivEntry) {
        ArxivEntry {
            id: self.id.clone(),
            title: self.title.clone(),
            summary: self.summary.clone(),
            published: self.published.clone(),
            authors: duplicate_all(&self.authors),
            categories: duplicate_all(&self.categories),
            doi: duplicate_option(&self.doi),
            license: duplicate_option(&self.license),
        }
    }
}


/// The type of a work in the corpus, for the type that a source gives it.
pub open spec fn type_of(value: Seq<char>) -> Seq<char> {
    let plain = replaced(lowered(value), "_"@, "-"@);
    if plain == "journal-article"@ || plain == "article"@ {
        "article-journal"@
    } else if plain == "proceedings-article"@ || plain == "proceedings"@ {
        "paper-conference"@
    } else if plain == "book-chapter"@ {
        "chapter"@
    } else if plain == "posted-content"@ || plain == "preprint"@ {
        "preprint"@
    } else if plain == "dissertation"@ {
        "thesis"@
    } else if plain.len() > 0 {
        plain
    } else {
        "article"@
    }
}

/// The type of a work in the corpus, for the type that a source gives it.
pub fn work_type(value: &str) -> (r: String)
    ensures
        r@ == type_of(value@),
{
    let plain = replace(&lower(value), "_", "-");
    if same_text(&plain, "journal-article") || same_text(&plain, "article") {
        "article-journal".to_owned()
    } else if same_text(&plain, "proceedings-article") || same_text(&plain, "proceedings") {
        "paper-conference".to_owned()
    } else if same_text(&plain, "book-chapter") {
        "chapter".to_owned()
    } else if same_text(&plain, "posted-content") || same_text(&plain, "preprint") {
        "preprint".to_owned()
    } else if same_text(&plain, "dissertation") {
        "thesis".to_owned()
    } else if !plain.as_str().is_empty() {
        plain
    } else {
        "article".to_owned()
    }
}

/// The pages from the first to the last, as far as they are known.
pub open spec fn pages_between(first: Seq<char>, last: Seq<char>) -> Seq<char> {
    if first.len() == 0 {
        last
    } else if last.len() == 0 || first == last {
        first
    } else {
        first + "-"@ + last
    }
}

/// The pages from the first to the last, as far as they are known.
pub fn page_range(first: &str, last: &str) -> (r: String)
    ensures
        r@ == pages_between(first@, last@),
{
    if first.is_empty() {
        last.to_owned()
    } else if last.is_empty() || same_text(first, last) {
        first.to_owned()
    } else {
        let mut pages = first.to_owned();
        pages.append("-");
        pages.append(last);
        pages
    }
}

/// The text, if it is not empty.
pub open spec fn some_text(value: Seq<char>) -> Option<Seq<char>> {
    if value.len() == 0 {
        None
    } else {
        Some(value)
    }
}

/// The text, if it is not empty.
pub fn nonempty(value: String) -> (r: Option<String>)
    ensures
        opt_text(r) == some_text(value@),
{
    if value.as_str().is_empty() {
        None
    } else {
        Some(value)
    }
}

/// The text names a license that lets everyone share the work.
pub open spec fn open_license(value: Seq<char>) -> bool {
    let plain = lowered(value);
    ||| holds_text(plain, "creativecommons.org/licenses/"@)
    ||| holds_text(plain, "creativecommons.org/publicdomain/"@)
    ||| holds_text(plain, "opendatacommons.org/licenses/"@)
    ||| holds_text(plain, "rightsstatements.org/vocab/noc-"@)
}

/// Whether the text names a license that lets everyone share the work.
pub fn is_open_license(value: &str) -> (r: bool)
    ensures
        r == open_license(value@),
{
    let plain = lower(value);
    contains(&plain, "creativecommons.org/licenses/") || contains(
        &plain,
        "creativecommons.org/publicdomain/",
    ) || contains(&plain, "opendatacommons.org/licenses/") || contains(
        &plain,
        "rightsstatements.org/vocab/noc-",
    )
}

/// The host is the domain or lies in it.
pub open spec fn host_in(host: Seq<char>, domain: Seq<char>) -> bool {
    host == domain || finishes_with(host, "."@ + domain)
}

/// The host belongs to a repository that holds full texts openly.
pub open spec fn open_repository(host: Seq<char>) -> bool {
    let plain = lowered(host);
    ||| host_in(plain, "arxiv.org"@)
    ||| host_in(plain, "ncbi.nlm.nih.gov"@)
    ||| host_in(plain, "europepmc.org"@)
    ||| host_in(plain, "zenodo.org"@)
    ||| host_in(plain, "hal.science"@)
}

/// The text is a URL in a repository that holds full texts openly.
pub open spec fn in_open_repository(url: Seq<char>) -> bool {
    match url_parts(url) {
        Some((_, Some(host), _, _)) => open_repository(host),
        _ => false,
    }
}

fn is_host_in(host: &str, domain: &str) -> (r: bool)
    ensures
        r == host_in(host@, domain@),
{
    let mut suffix = ".".to_owned();
    suffix.append(domain);
    same_text(host, domain) || ends_with(host, &suffix)
}

/// Whether the host belongs to a repository that holds full texts openly.
pub fn repository_host(host: &str) -> (r: bool)
    ensures
        r == open_repository(host@),
{
    let plain = lower(host);
    is_host_in(&plain, "arxiv.org") || is_host_in(&plain, "ncbi.nlm.nih.gov") || is_host_in(
        &plain,
        "europepmc.org",
    ) || is_host_in(&plain, "zenodo.org") || is_host_in(&plain, "hal.science")
}

/// Whether the text is a URL in a repository that holds full texts openly.
pub fn repository_url(value: &str) -> (r: bool)
    ensures
        r == in_open_repository(value@),
{
    match parse_url(value) {
        Some(parts) => match parts.host {
            Some(host) => repository_host(&host),
            None => false,
        },
        None => false,
    }
}

/// A full name as the part before the last space and the part behind it.
pub open spec fn name_parts(literal: Seq<char>) -> (Seq<char>, Seq<char>) {
    let at = past_last_of(literal, " "@) as int;
    if at == 0 {
        (Seq::empty(), literal)
    } else {
        (literal.take(at - 1), literal.skip(at))
    }
}

/// A full name as given name and family name: the last word is the family name.
pub fn split_name(literal: &str) -> (r: (String, String))
    ensures
        (r.0@, r.1@) == name_parts(literal@),
{
    let chars = chars_of(literal);
    let at = find_past_last(&chars, " ");
    if at == 0 {
        (String::new(), literal.to_owned())
    } else {
        assert(chars@.subrange(0, at - 1) =~= chars@.take(at - 1));
        assert(chars@.subrange(at as int, chars@.len() as int) =~= chars@.skip(at as int));
        (text_of(&chars, 0, at - 1), text_of(&chars, at, chars.len()))
    }
}

/// The author whose full name is known.
pub open spec fn literal_author(literal: Seq<char>) -> AuthorView {
    let name = spaced(literal);
    AuthorView {
        given: name_parts(name).0,
        family: name_parts(name).1,
        literal: name,
        ..no_author()
    }
}

/// The author whose full name is known.
pub fn author_from_literal(literal: &str) -> (r: Author)
    ensures
        r@ == literal_author(literal@),
{
    let name = normalize_space(literal);
    let (given, family) = split_name(&name);
    let r = Author {
        given,
        family,
        literal: name,
        orcid: None,
        affiliations: Vec::new(),
        ids: TextMap::new(),
    };
    assert(r@ =~= literal_author(literal@));
    r
}

/// The author that an OpenAlex authorship tells of.
pub open spec fn openalex_author_of(value: JsonView) -> AuthorView {
    let author = field_of(Some(value), "author"@);
    let literal = text_at(field_of(author, "display_name"@));
    let id = text_at(field_of(author, "id"@));
    AuthorView {
        given: name_parts(literal).0,
        family: name_parts(literal).1,
        literal,
        orcid: some_text(text_at(field_of(author, "orcid"@))),
        affiliations: strings_in(
            each_field(items_at(field_of(Some(value), "institutions"@)), "display_name"@),
        ),
        ids: if id.len() == 0 {
            Map::empty()
        } else {
            Map::empty().insert("openalex"@, id)
        },
    }
}

/// The author that an OpenAlex authorship tells of.
pub fn openalex_author(value: &Json) -> (r: Author)
    ensures
        r@ == openalex_author_of(value@),
{
    let author = field(Some(value), "author");
    let literal = text(field(author, "display_name"));
    let (given, family) = split_name(&literal);
    let mut ids: TextMap<String> = TextMap::new();
    let id = text(field(author, "id"));
    if !id.as_str().is_empty() {
        ids.insert("openalex".to_owned(), id);
    }
    Author {
        given,
        family,
        literal,
        orcid: nonempty(text(field(author, "orcid"))),
        affiliations: strings_under(field(Some(value), "institutions"), "display_name"),
        ids,
    }
}

/// The author that a Crossref record tells of.
pub open spec fn crossref_author_of(value: JsonView) -> AuthorView {
    let given = text_at(field_of(Some(value), "given"@));
    let family = text_at(field_of(Some(value), "family"@));
    AuthorView {
        given,
        family,
        literal: spaced(given + " "@ + family),
        orcid: some_text(text_at(field_of(Some(value), "ORCID"@))),
        affiliations: strings_in(
            each_field(items_at(field_of(Some(value), "affiliation"@)), "name"@),
        ),
        ids: Map::empty(),
    }
}

/// The author that a Crossref record tells of.
pub fn crossref_author(value: &Json) -> (r: Author)
    ensures
        r@ == crossref_author_of(value@),
{
    let given = text(field(Some(value), "given"));
    let family = text(field(Some(value), "family"));
    let mut name = given.clone();
    name.append(" ");
    name.append(&family);
    Author {
        given,
        family,
        literal: normalize_space(&name),
        orcid: nonempty(text(field(Some(value), "ORCID"))),
        affiliations: strings_under(field(Some(value), "affiliation"), "name"),
        ids: TextMap::new(),
    }
}

/// The date that a text was read as.
pub open spec fn dated(value: Seq<char>, date: Option<(i32, u32, u32)>) -> DatePartsView {
    DatePartsView {
        date_parts: match date {
            Some((year, month, day)) => seq![seq![year as u32, month, day]],
            None => Seq::empty(),
        },
        raw: value,
    }
}

/// The date that the text was read as.
pub fn date_from(value: &str, date: Option<(i32, u32, u32)>) -> (r: DateParts)
    ensures
        r@ == dated(value@, date),
{
    let mut parts: Vec<Vec<u32>> = Vec::new();
    if let Some((year, month, day)) = date {
        let mut inner: Vec<u32> = Vec::new();
        inner.push(year as u32);
        inner.push(month);
        inner.push(day);
        assert(inner@ =~= seq![year as u32, month, day]);
        parts.push(inner);
    }
    let r = DateParts { date_parts: parts, raw: value.to_owned() };
    assert(r@.date_parts =~= dated(value@, date).date_parts);
    r
}

/// The date that the text denotes.
pub fn date_parts(value: &str) -> (r: DateParts)
    ensures
        r@ == dated(value@, calendar_date(value@)),
{
    date_from(value, parse_date(value))
}

/// The numbers among the items, each cut to 32 bits.
pub open spec fn numbers_in(items: Seq<JsonView>) -> Seq<u32>
    decreases items.len(),
{
    if items.len() == 0 {
        Seq::empty()
    } else {
        let rest = numbers_in(items.drop_last());
        match unsigned_at(Some(items.last())) {
            Some(value) => rest.push(value as u32),
            None => rest,
        }
    }
}

/// The numbers in each of the items that is a list.
pub open spec fn number_lists(items: Seq<JsonView>) -> Seq<Seq<u32>>
    decreases items.len(),
{
    if items.len() == 0 {
        Seq::empty()
    } else {
        let rest = number_lists(items.drop_last());
        match items.last() {
            JsonView::List(inner) => rest.push(numbers_in(inner)),
            _ => rest,
        }
    }
}

/// The parts of the date that the record has under the key.
pub open spec fn date_under(value: JsonView, key: Seq<char>) -> Seq<Seq<u32>> {
    number_lists(items_at(field_of(field_of(Some(value), key), "date-parts"@)))
}

/// The date of a Crossref record: in print, else online, else issued, else created.
pub open spec fn crossref_date_of(value: JsonView) -> DatePartsView {
    let parts = if date_under(value, "published-print"@).len() > 0 {
        date_under(value, "published-print"@)
    } else if date_under(value, "published-online"@).len() > 0 {
        date_under(value, "published-online"@)
    } else if date_under(value, "issued"@).len() > 0 {
        date_under(value, "issued"@)
    } else {
        date_under(value, "created"@)
    };
    DatePartsView { date_parts: parts, raw: Seq::empty() }
}

fn read_numbers(value: &Json) -> (r: Vec<u32>)
    ensures
        r@ == numbers_in(items_at(Some(value@))),
{
    let ghost all = items_at(Some(value@));
    let total: usize = count(Some(value));
    let mut out: Vec<u32> = Vec::new();
    let mut i: usize = 0;
    while i < total
        invariant
            i <= total,
            total == all.len(),
            all == items_at(Some(value@)),
            out@ == numbers_in(all.take(i as int)),
        decreases total - i,
    {
        assert(all.take(i + 1).drop_last() =~= all.take(i as int));
        if let Some(number) = unsigned(item(Some(value), i)) {
            out.push(number as u32);
        }
        i += 1;
    }
    assert(all.take(all.len() as int) =~= all);
    out
}

fn read_date(value: &Json, key: &str) -> (r: Vec<Vec<u32>>)
    ensures
        views(r@) == date_under(value@, key@),
{
    let parts = field(field(Some(value), key), "date-parts");
    let ghost all = items_at(seen(parts));
    let total: usize = count(parts);
    let mut out: Vec<Vec<u32>> = Vec::new();
    let mut i: usize = 0;
    assert(views(out@) =~= number_lists(all.take(0)));
    while i < total
        invariant
            i <= total,
            total == all.len(),
            all == items_at(seen(parts)),
            views(out@) == number_lists(all.take(i as int)),
        decreases total - i,
    {
        assert(all.take(i + 1).drop_last() =~= all.take(i as int));
        let ghost before = views(out@);
        if let Some(outer) = item(parts, i) {
            if let Json::List(_) = outer {
                let inner = read_numbers(outer);
                let ghost added = inner@;
                out.push(inner);
                assert(views(out@) =~= before.push(added));
            }
        }
        i += 1;
    }
    assert(all.take(all.len() as int) =~= all);
    out
}

/// The date of a Crossref record.
pub fn crossref_date(value: &Json) -> (r: DateParts)
    ensures
        r@ == crossref_date_of(value@),
{
    let mut parts = read_date(value, "published-print");
    if parts.len() == 0 {
        parts = read_date(value, "published-online");
    }
    if parts.len() == 0 {
        parts = read_date(value, "issued");
    }
    if parts.len() == 0 {
        parts = read_date(value, "created");
    }
    DateParts { date_parts: parts, raw: String::new() }
}

/// A word of an abstract and where it stands.
#[derive(Debug)]
pub struct PlacedWord {
    pub position: u64,
    pub word: String,
}

impl View for PlacedWord {
    type V = (u64, Seq<char>);

    open spec fn view(&self) -> (u64, Seq<char>) {
        (self.position, self.word@)
    }
}

impl Ranked for PlacedWord {
    open spec fn before(a: (u64, Seq<char>), b: (u64, Seq<char>)) -> bool {
        a.0 < b.0
    }

    fn comes_before(&self, other: &PlacedWord) -> (r: bool) {
        self.position < other.position
    }

    proof fn lemma_chain(a: (u64, Seq<char>), b: (u64, Seq<char>), c: (u64, Seq<char>)) {
    }

    proof fn lemma_one_way(a: (u64, Seq<char>), b: (u64, Seq<char>)) {
    }
}

/// The word at each of the positions that the items name.
pub open spec fn word_at(word: Seq<char>, items: Seq<JsonView>) -> Seq<(u64, Seq<char>)>
    decreases items.len(),
{
    if items.len() == 0 {
        Seq::empty()
    } else {
        let rest = word_at(word, items.drop_last());
        match unsigned_at(Some(items.last())) {
            Some(position) => rest.push((position, word)),
            None => rest,
        }
    }
}

/// The words of an inverted index at their positions.
pub open spec fn indexed_words(members: Seq<(Seq<char>, JsonView)>) -> Seq<(u64, Seq<char>)>
    decreases members.len(),
{
    if members.len() == 0 {
        Seq::empty()
    } else {
        indexed_words(members.drop_last()) + word_at(
            members.last().0,
            items_at(Some(members.last().1)),
        )
    }
}

/// The words without their positions.
pub open spec fn bare_words(words: Seq<(u64, Seq<char>)>) -> Seq<Seq<char>> {
    Seq::new(words.len(), |i: int| words[i].1)
}

/// The text that an inverted index makes: its words by position.
pub open spec fn inverted_text(value: Option<JsonView>) -> Seq<char> {
    match value {
        Some(JsonView::Object(members)) => spaced(
            joined(bare_words(ordered::<PlacedWord>(indexed_words(members))), " "@),
        ),
        _ => Seq::empty(),
    }
}

fn push_positions(words: &mut Vec<PlacedWord>, word: &str, positions: &Json)
    ensures
        views(final(words)@) == views(old(words)@) + word_at(word@, items_at(Some(positions@))),
{
    let ghost start = views(words@);
    let ghost all = items_at(Some(positions@));
    let total: usize = count(Some(positions));
    let mut i: usize = 0;
    assert(views(words@) =~= start + word_at(word@, all.take(0)));
    while i < total
        invariant
            i <= total,
            total == all.len(),
            all == items_at(Some(positions@)),
            views(words@) == start + word_at(word@, all.take(i as int)),
        decreases total - i,
    {
        assert(all.take(i + 1).drop_last() =~= all.take(i as int));
        let ghost before = word_at(word@, all.take(i as int));
        if let Some(position) = unsigned(item(Some(positions), i)) {
            let ghost whole = views(words@);
            words.push(PlacedWord { position, word: word.to_owned() });
            assert(views(words@) =~= whole.push((position, word@)));
            assert(whole.push((position, word@)) =~= start + before.push((position, word@)));
        }
        i += 1;
    }
    assert(all.take(all.len() as int) =~= all);
}

/// The text that an inverted index makes.
pub fn abstract_from_inverted(value: Option<&Json>) -> (r: String)
    ensures
        r@ == inverted_text(seen(value)),
{
    match value {
        Some(Json::Object(members)) => {
            let ghost all = member_views(members@);
            assert(value->0@->Object_0 =~= all);
            let mut words: Vec<PlacedWord> = Vec::new();
            let mut i: usize = 0;
            assert(views(words@) =~= indexed_words(all.take(0)));
            while i < members.len()
                invariant
                    i <= members@.len(),
                    all == member_views(members@),
                    views(words@) == indexed_words(all.take(i as int)),
                decreases members@.len() - i,
            {
                assert(all.take(i + 1).drop_last() =~= all.take(i as int));
                push_positions(&mut words, &members[i].0, &members[i].1);
                i += 1;
            }
            assert(all.take(all.len() as int) =~= all);
            let sorted = sort(words);
            let mut parts: Vec<String> = Vec::new();
            let ghost items = sorted@;
            for placed in it: sorted
                invariant
                    it.seq() == items,
                    parts@.len() == it.index(),
                    forall|j: int| 0 <= j < parts@.len() ==> (#[trigger] parts@[j])@ == items[j].word@,
            {
                parts.push(placed.word);
            }
            assert(texts(parts@) =~= bare_words(views(items)));
            normalize_space(&join(&parts, " "))
        },
        _ => String::new(),
    }
}

/// The map with the text under the key, where there is a text.
pub open spec fn with_id(
    ids: Map<Seq<char>, Seq<char>>,
    key: Seq<char>,
    value: Seq<char>,
) -> Map<Seq<char>, Seq<char>> {
    if value.len() == 0 {
        ids
    } else {
        ids.insert(key, value)
    }
}

/// The DOI in normal form, or the text where it is none.
pub open spec fn doi_or_text(value: Seq<char>) -> Seq<char> {
    match doi_of(value) {
        Some(doi) => doi,
        None => value,
    }
}

/// The first of the texts that is not empty.
pub open spec fn first_text(a: Seq<char>, b: Seq<char>, c: Seq<char>) -> Seq<char> {
    if a.len() > 0 {
        a
    } else if b.len() > 0 {
        b
    } else {
        c
    }
}

/// The full text that an OpenAlex location offers, authorized where it is open, its
/// license is or its host is.
pub open spec fn openalex_place(location: Option<JsonView>, open: bool) -> FullTextCandidateView {
    let url = text_at(field_of(location, "pdf_url"@));
    let license = text_at(field_of(location, "license"@));
    FullTextCandidateView {
        url,
        source: "openalex"@,
        version: text_at(field_of(location, "version"@)),
        license,
        content_type: "application/pdf"@,
        authorized: open || open_license(license) || in_open_repository(url),
    }
}

/// The full texts that OpenAlex locations offer.
pub open spec fn openalex_places(locations: Seq<JsonView>) -> Seq<FullTextCandidateView>
    decreases locations.len(),
{
    if locations.len() == 0 {
        Seq::empty()
    } else {
        let rest = openalex_places(locations.drop_last());
        let location = Some(locations.last());
        if text_at(field_of(location, "pdf_url"@)).len() == 0 {
            rest
        } else {
            rest.push(openalex_place(location, true_at(field_of(location, "is_oa"@))))
        }
    }
}

/// The full texts that an OpenAlex record offers: those of its locations, and the
/// best open one where none of them is authorized.
pub open spec fn openalex_fulltext(value: JsonView) -> Seq<FullTextCandidateView> {
    let places = openalex_places(items_at(field_of(Some(value), "locations"@)));
    let best = field_of(Some(value), "best_oa_location"@);
    if any_authorized(places) || text_at(field_of(best, "pdf_url"@)).len() == 0 {
        places
    } else {
        places.push(
            openalex_place(
                best,
                true_at(field_of(field_of(Some(value), "open_access"@), "is_oa"@)),
            ),
        )
    }
}

/// The authors that OpenAlex authorships tell of.
pub open spec fn openalex_authors(items: Seq<JsonView>) -> Seq<AuthorView> {
    Seq::new(items.len(), |i: int| openalex_author_of(items[i]))
}

/// The work that an OpenAlex record describes.
pub open spec fn openalex_work(value: JsonView, retrieved_at: Seq<char>) -> WorkRecordView {
    let this = Some(value);
    let source_id = text_at(field_of(this, "id"@));
    let ids = field_of(this, "ids"@);
    let place = field_of(this, "primary_location"@);
    let venue = field_of(place, "source"@);
    let biblio = field_of(this, "biblio"@);
    let date = text_at(field_of(this, "publication_date"@));
    let doi = text_at(field_of(ids, "doi"@));
    WorkRecordView {
        ids: with_id(
            with_id(
                with_id(Map::empty().insert("openalex"@, source_id), "doi"@, doi_or_text(doi)),
                "pmid"@,
                text_at(field_of(ids, "pmid"@)),
            ),
            "mag"@,
            text_at(field_of(ids, "mag"@)),
        ),
        title: text_at(field_of(this, "title"@)),
        abstract_text: inverted_text(field_of(this, "abstract_inverted_index"@)),
        authors: openalex_authors(items_at(field_of(this, "authorships"@))),
        issued: dated(date, calendar_date(date)),
        work_type: type_of(text_at(field_of(this, "type"@))),
        container_title: text_at(field_of(venue, "display_name"@)),
        publisher: text_at(field_of(venue, "host_organization_name"@)),
        volume: text_at(field_of(biblio, "volume"@)),
        issue: text_at(field_of(biblio, "issue"@)),
        page: pages_between(
            text_at(field_of(biblio, "first_page"@)),
            text_at(field_of(biblio, "last_page"@)),
        ),
        language: text_at(field_of(this, "language"@)),
        keywords: strings_in(each_field(items_at(field_of(this, "keywords"@)), "display_name"@)),
        subjects: strings_in(each_field(items_at(field_of(this, "topics"@)), "display_name"@)),
        issn: strings_in(each(items_at(field_of(venue, "issn"@)))),
        url: first_text(
            text_at(field_of(this, "doi"@)),
            text_at(field_of(place, "landing_page_url"@)),
            source_id,
        ),
        fulltext_candidates: openalex_fulltext(value),
        metrics: Metrics {
            cited_by_count: number_at(field_of(this, "cited_by_count"@)),
            influential_citation_count: 0,
            fwci: floating_at(field_of(this, "fwci"@)),
            citation_percentile: floating_at(
                field_of(field_of(this, "citation_normalized_percentile"@), "value"@),
            ),
        },
        flags: Map::empty().insert(
            "is_retracted"@,
            true_at(field_of(this, "is_retracted"@)),
        ).insert("is_paratext"@, true_at(field_of(this, "is_paratext"@))),
        ..bare_work("openalex"@, source_id, retrieved_at)
    }
}

/// The unsigned number, or zero where there is none.
pub open spec fn number_at(value: Option<JsonView>) -> u64 {
    match unsigned_at(value) {
        Some(number) => number,
        None => 0,
    }
}

fn number_or_zero(value: Option<&Json>) -> (r: u64)
    ensures
        r == number_at(seen(value)),
{
    match unsigned(value) {
        Some(number) => number,
        None => 0,
    }
}

fn read_place(location: Option<&Json>, open: bool) -> (r: FullTextCandidate)
    ensures
        r@ == openalex_place(seen(location), open),
{
    let url = text(field(location, "pdf_url"));
    let license = text(field(location, "license"));
    let authorized = open || is_open_license(&license) || repository_url(&url);
    FullTextCandidate {
        url,
        source: "openalex".to_owned(),
        version: text(field(location, "version")),
        license,
        content_type: "application/pdf".to_owned(),
        authorized,
    }
}

fn read_fulltext(value: &Json) -> (r: Vec<FullTextCandidate>)
    ensures
        views(r@) == openalex_fulltext(value@),
{
    let locations = field(Some(value), "locations");
    let ghost all = items_at(seen(locations));
    let total: usize = count(locations);
    let mut places: Vec<FullTextCandidate> = Vec::new();
    let mut authorized = false;
    let mut i: usize = 0;
    assert(views(places@) =~= openalex_places(all.take(0)));
    while i < total
        invariant
            i <= total,
            total == all.len(),
            all == items_at(seen(locations)),
            views(places@) == openalex_places(all.take(i as int)),
            authorized == any_authorized(views(places@)),
        decreases total - i,
    {
        assert(all.take(i + 1).drop_last() =~= all.take(i as int));
        let location = item(locations, i);
        let ghost before = views(places@);
        if !text(field(location, "pdf_url")).as_str().is_empty() {
            let place = read_place(location, is_true(field(location, "is_oa")));
            let ghost added = place@;
            proof {
                if any_authorized(before) {
                    let k = choose|k: int| 0 <= k < before.len() && (#[trigger] before[k]).authorized;
                    assert(before.push(added)[k].authorized);
                }
                if added.authorized {
                    assert(before.push(added)[before.len() as int].authorized);
                }
                if any_authorized(before.push(added)) && !added.authorized {
                    let k = choose|k: int|
                        0 <= k < before.push(added).len() && (
                        #[trigger] before.push(added)[k]).authorized;
                    assert(before[k].authorized);
                }
            }
            authorized = authorized || place.authorized;
            places.push(place);
            assert(views(places@) =~= before.push(added));
        }
        i += 1;
    }
    assert(all.take(all.len() as int) =~= all);
    let best = field(Some(value), "best_oa_location");
    if !authorized && !text(field(best, "pdf_url")).as_str().is_empty() {
        let ghost before = views(places@);
        let place = read_place(best, is_true(field(field(Some(value), "open_access"), "is_oa")));
        let ghost added = place@;
        places.push(place);
        assert(views(places@) =~= before.push(added));
    }
    places
}

fn read_authors(items: Option<&Json>) -> (r: Vec<Author>)
    ensures
        views(r@) == openalex_authors(items_at(seen(items))),
{
    let ghost all = items_at(seen(items));
    let total: usize = count(items);
    let mut out: Vec<Author> = Vec::new();
    let mut i: usize = 0;
    while i < total
        invariant
            i <= total,
            total == all.len(),
            all == items_at(seen(items)),
            out@.len() == i,
            forall|j: int| 0 <= j < i ==> (#[trigger] out@[j])@ == openalex_author_of(all[j]),
        decreases total - i,
    {
        if let Some(value) = item(items, i) {
            out.push(openalex_author(value));
        }
        i += 1;
    }
    assert(views(out@) =~= openalex_authors(all));
    out
}

/// The work that an OpenAlex record describes.
pub fn openalex_record(value: &Json, retrieved_at: String) -> (r: WorkRecord)
    ensures
        r@ == openalex_work(value@, retrieved_at@),
{
    let this = Some(value);
    let source_id = text(field(this, "id"));
    let other_ids = field(this, "ids");
    let place = field(this, "primary_location");
    let venue = field(place, "source");
    let biblio = field(this, "biblio");
    let mut record = WorkRecord::retrieved("openalex", &source_id, retrieved_at);
    let mut ids: TextMap<String> = TextMap::new();
    ids.insert("openalex".to_owned(), source_id.clone());
    let doi = text(field(other_ids, "doi"));
    if !doi.as_str().is_empty() {
        let normal = match normalize_doi(&doi) {
            Some(normal) => normal,
            None => doi,
        };
        ids.insert("doi".to_owned(), normal);
    }
    let pmid = text(field(other_ids, "pmid"));
    if !pmid.as_str().is_empty() {
        ids.insert("pmid".to_owned(), pmid);
    }
    let mag = text(field(other_ids, "mag"));
    if !mag.as_str().is_empty() {
        ids.insert("mag".to_owned(), mag);
    }
    record.ids = ids;
    record.title = text(field(this, "title"));
    record.abstract_text = abstract_from_inverted(field(this, "abstract_inverted_index"));
    record.work_type = work_type(&text(field(this, "type")));
    record.language = text(field(this, "language"));
    let doi_url = text(field(this, "doi"));
    let landing = text(field(place, "landing_page_url"));
    record.url = if !doi_url.as_str().is_empty() {
        doi_url
    } else if !landing.as_str().is_empty() {
        landing
    } else {
        source_id
    };
    record.publisher = text(field(venue, "host_organization_name"));
    record.container_title = text(field(venue, "display_name"));
    record.volume = text(field(biblio, "volume"));
    record.issue = text(field(biblio, "issue"));
    record.page = page_range(&text(field(biblio, "first_page")), &text(field(biblio, "last_page")));
    record.issued = date_parts(&text(field(this, "publication_date")));
    record.authors = read_authors(field(this, "authorships"));
    record.subjects = strings_under(field(this, "topics"), "display_name");
    record.keywords = strings_under(field(this, "keywords"), "display_name");
    record.issn = strings(field(venue, "issn"));
    record.metrics = Metrics {
        cited_by_count: number_or_zero(field(this, "cited_by_count")),
        influential_citation_count: 0,
        fwci: floating(field(this, "fwci")),
        citation_percentile: floating(
            field(field(this, "citation_normalized_percentile"), "value"),
        ),
    };
    let mut flags: TextMap<bool> = TextMap::new();
    flags.insert("is_retracted".to_owned(), is_true(field(this, "is_retracted")));
    flags.insert("is_paratext".to_owned(), is_true(field(this, "is_paratext")));
    record.flags = flags;
    record.fulltext_candidates = read_fulltext(value);
    assert(record@ =~= openalex_work(value@, retrieved_at@));
    record
}

/// What the licenses of a Crossref record say of a version of the full text: the URL
/// of the first that is open and in force, else the first URL there is.
pub open spec fn license_among(
    licenses: Seq<JsonView>,
    version: Seq<char>,
    now_millis: i64,
    fallback: Seq<char>,
) -> (Seq<char>, bool)
    decreases licenses.len(),
{
    if licenses.len() == 0 {
        (fallback, false)
    } else {
        let license = Some(licenses[0]);
        let rest = licenses.skip(1);
        let covered = text_at(field_of(license, "content-version"@));
        let url = text_at(field_of(license, "URL"@));
        let start = signed_at(field_of(field_of(license, "start"@), "timestamp"@));
        let next = if fallback.len() == 0 {
            url
        } else {
            fallback
        };
        if covered.len() > 0 && version.len() > 0 && ascii_lower(covered) != ascii_lower(version) {
            license_among(rest, version, now_millis, fallback)
        } else if (start is None || start->0 <= now_millis) && open_license(url) {
            (url, true)
        } else {
            license_among(rest, version, now_millis, next)
        }
    }
}

/// What the licenses of a Crossref record say of a version of the full text.
pub fn crossref_license(value: &Json, content_version: &str, now_millis: i64) -> (r: (
    String,
    bool,
))
    ensures
        (r.0@, r.1) == license_among(
            items_at(field_of(Some(value@), "license"@)),
            content_version@,
            now_millis,
            Seq::empty(),
        ),
{
    let licenses = field(Some(value), "license");
    let ghost all = items_at(seen(licenses));
    let total: usize = count(licenses);
    let mut fallback = String::new();
    let mut i: usize = 0;
    let ghost wanted = license_among(all, content_version@, now_millis, Seq::empty());
    assert(all.skip(0) =~= all);
    while i < total
        invariant
            i <= total,
            total == all.len(),
            all == items_at(seen(licenses)),
            wanted == license_among(
                items_at(field_of(Some(value@), "license"@)),
                content_version@,
                now_millis,
                Seq::empty(),
            ),
            wanted == license_among(
                all.skip(i as int),
                content_version@,
                now_millis,
                fallback@,
            ),
        decreases total - i,
    {
        assert(all.skip(i as int)[0] == all[i as int]);
        assert(all.skip(i as int).skip(1) =~= all.skip(i + 1));
        let license = item(licenses, i);
        let covered = text(field(license, "content-version"));
        if covered.as_str().is_empty() || content_version.is_empty() || eq_ignore_ascii_case(
            &covered,
            content_version,
        ) {
            let url = text(field(license, "URL"));
            let active = match signed(field(field(license, "start"), "timestamp")) {
                Some(timestamp) => timestamp <= now_millis,
                None => true,
            };
            if active && is_open_license(&url) {
                return (url, true);
            }
            if fallback.as_str().is_empty() {
                fallback = url;
            }
        }
        i += 1;
    }
    (fallback, false)
}

/// The full text that a link of a Crossref record offers.
pub open spec fn crossref_place(
    value: JsonView,
    link: JsonView,
    now_millis: i64,
) -> FullTextCandidateView {
    let url = text_at(field_of(Some(link), "URL"@));
    let version = text_at(field_of(Some(link), "content-version"@));
    let license = license_among(
        items_at(field_of(Some(value), "license"@)),
        version,
        now_millis,
        Seq::empty(),
    );
    FullTextCandidateView {
        url,
        source: "crossref"@,
        version,
        license: license.0,
        content_type: text_at(field_of(Some(link), "content-type"@)),
        authorized: license.1 || in_open_repository(url),
    }
}

/// The full texts that the links of a Crossref record offer: those that are PDFs.
pub open spec fn crossref_places(
    value: JsonView,
    links: Seq<JsonView>,
    now_millis: i64,
) -> Seq<FullTextCandidateView>
    decreases links.len(),
{
    if links.len() == 0 {
        Seq::empty()
    } else {
        let rest = crossref_places(value, links.drop_last(), now_millis);
        let link = Some(links.last());
        if holds_text(lowered(text_at(field_of(link, "content-type"@))), "pdf"@) && text_at(
            field_of(link, "URL"@),
        ).len() > 0 {
            rest.push(crossref_place(value, links.last(), now_millis))
        } else {
            rest
        }
    }
}

/// The text speaks of a retraction.
pub open spec fn names_retraction(text: Seq<char>) -> bool {
    holds_text(lowered(text), "retract"@)
}

/// What the record has under the key speaks of a retraction.
pub open spec fn speaks_of_retraction(value: JsonView, key: Seq<char>) -> bool {
    match field_of(Some(value), key) {
        Some(part) => names_retraction(json_text(part)),
        None => false,
    }
}

/// What the record has under the key is ASCII, and some plain string in it speaks of a
/// retraction.
pub open spec fn retraction_under(value: JsonView, key: Seq<char>) -> bool {
    match field_of(Some(value), key) {
        Some(part) => part.ascii() && exists|text: Seq<char>| #[trigger]
            part.holds_string(text) && plain_text(text) && names_retraction(text),
        None => false,
    }
}

/// The record carries a notice of a retraction.
pub open spec fn retraction_noted(value: JsonView) -> bool {
    retraction_under(value, "update-to"@) || retraction_under(value, "updated-by"@)
        || retraction_under(value, "relation"@)
}

/// The authors that a Crossref record tells of.
pub open spec fn crossref_authors(items: Seq<JsonView>) -> Seq<AuthorView> {
    Seq::new(items.len(), |i: int| crossref_author_of(items[i]))
}

/// The work that a Crossref record describes.
pub open spec fn crossref_work(
    value: JsonView,
    now_millis: i64,
    retrieved_at: Seq<char>,
) -> WorkRecordView {
    let this = Some(value);
    let source_id = text_at(field_of(this, "DOI"@));
    let bare = bare_work("crossref"@, source_id, retrieved_at);
    WorkRecordView {
        ids: match doi_of(source_id) {
            Some(doi) => Map::empty().insert("doi"@, doi),
            None => Map::empty(),
        },
        title: first_string_at(field_of(this, "title"@)),
        abstract_text: unmarked(text_at(field_of(this, "abstract"@))),
        authors: crossref_authors(items_at(field_of(this, "author"@))),
        issued: crossref_date_of(value),
        work_type: type_of(text_at(field_of(this, "type"@))),
        container_title: first_string_at(field_of(this, "container-title"@)),
        publisher: text_at(field_of(this, "publisher"@)),
        volume: text_at(field_of(this, "volume"@)),
        issue: text_at(field_of(this, "issue"@)),
        page: text_at(field_of(this, "page"@)),
        article_number: text_at(field_of(this, "article-number"@)),
        language: text_at(field_of(this, "language"@)),
        subjects: strings_in(each(items_at(field_of(this, "subject"@)))),
        issn: strings_in(each(items_at(field_of(this, "ISSN"@)))),
        isbn: strings_in(each(items_at(field_of(this, "ISBN"@)))),
        url: text_at(field_of(this, "URL"@)),
        fulltext_candidates: crossref_places(
            value,
            items_at(field_of(this, "link"@)),
            now_millis,
        ),
        metrics: Metrics {
            cited_by_count: number_at(field_of(this, "is-referenced-by-count"@)),
            ..bare.metrics
        },
        flags: Map::empty().insert(
            "is_retracted"@,
            speaks_of_retraction(value, "update-to"@) || speaks_of_retraction(
                value,
                "updated-by"@,
            ) || speaks_of_retraction(value, "relation"@),
        ),
        ..bare
    }
}

/// Whether the text speaks of a retraction.
pub fn is_retraction_notice(text: &str) -> (r: bool)
    ensures
        r == names_retraction(text@),
{
    contains(&lower(text), "retract")
}

/// An ASCII text speaks of a retraction where a part of it does.
proof fn lemma_notice_in_text(whole: Seq<char>, part: Seq<char>)
    requires
        is_ascii_chars(whole),
        plain_text(part),
        holds_text(whole, part),
        names_retraction(part),
    ensures
        names_retraction(whole),
{
    let notice = "retract"@;
    assert forall|i: int| 0 <= i < part.len() implies '\0' <= #[trigger] part[i] <= '\u{7f}' by {}
    assert(is_ascii_chars(part));
    let low = ascii_lower(part);
    let at = choose|at: int| found_at(whole, part, at);
    let within = choose|within: int| found_at(low, notice, within);
    let place = at + within;
    assert(ascii_lower(whole).subrange(place, place + notice.len()) =~= notice) by {
        assert forall|k: int| 0 <= k < notice.len() implies ascii_lower(whole)[place + k]
            == #[trigger] notice[k] by {
            assert(low.subrange(within, within + notice.len())[k] == low[within + k]);
            assert(whole.subrange(at, at + part.len())[within + k] == whole[place + k]);
        }
    }
    assert(found_at(ascii_lower(whole), notice, place));
}

fn mentions_retraction(value: &Json, key: &str) -> (r: bool)
    ensures
        r == speaks_of_retraction(value@, key@),
        retraction_under(value@, key@) ==> r,
{
    match field(Some(value), key) {
        Some(part) => {
            let written = part.to_text();
            proof {
                if retraction_under(value@, key@) {
                    let text = choose|text: Seq<char>| #[trigger]
                        part@.holds_string(text) && plain_text(text) && names_retraction(text);
                    lemma_notice_in_text(written@, text);
                }
            }
            is_retraction_notice(&written)
        },
        None => false,
    }
}

fn read_links(value: &Json, now_millis: i64) -> (r: Vec<FullTextCandidate>)
    ensures
        views(r@) == crossref_places(
            value@,
            items_at(field_of(Some(value@), "link"@)),
            now_millis,
        ),
{
    let links = field(Some(value), "link");
    let ghost all = items_at(seen(links));
    let total: usize = count(links);
    let mut places: Vec<FullTextCandidate> = Vec::new();
    let mut i: usize = 0;
    assert(views(places@) =~= crossref_places(value@, all.take(0), now_millis));
    while i < total
        invariant
            i <= total,
            total == all.len(),
            all == items_at(seen(links)),
            views(places@) == crossref_places(value@, all.take(i as int), now_millis),
        decreases total - i,
    {
        assert(all.take(i + 1).drop_last() =~= all.take(i as int));
        let ghost before = views(places@);
        let link = item(links, i);
        let content_type = text(field(link, "content-type"));
        let url = text(field(link, "URL"));
        if contains(&lower(&content_type), "pdf") && !url.as_str().is_empty() {
            let version = text(field(link, "content-version"));
            let (license, license_is_open) = crossref_license(value, &version, now_millis);
            let authorized = license_is_open || repository_url(&url);
            let place = FullTextCandidate {
                url,
                source: "crossref".to_owned(),
                version,
                license,
                content_type,
                authorized,
            };
            let ghost added = place@;
            assert(added =~= crossref_place(value@, all[i as int], now_millis));
            places.push(place);
            assert(views(places@) =~= before.push(added));
        }
        i += 1;
    }
    assert(all.take(all.len() as int) =~= all);
    places
}

fn read_crossref_authors(items: Option<&Json>) -> (r: Vec<Author>)
    ensures
        views(r@) == crossref_authors(items_at(seen(items))),
{
    let ghost all = items_at(seen(items));
    let total: usize = count(items);
    let mut out: Vec<Author> = Vec::new();
    let mut i: usize = 0;
    while i < total
        invariant
            i <= total,
            total == all.len(),
            all == items_at(seen(items)),
            out@.len() == i,
            forall|j: int| 0 <= j < i ==> (#[trigger] out@[j])@ == crossref_author_of(all[j]),
        decreases total - i,
    {
        if let Some(value) = item(items, i) {
            out.push(crossref_author(value));
        }
        i += 1;
    }
    assert(views(out@) =~= crossref_authors(all));
    out
}

/// The work that a Crossref record describes, with the licenses in force at a time. It
/// is retracted where the record carries a notice of that.
pub fn crossref_record(value: &Json, now_millis: i64, retrieved_at: String) -> (r: WorkRecord)
    ensures
        r@ == crossref_work(value@, now_millis, retrieved_at@),
        retraction_noted(value@) ==> r@.flags["is_retracted"@],
{
    let this = Some(value);
    let source_id = text(field(this, "DOI"));
    let mut record = WorkRecord::retrieved("crossref", &source_id, retrieved_at);
    let mut ids: TextMap<String> = TextMap::new();
    if let Some(doi) = normalize_doi(&source_id) {
        ids.insert("doi".to_owned(), doi);
    }
    record.ids = ids;
    record.title = first_string(field(this, "title"));
    record.abstract_text = strip_markup(&text(field(this, "abstract")));
    record.work_type = work_type(&text(field(this, "type")));
    record.container_title = first_string(field(this, "container-title"));
    record.publisher = text(field(this, "publisher"));
    record.volume = text(field(this, "volume"));
    record.issue = text(field(this, "issue"));
    record.page = text(field(this, "page"));
    record.article_number = text(field(this, "article-number"));
    record.language = text(field(this, "language"));
    record.url = text(field(this, "URL"));
    record.issued = crossref_date(value);
    record.issn = strings(field(this, "ISSN"));
    record.isbn = strings(field(this, "ISBN"));
    record.subjects = strings(field(this, "subject"));
    record.authors = read_crossref_authors(field(this, "author"));
    record.metrics = Metrics {
        cited_by_count: number_or_zero(field(this, "is-referenced-by-count")),
        influential_citation_count: 0,
        fwci: None,
        citation_percentile: None,
    };
    let retracted = mentions_retraction(value, "update-to") || mentions_retraction(
        value,
        "updated-by",
    ) || mentions_retraction(value, "relation");
    let mut flags: TextMap<bool> = TextMap::new();
    flags.insert("is_retracted".to_owned(), retracted);
    record.flags = flags;
    record.fulltext_candidates = read_links(value, now_millis);
    assert(record@ =~= crossref_work(value@, now_millis, retrieved_at@));
    record
}

/// How many bytes the UTF-8 form of the character takes.
pub open spec fn utf8_width(c: char) -> nat {
    if c <= '\u{7f}' {
        1
    } else if c <= '\u{7ff}' {
        2
    } else if c <= '\u{ffff}' {
        3
    } else {
        4
    }
}

/// How many characters take the given number of bytes in UTF-8, if some do exactly.
pub open spec fn chars_in_bytes(s: Seq<char>, bytes: nat) -> Option<nat>
    decreases s.len(),
{
    if bytes == 0 {
        Some(0)
    } else if s.len() == 0 || utf8_width(s[0]) > bytes {
        None
    } else {
        match chars_in_bytes(s.skip(1), (bytes - utf8_width(s[0])) as nat) {
            Some(count) => Some(count + 1),
            None => None,
        }
    }
}

/// The characters that take the first ten bytes, or all where a character is cut.
pub open spec fn date_prefix(s: Seq<char>) -> Seq<char> {
    match chars_in_bytes(s, 10) {
        Some(count) => s.take(count as int),
        None => s,
    }
}

fn cut_date(value: &str) -> (r: String)
    ensures
        r@ == date_prefix(value@),
{
    let chars = chars_of(value);
    let mut i: usize = 0;
    let mut left: usize = 10;
    assert(chars@.skip(0) =~= chars@);
    while i < chars.len() && left > 0
        invariant
            i <= chars@.len(),
            left <= 10,
            chars@ == value@,
            chars_in_bytes(chars@, 10) == (match chars_in_bytes(
                chars@.skip(i as int),
                left as nat,
            ) {
                Some(count) => Some(count + i as nat),
                None => None,
            }),
        decreases chars@.len() - i,
    {
        let ghost rest = chars@.skip(i as int);
        assert(rest.skip(1) =~= chars@.skip(i + 1));
        let c = chars[i];
        let width: usize = if c <= '\u{7f}' {
            1
        } else if c <= '\u{7ff}' {
            2
        } else if c <= '\u{ffff}' {
            3
        } else {
            4
        };
        if width > left {
            return value.to_owned();
        }
        left -= width;
        i += 1;
    }
    if left > 0 {
        value.to_owned()
    } else {
        assert(chars@.subrange(0, i as int) =~= chars@.take(i as int));
        text_of(&chars, 0, i)
    }
}

/// The authors that an arXiv entry names.
pub open spec fn arxiv_authors(authors: Seq<ArxivAuthorView>) -> Seq<AuthorView> {
    Seq::new(authors.len(), |i: int| literal_author(authors[i].name))
}

/// The terms of the categories.
pub open spec fn category_terms(categories: Seq<ArxivCategoryView>) -> Seq<Seq<char>> {
    Seq::new(categories.len(), |i: int| categories[i].term)
}

/// The work that an arXiv entry with the identifier describes.
pub open spec fn arxiv_work(
    entry: ArxivEntryView,
    arxiv_id: Seq<char>,
    retrieved_at: Seq<char>,
) -> WorkRecordView {
    let ids = Map::empty().insert("arxiv"@, arxiv_id);
    WorkRecordView {
        ids: if entry.doi is Some && doi_of(entry.doi->0) is Some {
            ids.insert("doi"@, doi_of(entry.doi->0)->0)
        } else {
            ids
        },
        title: spaced(entry.title),
        abstract_text: spaced(entry.summary),
        authors: arxiv_authors(entry.authors),
        issued: dated(date_prefix(entry.published), calendar_date(date_prefix(entry.published))),
        work_type: "preprint"@,
        container_title: "arXiv"@,
        subjects: category_terms(entry.categories),
        url: "https://arxiv.org/abs/"@ + arxiv_id,
        fulltext_candidates: seq![
            FullTextCandidateView {
                url: "https://arxiv.org/pdf/"@ + arxiv_id,
                source: "arxiv"@,
                version: "submittedVersion"@,
                license: match entry.license {
                    Some(license) => license,
                    None => Seq::empty(),
                },
                content_type: "application/pdf"@,
                authorized: true,
            },
        ],
        ..bare_work("arxiv"@, arxiv_id, retrieved_at)
    }
}

/// The work that an arXiv entry describes, if it names an arXiv identifier.
pub fn arxiv_record(entry: &ArxivEntry, retrieved_at: String) -> (r: Option<WorkRecord>)
    ensures
        r is Some <==> arxiv_of(entry@.id) is Some,
        r matches Some(record) ==> record@ == arxiv_work(
            entry@,
            arxiv_of(entry@.id)->0,
            retrieved_at@,
        ),
{
    let arxiv_id = match normalize_arxiv(&entry.id) {
        Some(id) => id,
        None => {
            return None;
        },
    };
    let mut record = WorkRecord::retrieved("arxiv", &arxiv_id, retrieved_at);
    let mut ids: TextMap<String> = TextMap::new();
    ids.insert("arxiv".to_owned(), arxiv_id.clone());
    if let Some(value) = &entry.doi {
        if let Some(doi) = normalize_doi(value) {
            ids.insert("doi".to_owned(), doi);
        }
    }
    record.ids = ids;
    record.title = normalize_space(&entry.title);
    record.abstract_text = normalize_space(&entry.summary);
    record.work_type = "preprint".to_owned();
    record.container_title = "arXiv".to_owned();
    let mut url = "https://arxiv.org/abs/".to_owned();
    url.append(&arxiv_id);
    record.url = url;
    record.issued = date_parts(&cut_date(&entry.published));
    let mut authors: Vec<Author> = Vec::new();
    let mut i: usize = 0;
    while i < entry.authors.len()
        invariant
            i <= entry.authors@.len(),
            authors@.len() == i,
            forall|j: int|
                0 <= j < i ==> (#[trigger] authors@[j])@ == literal_author(entry.authors@[j].name@),
        decreases entry.authors@.len() - i,
    {
        authors.push(author_from_literal(&entry.authors[i].name));
        i += 1;
    }
    assert(views(authors@) =~= arxiv_authors(entry@.authors));
    record.authors = authors;
    let mut subjects: Vec<String> = Vec::new();
    let mut k: usize = 0;
    while k < entry.categories.len()
        invariant
            k <= entry.categories@.len(),
            subjects@.len() == k,
            forall|j: int|
                0 <= j < k ==> (#[trigger] subjects@[j])@ == entry.categories@[j].term@,
        decreases entry.categories@.len() - k,
    {
        subjects.push(entry.categories[k].term.clone());
        k += 1;
    }
    assert(texts(subjects@) =~= category_terms(entry@.categories));
    record.subjects = subjects;
    let mut pdf = "https://arxiv.org/pdf/".to_owned();
    pdf.append(&arxiv_id);
    let license = match &entry.license {
        Some(license) => license.clone(),
        None => String::new(),
    };
    let mut places: Vec<FullTextCandidate> = Vec::new();
    places.push(
        FullTextCandidate {
            url: pdf,
            source: "arxiv".to_owned(),
            version: "submittedVersion".to_owned(),
            license,
            content_type: "application/pdf".to_owned(),
            authorized: true,
        },
    );
    record.fulltext_candidates = places;
    assert(record@ =~= arxiv_work(entry@, arxiv_of(entry@.id)->0, retrieved_at@));
    Some(record)
}

/// The year that a date begins with.
pub open spec fn leading_year(date: Option<Seq<char>>) -> Option<nat> {
    match date {
        Some(value) => if value.len() >= 4 {
            unsigned_value(value.take(4), 0xffff_ffff)
        } else {
            None
        },
        None => None,
    }
}

/// The year that a date begins with.
pub fn read_year(date: &Option<String>) -> (r: Option<u32>)
    ensures
        r is Some <==> leading_year(opt_text(*date)) is Some,
        r matches Some(year) ==> leading_year(opt_text(*date)) == Some(year as nat),
{
    match date {
        Some(value) => {
            let chars = chars_of(value);
            if chars.len() < 4 {
                return None;
            }
            assert(chars@.subrange(0, 4) =~= chars@.take(4));
            match parse_unsigned(&text_of(&chars, 0, 4), 0xffff_ffff) {
                Some(year) => Some(year as u32),
                None => None,
            }
        },
        None => None,
    }
}

/// The year lies in the publication window of the plan.
pub open spec fn in_window(year: u32, plan: ResearchPlanView) -> bool {
    &&& leading_year(plan.date_from) matches Some(from) ==> from <= year
    &&& leading_year(plan.date_to) matches Some(to) ==> year <= to
}

/// Whether the work lies in the publication window of the plan, as far as its year
/// is known.
pub fn in_date_range(record: &WorkRecord, plan: &ResearchPlan) -> (r: bool)
    ensures
        r == (year_of(record@) matches Some(year) ==> in_window(year, plan@)),
{
    match record.year() {
        Some(year) => {
            let after = match read_year(&plan.date_from) {
                Some(from) => year >= from,
                None => true,
            };
            let before = match read_year(&plan.date_to) {
                Some(to) => year <= to,
                None => true,
            };
            after && before
        },
        None => true,
    }
}

/// The names under which a work is found again by its arXiv identifier: with the version
/// and without.
pub open spec fn arxiv_names(ids: Map<Seq<char>, Seq<char>>) -> Seq<Seq<char>> {
    match arxiv_in(ids) {
        Some(id) => match arxiv_base_of(id) {
            Some(base) => seq!["arxiv:"@ + lowered(id), "arxiv:"@ + lowered(base)],
            None => seq!["arxiv:"@ + lowered(id)],
        },
        None => Seq::empty(),
    }
}

/// The names under which a work is found again: its identity, its persistent
/// identifiers, and where it has none of these its title and year.
pub open spec fn aliases_of(work: WorkRecordView) -> Seq<Seq<char>> {
    let by_identity = seq![identity_of(work)];
    let by_doi = match doi_in(work.ids) {
        Some(doi) => seq!["doi:"@ + doi],
        None => Seq::empty(),
    };
    let by_arxiv = arxiv_names(work.ids);
    let by_openalex = match openalex_in(work.ids) {
        Some(id) => seq!["openalex:"@ + lowered(id)],
        None => Seq::empty(),
    };
    let by_title = if has_persistent_id(work.ids) {
        Seq::empty()
    } else {
        seq!["title:"@ + fingerprint(work.title) + ":"@ + decimal(year_or_zero(work) as nat)]
    };
    by_identity + by_doi + by_arxiv + by_openalex + by_title
}

/// The arXiv identifier among the identifiers, in normal form.
pub open spec fn arxiv_in(ids: Map<Seq<char>, Seq<char>>) -> Option<Seq<char>> {
    if ids.contains_key("arxiv"@) {
        arxiv_of(ids["arxiv"@])
    } else {
        None
    }
}

/// The OpenAlex identifier among the identifiers, in normal form.
pub open spec fn openalex_in(ids: Map<Seq<char>, Seq<char>>) -> Option<Seq<char>> {
    if ids.contains_key("openalex"@) {
        openalex_of(ids["openalex"@])
    } else {
        None
    }
}

/// Some identifier has the form of its kind.
pub open spec fn has_persistent_id(ids: Map<Seq<char>, Seq<char>>) -> bool {
    doi_in(ids) is Some || arxiv_in(ids) is Some || openalex_in(ids) is Some
}

/// The year of a work, or zero.
pub open spec fn year_or_zero(work: WorkRecordView) -> u32 {
    match year_of(work) {
        Some(year) => year,
        None => 0,
    }
}

/// The arXiv identifier among the identifiers, in normal form.
pub fn find_arxiv(ids: &TextMap<String>) -> (r: Option<String>)
    ensures
        opt_text(r) == arxiv_in(ids@),
{
    match ids.get("arxiv") {
        Some(value) => normalize_arxiv(value),
        None => None,
    }
}

/// The OpenAlex identifier among the identifiers, in normal form.
pub fn find_openalex(ids: &TextMap<String>) -> (r: Option<String>)
    ensures
        opt_text(r) == openalex_in(ids@),
{
    match ids.get("openalex") {
        Some(value) => normalize_openalex(value),
        None => None,
    }
}

fn labelled(label: &str, value: &str) -> (r: String)
    ensures
        r@ == label@ + value@,
{
    let mut out = label.to_owned();
    out.append(value);
    out
}

/// The names under which the work is found again.
pub fn aliases_for(record: &WorkRecord) -> (r: Vec<String>)
    ensures
        texts(r@) == aliases_of(record@),
{
    let mut aliases: Vec<String> = Vec::new();
    aliases.push(record.identity());
    let mut persistent = false;
    if let Some(doi) = find_doi(&record.ids) {
        aliases.push(labelled("doi:", &doi));
        persistent = true;
    }
    if let Some(arxiv) = find_arxiv(&record.ids) {
        aliases.push(labelled("arxiv:", &lower(&arxiv)));
        if let Some(base) = arxiv_base_id(&arxiv) {
            aliases.push(labelled("arxiv:", &lower(&base)));
        }
        persistent = true;
    }
    if let Some(openalex) = find_openalex(&record.ids) {
        aliases.push(labelled("openalex:", &lower(&openalex)));
        persistent = true;
    }
    if !persistent {
        let mut title = labelled("title:", &title_fingerprint(&record.title));
        title.append(":");
        let year: u32 = match record.year() {
            Some(year) => year,
            None => 0,
        };
        title.append(&decimal_text(year as u64));
        aliases.push(title);
    }
    assert(texts(aliases@) =~= aliases_of(record@));
    aliases
}

/// The index of the work that is known under the first of the names under which one
/// is.
pub open spec fn known_under(
    aliases: Map<Seq<char>, usize>,
    names: Seq<Seq<char>>,
) -> Option<usize>
    decreases names.len(),
{
    if names.len() == 0 {
        None
    } else if aliases.contains_key(names[0]) {
        Some(aliases[names[0]])
    } else {
        known_under(aliases, names.skip(1))
    }
}

/// The names with those of one work added.
pub open spec fn with_aliases(
    aliases: Map<Seq<char>, usize>,
    names: Seq<Seq<char>>,
    index: usize,
) -> Map<Seq<char>, usize>
    decreases names.len(),
{
    if names.len() == 0 {
        aliases
    } else {
        with_aliases(aliases, names.drop_last(), index).insert(names.last(), index)
    }
}

/// What two findings of one work say together.
pub open spec fn united(left: DiscoveredWorkView, right: DiscoveredWorkView) -> DiscoveredWorkView {
    DiscoveredWorkView {
        record: merged(left.record, right.record),
        raw_records: left.raw_records + right.raw_records,
    }
}

/// The works found so far, and the names under which each is known.
#[verifier::ext_equal]
pub struct Findings {
    pub works: Seq<DiscoveredWorkView>,
    pub aliases: Map<Seq<char>, usize>,
}

/// The works with one more finding: part of the work that is known under one of its
/// names, or a work of its own.
pub open spec fn with_finding(found: Findings, finding: DiscoveredWorkView) -> Findings {
    let names = aliases_of(finding.record);
    match known_under(found.aliases, names) {
        Some(index) => {
            let work = united(found.works[index as int], finding);
            Findings {
                works: found.works.update(index as int, work),
                aliases: with_aliases(found.aliases, aliases_of(work.record), index),
            }
        },
        None => Findings {
            works: found.works.push(finding),
            aliases: with_aliases(found.aliases, names, found.works.len() as usize),
        },
    }
}

/// The works that several findings make, one after another.
pub open spec fn findings_of(findings: Seq<DiscoveredWorkView>) -> Findings
    decreases findings.len(),
{
    if findings.len() == 0 {
        Findings { works: Seq::empty(), aliases: Map::empty() }
    } else {
        with_finding(findings_of(findings.drop_last()), findings.last())
    }
}

fn find_known(aliases: &TextMap<usize>, names: &Vec<String>) -> (r: Option<usize>)
    ensures
        r == known_under(aliases@, texts(names@)),
{
    let ghost all = texts(names@);
    let mut i: usize = 0;
    assert(all.skip(0) =~= all);
    while i < names.len()
        invariant
            i <= names@.len(),
            all == texts(names@),
            known_under(aliases@, all) == known_under(aliases@, all.skip(i as int)),
        decreases names@.len() - i,
    {
        assert(all.skip(i as int)[0] == names@[i as int]@);
        assert(all.skip(i as int).skip(1) =~= all.skip(i + 1));
        if let Some(index) = aliases.get(&names[i]) {
            return Some(*index);
        }
        i += 1;
    }
    None
}

fn add_aliases(aliases: &mut TextMap<usize>, names: Vec<String>, index: usize)
    ensures
        final(aliases)@ == with_aliases(old(aliases)@, texts(names@), index),
{
    let ghost start = aliases@;
    let ghost all = texts(names@);
    let ghost items = names@;
    for name in it: names
        invariant
            it.seq() == items,
            all == texts(items),
            aliases@ == with_aliases(start, all.take(it.index() as int), index),
    {
        let ghost i = it.index() as int;
        assert(all.take(i + 1).drop_last() =~= all.take(i));
        assert(all.take(i + 1).last() == name@);
        aliases.insert(name, index);
    }
    assert(all.take(all.len() as int) =~= all);
}

/// Every name leads to a work.
pub open spec fn names_lead(found: Findings) -> bool {
    forall|name: Seq<char>| #[trigger]
        found.aliases.contains_key(name) ==> found.aliases[name] < found.works.len()
}

proof fn lemma_with_aliases(
    aliases: Map<Seq<char>, usize>,
    names: Seq<Seq<char>>,
    index: usize,
    name: Seq<char>,
)
    ensures
        with_aliases(aliases, names, index).contains_key(name) <==> aliases.contains_key(name)
            || names.contains(name),
        names.contains(name) ==> with_aliases(aliases, names, index)[name] == index,
        !names.contains(name) && aliases.contains_key(name) ==> with_aliases(
            aliases,
            names,
            index,
        )[name] == aliases[name],
    decreases names.len(),
{
    if names.len() > 0 {
        let rest = names.drop_last();
        lemma_with_aliases(aliases, rest, index, name);
        if names.contains(name) && name != names.last() {
            let i = choose|i: int| 0 <= i < names.len() && names[i] == name;
            assert(rest[i] == name);
        }
        if rest.contains(name) {
            let i = choose|i: int| 0 <= i < rest.len() && rest[i] == name;
            assert(names[i] == name);
        }
        if name == names.last() {
            assert(names[names.len() - 1] == name);
        }
    }
}

proof fn lemma_known_under(aliases: Map<Seq<char>, usize>, names: Seq<Seq<char>>)
    ensures
        known_under(aliases, names) matches Some(index) ==> exists|i: int|
            0 <= i < names.len() && aliases.contains_key(#[trigger] names[i]) && aliases[names[i]]
                == index,
        known_under(aliases, names) is None ==> forall|i: int|
            0 <= i < names.len() ==> !aliases.contains_key(#[trigger] names[i]),
    decreases names.len(),
{
    if names.len() > 0 && !aliases.contains_key(names[0]) {
        let rest = names.skip(1);
        lemma_known_under(aliases, rest);
        match known_under(aliases, rest) {
            Some(index) => {
                let i = choose|i: int|
                    0 <= i < rest.len() && aliases.contains_key(#[trigger] rest[i])
                        && aliases[rest[i]] == index;
                assert(names[i + 1] == rest[i]);
            },
            None => {
                assert forall|i: int| 0 <= i < names.len() implies !aliases.contains_key(
                    #[trigger] names[i],
                ) by {
                    if i > 0 {
                        assert(rest[i - 1] == names[i]);
                    }
                }
            },
        }
    }
}

/// A finding whose name is known leads to a work.
proof fn lemma_known_leads(found: Findings, finding: DiscoveredWorkView)
    requires
        names_lead(found),
    ensures
        known_under(found.aliases, aliases_of(finding.record)) matches Some(index) ==> index
            < found.works.len(),
{
    let names = aliases_of(finding.record);
    lemma_known_under(found.aliases, names);
    if let Some(index) = known_under(found.aliases, names) {
        let i = choose|i: int|
            0 <= i < names.len() && found.aliases.contains_key(#[trigger] names[i])
                && found.aliases[names[i]] == index;
        assert(found.aliases.contains_key(names[i]));
    }
}

/// One more finding leaves every name leading to a work.
proof fn lemma_with_finding(found: Findings, finding: DiscoveredWorkView)
    requires
        names_lead(found),
        found.works.len() <= usize::MAX,
    ensures
        names_lead(with_finding(found, finding)),
{
    let names = aliases_of(finding.record);
    let next = with_finding(found, finding);
    lemma_known_under(found.aliases, names);
    match known_under(found.aliases, names) {
        Some(index) => {
            lemma_known_leads(found, finding);
            let work = united(found.works[index as int], finding);
            assert forall|name: Seq<char>| #[trigger]
                next.aliases.contains_key(name) implies next.aliases[name] < next.works.len() by {
                lemma_with_aliases(found.aliases, aliases_of(work.record), index, name);
            }
        },
        None => {
            assert forall|name: Seq<char>| #[trigger]
                next.aliases.contains_key(name) implies next.aliases[name] < next.works.len() by {
                lemma_with_aliases(found.aliases, names, found.works.len() as usize, name);
            }
        },
    }
}

/// What two findings of one work say together.
pub fn unite(existing: DiscoveredWork, finding: DiscoveredWork) -> (r: DiscoveredWork)
    ensures
        r@ == united(existing@, finding@),
{
    let record = existing.record.merge(finding.record);
    let mut raw_records = existing.raw_records;
    let mut more = finding.raw_records;
    let ghost head = raw_records@;
    let ghost tail = more@;
    raw_records.append(&mut more);
    assert(views(raw_records@) =~= views(head) + views(tail));
    DiscoveredWork { record, raw_records }
}

fn add_finding(
    works: &mut Vec<DiscoveredWork>,
    aliases: &mut TextMap<usize>,
    finding: DiscoveredWork,
)
    requires
        names_lead((Findings { works: views(old(works)@), aliases: old(aliases)@ })),
    ensures
        (Findings { works: views(final(works)@), aliases: final(aliases)@ }) == with_finding(
            (Findings { works: views(old(works)@), aliases: old(aliases)@ }),
            finding@,
        ),
        names_lead((Findings { works: views(final(works)@), aliases: final(aliases)@ })),
{
    let ghost before = Findings { works: views(works@), aliases: aliases@ };
    let ghost added = finding@;
    let total: usize = works.len();
    let names = aliases_for(&finding.record);
    match find_known(aliases, &names) {
        Some(index) => {
            proof {
                lemma_known_leads(before, added);
            }
            let existing = works.remove(index);
            let work = unite(existing, finding);
            add_aliases(aliases, aliases_for(&work.record), index);
            works.insert(index, work);
            assert(views(works@) =~= with_finding(before, added).works);
        },
        None => {
            add_aliases(aliases, names, total);
            works.push(finding);
            assert(views(works@) =~= with_finding(before, added).works);
        },
    }
    proof {
        lemma_with_finding(before, added);
    }
}

/// The works that the findings make: those known under a common name are merged.
pub fn merge_discovered(items: Vec<DiscoveredWork>) -> (r: Vec<DiscoveredWork>)
    ensures
        views(r@) == findings_of(views(items@)).works,
{
    let ghost all = views(items@);
    let ghost start = items@;
    let mut works: Vec<DiscoveredWork> = Vec::new();
    let mut aliases: TextMap<usize> = TextMap::new();
    assert(views(works@) =~= findings_of(all.take(0)).works);
    for finding in it: items
        invariant
            it.seq() == start,
            all == views(start),
            findings_of(all.take(it.index() as int)) == (Findings {
                works: views(works@),
                aliases: aliases@,
            }),
            names_lead(findings_of(all.take(it.index() as int))),
    {
        let ghost i = it.index() as int;
        assert(all.take(i + 1).drop_last() =~= all.take(i));
        assert(all.take(i + 1).last() == finding@);
        add_finding(&mut works, &mut aliases, finding);
    }
    assert(all.take(all.len() as int) =~= all);
    works
}

/// A work with a persistent identifier is never found again by its title.
pub proof fn law_identified_works_have_no_title_name(work: WorkRecordView, name: Seq<char>)
    requires
        has_persistent_id(work.ids),
        aliases_of(work).contains(name),
    ensures
        !begins_with(name, "title:"@),
{
    reveal_strlit("title:");
    reveal_strlit("doi:");
    reveal_strlit("arxiv:");
    reveal_strlit("openalex:");
    let i = choose|i: int| 0 <= i < aliases_of(work).len() && aliases_of(work)[i] == name;
    assert(aliases_of(work)[i] == name);
    if begins_with(name, "title:"@) {
        assert(name[0] == name.subrange(0, "title:"@.len() as int)[0]);
        assert(name[0] == 't');
    }
}

/// Different OpenAlex identifiers in normal form differ in lowercase too.
proof fn lemma_openalex_lowercase(a: Seq<char>, b: Seq<char>)
    requires
        openalex_shape(a),
        openalex_shape(b),
        lowered(a) == lowered(b),
    ensures
        a == b,
{
    assert forall|i: int| 0 <= i < a.len() implies '\0' <= #[trigger] a[i] <= '\u{7f}' by {
        if i > 0 {
            assert(ascii_digit(a.skip(1)[i - 1]));
        }
    }
    assert forall|i: int| 0 <= i < b.len() implies '\0' <= #[trigger] b[i] <= '\u{7f}' by {
        if i > 0 {
            assert(ascii_digit(b.skip(1)[i - 1]));
        }
    }
    assert(is_ascii_chars(a) && is_ascii_chars(b));
    assert(ascii_lower(a) == ascii_lower(b));
    assert(a.len() == ascii_lower(a).len() && b.len() == ascii_lower(b).len());
    assert forall|i: int| 0 <= i < a.len() implies a[i] == b[i] by {
        assert(ascii_lower(a)[i] == ascii_lower_char(a[i]));
        assert(ascii_lower(b)[i] == ascii_lower_char(b[i]));
        if i > 0 {
            assert(ascii_digit(a.skip(1)[i - 1]));
            assert(ascii_digit(b.skip(1)[i - 1]));
        }
    }
    assert(a =~= b);
}

/// The text is a `W` and digits.
pub open spec fn openalex_shape(id: Seq<char>) -> bool {
    id.len() > 1 && id[0] == 'W' && all_digits(id.skip(1))
}

/// The OpenAlex identifier of a work is a `W` and digits.
proof fn lemma_openalex_shape(ids: Map<Seq<char>, Seq<char>>)
    ensures
        openalex_in(ids) matches Some(id) ==> openalex_shape(id),
{
    if let Some(id) = openalex_in(ids) {
        reveal_strlit("W");
        let found = last_segment(trimmed_end_of(trimmed(ids["openalex"@]), "/"@));
        assert(id == "W"@ + found.skip(1));
        assert(id.skip(1) =~= found.skip(1));
        assert(id[0] == 'W');
    }
}

/// A name that a work with a DOI goes by: that of the DOI, or one of its arXiv
/// identifier, or that of its OpenAlex identifier.
proof fn lemma_names_with_doi(work: WorkRecordView, name: Seq<char>)
    requires
        doi_in(work.ids) is Some,
        aliases_of(work).contains(name),
    ensures
        ({
            ||| name == "doi:"@ + doi_in(work.ids)->0
            ||| arxiv_names(work.ids).contains(name)
            ||| openalex_in(work.ids) is Some && name == "openalex:"@ + lowered(
                openalex_in(work.ids)->0,
            )
        }),
{
    let names = aliases_of(work);
    let by_arxiv = arxiv_names(work.ids);
    let i = choose|i: int| 0 <= i < names.len() && names[i] == name;
    if 2 <= i < 2 + by_arxiv.len() {
        assert(names[i] == by_arxiv[i - 2]);
    }
}

/// Behind the same prefix the same stands.
proof fn lemma_same_tail(prefix: Seq<char>, a: Seq<char>, b: Seq<char>)
    requires
        prefix + a == prefix + b,
    ensures
        a == b,
{
    assert((prefix + a).skip(prefix.len() as int) =~= a);
    assert((prefix + b).skip(prefix.len() as int) =~= b);
}

/// The names of each kind begin with a letter of their own.
proof fn lemma_kinds_of_names(ids: Map<Seq<char>, Seq<char>>, name: Seq<char>)
    ensures
        doi_in(ids) is Some && name == "doi:"@ + doi_in(ids)->0 ==> name[0] == 'd',
        arxiv_names(ids).contains(name) ==> name[0] == 'a',
        openalex_in(ids) is Some && name == "openalex:"@ + lowered(openalex_in(ids)->0) ==> name[0]
            == 'o',
{
    reveal_strlit("doi:");
    reveal_strlit("arxiv:");
    reveal_strlit("openalex:");
    if arxiv_names(ids).contains(name) {
        let names = arxiv_names(ids);
        let k = choose|k: int| 0 <= k < names.len() && names[k] == name;
        assert(names[k][0] == 'a');
    }
}

/// Findings with different DOIs have no name in common, whatever their titles are,
/// where they share no arXiv name and their OpenAlex identifiers are missing or differ.
pub proof fn law_distinct_dois_share_no_name(
    left: WorkRecordView,
    right: WorkRecordView,
    name: Seq<char>,
)
    requires
        doi_in(left.ids) is Some,
        doi_in(right.ids) is Some,
        doi_in(left.ids) != doi_in(right.ids),
        !(arxiv_names(left.ids).contains(name) && arxiv_names(right.ids).contains(name)),
        openalex_in(left.ids) is Some ==> openalex_in(left.ids) != openalex_in(right.ids),
    ensures
        !(aliases_of(left).contains(name) && aliases_of(right).contains(name)),
{
    if aliases_of(left).contains(name) && aliases_of(right).contains(name) {
        lemma_names_with_doi(left, name);
        lemma_names_with_doi(right, name);
        lemma_kinds_of_names(left.ids, name);
        lemma_kinds_of_names(right.ids, name);
        lemma_openalex_shape(left.ids);
        lemma_openalex_shape(right.ids);
        if name[0] == 'd' {
            lemma_same_tail("doi:"@, doi_in(left.ids)->0, doi_in(right.ids)->0);
        } else if name[0] == 'o' {
            let a = openalex_in(left.ids)->0;
            let b = openalex_in(right.ids)->0;
            lemma_same_tail("openalex:"@, lowered(a), lowered(b));
            lemma_openalex_lowercase(a, b);
        }
    }
}

/// Works with ASCII arXiv identifiers share no arXiv name where the identifiers differ in
/// more than case and version.
pub proof fn law_distinct_arxiv_works_share_no_name(
    left: Map<Seq<char>, Seq<char>>,
    right: Map<Seq<char>, Seq<char>>,
    name: Seq<char>,
)
    requires
        arxiv_in(left) matches Some(a) && is_ascii_chars(a),
        arxiv_in(right) matches Some(b) && is_ascii_chars(b),
        ascii_lower(without_version(arxiv_in(left)->0)) != ascii_lower(
            without_version(arxiv_in(right)->0),
        ),
    ensures
        !(arxiv_names(left).contains(name) && arxiv_names(right).contains(name)),
{
    let prefix = "arxiv:"@;
    let a = arxiv_in(left)->0;
    let b = arxiv_in(right)->0;
    law_arxiv_normal_form(left["arxiv"@]);
    law_arxiv_normal_form(right["arxiv"@]);
    lemma_arxiv_lowercase_differs(a, b);
    if arxiv_names(left).contains(name) && arxiv_names(right).contains(name) {
        let i = choose|i: int| 0 <= i < arxiv_names(left).len() && arxiv_names(left)[i] == name;
        let j = choose|j: int| 0 <= j < arxiv_names(right).len() && arxiv_names(right)[j] == name;
        let n = prefix.len() as int;
        assert((prefix + lowered(a)).skip(n) =~= lowered(a));
        assert((prefix + lowered(b)).skip(n) =~= lowered(b));
        assert((prefix + lowered(without_version(a))).skip(n) =~= lowered(without_version(a)));
        assert((prefix + lowered(without_version(b))).skip(n) =~= lowered(without_version(b)));
        assert(arxiv_names(left)[i] == name && arxiv_names(right)[j] == name);
    }
}

/// No two of the findings have a name in common.
pub open spec fn unrelated(findings: Seq<DiscoveredWorkView>) -> bool {
    forall|i: int, j: int, name: Seq<char>|
        #![trigger aliases_of(findings[i].record).contains(name), aliases_of(
            findings[j].record,
        ).contains(name)]
        0 <= i < j < findings.len() ==> !(aliases_of(findings[i].record).contains(name)
            && aliases_of(findings[j].record).contains(name))
}

proof fn lemma_unrelated_names(findings: Seq<DiscoveredWorkView>, name: Seq<char>)
    requires
        unrelated(findings),
    ensures
        findings_of(findings).works == findings,
        findings_of(findings).aliases.contains_key(name) ==> exists|i: int|
            0 <= i < findings.len() && aliases_of(#[trigger] findings[i].record).contains(name),
    decreases findings.len(),
{
    if findings.len() > 0 {
        let rest = findings.drop_last();
        let last = findings.last();
        let found = findings_of(rest);
        let names = aliases_of(last.record);
        assert(unrelated(rest)) by {
            assert forall|i: int, j: int, n: Seq<char>|
                #![trigger aliases_of(rest[i].record).contains(n), aliases_of(
                    rest[j].record,
                ).contains(n)]
                0 <= i < j < rest.len() implies !(aliases_of(rest[i].record).contains(n)
                && aliases_of(rest[j].record).contains(n)) by {
                assert(rest[i] == findings[i]);
                assert(rest[j] == findings[j]);
            }
        }
        lemma_known_under(found.aliases, names);
        if let Some(index) = known_under(found.aliases, names) {
            let k = choose|k: int|
                0 <= k < names.len() && found.aliases.contains_key(#[trigger] names[k])
                    && found.aliases[names[k]] == index;
            lemma_unrelated_names(rest, names[k]);
            let i = choose|i: int|
                0 <= i < rest.len() && aliases_of(#[trigger] rest[i].record).contains(names[k]);
            assert(rest[i] == findings[i]);
            assert(aliases_of(findings[i].record).contains(names[k]));
            assert(aliases_of(findings[findings.len() - 1].record).contains(names[k]));
            assert(false);
        }
        lemma_unrelated_names(rest, name);
        assert(rest.push(last) =~= findings);
        lemma_with_aliases(found.aliases, names, found.works.len() as usize, name);
        if findings_of(findings).aliases.contains_key(name) {
            if names.contains(name) {
                assert(aliases_of(findings[findings.len() - 1].record).contains(name));
            } else {
                let i = choose|i: int|
                    0 <= i < rest.len() && aliases_of(#[trigger] rest[i].record).contains(name);
                assert(aliases_of(findings[i].record).contains(name));
            }
        }
    }
}

/// Findings of which no two have a name in common stay as they are: nothing else
/// merges works.
pub proof fn law_unrelated_findings_stay_apart(findings: Seq<DiscoveredWorkView>)
    requires
        unrelated(findings),
    ensures
        findings_of(findings).works == findings,
{
    lemma_unrelated_names(findings, Seq::empty());
}

/// The response is kept with one of the works.
pub open spec fn response_kept(works: Seq<DiscoveredWorkView>, raw: RawSourceRecordView) -> bool {
    exists|w: int| 0 <= w < works.len() && (#[trigger] works[w]).raw_records.contains(raw)
}

proof fn lemma_finding_keeps_responses(
    found: Findings,
    finding: DiscoveredWorkView,
    raw: RawSourceRecordView,
)
    requires
        names_lead(found),
        found.works.len() <= usize::MAX,
        response_kept(found.works, raw) || finding.raw_records.contains(raw),
    ensures
        response_kept(with_finding(found, finding).works, raw),
{
    let next = with_finding(found, finding);
    lemma_known_leads(found, finding);
    match known_under(found.aliases, aliases_of(finding.record)) {
        Some(index) => {
            let at = index as int;
            let old_raws = found.works[at].raw_records;
            let raws = old_raws + finding.raw_records;
            assert(next.works[at].raw_records == raws);
            if finding.raw_records.contains(raw) {
                let k = choose|k: int|
                    0 <= k < finding.raw_records.len() && finding.raw_records[k] == raw;
                assert(raws[old_raws.len() + k] == raw);
                assert(next.works[at].raw_records.contains(raw));
            } else {
                let w = choose|w: int|
                    0 <= w < found.works.len() && (
                    #[trigger] found.works[w]).raw_records.contains(raw);
                if w == at {
                    let k = choose|k: int| 0 <= k < old_raws.len() && old_raws[k] == raw;
                    assert(raws[k] == raw);
                }
                assert(next.works[w].raw_records.contains(raw));
            }
        },
        None => {
            if finding.raw_records.contains(raw) {
                assert(next.works[found.works.len() as int].raw_records.contains(raw));
            } else {
                let w = choose|w: int|
                    0 <= w < found.works.len() && (
                    #[trigger] found.works[w]).raw_records.contains(raw);
                assert(next.works[w].raw_records.contains(raw));
            }
        },
    }
}

proof fn lemma_findings_lead(findings: Seq<DiscoveredWorkView>)
    requires
        findings.len() <= usize::MAX,
    ensures
        names_lead(findings_of(findings)),
        findings_of(findings).works.len() <= findings.len(),
    decreases findings.len(),
{
    if findings.len() > 0 {
        lemma_findings_lead(findings.drop_last());
        lemma_known_leads(findings_of(findings.drop_last()), findings.last());
        lemma_with_finding(findings_of(findings.drop_last()), findings.last());
    }
}

/// Merging makes no more works than there are findings.
pub proof fn law_merging_adds_no_works(findings: Seq<DiscoveredWorkView>)
    requires
        findings.len() <= usize::MAX,
    ensures
        findings_of(findings).works.len() <= findings.len(),
{
    lemma_findings_lead(findings);
}

/// Merging findings loses no response: each one stays with a work.
pub proof fn law_merging_keeps_every_response(
    findings: Seq<DiscoveredWorkView>,
    i: int,
    raw: RawSourceRecordView,
)
    requires
        findings.len() <= usize::MAX,
        0 <= i < findings.len(),
        findings[i].raw_records.contains(raw),
    ensures
        response_kept(findings_of(findings).works, raw),
    decreases findings.len(),
{
    let rest = findings.drop_last();
    lemma_findings_lead(findings);
    lemma_findings_lead(rest);
    if i < rest.len() {
        law_merging_keeps_every_response(rest, i, raw);
    }
    lemma_finding_keeps_responses(findings_of(rest), findings.last(), raw);
}

/// All responses of the works together, each as often as it occurs.
pub open spec fn all_responses(works: Seq<DiscoveredWorkView>) -> Multiset<RawSourceRecordView>
    decreases works.len(),
{
    if works.len() == 0 {
        Multiset::empty()
    } else {
        all_responses(works.drop_last()).add(works.last().raw_records.to_multiset())
    }
}

/// A work that takes a finding in takes in its responses, and the others keep theirs.
proof fn lemma_responses_of_united(
    works: Seq<DiscoveredWorkView>,
    at: int,
    finding: DiscoveredWorkView,
)
    requires
        0 <= at < works.len(),
    ensures
        all_responses(works.update(at, united(works[at], finding))) == all_responses(works).add(
            finding.raw_records.to_multiset(),
        ),
    decreases works.len(),
{
    let next = works.update(at, united(works[at], finding));
    let more = finding.raw_records.to_multiset();
    if at == works.len() - 1 {
        assert(next.drop_last() =~= works.drop_last());
        vstd::seq_lib::lemma_multiset_commutative(works[at].raw_records, finding.raw_records);
        assert(all_responses(next) =~= all_responses(works).add(more));
    } else {
        let rest = works.drop_last();
        lemma_responses_of_united(rest, at, finding);
        assert(next.drop_last() =~= rest.update(at, united(rest[at], finding)));
        assert(next.last() == works.last());
        assert(all_responses(next) =~= all_responses(works).add(more));
    }
}

/// Merging findings neither loses nor doubles a response: those of all works together
/// are those of all findings together, in another order perhaps.
pub proof fn law_merging_permutes_the_responses(findings: Seq<DiscoveredWorkView>)
    requires
        findings.len() <= usize::MAX,
    ensures
        all_responses(findings_of(findings).works) == all_responses(findings),
    decreases findings.len(),
{
    if findings.len() > 0 {
        let rest = findings.drop_last();
        let found = findings_of(rest);
        let last = findings.last();
        law_merging_permutes_the_responses(rest);
        lemma_findings_lead(rest);
        lemma_known_leads(found, last);
        match known_under(found.aliases, aliases_of(last.record)) {
            Some(index) => {
                lemma_responses_of_united(found.works, index as int, last);
            },
            None => {
                assert(found.works.push(last).drop_last() =~= found.works);
            },
        }
    }
}

/// The finding has gone into the work: the work has its responses, knows its sources,
/// and has an identifier under each of its keys.
pub open spec fn part_of(finding: DiscoveredWorkView, work: DiscoveredWorkView) -> bool {
    &&& forall|k: int|
        0 <= k < finding.raw_records.len() ==> work.raw_records.contains(
            #[trigger] finding.raw_records[k],
        )
    &&& forall|k: int|
        0 <= k < finding.record.provenance.len() ==> source_known(
            work.record.provenance,
            #[trigger] finding.record.provenance[k],
        )
    &&& forall|key: Seq<char>| #[trigger]
        finding.record.ids.contains_key(key) ==> work.record.ids.contains_key(key)
}

/// Every finding is part of itself.
proof fn lemma_part_of_itself(finding: DiscoveredWorkView)
    ensures
        part_of(finding, finding),
{
    let sources = finding.record.provenance;
    assert forall|k: int| 0 <= k < sources.len() implies source_known(
        sources,
        #[trigger] sources[k],
    ) by {
        assert(same_source(sources[k], sources[k]));
    }
}

/// What two findings say together has both of them, and what was part of the first.
proof fn lemma_part_of_united(
    finding: DiscoveredWorkView,
    left: DiscoveredWorkView,
    right: DiscoveredWorkView,
)
    ensures
        part_of(right, united(left, right)),
        part_of(finding, left) ==> part_of(finding, united(left, right)),
{
    let both = united(left, right);
    let sources = both.record.provenance;
    law_merge_keeps_provenance(left.record, right.record);
    law_merge_keeps_identifiers(left.record, right.record);
    assert forall|k: int| 0 <= k < right.raw_records.len() implies both.raw_records.contains(
        #[trigger] right.raw_records[k],
    ) by {
        assert(both.raw_records[left.raw_records.len() + k] == right.raw_records[k]);
    }
    if part_of(finding, left) {
        assert forall|k: int| 0 <= k < finding.raw_records.len() implies both.raw_records.contains(
            #[trigger] finding.raw_records[k],
        ) by {
            let raw = finding.raw_records[k];
            assert(left.raw_records.contains(raw));
            let i = choose|i: int| 0 <= i < left.raw_records.len() && left.raw_records[i] == raw;
            assert(both.raw_records[i] == raw);
        }
        assert forall|k: int| 0 <= k < finding.record.provenance.len() implies source_known(
            sources,
            #[trigger] finding.record.provenance[k],
        ) by {
            let source = finding.record.provenance[k];
            assert(source_known(left.record.provenance, source));
            let i = choose|i: int|
                0 <= i < left.record.provenance.len() && same_source(
                    #[trigger] left.record.provenance[i],
                    source,
                );
            assert(sources.take(left.record.provenance.len() as int)[i]
                == left.record.provenance[i]);
            assert(same_source(sources[i], source));
        }
        assert forall|key: Seq<char>| #[trigger]
            finding.record.ids.contains_key(key) implies both.record.ids.contains_key(key) by {
            assert(left.record.ids.contains_key(key));
            assert(merged(left.record, right.record).ids.contains_key(key));
        }
    }
    assert forall|key: Seq<char>| #[trigger]
        right.record.ids.contains_key(key) implies both.record.ids.contains_key(key) by {
        assert(merged(left.record, right.record).ids.contains_key(key));
    }
}

/// Every finding goes into one of the works, with all its responses, all its sources
/// and an identifier under each of its keys.
pub proof fn law_every_finding_is_part_of_a_work(findings: Seq<DiscoveredWorkView>, i: int)
    requires
        findings.len() <= usize::MAX,
        0 <= i < findings.len(),
    ensures
        exists|w: int|
            0 <= w < findings_of(findings).works.len() && part_of(
                findings[i],
                #[trigger] findings_of(findings).works[w],
            ),
    decreases findings.len(),
{
    let rest = findings.drop_last();
    let found = findings_of(rest);
    let last = findings.last();
    let works = findings_of(findings).works;
    lemma_findings_lead(rest);
    lemma_known_leads(found, last);
    match known_under(found.aliases, aliases_of(last.record)) {
        Some(index) => {
            let at = index as int;
            lemma_part_of_united(findings[i], found.works[at], last);
            if i < rest.len() {
                law_every_finding_is_part_of_a_work(rest, i);
                let w = choose|w: int|
                    0 <= w < found.works.len() && part_of(rest[i], #[trigger] found.works[w]);
                assert(part_of(findings[i], works[w]));
            } else {
                assert(part_of(findings[i], works[at]));
            }
        },
        None => {
            if i < rest.len() {
                law_every_finding_is_part_of_a_work(rest, i);
                let w = choose|w: int|
                    0 <= w < found.works.len() && part_of(rest[i], #[trigger] found.works[w]);
                assert(works[w] == found.works[w]);
            } else {
                lemma_part_of_itself(last);
                assert(works[found.works.len() as int] == last);
            }
        },
    }
}

/// What pairs of texts hold.
pub open spec fn pair_views(pairs: Seq<(String, String)>) -> Seq<(Seq<char>, Seq<char>)> {
    Seq::new(pairs.len(), |i: int| (pairs[i].0@, pairs[i].1@))
}

fn push_pair(pairs: &mut Vec<(String, String)>, name: &str, value: String)
    ensures
        pair_views(final(pairs)@) == pair_views(old(pairs)@).push((name@, value@)),
{
    let ghost before = pair_views(pairs@);
    let ghost added = (name@, value@);
    pairs.push((name.to_owned(), value));
    assert(pair_views(pairs@) =~= before.push(added));
}

/// How many works one request asks for: what is missing, and no more than a hundred.
pub open spec fn page_size(limit: nat, have: nat) -> nat {
    if limit - have <= 100 {
        (limit - have) as nat
    } else {
        100
    }
}

/// How many works the next request asks for.
pub fn request_size(limit: usize, have: usize) -> (r: usize)
    requires
        have <= limit,
    ensures
        r == page_size(limit as nat, have as nat),
{
    if limit - have <= 100 {
        limit - have
    } else {
        100
    }
}

/// The text behind the label, where there is one.
pub open spec fn labelled_part(label: Seq<char>, value: Option<Seq<char>>) -> Seq<Seq<char>> {
    match value {
        Some(text) => seq![label + text],
        None => Seq::empty(),
    }
}

/// The filter of an OpenAlex search: works with an abstract that are not retracted,
/// in the publication window.
pub open spec fn openalex_filter(plan: ResearchPlanView) -> Seq<char> {
    joined(
        seq!["is_retracted:false"@, "has_abstract:true"@] + labelled_part(
            "from_publication_date:"@,
            plan.date_from,
        ) + labelled_part("to_publication_date:"@, plan.date_to),
        ","@,
    )
}

/// The filter of a Crossref search: the publication window, where there is one.
pub open spec fn crossref_filters(plan: ResearchPlanView) -> Seq<Seq<char>> {
    labelled_part("from-pub-date:"@, plan.date_from) + labelled_part(
        "until-pub-date:"@,
        plan.date_to,
    )
}

/// What an OpenAlex search asks for.
pub open spec fn openalex_request(
    plan: ResearchPlanView,
    query: Seq<char>,
    size: nat,
    cursor: Seq<char>,
    api_key: Seq<char>,
) -> Seq<(Seq<char>, Seq<char>)> {
    seq![
        ("search"@, query),
        ("filter"@, openalex_filter(plan)),
        ("per-page"@, decimal(size)),
        ("cursor"@, cursor),
        ("api_key"@, api_key),
    ]
}

/// What an OpenAlex search asks for.
pub fn openalex_params(
    plan: &ResearchPlan,
    query: &str,
    size: usize,
    cursor: &str,
    api_key: &str,
) -> (r: Vec<(String, String)>)
    ensures
        pair_views(r@) == openalex_request(plan@, query@, size as nat, cursor@, api_key@),
{
    let mut filters: Vec<String> = Vec::new();
    filters.push("is_retracted:false".to_owned());
    filters.push("has_abstract:true".to_owned());
    if let Some(value) = &plan.date_from {
        filters.push(labelled("from_publication_date:", value));
    }
    if let Some(value) = &plan.date_to {
        filters.push(labelled("to_publication_date:", value));
    }
    assert(texts(filters@) =~= seq!["is_retracted:false"@, "has_abstract:true"@] + labelled_part(
        "from_publication_date:"@,
        plan@.date_from,
    ) + labelled_part("to_publication_date:"@, plan@.date_to));
    let mut params: Vec<(String, String)> = Vec::new();
    push_pair(&mut params, "search", query.to_owned());
    push_pair(&mut params, "filter", join(&filters, ","));
    push_pair(&mut params, "per-page", decimal_text(size as u64));
    push_pair(&mut params, "cursor", cursor.to_owned());
    push_pair(&mut params, "api_key", api_key.to_owned());
    assert(pair_views(params@) =~= openalex_request(
        plan@,
        query@,
        size as nat,
        cursor@,
        api_key@,
    ));
    params
}

/// What a Crossref search asks for.
pub open spec fn crossref_request(
    plan: ResearchPlanView,
    query: Seq<char>,
    size: nat,
    cursor: Seq<char>,
    contact_email: Seq<char>,
) -> Seq<(Seq<char>, Seq<char>)> {
    let base = seq![
        ("query.bibliographic"@, query),
        ("rows"@, decimal(size)),
        ("cursor"@, cursor),
    ];
    let filtered = if crossref_filters(plan).len() == 0 {
        base
    } else {
        base.push(("filter"@, joined(crossref_filters(plan), ","@)))
    };
    if contact_email.len() == 0 {
        filtered
    } else {
        filtered.push(("mailto"@, contact_email))
    }
}

/// What a Crossref search asks for.
pub fn crossref_params(
    plan: &ResearchPlan,
    query: &str,
    size: usize,
    cursor: &str,
    contact_email: &str,
) -> (r: Vec<(String, String)>)
    ensures
        pair_views(r@) == crossref_request(plan@, query@, size as nat, cursor@, contact_email@),
{
    let mut filters: Vec<String> = Vec::new();
    if let Some(value) = &plan.date_from {
        filters.push(labelled("from-pub-date:", value));
    }
    if let Some(value) = &plan.date_to {
        filters.push(labelled("until-pub-date:", value));
    }
    assert(texts(filters@) =~= crossref_filters(plan@));
    let mut params: Vec<(String, String)> = Vec::new();
    push_pair(&mut params, "query.bibliographic", query.to_owned());
    push_pair(&mut params, "rows", decimal_text(size as u64));
    push_pair(&mut params, "cursor", cursor.to_owned());
    assert(pair_views(params@) =~= seq![
        ("query.bibliographic"@, query@),
        ("rows"@, decimal(size as nat)),
        ("cursor"@, cursor@),
    ]);
    if filters.len() > 0 {
        push_pair(&mut params, "filter", join(&filters, ","));
    }
    if !contact_email.is_empty() {
        push_pair(&mut params, "mailto", contact_email.to_owned());
    }
    params
}

/// What an arXiv search asks for.
pub open spec fn arxiv_request(
    query: Seq<char>,
    start: nat,
    size: nat,
) -> Seq<(Seq<char>, Seq<char>)> {
    seq![
        ("search_query"@, "all:\""@ + query + "\""@),
        ("start"@, decimal(start)),
        ("max_results"@, decimal(size)),
        ("sortBy"@, "relevance"@),
        ("sortOrder"@, "descending"@),
    ]
}

/// What an arXiv search asks for.
pub fn arxiv_params(query: &str, start: usize, size: usize) -> (r: Vec<(String, String)>)
    ensures
        pair_views(r@) == arxiv_request(query@, start as nat, size as nat),
{
    let mut phrase = labelled("all:\"", query);
    phrase.append("\"");
    let mut params: Vec<(String, String)> = Vec::new();
    push_pair(&mut params, "search_query", phrase);
    push_pair(&mut params, "start", decimal_text(start as u64));
    push_pair(&mut params, "max_results", decimal_text(size as u64));
    push_pair(&mut params, "sortBy", "relevance".to_owned());
    push_pair(&mut params, "sortOrder", "descending".to_owned());
    assert(pair_views(params@) =~= arxiv_request(query@, start as nat, size as nat));
    params
}

/// The response with its source.
pub open spec fn response(
    source: Seq<char>,
    source_id: Seq<char>,
    retrieved_at: Seq<char>,
    raw: JsonView,
) -> Seq<RawSourceRecordView> {
    seq![RawSourceRecordView { source, source_id, retrieved_at, raw }]
}

fn one_response(source: &str, source_id: String, retrieved_at: &str, raw: Json) -> (r: Vec<
    RawSourceRecord,
>)
    ensures
        views(r@) == response(source@, source_id@, retrieved_at@, raw@),
{
    let ghost wanted = response(source@, source_id@, retrieved_at@, raw@);
    let mut out: Vec<RawSourceRecord> = Vec::new();
    out.push(
        RawSourceRecord {
            source: source.to_owned(),
            source_id,
            retrieved_at: retrieved_at.to_owned(),
            raw,
        },
    );
    assert(views(out@) =~= wanted);
    out
}

/// The value under the key, or the identity of the work where there is none.
pub open spec fn id_or_identity(work: WorkRecordView, key: Seq<char>) -> Seq<char> {
    if work.ids.contains_key(key) {
        work.ids[key]
    } else {
        identity_of(work)
    }
}

fn read_id_or_identity(record: &WorkRecord, key: &str) -> (r: String)
    ensures
        r@ == id_or_identity(record@, key@),
{
    match record.ids.get(key) {
        Some(value) => value.clone(),
        None => record.identity(),
    }
}

/// The work that an OpenAlex record describes, with the record.
pub open spec fn openalex_finding(value: JsonView, retrieved_at: Seq<char>) -> DiscoveredWorkView {
    let record = openalex_work(value, retrieved_at);
    DiscoveredWorkView {
        record,
        raw_records: response(
            "openalex"@,
            id_or_identity(record, "openalex"@),
            retrieved_at,
            value,
        ),
    }
}

/// The work that an OpenAlex record describes, with the record.
pub fn openalex_discovered(value: Json, retrieved_at: &str) -> (r: DiscoveredWork)
    ensures
        r@ == openalex_finding(value@, retrieved_at@),
{
    let record = openalex_record(&value, retrieved_at.to_owned());
    let source_id = read_id_or_identity(&record, "openalex");
    DiscoveredWork {
        record,
        raw_records: one_response("openalex", source_id, retrieved_at, value),
    }
}

/// The work that an OpenAlex search result describes, with the result.
pub open spec fn openalex_hit(value: JsonView, retrieved_at: Seq<char>) -> DiscoveredWorkView {
    DiscoveredWorkView {
        record: openalex_work(value, retrieved_at),
        raw_records: response(
            "openalex"@,
            match string_at(field_of(Some(value), "id"@)) {
                Some(id) => id,
                None => Seq::empty(),
            },
            retrieved_at,
            value,
        ),
    }
}

/// The work that a Crossref record describes, with the record.
pub open spec fn crossref_hit(
    value: JsonView,
    now_millis: i64,
    retrieved_at: Seq<char>,
) -> DiscoveredWorkView {
    let record = crossref_work(value, now_millis, retrieved_at);
    DiscoveredWorkView {
        record,
        raw_records: response(
            "crossref"@,
            id_or_identity(record, "doi"@),
            retrieved_at,
            value,
        ),
    }
}

/// The answer to a Crossref lookup by DOI: the work that its message describes.
pub open spec fn crossref_answer(
    payload: JsonView,
    doi: Seq<char>,
    now_millis: i64,
    retrieved_at: Seq<char>,
) -> Option<DiscoveredWorkView> {
    match field_of(Some(payload), "message"@) {
        Some(value) => {
            let record = crossref_work(value, now_millis, retrieved_at);
            Some(
                DiscoveredWorkView {
                    record,
                    raw_records: response(
                        "crossref"@,
                        if record.ids.contains_key("doi"@) {
                            record.ids["doi"@]
                        } else {
                            doi
                        },
                        retrieved_at,
                        value,
                    ),
                },
            )
        },
        None => None,
    }
}

/// The work that the answer to a Crossref lookup describes, if it has a message.
pub fn crossref_lookup(payload: &Json, doi: &str, now_millis: i64, retrieved_at: &str) -> (r:
    Option<DiscoveredWork>)
    ensures
        opt_view(r) == crossref_answer(payload@, doi@, now_millis, retrieved_at@),
{
    match field(Some(payload), "message") {
        Some(value) => {
            let record = crossref_record(value, now_millis, retrieved_at.to_owned());
            let source_id = match record.ids.get("doi") {
                Some(id) => id.clone(),
                None => doi.to_owned(),
            };
            Some(
                DiscoveredWork {
                    record,
                    raw_records: one_response(
                        "crossref",
                        source_id,
                        retrieved_at,
                        value.duplicate(),
                    ),
                },
            )
        },
        None => None,
    }
}

/// The work that the first result of an OpenAlex lookup describes, if there is one.
pub fn openalex_lookup(payload: &Json, retrieved_at: &str) -> (r: Option<DiscoveredWork>)
    ensures
        ({
            let results = items_at(field_of(Some(payload@), "results"@));
            opt_view(r) == (if results.len() == 0 {
                None
            } else {
                Some(openalex_finding(results[0], retrieved_at@))
            })
        }),
{
    match item(field(Some(payload), "results"), 0) {
        Some(value) => Some(openalex_discovered(value.duplicate(), retrieved_at)),
        None => None,
    }
}

/// The cursor of the next page, if there is one and it leads further.
pub open spec fn next_cursor(next: Option<Seq<char>>, cursor: Seq<char>) -> Option<Seq<char>> {
    match next {
        Some(value) => if value.len() == 0 || value == cursor {
            None
        } else {
            Some(value)
        },
        None => None,
    }
}

fn read_cursor(next: Option<String>, cursor: &str) -> (r: Option<String>)
    ensures
        opt_text(r) == next_cursor(opt_text(next), cursor@),
{
    match next {
        Some(value) => {
            if value.as_str().is_empty() || same_text(&value, cursor) {
                None
            } else {
                Some(value)
            }
        },
        None => None,
    }
}

/// The works that search results describe.
pub open spec fn openalex_hits(
    items: Seq<JsonView>,
    retrieved_at: Seq<char>,
) -> Seq<DiscoveredWorkView> {
    Seq::new(items.len(), |i: int| openalex_hit(items[i], retrieved_at))
}

/// The works that search results describe.
pub open spec fn crossref_hits(
    items: Seq<JsonView>,
    now_millis: i64,
    retrieved_at: Seq<char>,
) -> Seq<DiscoveredWorkView> {
    Seq::new(items.len(), |i: int| crossref_hit(items[i], now_millis, retrieved_at))
}

/// As many of the items as are missing.
pub open spec fn missing_items(items: Seq<JsonView>, limit: nat, have: nat) -> Seq<JsonView> {
    if items.len() <= limit - have {
        items
    } else {
        items.take(limit - have)
    }
}

/// The results that a page of an OpenAlex search lists.
pub open spec fn openalex_results(payload: JsonView) -> Seq<JsonView> {
    items_at(field_of(Some(payload), "results"@))
}

/// Where an OpenAlex search goes on behind a page.
pub open spec fn openalex_next(payload: JsonView, cursor: Seq<char>) -> Option<Seq<char>> {
    if openalex_results(payload).len() == 0 {
        None
    } else {
        next_cursor(
            string_at(field_of(field_of(Some(payload), "meta"@), "next_cursor"@)),
            cursor,
        )
    }
}

/// The results that a page of a Crossref search lists.
pub open spec fn crossref_results(payload: JsonView) -> Seq<JsonView> {
    items_at(field_of(field_of(Some(payload), "message"@), "items"@))
}

/// Where a Crossref search goes on behind a page.
pub open spec fn crossref_next(payload: JsonView, cursor: Seq<char>) -> Option<Seq<char>> {
    if crossref_results(payload).len() == 0 {
        None
    } else {
        next_cursor(
            string_at(field_of(field_of(Some(payload), "message"@), "next-cursor"@)),
            cursor,
        )
    }
}

/// Takes the results of an OpenAlex search in, up to the limit. The answer is the
/// cursor of the next page, if there is a next page.
pub fn take_openalex_page(
    output: &mut Vec<DiscoveredWork>,
    limit: usize,
    payload: &Json,
    cursor: &str,
    retrieved_at: &str,
) -> (r: Option<String>)
    requires
        old(output)@.len() < limit,
    ensures
        ({
            let results = items_at(field_of(Some(payload@), "results"@));
            &&& views(final(output)@) == views(old(output)@) + openalex_hits(
                missing_items(results, limit as nat, old(output)@.len()),
                retrieved_at@,
            )
            &&& opt_text(r) == (if results.len() == 0 {
                None
            } else {
                next_cursor(
                    string_at(field_of(field_of(Some(payload@), "meta"@), "next_cursor"@)),
                    cursor@,
                )
            })
        }),
        views(final(output)@) == views(old(output)@) + openalex_hits(
            missing_items(openalex_results(payload@), limit as nat, old(output)@.len()),
            retrieved_at@,
        ),
        opt_text(r) == openalex_next(payload@, cursor@),
{
    let ghost start = views(output@);
    let results = field(Some(payload), "results");
    let ghost all = items_at(seen(results));
    let total: usize = count(results);
    let have: usize = output.len();
    let wanted: usize = if total <= limit - have {
        total
    } else {
        limit - have
    };
    let mut i: usize = 0;
    assert(views(output@) =~= start + openalex_hits(all.take(0), retrieved_at@));
    while i < wanted
        invariant
            i <= wanted <= total,
            total == all.len(),
            all == items_at(seen(results)),
            views(output@) == start + openalex_hits(all.take(i as int), retrieved_at@),
        decreases wanted - i,
    {
        let ghost before = views(output@);
        if let Some(value) = item(results, i) {
            let record = openalex_record(value, retrieved_at.to_owned());
            let source_id = match string(field(Some(value), "id")) {
                Some(id) => id,
                None => String::new(),
            };
            let hit = DiscoveredWork {
                record,
                raw_records: one_response(
                    "openalex",
                    source_id,
                    retrieved_at,
                    value.duplicate(),
                ),
            };
            let ghost added = hit@;
            output.push(hit);
            assert(views(output@) =~= before.push(added));
            assert(added == openalex_hit(all[i as int], retrieved_at@));
            assert(before.push(added) =~= start + openalex_hits(all.take(i + 1), retrieved_at@));
        }
        i += 1;
    }
    assert(all.take(wanted as int) =~= missing_items(all, limit as nat, have as nat));
    if total == 0 {
        None
    } else {
        read_cursor(string(field(field(Some(payload), "meta"), "next_cursor")), cursor)
    }
}

/// Takes the results of a Crossref search in, up to the limit. The answer is the
/// cursor of the next page, if there is a next page.
pub fn take_crossref_page(
    output: &mut Vec<DiscoveredWork>,
    limit: usize,
    payload: &Json,
    cursor: &str,
    now_millis: i64,
    retrieved_at: &str,
) -> (r: Option<String>)
    requires
        old(output)@.len() < limit,
    ensures
        ({
            let message = field_of(Some(payload@), "message"@);
            let results = items_at(field_of(message, "items"@));
            &&& views(final(output)@) == views(old(output)@) + crossref_hits(
                missing_items(results, limit as nat, old(output)@.len()),
                now_millis,
                retrieved_at@,
            )
            &&& opt_text(r) == (if results.len() == 0 {
                None
            } else {
                next_cursor(string_at(field_of(message, "next-cursor"@)), cursor@)
            })
        }),
        views(final(output)@) == views(old(output)@) + crossref_hits(
            missing_items(crossref_results(payload@), limit as nat, old(output)@.len()),
            now_millis,
            retrieved_at@,
        ),
        opt_text(r) == crossref_next(payload@, cursor@),
{
    let ghost start = views(output@);
    let message = field(Some(payload), "message");
    let results = field(message, "items");
    let ghost all = items_at(seen(results));
    let total: usize = count(results);
    let have: usize = output.len();
    let wanted: usize = if total <= limit - have {
        total
    } else {
        limit - have
    };
    let mut i: usize = 0;
    assert(views(output@) =~= start + crossref_hits(all.take(0), now_millis, retrieved_at@));
    while i < wanted
        invariant
            i <= wanted <= total,
            total == all.len(),
            all == items_at(seen(results)),
            views(output@) == start + crossref_hits(
                all.take(i as int),
                now_millis,
                retrieved_at@,
            ),
        decreases wanted - i,
    {
        let ghost before = views(output@);
        if let Some(value) = item(results, i) {
            let record = crossref_record(value, now_millis, retrieved_at.to_owned());
            let source_id = read_id_or_identity(&record, "doi");
            let hit = DiscoveredWork {
                record,
                raw_records: one_response(
                    "crossref",
                    source_id,
                    retrieved_at,
                    value.duplicate(),
                ),
            };
            let ghost added = hit@;
            output.push(hit);
            assert(views(output@) =~= before.push(added));
            assert(added == crossref_hit(all[i as int], now_millis, retrieved_at@));
            assert(before.push(added) =~= start + crossref_hits(
                all.take(i + 1),
                now_millis,
                retrieved_at@,
            ));
        }
        i += 1;
    }
    assert(all.take(wanted as int) =~= missing_items(all, limit as nat, have as nat));
    if total == 0 {
        None
    } else {
        read_cursor(string(field(message, "next-cursor")), cursor)
    }
}

/// The OpenAlex key is set, and not the placeholder for one.
pub open spec fn openalex_key_set(key: Seq<char>) -> bool {
    !placeholder_value(key)
}

/// Whether the OpenAlex key is set, and not the placeholder for one.
pub fn openalex_key_is_set(settings: &Settings) -> (r: bool)
    ensures
        r == openalex_key_set(settings@.openalex_api_key),
{
    !placeholder(&settings.openalex_api_key)
}

/// Whether works can be looked up in OpenAlex.
pub fn require_openalex_key(settings: &Settings) -> (r: Result<(), ConfigError>)
    ensures
        r == (if openalex_key_set(settings@.openalex_api_key) {
            Ok::<(), ConfigError>(())
        } else {
            Err(ConfigError::MissingOpenalexKey)
        }),
{
    if !openalex_key_is_set(settings) {
        return Err(ConfigError::MissingOpenalexKey);
    }
    Ok(())
}

/// How the program names itself to a source.
pub open spec fn agent_name(contact_email: Seq<char>) -> Seq<char> {
    "AcademicLiteratureMining/0.1 ("@ + (if contact_email.len() == 0 {
        "no-contact"@
    } else {
        contact_email
    }) + ")"@
}

/// How the program names itself to a source.
pub fn user_agent(contact_email: &str) -> (r: String)
    ensures
        r@ == agent_name(contact_email@),
{
    let mut name = "AcademicLiteratureMining/0.1 (".to_owned();
    if contact_email.is_empty() {
        name.append("no-contact");
    } else {
        name.append(contact_email);
    }
    name.append(")");
    name
}

/// How many characters of a DOI fit in an address.
pub const LONGEST_DOI: usize = 0x1555_5400;

/// The address at which Crossref has the record of a DOI.
pub fn crossref_url(doi: &str) -> (r: Option<String>)
    requires
        doi@.len() <= LONGEST_DOI,
    ensures
        opt_text(r) == url_with_segment("https://api.crossref.org/works/"@, doi@),
{
    proof {
        reveal_strlit("https://api.crossref.org/works/");
    }
    append_path_segment("https://api.crossref.org/works/", doi)
}

/// The address at which OpenAlex has the record of a work, if the text names one.
pub fn openalex_url(openalex_id: &str) -> (r: Option<String>)
    ensures
        opt_text(r) == (match openalex_of(openalex_id@) {
            Some(id) => Some("https://api.openalex.org/works/"@ + id),
            None => None,
        }),
{
    match normalize_openalex(openalex_id) {
        Some(id) => Some(labelled("https://api.openalex.org/works/", &id)),
        None => None,
    }
}

/// What an OpenAlex lookup by DOI asks for.
pub open spec fn doi_request(doi: Seq<char>, api_key: Seq<char>) -> Seq<(Seq<char>, Seq<char>)> {
    seq![("filter"@, "doi:"@ + doi), ("per-page"@, "1"@), ("api_key"@, api_key)]
}

/// What an OpenAlex lookup by DOI asks for.
pub fn openalex_doi_params(doi: &str, api_key: &str) -> (r: Vec<(String, String)>)
    ensures
        pair_views(r@) == seq![
            ("filter"@, "doi:"@ + doi@),
            ("per-page"@, "1"@),
            ("api_key"@, api_key@),
        ],
        pair_views(r@) == doi_request(doi@, api_key@),
{
    let mut params: Vec<(String, String)> = Vec::new();
    push_pair(&mut params, "filter", labelled("doi:", doi));
    push_pair(&mut params, "per-page", "1".to_owned());
    push_pair(&mut params, "api_key", api_key.to_owned());
    assert(pair_views(params@) =~= seq![
        ("filter"@, "doi:"@ + doi@),
        ("per-page"@, "1"@),
        ("api_key"@, api_key@),
    ]);
    params
}

/// The members of objects with one member each.
pub open spec fn single_members(key: Seq<char>, values: Seq<Seq<char>>) -> Seq<JsonView> {
    Seq::new(values.len(), |i: int| JsonView::Object(seq![(key, JsonView::Text(values[i]))]))
}

/// The names of the authors.
pub open spec fn author_names(authors: Seq<ArxivAuthorView>) -> Seq<Seq<char>> {
    Seq::new(authors.len(), |i: int| authors[i].name)
}

/// The text as JSON, or null where there is none.
pub open spec fn text_or_null(value: Option<Seq<char>>) -> JsonView {
    match value {
        Some(text) => JsonView::Text(text),
        None => JsonView::Null,
    }
}

/// An arXiv entry as JSON.
pub open spec fn entry_view(entry: ArxivEntryView) -> JsonView {
    JsonView::Object(
        seq![
            ("id"@, JsonView::Text(entry.id)),
            ("title"@, JsonView::Text(entry.title)),
            ("summary"@, JsonView::Text(entry.summary)),
            ("published"@, JsonView::Text(entry.published)),
            ("author"@, JsonView::List(single_members("name"@, author_names(entry.authors)))),
            (
                "category"@,
                JsonView::List(single_members("@term"@, category_terms(entry.categories))),
            ),
            ("doi"@, text_or_null(entry.doi)),
            ("license"@, text_or_null(entry.license)),
        ],
    )
}

fn single_member(key: &str, value: &str) -> (r: Json)
    ensures
        r@ == JsonView::Object(seq![(key@, JsonView::Text(value@))]),
{
    let mut members: Vec<(String, Json)> = Vec::new();
    insert(&mut members, key, Json::from_text(value));
    assert(member_views(members@) =~= seq![(key@, JsonView::Text(value@))]);
    object(members)
}

fn text_json(value: &Option<String>) -> (r: Json)
    ensures
        r@ == text_or_null(opt_text(*value)),
{
    match value {
        Some(text) => Json::from_text(text),
        None => Json::Null,
    }
}

/// An arXiv entry as JSON.
pub fn entry_json(entry: &ArxivEntry) -> (r: Json)
    ensures
        r@ == entry_view(entry@),
{
    let mut authors: Vec<Json> = Vec::new();
    let mut i: usize = 0;
    while i < entry.authors.len()
        invariant
            i <= entry.authors@.len(),
            authors@.len() == i,
            forall|j: int|
                0 <= j < i ==> (#[trigger] authors@[j])@ == JsonView::Object(
                    seq![("name"@, JsonView::Text(entry.authors@[j].name@))],
                ),
        decreases entry.authors@.len() - i,
    {
        authors.push(single_member("name", &entry.authors[i].name));
        i += 1;
    }
    assert(views(authors@) =~= single_members("name"@, author_names(entry@.authors)));
    let mut categories: Vec<Json> = Vec::new();
    let mut k: usize = 0;
    while k < entry.categories.len()
        invariant
            k <= entry.categories@.len(),
            categories@.len() == k,
            forall|j: int|
                0 <= j < k ==> (#[trigger] categories@[j])@ == JsonView::Object(
                    seq![("@term"@, JsonView::Text(entry.categories@[j].term@))],
                ),
        decreases entry.categories@.len() - k,
    {
        categories.push(single_member("@term", &entry.categories[k].term));
        k += 1;
    }
    assert(views(categories@) =~= single_members("@term"@, category_terms(entry@.categories)));
    let mut members: Vec<(String, Json)> = Vec::new();
    insert(&mut members, "id", Json::from_text(&entry.id));
    insert(&mut members, "title", Json::from_text(&entry.title));
    insert(&mut members, "summary", Json::from_text(&entry.summary));
    insert(&mut members, "published", Json::from_text(&entry.published));
    insert(&mut members, "author", list(authors));
    insert(&mut members, "category", list(categories));
    insert(&mut members, "doi", text_json(&entry.doi));
    insert(&mut members, "license", text_json(&entry.license));
    assert(member_views(members@) =~= entry_view(entry@)->Object_0);
    object(members)
}

/// The work that an arXiv entry with the identifier describes, with the entry.
pub open spec fn arxiv_finding(
    entry: ArxivEntryView,
    arxiv_id: Seq<char>,
    retrieved_at: Seq<char>,
) -> DiscoveredWorkView {
    DiscoveredWorkView {
        record: arxiv_work(entry, arxiv_id, retrieved_at),
        raw_records: response("arxiv"@, arxiv_id, retrieved_at, entry_view(entry)),
    }
}

/// The work that an arXiv entry describes, with the entry, if it names an arXiv
/// identifier.
pub fn arxiv_discovered(entry: &ArxivEntry, retrieved_at: &str) -> (r: Option<DiscoveredWork>)
    ensures
        opt_view(r) == (match arxiv_of(entry@.id) {
            Some(id) => Some(arxiv_finding(entry@, id, retrieved_at@)),
            None => None,
        }),
{
    match arxiv_record(entry, retrieved_at.to_owned()) {
        Some(record) => {
            let source_id = match normalize_arxiv(&entry.id) {
                Some(id) => id,
                None => String::new(),
            };
            Some(
                DiscoveredWork {
                    record,
                    raw_records: one_response("arxiv", source_id, retrieved_at, entry_json(entry)),
                },
            )
        },
        None => None,
    }
}

/// The first entry of a feed that is of the requested work.
pub open spec fn requested_entry(
    id: Seq<char>,
    entries: Seq<ArxivEntryView>,
) -> Option<ArxivEntryView>
    decreases entries.len(),
{
    if entries.len() == 0 {
        None
    } else if arxiv_match(id, entries[0].id) {
        Some(entries[0])
    } else {
        requested_entry(id, entries.skip(1))
    }
}

/// The work that the entry of the requested identifier describes, if the feed has
/// one with an identifier.
pub fn arxiv_lookup(id: &str, entries: &Vec<ArxivEntry>, retrieved_at: &str) -> (r: Option<
    DiscoveredWork,
>)
    ensures
        opt_view(r) == (match requested_entry(id@, views(entries@)) {
            Some(entry) => match arxiv_of(entry.id) {
                Some(found) => Some(arxiv_finding(entry, found, retrieved_at@)),
                None => None,
            },
            None => None,
        }),
{
    let ghost all = views(entries@);
    let mut i: usize = 0;
    assert(all.skip(0) =~= all);
    while i < entries.len()
        invariant
            i <= entries@.len(),
            all == views(entries@),
            requested_entry(id@, all) == requested_entry(id@, all.skip(i as int)),
        decreases entries@.len() - i,
    {
        assert(all.skip(i as int)[0] == entries@[i as int]@);
        assert(all.skip(i as int).skip(1) =~= all.skip(i + 1));
        if arxiv_ids_match(id, &entries[i].id) {
            return arxiv_discovered(&entries[i], retrieved_at);
        }
        i += 1;
    }
    None
}

/// The works with those of an arXiv feed that lie in the publication window, up to
/// the limit; none where an entry names no arXiv identifier.
pub open spec fn with_entries(
    output: Seq<DiscoveredWorkView>,
    entries: Seq<ArxivEntryView>,
    limit: nat,
    plan: ResearchPlanView,
    retrieved_at: Seq<char>,
) -> Option<Seq<DiscoveredWorkView>>
    decreases entries.len(),
{
    if entries.len() == 0 {
        Some(output)
    } else {
        match arxiv_of(entries[0].id) {
            Some(id) => {
                let finding = arxiv_finding(entries[0], id, retrieved_at);
                let next = if year_of(finding.record) matches Some(year) ==> in_window(year, plan) {
                    output.push(finding)
                } else {
                    output
                };
                if next.len() >= limit {
                    Some(next)
                } else {
                    with_entries(next, entries.skip(1), limit, plan, retrieved_at)
                }
            },
            None => None,
        }
    }
}

/// Takes the entries of an arXiv feed in that lie in the publication window, up to
/// the limit. Fails at an entry that names no arXiv identifier.
pub fn take_arxiv_page(
    output: Vec<DiscoveredWork>,
    limit: usize,
    entries: &Vec<ArxivEntry>,
    plan: &ResearchPlan,
    retrieved_at: &str,
) -> (r: Option<Vec<DiscoveredWork>>)
    ensures
        r is Some <==> with_entries(
            views(output@),
            views(entries@),
            limit as nat,
            plan@,
            retrieved_at@,
        ) is Some,
        r matches Some(works) ==> with_entries(
            views(output@),
            views(entries@),
            limit as nat,
            plan@,
            retrieved_at@,
        ) == Some(views(works@)),
{
    let ghost all = views(entries@);
    let ghost wanted = with_entries(
        views(output@),
        all,
        limit as nat,
        plan@,
        retrieved_at@,
    );
    let mut works = output;
    let mut i: usize = 0;
    assert(all.skip(0) =~= all);
    while i < entries.len()
        invariant
            i <= entries@.len(),
            all == views(entries@),
            wanted == with_entries(views(output@), all, limit as nat, plan@, retrieved_at@),
            wanted == with_entries(
                views(works@),
                all.skip(i as int),
                limit as nat,
                plan@,
                retrieved_at@,
            ),
        decreases entries@.len() - i,
    {
        assert(all.skip(i as int)[0] == entries@[i as int]@);
        assert(all.skip(i as int).skip(1) =~= all.skip(i + 1));
        match arxiv_discovered(&entries[i], retrieved_at) {
            Some(finding) => {
                let ghost before = views(works@);
                let ghost added = finding@;
                if in_date_range(&finding.record, plan) {
                    works.push(finding);
                    assert(views(works@) =~= before.push(added));
                }
                if works.len() >= limit {
                    return Some(works);
                }
            },
            None => {
                return None;
            },
        }
        i += 1;
    }
    Some(works)
}

/// How many works one search is asked for.
pub open spec fn share_of(max_candidates: nat, queries: nat, sources: nat) -> nat {
    let per_query = max_candidates / (if queries == 0 {
        1
    } else {
        queries
    });
    let share = per_query / (if sources == 0 {
        1
    } else {
        sources
    });
    let least = if share < 25 {
        25
    } else {
        share
    };
    if least < max_candidates {
        least
    } else {
        max_candidates
    }
}

/// How many works one search is asked for: an even share, at least twenty-five, and
/// never more than all.
pub fn search_share(max_candidates: usize, queries: usize, sources: usize) -> (r: usize)
    ensures
        r == share_of(max_candidates as nat, queries as nat, sources as nat),
{
    let by_query: usize = if queries == 0 {
        1
    } else {
        queries
    };
    let by_source: usize = if sources == 0 {
        1
    } else {
        sources
    };
    let share: usize = max_candidates / by_query / by_source;
    let least: usize = if share < 25 {
        25
    } else {
        share
    };
    if least < max_candidates {
        least
    } else {
        max_candidates
    }
}

/// What to do for one query at one source.
#[derive(Clone, Copy, Debug, PartialEq, Eq, Structural)]
pub enum ShardStep {
    SearchOpenalex,
    SearchCrossref,
    SearchArxiv,
    MissingKey,
    Unsupported,
}

/// What to do for a query at the source.
pub open spec fn step_of(source: Seq<char>, key_set: bool) -> ShardStep {
    if source == "openalex"@ {
        if key_set {
            ShardStep::SearchOpenalex
        } else {
            ShardStep::MissingKey
        }
    } else if source == "crossref"@ {
        ShardStep::SearchCrossref
    } else if source == "arxiv"@ {
        ShardStep::SearchArxiv
    } else {
        ShardStep::Unsupported
    }
}

/// What to do for a query at the source.
pub fn shard_step(source: &str, key_set: bool) -> (r: ShardStep)
    ensures
        r == step_of(source@, key_set),
{
    if same_text(source, "openalex") {
        if key_set {
            ShardStep::SearchOpenalex
        } else {
            ShardStep::MissingKey
        }
    } else if same_text(source, "crossref") {
        ShardStep::SearchCrossref
    } else if same_text(source, "arxiv") {
        ShardStep::SearchArxiv
    } else {
        ShardStep::Unsupported
    }
}

/// What is noted of a search that failed.
pub fn shard_failure(source: &str, query: &str, error: &str) -> (r: String)
    ensures
        r@ == source@ + ":"@ + query@ + ": "@ + error@,
{
    let mut text = labelled(source, ":");
    text.append(query);
    text.append(": ");
    text.append(error);
    text
}

/// The next pair of source and query: the next query of the source, unless it was
/// the last or enough was found; else the first query of the next source.
pub open spec fn shard_after(
    shard: (nat, nat),
    queries: nat,
    failed: bool,
    found: nat,
    max_candidates: nat,
) -> (nat, nat) {
    if shard.1 + 1 >= queries || (!failed && found >= max_candidates * 2) {
        (shard.0 + 1, 0)
    } else {
        (shard.0, shard.1 + 1)
    }
}

/// The indices of the next source and query.
pub fn next_shard(
    source: usize,
    query: usize,
    queries: usize,
    failed: bool,
    found: usize,
    max_candidates: usize,
) -> (r: (usize, usize))
    requires
        source < usize::MAX,
        query < queries,
    ensures
        (r.0 as nat, r.1 as nat) == shard_after(
            (source as nat, query as nat),
            queries as nat,
            failed,
            found as nat,
            max_candidates as nat,
        ),
{
    let enough = found / 2 >= max_candidates;
    if query + 1 >= queries || (!failed && enough) {
        (source + 1, 0)
    } else {
        (source, query + 1)
    }
}

/// What discovery gives: the works that the findings make, or the failures where
/// nothing was found because of them.
pub fn discovery_outcome(found: Vec<DiscoveredWork>, failures: &Vec<String>) -> (r: Result<
    Vec<DiscoveredWork>,
    String,
>)
    ensures
        match r {
            Ok(works) => (found@.len() > 0 || failures@.len() == 0) && views(works@) == findings_of(
                views(found@),
            ).works,
            Err(message) => found@.len() == 0 && failures@.len() > 0 && message@
                == "all discovery shards failed:\n"@ + joined(texts(failures@), "\n"@),
        },
{
    if found.len() == 0 && failures.len() > 0 {
        let mut message = "all discovery shards failed:\n".to_owned();
        message.append(&join(failures, "\n"));
        return Err(message);
    }
    Ok(merge_discovered(found))
}

/// The first of the works, no more than the limit.
pub fn keep_first(works: Vec<DiscoveredWork>, limit: usize) -> (r: Vec<DiscoveredWork>)
    ensures
        r@ == (if works@.len() <= limit {
            works@
        } else {
            works@.take(limit as int)
        }),
{
    let mut kept = works;
    if kept.len() > limit {
        kept.truncate(limit);
    }
    assert(works@.len() > limit ==> kept@ =~= works@.take(limit as int));
    kept
}

/// How Semantic Scholar is asked for a work.
pub open spec fn scholar_name(work: WorkRecordView) -> Seq<char> {
    if work.ids.contains_key("doi"@) {
        "DOI:"@ + work.ids["doi"@]
    } else if work.ids.contains_key("arxiv"@) {
        "ARXIV:"@ + work.ids["arxiv"@]
    } else {
        identity_of(work)
    }
}

/// How Semantic Scholar is asked for the work.
pub fn scholar_id(record: &WorkRecord) -> (r: String)
    ensures
        r@ == scholar_name(record@),
{
    match record.ids.get("doi") {
        Some(doi) => labelled("DOI:", doi),
        None => match record.ids.get("arxiv") {
            Some(arxiv) => labelled("ARXIV:", arxiv),
            None => record.identity(),
        },
    }
}

/// The work with what Semantic Scholar says of it.
pub open spec fn with_scholar(
    work: DiscoveredWorkView,
    value: JsonView,
    retrieved_at: Seq<char>,
) -> DiscoveredWorkView {
    let this = Some(value);
    let cited = number_at(field_of(this, "citationCount"@));
    let paper = field_of(this, "paperId"@);
    let pdf = field_of(this, "openAccessPdf"@);
    let place = FullTextCandidateView {
        url: text_at(field_of(pdf, "url"@)),
        source: "semantic_scholar"@,
        version: Seq::empty(),
        license: text_at(field_of(pdf, "license"@)),
        content_type: "application/pdf"@,
        authorized: true_at(field_of(this, "isOpenAccess"@)),
    };
    DiscoveredWorkView {
        record: WorkRecordView {
            metrics: Metrics {
                cited_by_count: if cited > work.record.metrics.cited_by_count {
                    cited
                } else {
                    work.record.metrics.cited_by_count
                },
                influential_citation_count: number_at(field_of(this, "influentialCitationCount"@)),
                ..work.record.metrics
            },
            ids: match string_at(paper) {
                Some(id) => work.record.ids.insert("semantic_scholar"@, id),
                None => work.record.ids,
            },
            fulltext_candidates: if place.url.len() == 0 {
                work.record.fulltext_candidates
            } else {
                work.record.fulltext_candidates.push(place)
            },
            ..work.record
        },
        raw_records: work.raw_records + response(
            "semantic_scholar"@,
            text_at(paper),
            retrieved_at,
            value,
        ),
    }
}

/// The work with what Semantic Scholar says of it.
pub fn apply_scholar(work: DiscoveredWork, value: Json, retrieved_at: &str) -> (r: DiscoveredWork)
    ensures
        r@ == with_scholar(work@, value@, retrieved_at@),
{
    let ghost before = work@;
    let ghost raw = value@;
    let mut record = work.record;
    let mut raw_records = work.raw_records;
    let this = Some(&value);
    let cited = number_or_zero(field(this, "citationCount"));
    let cited_by_count: u64 = if cited > record.metrics.cited_by_count {
        cited
    } else {
        record.metrics.cited_by_count
    };
    record.metrics = Metrics {
        cited_by_count,
        influential_citation_count: number_or_zero(field(this, "influentialCitationCount")),
        fwci: record.metrics.fwci,
        citation_percentile: record.metrics.citation_percentile,
    };
    let paper = field(this, "paperId");
    if let Some(id) = string(paper) {
        let mut ids: TextMap<String> = TextMap::new();
        std::mem::swap(&mut ids, &mut record.ids);
        ids.insert("semantic_scholar".to_owned(), id);
        record.ids = ids;
    }
    let pdf = field(this, "openAccessPdf");
    let url = text(field(pdf, "url"));
    if !url.as_str().is_empty() {
        let place = FullTextCandidate {
            url,
            source: "semantic_scholar".to_owned(),
            version: String::new(),
            license: text(field(pdf, "license")),
            content_type: "application/pdf".to_owned(),
            authorized: is_true(field(this, "isOpenAccess")),
        };
        let mut places: Vec<FullTextCandidate> = Vec::new();
        std::mem::swap(&mut places, &mut record.fulltext_candidates);
        let ghost known = views(places@);
        let ghost added = place@;
        places.push(place);
        assert(views(places@) =~= known.push(added));
        record.fulltext_candidates = places;
    }
    let source_id = text(paper);
    let ghost head = raw_records@;
    let mut more = one_response("semantic_scholar", source_id, retrieved_at, value);
    let ghost tail = more@;
    raw_records.append(&mut more);
    assert(views(raw_records@) =~= views(head) + views(tail));
    let r = DiscoveredWork { record, raw_records };
    assert(r@ =~= with_scholar(before, raw, retrieved_at@));
    r
}

/// The works with what Semantic Scholar says of those from the offset on, as far as
/// it says something.
pub open spec fn with_batch(
    works: Seq<DiscoveredWorkView>,
    offset: nat,
    payload: Seq<Option<JsonView>>,
    retrieved_at: Seq<char>,
) -> Seq<DiscoveredWorkView> {
    Seq::new(
        works.len(),
        |i: int|
            if offset <= i < offset + payload.len() && payload[i - offset] is Some {
                with_scholar(works[i], payload[i - offset]->0, retrieved_at)
            } else {
                works[i]
            },
    )
}

/// What optional values hold.
pub open spec fn opt_views(values: Seq<Option<Json>>) -> Seq<Option<JsonView>> {
    Seq::new(values.len(), |i: int| opt_view(values[i]))
}

/// Where the batch of a hundred works that begins at an offset ends.
pub open spec fn batch_stop(offset: int, total: int) -> int {
    if total - offset <= 100 {
        total
    } else {
        offset + 100
    }
}

/// Where the batch that begins at the offset ends.
pub fn batch_end(offset: usize, total: usize) -> (r: usize)
    requires
        offset <= total,
    ensures
        r == (if total - offset <= 100 {
            total as int
        } else {
            offset + 100
        }),
        r == batch_stop(offset as int, total as int),
{
    if total - offset <= 100 {
        total
    } else {
        offset + 100
    }
}

/// Adds what Semantic Scholar says of the works from the offset on.
pub fn enrich_batch(
    works: Vec<DiscoveredWork>,
    offset: usize,
    payload: Vec<Option<Json>>,
    retrieved_at: &str,
) -> (r: Vec<DiscoveredWork>)
    requires
        forall|k: int|
            0 <= k < payload@.len() && #[trigger] payload@[k] is Some ==> offset + k < works@.len(),
    ensures
        views(r@) == with_batch(
            views(works@),
            offset as nat,
            opt_views(payload@),
            retrieved_at@,
        ),
{
    let ghost start = views(works@);
    let ghost answers = opt_views(payload@);
    let ghost items = payload@;
    let mut out = works;
    let total: usize = out.len();
    let count: usize = payload.len();
    let mut local: usize = 0;
    for answer in it: payload
        invariant
            it.seq() == items,
            answers == opt_views(items),
            local == it.index(),
            count == items.len(),
            total == start.len(),
            forall|k: int|
                0 <= k < items.len() && #[trigger] items[k] is Some ==> offset + k < start.len(),
            out@.len() == start.len(),
            forall|i: int|
                #![trigger out@[i]]
                0 <= i < start.len() ==> out@[i]@ == (if offset <= i < offset + local
                    && answers[i - offset] is Some {
                    with_scholar(start[i], answers[i - offset]->0, retrieved_at@)
                } else {
                    start[i]
                }),
    {
        let ghost before = out@;
        let ghost at = offset + local;
        assert(answer == items[local as int]);
        if let Some(value) = answer {
            let place: usize = offset + local;
            let work = out.remove(place);
            out.insert(place, apply_scholar(work, value, retrieved_at));
        }
        proof {
            assert forall|i: int| #![trigger out@[i]] 0 <= i < start.len() && i != at implies out@[i]
                == before[i] by {}
            assert(at < start.len() ==> before[at]@ == start[at]);
        }
        local += 1;
    }
    assert(views(out@) =~= with_batch(start, offset as nat, answers, retrieved_at@));
    out
}

proof fn lemma_license_is_open(
    licenses: Seq<JsonView>,
    version: Seq<char>,
    now_millis: i64,
    fallback: Seq<char>,
)
    ensures
        license_among(licenses, version, now_millis, fallback).1 ==> open_license(
            license_among(licenses, version, now_millis, fallback).0,
        ),
    decreases licenses.len(),
{
    if licenses.len() > 0 {
        let url = text_at(field_of(Some(licenses[0]), "URL"@));
        let next = if fallback.len() == 0 {
            url
        } else {
            fallback
        };
        lemma_license_is_open(licenses.skip(1), version, now_millis, fallback);
        lemma_license_is_open(licenses.skip(1), version, now_millis, next);
    }
}

/// A link in a Crossref record alone authorizes nothing: each full text that counts
/// as authorized has an open license or lies in an open repository.
pub proof fn law_crossref_links_need_a_license(
    value: JsonView,
    now_millis: i64,
    retrieved_at: Seq<char>,
    i: int,
)
    requires
        0 <= i < crossref_work(value, now_millis, retrieved_at).fulltext_candidates.len(),
        crossref_work(value, now_millis, retrieved_at).fulltext_candidates[i].authorized,
    ensures
        ({
            let place = crossref_work(value, now_millis, retrieved_at).fulltext_candidates[i];
            open_license(place.license) || in_open_repository(place.url)
        }),
{
    lemma_crossref_places(value, items_at(field_of(Some(value), "link"@)), now_millis, i);
}

proof fn lemma_crossref_places(value: JsonView, links: Seq<JsonView>, now_millis: i64, i: int)
    requires
        0 <= i < crossref_places(value, links, now_millis).len(),
    ensures
        ({
            let place = crossref_places(value, links, now_millis)[i];
            place.authorized ==> open_license(place.license) || in_open_repository(place.url)
        }),
    decreases links.len(),
{
    if links.len() > 0 {
        let rest = crossref_places(value, links.drop_last(), now_millis);
        if i < rest.len() {
            lemma_crossref_places(value, links.drop_last(), now_millis, i);
        } else {
            lemma_license_is_open(
                items_at(field_of(Some(value), "license"@)),
                text_at(field_of(Some(links.last()), "content-version"@)),
                now_millis,
                Seq::empty(),
            );
        }
    }
}

proof fn lemma_openalex_places(locations: Seq<JsonView>, i: int)
    requires
        0 <= i < openalex_places(locations).len(),
        openalex_places(locations)[i].authorized,
    ensures
        ({
            let place = openalex_places(locations)[i];
            ||| open_license(place.license)
            ||| in_open_repository(place.url)
            ||| exists|k: int|
                0 <= k < locations.len() && true_at(
                    field_of(Some(#[trigger] locations[k]), "is_oa"@),
                ) && text_at(field_of(Some(locations[k]), "pdf_url"@)) == place.url
        }),
    decreases locations.len(),
{
    let rest = openalex_places(locations.drop_last());
    let place = openalex_places(locations)[i];
    if i < rest.len() {
        assert(rest[i] == place);
        lemma_openalex_places(locations.drop_last(), i);
        let before = locations.drop_last();
        if !open_license(place.license) && !in_open_repository(place.url) {
            let k = choose|k: int|
                0 <= k < before.len() && true_at(field_of(Some(#[trigger] before[k]), "is_oa"@))
                    && text_at(field_of(Some(before[k]), "pdf_url"@)) == place.url;
            assert(locations[k] == before[k]);
        }
    } else {
        let last = locations[locations.len() - 1];
        assert(last == locations.last());
    }
}

/// A full text of an OpenAlex record counts as authorized only where its license or its
/// repository is open, or where OpenAlex says of its location, or of the work, that it
/// is open access.
pub proof fn law_openalex_fulltext_is_open(value: JsonView, retrieved_at: Seq<char>, i: int)
    requires
        0 <= i < openalex_work(value, retrieved_at).fulltext_candidates.len(),
        openalex_work(value, retrieved_at).fulltext_candidates[i].authorized,
    ensures
        ({
            let place = openalex_work(value, retrieved_at).fulltext_candidates[i];
            let locations = items_at(field_of(Some(value), "locations"@));
            ||| open_license(place.license)
            ||| in_open_repository(place.url)
            ||| true_at(field_of(field_of(Some(value), "open_access"@), "is_oa"@))
            ||| exists|k: int|
                0 <= k < locations.len() && true_at(
                    field_of(Some(#[trigger] locations[k]), "is_oa"@),
                ) && text_at(field_of(Some(locations[k]), "pdf_url"@)) == place.url
        }),
{
    let locations = items_at(field_of(Some(value), "locations"@));
    let places = openalex_places(locations);
    if i < places.len() {
        assert(openalex_fulltext(value)[i] == places[i]);
        lemma_openalex_places(locations, i);
    }
}

} // verus!
