//! Citing works: CSL JSON, BibTeX and RIS, citation keys and their audit.

use crate::adapters::{char_alphabetic, is_char_alphabetic};
use crate::discovery::{arxiv_in, find_arxiv, find_openalex, openalex_in};
use crate::domain::{
    doi_in, find_doi, number_or, year_of, Author, AuthorView, DateParts, DatePartsView, WorkRecord,
    WorkRecordView,
};
use crate::json::{insert, list, member_views, object, unsigned_json, Json, JsonView};
use crate::model::{duplicate_all, views, Duplicate};
use crate::quality::{any_named, has_named_author, note, note_if};
use crate::text::{
    chars_of, copy_texts, decimal, decimal_text, find_first, first_of,
    join, joined, lemma_decimal_value, opt_text, replace, replaced, same_text, text_in, text_of, texts, trim, trimmed,
    words, words_of,
};
use crate::util::{safe_slug, slug};
use vstd::prelude::*;
use vstd::string::StringExecFns;

verus! {

/// A work that lacks something a citation needs.
#[derive(Debug)]
pub struct IncompleteCitation {
    pub work_id: String,
    pub missing_fields: Vec<String>,
}

/// What a `IncompleteCitation` holds.
#[verifier::ext_equal]
pub struct IncompleteCitationView {
    pub work_id: Seq<char>,
    pub missing_fields: Seq<Seq<char>>,
}

impl View for IncompleteCitation {
    type V = IncompleteCitationView;

    open spec fn view(&self) -> IncompleteCitationView {
        IncompleteCitationView {
            work_id: self.work_id@,
            missing_fields: texts(self.missing_fields@),
        }
    }
}

impl Duplicate for IncompleteCitation {
    fn duplicate(&self) -> (r: IncompleteCitation) {
        IncompleteCitation {
            work_id: self.work_id.clone(),
            missing_fields: copy_texts(&self.missing_fields),
        }
    }
}

/// How many works can be cited, and what the others lack.
#[derive(Debug)]
pub struct CitationAudit {
    pub total_records: usize,
    pub complete_records: usize,
    pub incomplete_records: Vec<IncompleteCitation>,
}

/// What a `CitationAudit` holds.
#[verifier::ext_equal]
pub struct CitationAuditView {
    pub total_records: usize,
    pub complete_records: usize,
    pub incomplete_records: Seq<IncompleteCitationView>,
}

impl View for CitationAudit {
    type V = CitationAuditView;

    open spec fn view(&self) -> CitationAuditView {
        CitationAuditView {
            total_records: self.total_records,
            complete_records: self.complete_records,
            incomplete_records: views(self.incomplete_records@),
        }
    }
}

impl Duplicate for CitationAudit {
    fn duplicate(&self) -> (r: CitationAudit) {
        CitationAudit {
            total_records: self.total_records,
            complete_records: self.complete_records,
            incomplete_records: duplicate_all(&self.incomplete_records),
        }
    }
}


/// The type of a work in CSL.
pub open spec fn csl_type_of(value: Seq<char>) -> Seq<char> {
    if value == "paper-conference"@ || value == "chapter"@ || value == "book"@ || value == "thesis"@
        || value == "report"@ || value == "dataset"@ {
        value
    } else if value == "preprint"@ {
        "article"@
    } else {
        "article-journal"@
    }
}

/// The type of a work in CSL.
pub fn csl_type(value: &str) -> (r: &'static str)
    ensures
        r@ == csl_type_of(value@),
{
    if same_text(value, "paper-conference") {
        "paper-conference"
    } else if same_text(value, "chapter") {
        "chapter"
    } else if same_text(value, "book") {
        "book"
    } else if same_text(value, "thesis") {
        "thesis"
    } else if same_text(value, "report") {
        "report"
    } else if same_text(value, "dataset") {
        "dataset"
    } else if same_text(value, "preprint") {
        "article"
    } else {
        "article-journal"
    }
}

/// The member with the text, where there is a text.
pub open spec fn text_member(key: Seq<char>, value: Seq<char>) -> Seq<(Seq<char>, JsonView)> {
    if value.len() == 0 {
        Seq::empty()
    } else {
        seq![(key, JsonView::Text(value))]
    }
}

/// Adds the member with the text, where there is a text.
fn add_text(members: &mut Vec<(String, Json)>, key: &str, value: &str)
    ensures
        member_views(final(members)@) == member_views(old(members)@) + text_member(key@, value@),
{
    let ghost before = member_views(members@);
    if !value.is_empty() {
        insert(members, key, Json::from_text(value));
    }
    assert(member_views(members@) =~= before + text_member(key@, value@));
}

/// An author in CSL: by family and given name, or by the whole name.
pub open spec fn csl_author_of(author: AuthorView) -> JsonView {
    let names = if author.family.len() > 0 || author.given.len() > 0 {
        text_member("family"@, author.family) + text_member("given"@, author.given)
    } else {
        text_member("literal"@, author.literal)
    };
    JsonView::Object(
        names + (match author.orcid {
            Some(orcid) => text_member("ORCID"@, orcid),
            None => Seq::empty(),
        }),
    )
}

/// An author in CSL.
pub fn csl_author(author: &Author) -> (r: Json)
    ensures
        r@ == csl_author_of(author@),
{
    let mut members: Vec<(String, Json)> = Vec::new();
    if !author.family.as_str().is_empty() || !author.given.as_str().is_empty() {
        add_text(&mut members, "family", &author.family);
        add_text(&mut members, "given", &author.given);
    } else {
        add_text(&mut members, "literal", &author.literal);
    }
    if let Some(orcid) = &author.orcid {
        add_text(&mut members, "ORCID", orcid);
    }
    assert(member_views(members@) =~= csl_author_of(author@)->Object_0);
    object(members)
}

/// The numbers as a JSON list.
pub open spec fn number_list(numbers: Seq<u32>) -> JsonView {
    JsonView::List(Seq::new(numbers.len(), |i: int| unsigned_json(numbers[i] as u64)))
}

/// A date in CSL.
pub open spec fn csl_date_of(date: DatePartsView) -> JsonView {
    JsonView::Object(
        seq![
            (
                "date-parts"@,
                JsonView::List(
                    Seq::new(date.date_parts.len(), |i: int| number_list(date.date_parts[i])),
                ),
            ),
        ] + text_member("raw"@, date.raw),
    )
}

fn list_numbers(numbers: &Vec<u32>) -> (r: Json)
    ensures
        r@ == number_list(numbers@),
{
    let mut items: Vec<Json> = Vec::new();
    let mut i: usize = 0;
    while i < numbers.len()
        invariant
            i <= numbers@.len(),
            items@.len() == i,
            forall|j: int| 0 <= j < i ==> (#[trigger] items@[j])@ == unsigned_json(numbers@[j] as u64),
        decreases numbers@.len() - i,
    {
        items.push(Json::from_unsigned(numbers[i] as u64));
        i += 1;
    }
    assert(views(items@) =~= number_list(numbers@)->List_0);
    list(items)
}

/// A date in CSL.
pub fn csl_date(date: &DateParts) -> (r: Json)
    ensures
        r@ == csl_date_of(date@),
{
    let mut parts: Vec<Json> = Vec::new();
    let mut i: usize = 0;
    while i < date.date_parts.len()
        invariant
            i <= date.date_parts@.len(),
            parts@.len() == i,
            forall|j: int| 0 <= j < i ==> (#[trigger] parts@[j])@ == number_list(date.date_parts@[j]@),
        decreases date.date_parts@.len() - i,
    {
        parts.push(list_numbers(&date.date_parts[i]));
        i += 1;
    }
    assert(views(parts@) =~= Seq::new(
        date@.date_parts.len(),
        |i: int| number_list(date@.date_parts[i]),
    ));
    let mut members: Vec<(String, Json)> = Vec::new();
    insert(&mut members, "date-parts", list(parts));
    add_text(&mut members, "raw", &date.raw);
    assert(member_views(members@) =~= csl_date_of(date@)->Object_0);
    object(members)
}

/// The authors in CSL.
pub open spec fn csl_authors(authors: Seq<AuthorView>) -> JsonView {
    JsonView::List(Seq::new(authors.len(), |i: int| csl_author_of(authors[i])))
}

/// The text, or nothing.
pub open spec fn or_empty(value: Option<Seq<char>>) -> Seq<char> {
    match value {
        Some(text) => text,
        None => Seq::empty(),
    }
}

/// The members of the arXiv archive, where the work is in it.
pub open spec fn archive_members(ids: Map<Seq<char>, Seq<char>>) -> Seq<(Seq<char>, JsonView)> {
    if ids.contains_key("arxiv"@) {
        seq![
            ("archive"@, JsonView::Text("arXiv"@)),
            ("archive_location"@, JsonView::Text(ids["arxiv"@])),
        ]
    } else {
        Seq::empty()
    }
}

/// A work in CSL JSON.
pub open spec fn csl_of(work: WorkRecordView, citation_key: Seq<char>) -> JsonView {
    JsonView::Object(
        seq![
            ("id"@, JsonView::Text(citation_key)),
            ("type"@, JsonView::Text(csl_type_of(work.work_type))),
            ("title"@, JsonView::Text(work.title)),
            ("author"@, csl_authors(work.authors)),
            ("issued"@, csl_date_of(work.issued)),
        ] + text_member("container-title"@, work.container_title) + text_member(
            "publisher"@,
            work.publisher,
        ) + text_member("volume"@, work.volume) + text_member("issue"@, work.issue) + text_member(
            "page"@,
            work.page,
        ) + text_member("number"@, work.article_number) + text_member("language"@, work.language)
            + text_member("URL"@, work.url) + (match doi_in(work.ids) {
            Some(doi) => seq![("DOI"@, JsonView::Text(doi))],
            None => Seq::empty(),
        }) + joined_member("ISSN"@, work.issn) + joined_member("ISBN"@, work.isbn) + text_member(
            "abstract"@,
            work.abstract_text,
        ) + joined_member("keyword"@, work.keywords) + archive_members(work.ids),
    )
}

/// The member with the texts in a row, where there are any.
pub open spec fn joined_member(key: Seq<char>, values: Seq<Seq<char>>) -> Seq<
    (Seq<char>, JsonView),
> {
    if values.len() == 0 {
        Seq::empty()
    } else {
        seq![(key, JsonView::Text(joined(values, ", "@)))]
    }
}

fn add_joined(members: &mut Vec<(String, Json)>, key: &str, values: &Vec<String>)
    ensures
        member_views(final(members)@) == member_views(old(members)@) + joined_member(
            key@,
            texts(values@),
        ),
{
    let ghost before = member_views(members@);
    if values.len() > 0 {
        insert(members, key, Json::Text(join(values, ", ")));
    }
    assert(member_views(members@) =~= before + joined_member(key@, texts(values@)));
}

/// A work in CSL JSON.
pub fn csl_json(record: &WorkRecord, citation_key: &str) -> (r: Json)
    ensures
        r@ == csl_of(record@, citation_key@),
{
    let mut authors: Vec<Json> = Vec::new();
    let mut i: usize = 0;
    while i < record.authors.len()
        invariant
            i <= record.authors@.len(),
            authors@.len() == i,
            forall|j: int| 0 <= j < i ==> (#[trigger] authors@[j])@ == csl_author_of(record.authors@[j]@),
        decreases record.authors@.len() - i,
    {
        authors.push(csl_author(&record.authors[i]));
        i += 1;
    }
    assert(views(authors@) =~= csl_authors(record@.authors)->List_0);
    let mut members: Vec<(String, Json)> = Vec::new();
    insert(&mut members, "id", Json::from_text(citation_key));
    insert(&mut members, "type", Json::from_text(csl_type(&record.work_type)));
    insert(&mut members, "title", Json::from_text(&record.title));
    insert(&mut members, "author", list(authors));
    insert(&mut members, "issued", csl_date(&record.issued));
    assert(member_views(members@) =~= seq![
        ("id"@, JsonView::Text(citation_key@)),
        ("type"@, JsonView::Text(csl_type_of(record@.work_type))),
        ("title"@, JsonView::Text(record@.title)),
        ("author"@, csl_authors(record@.authors)),
        ("issued"@, csl_date_of(record@.issued)),
    ]);
    add_text(&mut members, "container-title", &record.container_title);
    add_text(&mut members, "publisher", &record.publisher);
    add_text(&mut members, "volume", &record.volume);
    add_text(&mut members, "issue", &record.issue);
    add_text(&mut members, "page", &record.page);
    add_text(&mut members, "number", &record.article_number);
    add_text(&mut members, "language", &record.language);
    add_text(&mut members, "URL", &record.url);
    let ghost before = member_views(members@);
    if let Some(doi) = find_doi(&record.ids) {
        insert(&mut members, "DOI", Json::Text(doi));
    }
    assert(member_views(members@) =~= before + (match doi_in(record@.ids) {
        Some(doi) => seq![("DOI"@, JsonView::Text(doi))],
        None => Seq::empty(),
    }));
    add_joined(&mut members, "ISSN", &record.issn);
    add_joined(&mut members, "ISBN", &record.isbn);
    add_text(&mut members, "abstract", &record.abstract_text);
    add_joined(&mut members, "keyword", &record.keywords);
    let ghost almost = member_views(members@);
    if let Some(arxiv) = record.ids.get("arxiv") {
        insert(&mut members, "archive", Json::from_text("arXiv"));
        insert(&mut members, "archive_location", Json::from_text(arxiv));
    }
    assert(member_views(members@) =~= almost + archive_members(record@.ids));
    object(members)
}

/// A character as it is written in BibTeX.
pub open spec fn bibtex_char(c: char) -> Seq<char> {
    if c == '\\' {
        "\\textbackslash{}"@
    } else if c == '{' || c == '}' || c == '&' || c == '%' || c == '#' || c == '_' {
        seq!['\\', c]
    } else {
        seq![c]
    }
}

/// A text as it is written in BibTeX.
pub open spec fn bibtex_text(s: Seq<char>) -> Seq<char>
    decreases s.len(),
{
    if s.len() == 0 {
        Seq::empty()
    } else {
        bibtex_text(s.drop_last()) + bibtex_char(s.last())
    }
}

/// A text as it is written in BibTeX.
pub fn bibtex_escape(value: &str) -> (r: String)
    ensures
        r@ == bibtex_text(value@),
{
    let chars = chars_of(value);
    let mut out = String::new();
    let mut i: usize = 0;
    while i < chars.len()
        invariant
            i <= chars@.len(),
            out@ == bibtex_text(chars@.take(i as int)),
        decreases chars@.len() - i,
    {
        assert(chars@.take(i + 1).drop_last() =~= chars@.take(i as int));
        let ghost before = out@;
        let c = chars[i];
        if c == '\\' {
            out.append("\\textbackslash{}");
        } else {
            if c == '{' || c == '}' || c == '&' || c == '%' || c == '#' || c == '_' {
                out.push('\\');
            }
            out.push(c);
        }
        assert(out@ =~= before + bibtex_char(c));
        i += 1;
    }
    assert(chars@.take(chars@.len() as int) =~= chars@);
    out
}

/// The pages from the first to the last, where both are known.
pub open spec fn page_bounds(value: Seq<char>) -> Option<(Seq<char>, Option<Seq<char>>)> {
    let pages = trimmed(value);
    let at = first_of(pages, "-\u{2013}\u{2014}"@) as int;
    if pages.len() == 0 {
        None
    } else if at < pages.len() {
        Some((trimmed(pages.take(at)), Some(trimmed(pages.skip(at + 1)))))
    } else {
        Some((pages, None))
    }
}

/// What a page range holds.
pub open spec fn bounds_view(bounds: Option<(String, Option<String>)>) -> Option<
    (Seq<char>, Option<Seq<char>>),
> {
    match bounds {
        Some((start, end)) => Some((start@, opt_text(end))),
        None => None,
    }
}

/// The first page and, where the text is a range, the last.
pub fn split_page_range(value: &str) -> (r: Option<(String, Option<String>)>)
    ensures
        bounds_view(r) == page_bounds(value@),
{
    let pages = trim(value);
    if pages.as_str().is_empty() {
        return None;
    }
    let chars = chars_of(&pages);
    let at = find_first(&chars, "-\u{2013}\u{2014}");
    if at < chars.len() {
        assert(chars@.subrange(0, at as int) =~= chars@.take(at as int));
        assert(chars@.subrange(at + 1, chars@.len() as int) =~= chars@.skip(at + 1));
        Some(
            (
                trim(&text_of(&chars, 0, at)),
                Some(trim(&text_of(&chars, at + 1, chars.len()))),
            ),
        )
    } else {
        Some((pages, None))
    }
}

/// A letter, in any script.
pub open spec fn letter(c: char) -> bool {
    if c <= '\u{7f}' {
        ('a' <= c && c <= 'z') || ('A' <= c && c <= 'Z')
    } else {
        char_alphabetic(c)
    }
}

/// Some character of the text is a letter.
pub open spec fn has_letter(s: Seq<char>) -> bool {
    exists|i: int| 0 <= i < s.len() && letter(#[trigger] s[i])
}

fn contains_letter(value: &str) -> (r: bool)
    ensures
        r == has_letter(value@),
{
    let chars = chars_of(value);
    let mut i: usize = 0;
    while i < chars.len()
        invariant
            i <= chars@.len(),
            chars@ == value@,
            forall|j: int| 0 <= j < i ==> !letter(#[trigger] chars@[j]),
        decreases chars@.len() - i,
    {
        let c = chars[i];
        let found = if c <= '\u{7f}' {
            ('a' <= c && c <= 'z') || ('A' <= c && c <= 'Z')
        } else {
            is_char_alphabetic(c)
        };
        if found {
            return true;
        }
        i += 1;
    }
    false
}

/// The first of the words that has a letter, or the word `work`.
pub open spec fn key_word(words: Seq<Seq<char>>) -> Seq<char>
    decreases words.len(),
{
    if words.len() == 0 {
        "work"@
    } else if has_letter(words[0]) {
        words[0]
    } else {
        key_word(words.skip(1))
    }
}

fn find_key_word(title: &str) -> (r: String)
    ensures
        r@ == key_word(words_of(title@)),
{
    let parts = words(title);
    let ghost all = texts(parts@);
    let mut i: usize = 0;
    assert(all.skip(0) =~= all);
    while i < parts.len()
        invariant
            i <= parts@.len(),
            all == texts(parts@),
            all == words_of(title@),
            key_word(all) == key_word(all.skip(i as int)),
        decreases parts@.len() - i,
    {
        assert(all.skip(i as int)[0] == parts@[i as int]@);
        assert(all.skip(i as int).skip(1) =~= all.skip(i + 1));
        if contains_letter(&parts[i]) {
            return parts[i].clone();
        }
        i += 1;
    }
    "work".to_owned()
}

/// The name under which the first author is filed.
pub open spec fn key_author(authors: Seq<AuthorView>) -> Seq<char> {
    if authors.len() == 0 {
        "anonymous"@
    } else if authors[0].family.len() == 0 {
        authors[0].literal
    } else {
        authors[0].family
    }
}

/// The citation key of a work where nothing else has it: author, year and the first
/// word of the title.
pub open spec fn key_base(work: WorkRecordView) -> Seq<char> {
    replaced(slug(key_author(work.authors), "anonymous"@), "-"@, Seq::empty()) + number_or(
        year_of(work),
        "nd"@,
    ) + replaced(slug(key_word(words_of(work.title)), "work"@), "-"@, Seq::empty())
}

/// The keys that are tried for a work, one after another: the base, then the base
/// with a number from two on.
pub open spec fn key_candidate(base: Seq<char>, n: nat) -> Seq<char> {
    if n == 0 {
        base
    } else {
        base + decimal(n + 1)
    }
}

/// The first candidate from the given one on that is not used, among as many as are
/// tried; the one behind them where all are.
pub open spec fn free_key(base: Seq<char>, used: Seq<Seq<char>>, n: nat, tries: nat) -> Seq<char>
    decreases tries,
{
    if tries == 0 || !used.contains(key_candidate(base, n)) {
        key_candidate(base, n)
    } else {
        free_key(base, used, n + 1, (tries - 1) as nat)
    }
}

/// The citation key of a work among those already used.
pub open spec fn key_of(work: WorkRecordView, used: Seq<Seq<char>>) -> Seq<char> {
    free_key(key_base(work), used, 0, used.len())
}

/// The candidates differ from one another.
proof fn lemma_candidates_differ(base: Seq<char>, a: nat, b: nat)
    requires
        a != b,
    ensures
        key_candidate(base, a) != key_candidate(base, b),
{
    lemma_decimal_value(a + 1);
    lemma_decimal_value(b + 1);
    let x = key_candidate(base, a);
    let y = key_candidate(base, b);
    if x == y {
        if a == 0 {
            assert(x.len() == base.len());
            assert(y.len() > base.len());
        } else if b == 0 {
            assert(y.len() == base.len());
            assert(x.len() > base.len());
        } else {
            assert(x.skip(base.len() as int) =~= decimal(a + 1));
            assert(y.skip(base.len() as int) =~= decimal(b + 1));
        }
    }
}

/// As many candidates as are all used are no more than what is used.
proof fn lemma_used_candidates(base: Seq<char>, used: Seq<Seq<char>>, n: nat)
    requires
        forall|i: nat| i < n ==> used.contains(#[trigger] key_candidate(base, i)),
    ensures
        n <= used.len(),
{
    let tried = Seq::new(n, |i: int| key_candidate(base, i as nat));
    assert(tried.no_duplicates()) by {
        assert forall|i: int, j: int| 0 <= i < tried.len() && 0 <= j < tried.len() && i
            != j implies tried[i] != tried[j] by {
            lemma_candidates_differ(base, i as nat, j as nat);
        }
    }
    tried.unique_seq_to_set();
    vstd::seq_lib::seq_to_set_is_finite(used);
    vstd::seq_lib::seq_to_set_is_finite(tried);
    assert(tried.to_set().subset_of(used.to_set())) by {
        assert forall|key: Seq<char>| tried.to_set().contains(key) implies used.to_set().contains(
            key,
        ) by {
            let i = choose|i: int| 0 <= i < tried.len() && tried[i] == key;
            assert(key == key_candidate(base, i as nat));
        }
    }
    vstd::set_lib::lemma_len_subset(tried.to_set(), used.to_set());
    used.lemma_cardinality_of_set();
}

proof fn lemma_free_key(base: Seq<char>, used: Seq<Seq<char>>, n: nat, tries: nat)
    requires
        n + tries == used.len(),
        forall|i: nat| i < n ==> used.contains(#[trigger] key_candidate(base, i)),
    ensures
        !used.contains(free_key(base, used, n, tries)),
    decreases tries,
{
    if used.contains(key_candidate(base, n)) {
        assert forall|i: nat| i < n + 1 implies used.contains(#[trigger] key_candidate(base, i)) by {
            if i == n {
                assert(used.contains(key_candidate(base, n)));
            }
        }
        lemma_used_candidates(base, used, n + 1);
        if tries > 0 {
            lemma_free_key(base, used, n + 1, (tries - 1) as nat);
        }
    }
}

/// The citation key of a work is never one that is already used.
pub proof fn law_citation_keys_are_new(work: WorkRecordView, used: Seq<Seq<char>>)
    ensures
        !used.contains(key_of(work, used)),
{
    lemma_free_key(key_base(work), used, 0, used.len());
}

fn base_key(record: &WorkRecord) -> (r: String)
    ensures
        r@ == key_base(record@),
{
    let family = if record.authors.len() == 0 {
        "anonymous".to_owned()
    } else if record.authors[0].family.as_str().is_empty() {
        record.authors[0].literal.clone()
    } else {
        record.authors[0].family.clone()
    };
    proof {
        reveal_strlit("");
        assert(""@ =~= Seq::<char>::empty());
    }
    let mut key = replace(&safe_slug(&family, "anonymous"), "-", "");
    match record.year() {
        Some(year) => key.append(&decimal_text(year as u64)),
        None => key.append("nd"),
    }
    key.append(&replace(&safe_slug(&find_key_word(&record.title), "work"), "-", ""));
    key
}

fn candidate_key(base: &str, n: u64) -> (r: String)
    requires
        n < 0xffff_ffff_ffff_ffff,
    ensures
        r@ == key_candidate(base@, n as nat),
{
    let mut key = base.to_owned();
    if n > 0 {
        key.append(&decimal_text(n + 1));
    }
    key
}

/// A citation key for the work that is not used yet; from now on it is.
pub fn unique_key(record: &WorkRecord, used: &mut Vec<String>) -> (r: String)
    requires
        old(used)@.len() < usize::MAX,
    ensures
        r@ == key_of(record@, texts(old(used)@)),
        texts(final(used)@) == texts(old(used)@).push(r@),
{
    let base = base_key(record);
    let ghost all = texts(used@);
    let total: usize = used.len();
    let mut key = base.clone();
    let mut n: usize = 0;
    while n < total && text_in(&key, used)
        invariant
            n <= total,
            total == all.len(),
            all == texts(used@),
            total < usize::MAX,
            base@ == key_base(record@),
            key@ == key_candidate(base@, n as nat),
            key_of(record@, all) == free_key(base@, all, n as nat, (total - n) as nat),
            forall|i: nat| i < n ==> all.contains(#[trigger] key_candidate(base@, i)),
        decreases total - n,
    {
        proof {
            assert forall|i: nat| i < n + 1 implies all.contains(
                #[trigger] key_candidate(base@, i),
            ) by {
                if i == n {
                    assert(all.contains(key@));
                }
            }
        }
        n += 1;
        key = candidate_key(&base, n as u64);
    }
    used.push(key.clone());
    assert(texts(used@) =~= all.push(key@));
    key
}

/// The type of a work in BibTeX.
pub open spec fn bibtex_type(work_type: Seq<char>) -> Seq<char> {
    if work_type == "paper-conference"@ {
        "inproceedings"@
    } else if work_type == "chapter"@ {
        "incollection"@
    } else if work_type == "book"@ {
        "book"@
    } else if work_type == "thesis"@ {
        "phdthesis"@
    } else if work_type == "report"@ {
        "techreport"@
    } else {
        "article"@
    }
}

/// The venue of the work is a book of several works.
pub open spec fn in_book(work_type: Seq<char>) -> bool {
    work_type == "paper-conference"@ || work_type == "chapter"@
}

/// An author in BibTeX.
pub open spec fn bibtex_author(author: AuthorView) -> Seq<char> {
    if author.family.len() > 0 {
        author.family + ", "@ + author.given
    } else {
        "{"@ + author.literal + "}"@
    }
}

/// The authors in BibTeX.
pub open spec fn bibtex_authors(authors: Seq<AuthorView>) -> Seq<char> {
    joined(Seq::new(authors.len(), |i: int| bibtex_author(authors[i])), " and "@)
}

/// The field with its value, where it has one.
pub open spec fn bibtex_field(name: Seq<char>, value: Seq<char>) -> Seq<Seq<char>> {
    if value.len() == 0 {
        Seq::empty()
    } else {
        seq!["  "@ + name + " = {"@ + bibtex_text(value) + "}"@]
    }
}

/// The text where the condition holds.
pub open spec fn text_if(condition: bool, value: Seq<char>) -> Seq<char> {
    if condition {
        value
    } else {
        Seq::empty()
    }
}

/// The value under the key, or nothing.
pub open spec fn id_or_empty(ids: Map<Seq<char>, Seq<char>>, key: Seq<char>) -> Seq<char> {
    if ids.contains_key(key) {
        ids[key]
    } else {
        Seq::empty()
    }
}

/// The fields of a work in BibTeX, by name.
pub open spec fn bibtex_fields(work: WorkRecordView) -> Seq<Seq<char>> {
    bibtex_field("abstract"@, work.abstract_text) + bibtex_field(
        "archiveprefix"@,
        text_if(work.ids.contains_key("arxiv"@), "arXiv"@),
    ) + bibtex_field("author"@, bibtex_authors(work.authors)) + bibtex_field(
        "booktitle"@,
        text_if(in_book(work.work_type), work.container_title),
    ) + bibtex_field("doi"@, or_empty(doi_in(work.ids))) + bibtex_field("eid"@, work.article_number)
        + bibtex_field("eprint"@, id_or_empty(work.ids, "arxiv"@)) + bibtex_field(
        "isbn"@,
        joined(work.isbn, ", "@),
    ) + bibtex_field("issn"@, joined(work.issn, ", "@)) + bibtex_field(
        "journal"@,
        text_if(!in_book(work.work_type), work.container_title),
    ) + bibtex_field("keywords"@, joined(work.keywords, ", "@)) + bibtex_field(
        "language"@,
        work.language,
    ) + bibtex_field("number"@, work.issue) + bibtex_field("pages"@, work.page) + bibtex_field(
        "publisher"@,
        work.publisher,
    ) + bibtex_field("title"@, work.title) + bibtex_field("url"@, work.url) + bibtex_field(
        "volume"@,
        work.volume,
    ) + bibtex_field("year"@, number_or(year_of(work), Seq::empty()))
}

/// A work in BibTeX.
pub open spec fn bibtex_of(work: WorkRecordView, key: Seq<char>) -> Seq<char> {
    "@"@ + bibtex_type(work.work_type) + "{"@ + key + ",\n"@ + joined(bibtex_fields(work), ",\n"@)
        + "\n}\n"@
}

fn add_field(fields: &mut Vec<String>, name: &str, value: &str)
    ensures
        texts(final(fields)@) == texts(old(fields)@) + bibtex_field(name@, value@),
{
    let ghost before = texts(fields@);
    if !value.is_empty() {
        let mut line = "  ".to_owned();
        line.append(name);
        line.append(" = {");
        line.append(&bibtex_escape(value));
        line.append("}");
        let ghost added = line@;
        fields.push(line);
        assert(texts(fields@) =~= before + seq![added]);
    }
    assert(texts(fields@) =~= before + bibtex_field(name@, value@));
}

fn write_authors(authors: &Vec<Author>) -> (r: String)
    ensures
        r@ == bibtex_authors(views(authors@)),
{
    let mut names: Vec<String> = Vec::new();
    let mut i: usize = 0;
    while i < authors.len()
        invariant
            i <= authors@.len(),
            names@.len() == i,
            forall|j: int| 0 <= j < i ==> (#[trigger] names@[j])@ == bibtex_author(authors@[j]@),
        decreases authors@.len() - i,
    {
        let name = if !authors[i].family.as_str().is_empty() {
            let mut name = authors[i].family.clone();
            name.append(", ");
            name.append(&authors[i].given);
            name
        } else {
            let mut name = "{".to_owned();
            name.append(&authors[i].literal);
            name.append("}");
            name
        };
        names.push(name);
        i += 1;
    }
    let ghost all = views(authors@);
    assert(texts(names@) =~= Seq::new(all.len(), |i: int| bibtex_author(all[i])));
    join(&names, " and ")
}

fn write_type(work_type: &str) -> (r: &'static str)
    ensures
        r@ == bibtex_type(work_type@),
{
    if same_text(work_type, "paper-conference") {
        "inproceedings"
    } else if same_text(work_type, "chapter") {
        "incollection"
    } else if same_text(work_type, "book") {
        "book"
    } else if same_text(work_type, "thesis") {
        "phdthesis"
    } else if same_text(work_type, "report") {
        "techreport"
    } else {
        "article"
    }
}

fn collect_fields(record: &WorkRecord) -> (r: Vec<String>)
    ensures
        texts(r@) == bibtex_fields(record@),
{
    let ghost work = record@;
    proof {
        reveal_strlit("");
        assert(""@ =~= Seq::<char>::empty());
    }
    let mut fields: Vec<String> = Vec::new();
    assert(texts(fields@) =~= Seq::<Seq<char>>::empty());
    add_field(&mut fields, "abstract", &record.abstract_text);
    assert(texts(fields@) =~= bibtex_field("abstract"@, work.abstract_text));
    let (prefix, arxiv) = match record.ids.get("arxiv") {
        Some(arxiv) => ("arXiv", arxiv.clone()),
        None => ("", String::new()),
    };
    add_field(&mut fields, "archiveprefix", prefix);
    add_field(&mut fields, "author", &write_authors(&record.authors));
    let book = same_text(&record.work_type, "paper-conference") || same_text(
        &record.work_type,
        "chapter",
    );
    let (booktitle, journal) = if book {
        (record.container_title.clone(), String::new())
    } else {
        (String::new(), record.container_title.clone())
    };
    add_field(&mut fields, "booktitle", &booktitle);
    let doi = match find_doi(&record.ids) {
        Some(doi) => doi,
        None => String::new(),
    };
    add_field(&mut fields, "doi", &doi);
    add_field(&mut fields, "eid", &record.article_number);
    add_field(&mut fields, "eprint", &arxiv);
    add_field(&mut fields, "isbn", &join(&record.isbn, ", "));
    add_field(&mut fields, "issn", &join(&record.issn, ", "));
    add_field(&mut fields, "journal", &journal);
    add_field(&mut fields, "keywords", &join(&record.keywords, ", "));
    add_field(&mut fields, "language", &record.language);
    add_field(&mut fields, "number", &record.issue);
    add_field(&mut fields, "pages", &record.page);
    add_field(&mut fields, "publisher", &record.publisher);
    add_field(&mut fields, "title", &record.title);
    add_field(&mut fields, "url", &record.url);
    add_field(&mut fields, "volume", &record.volume);
    let year = match record.year() {
        Some(year) => decimal_text(year as u64),
        None => String::new(),
    };
    add_field(&mut fields, "year", &year);
    fields
}

/// A work in BibTeX.
pub fn bibtex_entry(record: &WorkRecord, key: &str) -> (r: String)
    ensures
        r@ == bibtex_of(record@, key@),
{
    let fields = collect_fields(record);
    let mut out = "@".to_owned();
    out.append(write_type(&record.work_type));
    out.append("{");
    out.append(key);
    out.append(",\n");
    out.append(&join(&fields, ",\n"));
    out.append("\n}\n");
    out
}

/// The type of a work in RIS.
pub open spec fn ris_type(work_type: Seq<char>) -> Seq<char> {
    if work_type == "paper-conference"@ {
        "CPAPER"@
    } else if work_type == "book"@ {
        "BOOK"@
    } else if work_type == "chapter"@ {
        "CHAP"@
    } else if work_type == "thesis"@ {
        "THES"@
    } else if work_type == "report"@ {
        "RPRT"@
    } else {
        "JOUR"@
    }
}

/// A line of RIS.
pub open spec fn ris_line(tag: Seq<char>, value: Seq<char>) -> Seq<char> {
    tag + "  - "@ + value
}

/// The line, where there is a value.
pub open spec fn ris_lines(tag: Seq<char>, value: Option<Seq<char>>) -> Seq<Seq<char>> {
    match value {
        Some(text) => seq![ris_line(tag, text)],
        None => Seq::empty(),
    }
}

/// The text, where it is not empty.
pub open spec fn filled_text(value: Seq<char>) -> Option<Seq<char>> {
    if value.len() == 0 {
        None
    } else {
        Some(value)
    }
}

/// A line for each of the values.
pub open spec fn each_line(tag: Seq<char>, values: Seq<Seq<char>>) -> Seq<Seq<char>> {
    Seq::new(values.len(), |i: int| ris_line(tag, values[i]))
}

/// An author in RIS.
pub open spec fn ris_author(author: AuthorView) -> Seq<char> {
    if author.family.len() == 0 {
        author.literal
    } else {
        author.family + ", "@ + author.given
    }
}

/// The authors in RIS.
pub open spec fn ris_authors(authors: Seq<AuthorView>) -> Seq<Seq<char>> {
    Seq::new(authors.len(), |i: int| ris_author(authors[i]))
}

/// The year in decimal, where it is known.
pub open spec fn year_text(work: WorkRecordView) -> Option<Seq<char>> {
    match year_of(work) {
        Some(year) => Some(decimal(year as nat)),
        None => None,
    }
}

/// The first page, where pages are known.
pub open spec fn first_page(page: Seq<char>) -> Option<Seq<char>> {
    match page_bounds(page) {
        Some((start, _)) => Some(start),
        None => None,
    }
}

/// The last page, where a range is known.
pub open spec fn last_page(page: Seq<char>) -> Option<Seq<char>> {
    match page_bounds(page) {
        Some((_, end)) => end,
        None => None,
    }
}

/// The accession of a work that is in the arXiv archive.
pub open spec fn accession(ids: Map<Seq<char>, Seq<char>>) -> Option<Seq<char>> {
    if ids.contains_key("arxiv"@) {
        Some("arXiv:"@ + ids["arxiv"@])
    } else {
        None
    }
}

/// A work in RIS, line by line.
pub open spec fn ris_of(work: WorkRecordView) -> Seq<Seq<char>> {
    seq![ris_line("TY"@, ris_type(work.work_type)), ris_line("TI"@, work.title)] + each_line(
        "AU"@,
        ris_authors(work.authors),
    ) + ris_lines("PY"@, year_text(work)) + ris_lines("JO"@, filled_text(work.container_title))
        + ris_lines("VL"@, filled_text(work.volume)) + ris_lines("IS"@, filled_text(work.issue))
        + ris_lines("PB"@, filled_text(work.publisher)) + ris_lines("UR"@, filled_text(work.url))
        + ris_lines("LA"@, filled_text(work.language)) + ris_lines(
        "AB"@,
        filled_text(work.abstract_text),
    ) + ris_lines("M3"@, filled_text(work.article_number)) + ris_lines(
        "SP"@,
        first_page(work.page),
    ) + ris_lines("EP"@, last_page(work.page)) + each_line("SN"@, work.issn) + each_line(
        "SN"@,
        work.isbn,
    ) + each_line("KW"@, work.keywords) + ris_lines("DO"@, doi_in(work.ids)) + ris_lines(
        "AN"@,
        accession(work.ids),
    ) + seq![ris_line("ER"@, Seq::empty())]
}

fn write_line(tag: &str, value: &str) -> (r: String)
    ensures
        r@ == ris_line(tag@, value@),
{
    let mut line = tag.to_owned();
    line.append("  - ");
    line.append(value);
    line
}

fn add_line(lines: &mut Vec<String>, tag: &str, value: &Option<String>)
    ensures
        texts(final(lines)@) == texts(old(lines)@) + ris_lines(tag@, opt_text(*value)),
{
    let ghost before = texts(lines@);
    if let Some(text) = value {
        let line = write_line(tag, text);
        let ghost added = line@;
        lines.push(line);
        assert(texts(lines@) =~= before + seq![added]);
    }
    assert(texts(lines@) =~= before + ris_lines(tag@, opt_text(*value)));
}

fn add_filled(lines: &mut Vec<String>, tag: &str, value: &str)
    ensures
        texts(final(lines)@) == texts(old(lines)@) + ris_lines(tag@, filled_text(value@)),
{
    if value.is_empty() {
        add_line(lines, tag, &None);
    } else {
        add_line(lines, tag, &Some(value.to_owned()));
    }
}

fn add_each(lines: &mut Vec<String>, tag: &str, values: &Vec<String>)
    ensures
        texts(final(lines)@) == texts(old(lines)@) + each_line(tag@, texts(values@)),
{
    let ghost start = texts(lines@);
    let ghost all = texts(values@);
    let mut i: usize = 0;
    assert(texts(lines@) =~= start + each_line(tag@, all.take(0)));
    while i < values.len()
        invariant
            i <= values@.len(),
            all == texts(values@),
            texts(lines@) == start + each_line(tag@, all.take(i as int)),
        decreases values@.len() - i,
    {
        let ghost before = texts(lines@);
        let line = write_line(tag, &values[i]);
        let ghost added = line@;
        lines.push(line);
        assert(texts(lines@) =~= before.push(added));
        assert(before.push(added) =~= start + each_line(tag@, all.take(i + 1)));
        i += 1;
    }
    assert(all.take(all.len() as int) =~= all);
}

fn list_authors(authors: &Vec<Author>) -> (r: Vec<String>)
    ensures
        texts(r@) == ris_authors(views(authors@)),
{
    let mut names: Vec<String> = Vec::new();
    let mut i: usize = 0;
    while i < authors.len()
        invariant
            i <= authors@.len(),
            names@.len() == i,
            forall|j: int| 0 <= j < i ==> (#[trigger] names@[j])@ == ris_author(authors@[j]@),
        decreases authors@.len() - i,
    {
        let name = if authors[i].family.as_str().is_empty() {
            authors[i].literal.clone()
        } else {
            let mut name = authors[i].family.clone();
            name.append(", ");
            name.append(&authors[i].given);
            name
        };
        names.push(name);
        i += 1;
    }
    assert(texts(names@) =~= ris_authors(views(authors@)));
    names
}

fn write_ris_type(work_type: &str) -> (r: &'static str)
    ensures
        r@ == ris_type(work_type@),
{
    if same_text(work_type, "paper-conference") {
        "CPAPER"
    } else if same_text(work_type, "book") {
        "BOOK"
    } else if same_text(work_type, "chapter") {
        "CHAP"
    } else if same_text(work_type, "thesis") {
        "THES"
    } else if same_text(work_type, "report") {
        "RPRT"
    } else {
        "JOUR"
    }
}

/// A work in RIS.
pub fn ris_entry(record: &WorkRecord) -> (r: String)
    ensures
        r@ == joined(ris_of(record@), "\n"@),
{
    let ghost work = record@;
    let mut lines: Vec<String> = Vec::new();
    lines.push(write_line("TY", write_ris_type(&record.work_type)));
    lines.push(write_line("TI", &record.title));
    assert(texts(lines@) =~= seq![
        ris_line("TY"@, ris_type(work.work_type)),
        ris_line("TI"@, work.title),
    ]);
    add_each(&mut lines, "AU", &list_authors(&record.authors));
    let year = match record.year() {
        Some(year) => Some(decimal_text(year as u64)),
        None => None,
    };
    add_line(&mut lines, "PY", &year);
    add_filled(&mut lines, "JO", &record.container_title);
    add_filled(&mut lines, "VL", &record.volume);
    add_filled(&mut lines, "IS", &record.issue);
    add_filled(&mut lines, "PB", &record.publisher);
    add_filled(&mut lines, "UR", &record.url);
    add_filled(&mut lines, "LA", &record.language);
    add_filled(&mut lines, "AB", &record.abstract_text);
    add_filled(&mut lines, "M3", &record.article_number);
    let (start, end) = match split_page_range(&record.page) {
        Some((start, end)) => (Some(start), end),
        None => (None, None),
    };
    add_line(&mut lines, "SP", &start);
    add_line(&mut lines, "EP", &end);
    add_each(&mut lines, "SN", &record.issn);
    add_each(&mut lines, "SN", &record.isbn);
    add_each(&mut lines, "KW", &record.keywords);
    add_line(&mut lines, "DO", &find_doi(&record.ids));
    let archive = match record.ids.get("arxiv") {
        Some(arxiv) => {
            let mut text = "arXiv:".to_owned();
            text.append(arxiv);
            Some(text)
        },
        None => None,
    };
    add_line(&mut lines, "AN", &archive);
    let ghost before = texts(lines@);
    proof {
        reveal_strlit("");
        assert(""@ =~= Seq::<char>::empty());
    }
    let last = write_line("ER", "");
    let ghost added = last@;
    lines.push(last);
    assert(texts(lines@) =~= before + seq![added]);
    join(&lines, "\n")
}

/// The citation keys of works, one after another.
pub open spec fn keys_of(works: Seq<(Seq<char>, WorkRecordView)>) -> Seq<Seq<char>>
    decreases works.len(),
{
    if works.len() == 0 {
        Seq::empty()
    } else {
        let used = keys_of(works.drop_last());
        used.push(key_of(works.last().1, used))
    }
}

/// The works of a library in CSL JSON.
pub open spec fn library_csl(
    works: Seq<(Seq<char>, WorkRecordView)>,
    keys: Seq<Seq<char>>,
) -> Seq<JsonView> {
    Seq::new(works.len(), |i: int| csl_of(works[i].1, keys[i]))
}

/// The works of a library in BibTeX.
pub open spec fn library_bibtex(
    works: Seq<(Seq<char>, WorkRecordView)>,
    keys: Seq<Seq<char>>,
) -> Seq<char>
    decreases works.len(),
{
    if works.len() == 0 {
        Seq::empty()
    } else {
        let n = works.len() - 1;
        library_bibtex(works.drop_last(), keys) + bibtex_of(works[n].1, keys[n]) + "\n"@
    }
}

/// The works of a library in RIS.
pub open spec fn library_ris(works: Seq<(Seq<char>, WorkRecordView)>) -> Seq<char>
    decreases works.len(),
{
    if works.len() == 0 {
        Seq::empty()
    } else {
        library_ris(works.drop_last()) + joined(ris_of(works.last().1), "\n"@) + "\n"@
    }
}

/// A library as it is exported.
#[derive(Debug)]
pub struct Library {
    /// The citation key of each work.
    pub keys: Vec<String>,
    /// The works in CSL JSON.
    pub csl: Vec<Json>,
    /// The works in BibTeX.
    pub bibtex: String,
    /// The works in RIS.
    pub ris: String,
}

/// The works with their citation keys, in every form that is exported.
pub fn export_library(works: &Vec<(String, WorkRecord)>) -> (r: Library)
    ensures
        texts(r.keys@) == keys_of(views(works@)),
        views(r.csl@) == library_csl(views(works@), keys_of(views(works@))),
        r.bibtex@ == library_bibtex(views(works@), keys_of(views(works@))),
        r.ris@ == library_ris(views(works@)),
{
    let ghost all = views(works@);
    let total: usize = works.len();
    let mut keys: Vec<String> = Vec::new();
    let mut csl: Vec<Json> = Vec::new();
    let mut bibtex = String::new();
    let mut ris = String::new();
    let mut i: usize = 0;
    assert(texts(keys@) =~= keys_of(all.take(0)));
    while i < total
        invariant
            i <= total,
            total == works@.len(),
            all == views(works@),
            texts(keys@) == keys_of(all.take(i as int)),
            keys@.len() == i,
            csl@.len() == i,
            forall|j: int|
                0 <= j < i ==> (#[trigger] csl@[j])@ == csl_of(all[j].1, keys@[j]@),
            bibtex@ == library_bibtex(all.take(i as int), texts(keys@)),
            ris@ == library_ris(all.take(i as int)),
        decreases total - i,
    {
        assert(all.take(i + 1).drop_last() =~= all.take(i as int));
        assert(all.take(i + 1).last() == all[i as int]);
        let ghost before = texts(keys@);
        let key = unique_key(&works[i].1, &mut keys);
        proof {
            lemma_more_keys(all.take(i as int), before, texts(keys@));
            assert(texts(keys@) == keys_of(all.take(i + 1)));
            assert forall|j: int| 0 <= j < i implies keys@[j]@ == before[j] by {
                assert(texts(keys@)[j] == before.push(key@)[j]);
            }
            assert forall|j: int| 0 <= j < i implies (#[trigger] csl@[j])@ == csl_of(
                all[j].1,
                keys@[j]@,
            ) by {
                assert(keys@[j]@ == before[j]);
            }
            assert(texts(keys@)[i as int] == key@);
        }
        csl.push(csl_json(&works[i].1, &key));
        bibtex.append(&bibtex_entry(&works[i].1, &key));
        bibtex.append("\n");
        ris.append(&ris_entry(&works[i].1));
        ris.append("\n");
        i += 1;
    }
    assert(all.take(all.len() as int) =~= all);
    assert(views(csl@) =~= library_csl(all, texts(keys@)));
    Library { keys, csl, bibtex, ris }
}

/// Keys that are added behind leave what was written before as it is.
proof fn lemma_more_keys(
    works: Seq<(Seq<char>, WorkRecordView)>,
    keys: Seq<Seq<char>>,
    more: Seq<Seq<char>>,
)
    requires
        works.len() <= keys.len() <= more.len(),
        forall|i: int| 0 <= i < keys.len() ==> #[trigger] more[i] == keys[i],
    ensures
        library_bibtex(works, more) == library_bibtex(works, keys),
    decreases works.len(),
{
    if works.len() > 0 {
        lemma_more_keys(works.drop_last(), keys, more);
        assert(more[works.len() - 1] == keys[works.len() - 1]);
    }
}

/// No two works of a library have the same citation key.
pub proof fn law_citation_keys_differ(works: Seq<(Seq<char>, WorkRecordView)>)
    ensures
        keys_of(works).len() == works.len(),
        keys_of(works).no_duplicates(),
    decreases works.len(),
{
    if works.len() > 0 {
        let used = keys_of(works.drop_last());
        law_citation_keys_differ(works.drop_last());
        law_citation_keys_are_new(works.last().1, used);
        let keys = keys_of(works);
        assert forall|i: int, j: int| 0 <= i < keys.len() && 0 <= j < keys.len() && i
            != j implies keys[i] != keys[j] by {
            if i < used.len() && j < used.len() {
                assert(used[i] != used[j]);
            } else if i < used.len() {
                assert(used.contains(used[i]));
            } else {
                assert(used.contains(used[j]));
            }
        }
    }
}

/// What a citation of the work would lack.
pub open spec fn missing_of(work: WorkRecordView) -> Seq<Seq<char>> {
    note_if(work.title.len() == 0, "title"@) + note_if(!any_named(work.authors), "author"@)
        + note_if(year_of(work) is None, "issued"@) + note_if(
        work.work_type == "article-journal"@ && work.container_title.len() == 0,
        "container-title"@,
    ) + note_if(
        doi_in(work.ids) is None && arxiv_in(work.ids) is None && openalex_in(work.ids) is None,
        "persistent-identifier"@,
    )
}

/// The works that lack something, with what they lack.
pub open spec fn incomplete_of(works: Seq<(Seq<char>, WorkRecordView)>) -> Seq<
    IncompleteCitationView,
>
    decreases works.len(),
{
    if works.len() == 0 {
        Seq::empty()
    } else {
        let rest = incomplete_of(works.drop_last());
        let missing = missing_of(works.last().1);
        if missing.len() == 0 {
            rest
        } else {
            rest.push(
                IncompleteCitationView { work_id: works.last().0, missing_fields: missing },
            )
        }
    }
}

/// How many works can be cited, and what the others lack.
pub open spec fn audit_of(works: Seq<(Seq<char>, WorkRecordView)>) -> CitationAuditView {
    CitationAuditView {
        total_records: works.len() as usize,
        complete_records: (works.len() - incomplete_of(works).len()) as usize,
        incomplete_records: incomplete_of(works),
    }
}

fn find_missing(record: &WorkRecord) -> (r: Vec<String>)
    ensures
        texts(r@) == missing_of(record@),
{
    let ghost work = record@;
    let mut missing: Vec<String> = Vec::new();
    assert(texts(missing@) =~= Seq::<Seq<char>>::empty());
    note(&mut missing, record.title.as_str().is_empty(), "title");
    assert(texts(missing@) =~= note_if(work.title.len() == 0, "title"@));
    note(&mut missing, !has_named_author(&record.authors), "author");
    note(&mut missing, record.year().is_none(), "issued");
    note(
        &mut missing,
        same_text(&record.work_type, "article-journal")
            && record.container_title.as_str().is_empty(),
        "container-title",
    );
    note(
        &mut missing,
        find_doi(&record.ids).is_none() && find_arxiv(&record.ids).is_none() && find_openalex(
            &record.ids,
        ).is_none(),
        "persistent-identifier",
    );
    missing
}

/// How many works can be cited, and what the others lack.
pub fn audit(works: &Vec<(String, WorkRecord)>) -> (r: CitationAudit)
    ensures
        r@ == audit_of(views(works@)),
{
    let ghost all = views(works@);
    let total: usize = works.len();
    let mut incomplete: Vec<IncompleteCitation> = Vec::new();
    let mut i: usize = 0;
    assert(views(incomplete@) =~= incomplete_of(all.take(0)));
    while i < total
        invariant
            i <= total,
            total == works@.len(),
            all == views(works@),
            views(incomplete@) == incomplete_of(all.take(i as int)),
            incomplete@.len() <= i,
        decreases total - i,
    {
        assert(all.take(i + 1).drop_last() =~= all.take(i as int));
        assert(all.take(i + 1).last() == all[i as int]);
        let ghost before = views(incomplete@);
        let missing = find_missing(&works[i].1);
        if missing.len() > 0 {
            let entry = IncompleteCitation {
                work_id: works[i].0.clone(),
                missing_fields: missing,
            };
            let ghost added = entry@;
            incomplete.push(entry);
            assert(views(incomplete@) =~= before.push(added));
        }
        i += 1;
    }
    assert(all.take(all.len() as int) =~= all);
    CitationAudit {
        total_records: total,
        complete_records: total - incomplete.len(),
        incomplete_records: incomplete,
    }
}

/// Every work counts once in an audit: as complete, or among those that lack
/// something.
pub proof fn law_audits_count_every_work(works: Seq<(Seq<char>, WorkRecordView)>)
    requires
        works.len() <= usize::MAX,
    ensures
        audit_of(works).total_records == works.len(),
        audit_of(works).complete_records + audit_of(works).incomplete_records.len()
            == works.len(),
{
    lemma_incomplete_len(works);
}

proof fn lemma_incomplete_len(works: Seq<(Seq<char>, WorkRecordView)>)
    ensures
        incomplete_of(works).len() <= works.len(),
    decreases works.len(),
{
    if works.len() > 0 {
        lemma_incomplete_len(works.drop_last());
    }
}

} // verus!
