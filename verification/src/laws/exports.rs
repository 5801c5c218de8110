//! What the exported forms of a citation hold: each datum of a work once and in its own
//! place, in BibTeX, in CSL JSON and in RIS.

use crate::citations::{
    archive_members, bibtex_authors, bibtex_char, bibtex_field, bibtex_fields, bibtex_of,
    bibtex_text, csl_author_of, csl_authors, csl_date_of, csl_of, csl_type_of, each_line,
    filled_text, first_page, free_key, has_letter, id_or_empty, in_book, incomplete_of,
    joined_member, key_base, key_of, key_word, last_page, library_bibtex, library_csl, library_ris,
    missing_of, or_empty, ris_authors, ris_line, ris_lines, ris_of, text_if, text_member, year_text,
    IncompleteCitationView,
};
use crate::discovery::{arxiv_in, openalex_in};
use crate::domain::{doi_in, number_or, year_of, AuthorView, DatePartsView, WorkRecordView};
use crate::json::{lemma_member_at, lemma_member_of_both, member_in, unsigned_json, JsonView};
use crate::laws::screening::lemma_then_noted;
use crate::quality::{any_named, note_if};
use crate::text::{begins_with, decimal, first_of, joined, replaced, trimmed, words_of};
use crate::util::slug;
use vstd::prelude::*;

verus! {

/// The lines that begin with the text, in order.
pub open spec fn lines_with(lines: Seq<Seq<char>>, start: Seq<char>) -> Seq<Seq<char>>
    decreases lines.len(),
{
    if lines.len() == 0 {
        Seq::empty()
    } else {
        let rest = lines_with(lines.drop_last(), start);
        if begins_with(lines.last(), start) {
            rest.push(lines.last())
        } else {
            rest
        }
    }
}

proof fn lemma_lines_of_both(a: Seq<Seq<char>>, b: Seq<Seq<char>>, start: Seq<char>)
    ensures
        lines_with(a + b, start) == lines_with(a, start) + lines_with(b, start),
    decreases b.len(),
{
    if b.len() == 0 {
        assert(a + b =~= a);
        assert(lines_with(a, start) + lines_with(b, start) =~= lines_with(a, start));
    } else {
        lemma_lines_of_both(a, b.drop_last(), start);
        assert((a + b).drop_last() =~= a + b.drop_last());
        assert((a + b).last() == b.last());
        assert(lines_with(a + b, start) =~= lines_with(a, start) + lines_with(b, start));
    }
}

/// The text has no space.
pub open spec fn one_word(name: Seq<char>) -> bool {
    forall|i: int| 0 <= i < name.len() ==> #[trigger] name[i] != ' '
}

/// What the line of a BibTeX field begins with.
pub open spec fn field_start(name: Seq<char>) -> Seq<char> {
    "  "@ + name + " = {"@
}

/// The lines of a field are found by its own name alone.
proof fn lemma_field_lines(name: Seq<char>, value: Seq<char>, wanted: Seq<char>)
    requires
        one_word(name),
        one_word(wanted),
    ensures
        lines_with(bibtex_field(name, value), field_start(wanted)) == if name == wanted {
            bibtex_field(name, value)
        } else {
            Seq::empty()
        },
{
    reveal_strlit("  ");
    reveal_strlit(" = {");
    reveal_strlit("}");
    let row = bibtex_field(name, value);
    reveal_with_fuel(lines_with, 2);
    if value.len() > 0 {
        let line = "  "@ + name + " = {"@ + bibtex_text(value) + "}"@;
        let start = field_start(wanted);
        assert(row[0] == line);
        assert(row.drop_last() =~= Seq::empty());
        assert(row.last() == line);
        assert(line[name.len() + 2int] == ' ');
        assert(start[wanted.len() + 2int] == ' ');
        if begins_with(line, start) {
            assert(line.take(start.len() as int) == start);
            if name.len() < wanted.len() {
                assert(line[name.len() + 2int] == start[name.len() + 2int]);
                assert(start[name.len() + 2int] == wanted[name.len() as int]);
                assert(false);
            } else if wanted.len() < name.len() {
                assert(line[wanted.len() + 2int] == start[wanted.len() + 2int]);
                assert(line[wanted.len() + 2int] == name[wanted.len() as int]);
                assert(false);
            } else {
                assert forall|i: int| 0 <= i < name.len() implies name[i] == wanted[i] by {
                    assert(line[2 + i] == start[2 + i]);
                    assert(line[2 + i] == name[i]);
                    assert(start[2 + i] == wanted[i]);
                }
                assert(name =~= wanted);
            }
        }
        if name == wanted {
            assert(line.take(start.len() as int) =~= start);
            assert(lines_with(row, start) =~= row);
        }
    }
}

/// The lines with one more field.
proof fn lemma_lines_then_field(
    before: Seq<Seq<char>>,
    name: Seq<char>,
    value: Seq<char>,
    wanted: Seq<char>,
)
    requires
        one_word(name),
        one_word(wanted),
    ensures
        name != wanted ==> lines_with(before + bibtex_field(name, value), field_start(wanted))
            == lines_with(before, field_start(wanted)),
        name == wanted && lines_with(before, field_start(wanted)).len() == 0 ==> lines_with(
            before + bibtex_field(name, value),
            field_start(wanted),
        ) == bibtex_field(name, value),
{
    lemma_lines_of_both(before, bibtex_field(name, value), field_start(wanted));
    lemma_field_lines(name, value, wanted);
    let found = lines_with(before, field_start(wanted));
    assert(found + Seq::<Seq<char>>::empty() =~= found);
    if found.len() == 0 {
        assert(found + bibtex_field(name, value) =~= bibtex_field(name, value));
    }
}

/// The names of the fields have no spaces.
proof fn lemma_field_names()
    ensures
        one_word("abstract"@),
        one_word("archiveprefix"@),
        one_word("author"@),
        one_word("booktitle"@),
        one_word("doi"@),
        one_word("eid"@),
        one_word("eprint"@),
        one_word("isbn"@),
        one_word("issn"@),
        one_word("journal"@),
        one_word("keywords"@),
        one_word("language"@),
        one_word("number"@),
        one_word("pages"@),
        one_word("publisher"@),
        one_word("title"@),
        one_word("url"@),
        one_word("volume"@),
        one_word("year"@),
{
    reveal_strlit("abstract");
    reveal_strlit("archiveprefix");
    reveal_strlit("author");
    reveal_strlit("booktitle");
    reveal_strlit("doi");
    reveal_strlit("eid");
    reveal_strlit("eprint");
    reveal_strlit("isbn");
    reveal_strlit("issn");
    reveal_strlit("journal");
    reveal_strlit("keywords");
    reveal_strlit("language");
    reveal_strlit("number");
    reveal_strlit("pages");
    reveal_strlit("publisher");
    reveal_strlit("title");
    reveal_strlit("url");
    reveal_strlit("volume");
    reveal_strlit("year");
}

/// The names of the fields differ.
proof fn lemma_field_names_differ()
    ensures
        "archiveprefix"@ != "abstract"@,
        "author"@ != "abstract"@,
        "author"@ != "archiveprefix"@,
        "booktitle"@ != "abstract"@,
        "booktitle"@ != "archiveprefix"@,
        "booktitle"@ != "author"@,
        "doi"@ != "abstract"@,
        "doi"@ != "archiveprefix"@,
        "doi"@ != "author"@,
        "doi"@ != "booktitle"@,
        "eid"@ != "abstract"@,
        "eid"@ != "archiveprefix"@,
        "eid"@ != "author"@,
        "eid"@ != "booktitle"@,
        "eid"@ != "doi"@,
        "eprint"@ != "abstract"@,
        "eprint"@ != "archiveprefix"@,
        "eprint"@ != "author"@,
        "eprint"@ != "booktitle"@,
        "eprint"@ != "doi"@,
        "eprint"@ != "eid"@,
        "isbn"@ != "abstract"@,
        "isbn"@ != "archiveprefix"@,
        "isbn"@ != "author"@,
        "isbn"@ != "booktitle"@,
        "isbn"@ != "doi"@,
        "isbn"@ != "eid"@,
        "isbn"@ != "eprint"@,
        "issn"@ != "abstract"@,
        "issn"@ != "archiveprefix"@,
        "issn"@ != "author"@,
        "issn"@ != "booktitle"@,
        "issn"@ != "doi"@,
        "issn"@ != "eid"@,
        "issn"@ != "eprint"@,
        "issn"@ != "isbn"@,
        "journal"@ != "abstract"@,
        "journal"@ != "archiveprefix"@,
        "journal"@ != "author"@,
        "journal"@ != "booktitle"@,
        "journal"@ != "doi"@,
        "journal"@ != "eid"@,
        "journal"@ != "eprint"@,
        "journal"@ != "isbn"@,
        "journal"@ != "issn"@,
        "keywords"@ != "abstract"@,
        "keywords"@ != "archiveprefix"@,
        "keywords"@ != "author"@,
        "keywords"@ != "booktitle"@,
        "keywords"@ != "doi"@,
        "keywords"@ != "eid"@,
        "keywords"@ != "eprint"@,
        "keywords"@ != "isbn"@,
        "keywords"@ != "issn"@,
        "keywords"@ != "journal"@,
        "language"@ != "abstract"@,
        "language"@ != "archiveprefix"@,
        "language"@ != "author"@,
        "language"@ != "booktitle"@,
        "language"@ != "doi"@,
        "language"@ != "eid"@,
        "language"@ != "eprint"@,
        "language"@ != "isbn"@,
        "language"@ != "issn"@,
        "language"@ != "journal"@,
        "language"@ != "keywords"@,
        "number"@ != "abstract"@,
        "number"@ != "archiveprefix"@,
        "number"@ != "author"@,
        "number"@ != "booktitle"@,
        "number"@ != "doi"@,
        "number"@ != "eid"@,
        "number"@ != "eprint"@,
        "number"@ != "isbn"@,
        "number"@ != "issn"@,
        "number"@ != "journal"@,
        "number"@ != "keywords"@,
        "number"@ != "language"@,
        "pages"@ != "abstract"@,
        "pages"@ != "archiveprefix"@,
        "pages"@ != "author"@,
        "pages"@ != "booktitle"@,
        "pages"@ != "doi"@,
        "pages"@ != "eid"@,
        "pages"@ != "eprint"@,
        "pages"@ != "isbn"@,
        "pages"@ != "issn"@,
        "pages"@ != "journal"@,
        "pages"@ != "keywords"@,
        "pages"@ != "language"@,
        "pages"@ != "number"@,
        "publisher"@ != "abstract"@,
        "publisher"@ != "archiveprefix"@,
        "publisher"@ != "author"@,
        "publisher"@ != "booktitle"@,
        "publisher"@ != "doi"@,
        "publisher"@ != "eid"@,
        "publisher"@ != "eprint"@,
        "publisher"@ != "isbn"@,
        "publisher"@ != "issn"@,
        "publisher"@ != "journal"@,
        "publisher"@ != "keywords"@,
        "publisher"@ != "language"@,
        "publisher"@ != "number"@,
        "publisher"@ != "pages"@,
        "title"@ != "abstract"@,
        "title"@ != "archiveprefix"@,
        "title"@ != "author"@,
        "title"@ != "booktitle"@,
        "title"@ != "doi"@,
        "title"@ != "eid"@,
        "title"@ != "eprint"@,
        "title"@ != "isbn"@,
        "title"@ != "issn"@,
        "title"@ != "journal"@,
        "title"@ != "keywords"@,
        "title"@ != "language"@,
        "title"@ != "number"@,
        "title"@ != "pages"@,
        "title"@ != "publisher"@,
        "url"@ != "abstract"@,
        "url"@ != "archiveprefix"@,
        "url"@ != "author"@,
        "url"@ != "booktitle"@,
        "url"@ != "doi"@,
        "url"@ != "eid"@,
        "url"@ != "eprint"@,
        "url"@ != "isbn"@,
        "url"@ != "issn"@,
        "url"@ != "journal"@,
        "url"@ != "keywords"@,
        "url"@ != "language"@,
        "url"@ != "number"@,
        "url"@ != "pages"@,
        "url"@ != "publisher"@,
        "url"@ != "title"@,
        "volume"@ != "abstract"@,
        "volume"@ != "archiveprefix"@,
        "volume"@ != "author"@,
        "volume"@ != "booktitle"@,
        "volume"@ != "doi"@,
        "volume"@ != "eid"@,
        "volume"@ != "eprint"@,
        "volume"@ != "isbn"@,
        "volume"@ != "issn"@,
        "volume"@ != "journal"@,
        "volume"@ != "keywords"@,
        "volume"@ != "language"@,
        "volume"@ != "number"@,
        "volume"@ != "pages"@,
        "volume"@ != "publisher"@,
        "volume"@ != "title"@,
        "volume"@ != "url"@,
        "year"@ != "abstract"@,
        "year"@ != "archiveprefix"@,
        "year"@ != "author"@,
        "year"@ != "booktitle"@,
        "year"@ != "doi"@,
        "year"@ != "eid"@,
        "year"@ != "eprint"@,
        "year"@ != "isbn"@,
        "year"@ != "issn"@,
        "year"@ != "journal"@,
        "year"@ != "keywords"@,
        "year"@ != "language"@,
        "year"@ != "number"@,
        "year"@ != "pages"@,
        "year"@ != "publisher"@,
        "year"@ != "title"@,
        "year"@ != "url"@,
        "year"@ != "volume"@,
{
    reveal_strlit("abstract");
    reveal_strlit("archiveprefix");
    reveal_strlit("author");
    reveal_strlit("booktitle");
    reveal_strlit("doi");
    reveal_strlit("eid");
    reveal_strlit("eprint");
    reveal_strlit("isbn");
    reveal_strlit("issn");
    reveal_strlit("journal");
    reveal_strlit("keywords");
    reveal_strlit("language");
    reveal_strlit("number");
    reveal_strlit("pages");
    reveal_strlit("publisher");
    reveal_strlit("title");
    reveal_strlit("url");
    reveal_strlit("volume");
    reveal_strlit("year");
    assert("abstract"@.len() == 8);
    assert("archiveprefix"@.len() == 13);
    assert("author"@.len() == 6);
    assert("booktitle"@.len() == 9);
    assert("doi"@.len() == 3);
    assert("eid"@.len() == 3);
    assert("eprint"@.len() == 6);
    assert("isbn"@.len() == 4);
    assert("issn"@.len() == 4);
    assert("journal"@.len() == 7);
    assert("keywords"@.len() == 8);
    assert("language"@.len() == 8);
    assert("number"@.len() == 6);
    assert("pages"@.len() == 5);
    assert("publisher"@.len() == 9);
    assert("title"@.len() == 5);
    assert("url"@.len() == 3);
    assert("volume"@.len() == 6);
    assert("year"@.len() == 4);
    assert("eid"@[0] != "doi"@[0]);
    assert("eprint"@[0] != "author"@[0]);
    assert("issn"@[2] != "isbn"@[2]);
    assert("keywords"@[0] != "abstract"@[0]);
    assert("language"@[0] != "abstract"@[0]);
    assert("language"@[0] != "keywords"@[0]);
    assert("number"@[0] != "author"@[0]);
    assert("number"@[0] != "eprint"@[0]);
    assert("publisher"@[0] != "booktitle"@[0]);
    assert("title"@[0] != "pages"@[0]);
    assert("url"@[0] != "doi"@[0]);
    assert("url"@[0] != "eid"@[0]);
    assert("volume"@[0] != "author"@[0]);
    assert("volume"@[0] != "eprint"@[0]);
    assert("volume"@[0] != "number"@[0]);
    assert("year"@[0] != "isbn"@[0]);
    assert("year"@[0] != "issn"@[0]);
}

/// A field of a BibTeX entry is looked up among all its fields.
#[verifier::rlimit(40)]
proof fn lemma_entry_lines(work: WorkRecordView, wanted: Seq<char>)
    requires
        one_word(wanted),
    ensures
        wanted == "abstract"@ ==> lines_with(bibtex_fields(work), field_start(wanted))
            == bibtex_field("abstract"@, work.abstract_text),
        wanted == "archiveprefix"@ ==> lines_with(bibtex_fields(work), field_start(wanted))
            == bibtex_field("archiveprefix"@, text_if(work.ids.contains_key("arxiv"@), "arXiv"@)),
        wanted == "author"@ ==> lines_with(bibtex_fields(work), field_start(wanted))
            == bibtex_field("author"@, bibtex_authors(work.authors)),
        wanted == "booktitle"@ ==> lines_with(bibtex_fields(work), field_start(wanted))
            == bibtex_field("booktitle"@, text_if(in_book(work.work_type), work.container_title)),
        wanted == "doi"@ ==> lines_with(bibtex_fields(work), field_start(wanted))
            == bibtex_field("doi"@, or_empty(doi_in(work.ids))),
        wanted == "eid"@ ==> lines_with(bibtex_fields(work), field_start(wanted))
            == bibtex_field("eid"@, work.article_number),
        wanted == "eprint"@ ==> lines_with(bibtex_fields(work), field_start(wanted))
            == bibtex_field("eprint"@, id_or_empty(work.ids, "arxiv"@)),
        wanted == "isbn"@ ==> lines_with(bibtex_fields(work), field_start(wanted))
            == bibtex_field("isbn"@, joined(work.isbn, ", "@)),
        wanted == "issn"@ ==> lines_with(bibtex_fields(work), field_start(wanted))
            == bibtex_field("issn"@, joined(work.issn, ", "@)),
        wanted == "journal"@ ==> lines_with(bibtex_fields(work), field_start(wanted))
            == bibtex_field("journal"@, text_if(!in_book(work.work_type), work.container_title)),
        wanted == "keywords"@ ==> lines_with(bibtex_fields(work), field_start(wanted))
            == bibtex_field("keywords"@, joined(work.keywords, ", "@)),
        wanted == "language"@ ==> lines_with(bibtex_fields(work), field_start(wanted))
            == bibtex_field("language"@, work.language),
        wanted == "number"@ ==> lines_with(bibtex_fields(work), field_start(wanted))
            == bibtex_field("number"@, work.issue),
        wanted == "pages"@ ==> lines_with(bibtex_fields(work), field_start(wanted))
            == bibtex_field("pages"@, work.page),
        wanted == "publisher"@ ==> lines_with(bibtex_fields(work), field_start(wanted))
            == bibtex_field("publisher"@, work.publisher),
        wanted == "title"@ ==> lines_with(bibtex_fields(work), field_start(wanted))
            == bibtex_field("title"@, work.title),
        wanted == "url"@ ==> lines_with(bibtex_fields(work), field_start(wanted))
            == bibtex_field("url"@, work.url),
        wanted == "volume"@ ==> lines_with(bibtex_fields(work), field_start(wanted))
            == bibtex_field("volume"@, work.volume),
        wanted == "year"@ ==> lines_with(bibtex_fields(work), field_start(wanted))
            == bibtex_field("year"@, number_or(year_of(work), Seq::empty())),
{
    lemma_field_names();
    lemma_field_names_differ();
    let s0 = Seq::<Seq<char>>::empty();
    let start = field_start(wanted);
    assert(lines_with(s0, start).len() == 0);
    let s1 = s0 + bibtex_field("abstract"@, work.abstract_text);
    lemma_lines_then_field(s0, "abstract"@, work.abstract_text, wanted);
    assert(s1 =~= bibtex_field("abstract"@, work.abstract_text));
    let s2 = s1 + bibtex_field("archiveprefix"@, text_if(work.ids.contains_key("arxiv"@), "arXiv"@));
    lemma_lines_then_field(s1, "archiveprefix"@, text_if(work.ids.contains_key("arxiv"@), "arXiv"@), wanted);
    let s3 = s2 + bibtex_field("author"@, bibtex_authors(work.authors));
    lemma_lines_then_field(s2, "author"@, bibtex_authors(work.authors), wanted);
    let s4 = s3 + bibtex_field("booktitle"@, text_if(in_book(work.work_type), work.container_title));
    lemma_lines_then_field(s3, "booktitle"@, text_if(in_book(work.work_type), work.container_title), wanted);
    let s5 = s4 + bibtex_field("doi"@, or_empty(doi_in(work.ids)));
    lemma_lines_then_field(s4, "doi"@, or_empty(doi_in(work.ids)), wanted);
    let s6 = s5 + bibtex_field("eid"@, work.article_number);
    lemma_lines_then_field(s5, "eid"@, work.article_number, wanted);
    let s7 = s6 + bibtex_field("eprint"@, id_or_empty(work.ids, "arxiv"@));
    lemma_lines_then_field(s6, "eprint"@, id_or_empty(work.ids, "arxiv"@), wanted);
    let s8 = s7 + bibtex_field("isbn"@, joined(work.isbn, ", "@));
    lemma_lines_then_field(s7, "isbn"@, joined(work.isbn, ", "@), wanted);
    let s9 = s8 + bibtex_field("issn"@, joined(work.issn, ", "@));
    lemma_lines_then_field(s8, "issn"@, joined(work.issn, ", "@), wanted);
    let s10 = s9 + bibtex_field("journal"@, text_if(!in_book(work.work_type), work.container_title));
    lemma_lines_then_field(s9, "journal"@, text_if(!in_book(work.work_type), work.container_title), wanted);
    let s11 = s10 + bibtex_field("keywords"@, joined(work.keywords, ", "@));
    lemma_lines_then_field(s10, "keywords"@, joined(work.keywords, ", "@), wanted);
    let s12 = s11 + bibtex_field("language"@, work.language);
    lemma_lines_then_field(s11, "language"@, work.language, wanted);
    let s13 = s12 + bibtex_field("number"@, work.issue);
    lemma_lines_then_field(s12, "number"@, work.issue, wanted);
    let s14 = s13 + bibtex_field("pages"@, work.page);
    lemma_lines_then_field(s13, "pages"@, work.page, wanted);
    let s15 = s14 + bibtex_field("publisher"@, work.publisher);
    lemma_lines_then_field(s14, "publisher"@, work.publisher, wanted);
    let s16 = s15 + bibtex_field("title"@, work.title);
    lemma_lines_then_field(s15, "title"@, work.title, wanted);
    let s17 = s16 + bibtex_field("url"@, work.url);
    lemma_lines_then_field(s16, "url"@, work.url, wanted);
    let s18 = s17 + bibtex_field("volume"@, work.volume);
    lemma_lines_then_field(s17, "volume"@, work.volume, wanted);
    let s19 = s18 + bibtex_field("year"@, number_or(year_of(work), Seq::empty()));
    lemma_lines_then_field(s18, "year"@, number_or(year_of(work), Seq::empty()), wanted);
    assert(bibtex_fields(work) == s19);
}

/// The line of a field that holds a value, where there is one.
pub open spec fn single_line(start: Seq<char>, value: Seq<char>) -> Seq<Seq<char>> {
    if value.len() > 0 {
        seq![start + bibtex_text(value) + "}"@]
    } else {
        Seq::empty()
    }
}

/// The beginnings of the lines are written as one.
proof fn lemma_field_starts()
    ensures
        field_start("abstract"@) == "  abstract = {"@,
        field_start("archiveprefix"@) == "  archiveprefix = {"@,
        field_start("author"@) == "  author = {"@,
        field_start("booktitle"@) == "  booktitle = {"@,
        field_start("doi"@) == "  doi = {"@,
        field_start("eid"@) == "  eid = {"@,
        field_start("eprint"@) == "  eprint = {"@,
        field_start("isbn"@) == "  isbn = {"@,
        field_start("issn"@) == "  issn = {"@,
        field_start("journal"@) == "  journal = {"@,
        field_start("keywords"@) == "  keywords = {"@,
        field_start("language"@) == "  language = {"@,
        field_start("number"@) == "  number = {"@,
        field_start("pages"@) == "  pages = {"@,
        field_start("publisher"@) == "  publisher = {"@,
        field_start("title"@) == "  title = {"@,
        field_start("url"@) == "  url = {"@,
        field_start("volume"@) == "  volume = {"@,
        field_start("year"@) == "  year = {"@,
{
    reveal_strlit("  ");
    reveal_strlit(" = {");
    reveal_strlit("abstract");
    reveal_strlit("  abstract = {");
    assert(field_start("abstract"@) =~= "  abstract = {"@);
    reveal_strlit("archiveprefix");
    reveal_strlit("  archiveprefix = {");
    assert(field_start("archiveprefix"@) =~= "  archiveprefix = {"@);
    reveal_strlit("author");
    reveal_strlit("  author = {");
    assert(field_start("author"@) =~= "  author = {"@);
    reveal_strlit("booktitle");
    reveal_strlit("  booktitle = {");
    assert(field_start("booktitle"@) =~= "  booktitle = {"@);
    reveal_strlit("doi");
    reveal_strlit("  doi = {");
    assert(field_start("doi"@) =~= "  doi = {"@);
    reveal_strlit("eid");
    reveal_strlit("  eid = {");
    assert(field_start("eid"@) =~= "  eid = {"@);
    reveal_strlit("eprint");
    reveal_strlit("  eprint = {");
    assert(field_start("eprint"@) =~= "  eprint = {"@);
    reveal_strlit("isbn");
    reveal_strlit("  isbn = {");
    assert(field_start("isbn"@) =~= "  isbn = {"@);
    reveal_strlit("issn");
    reveal_strlit("  issn = {");
    assert(field_start("issn"@) =~= "  issn = {"@);
    reveal_strlit("journal");
    reveal_strlit("  journal = {");
    assert(field_start("journal"@) =~= "  journal = {"@);
    reveal_strlit("keywords");
    reveal_strlit("  keywords = {");
    assert(field_start("keywords"@) =~= "  keywords = {"@);
    reveal_strlit("language");
    reveal_strlit("  language = {");
    assert(field_start("language"@) =~= "  language = {"@);
    reveal_strlit("number");
    reveal_strlit("  number = {");
    assert(field_start("number"@) =~= "  number = {"@);
    reveal_strlit("pages");
    reveal_strlit("  pages = {");
    assert(field_start("pages"@) =~= "  pages = {"@);
    reveal_strlit("publisher");
    reveal_strlit("  publisher = {");
    assert(field_start("publisher"@) =~= "  publisher = {"@);
    reveal_strlit("title");
    reveal_strlit("  title = {");
    assert(field_start("title"@) =~= "  title = {"@);
    reveal_strlit("url");
    reveal_strlit("  url = {");
    assert(field_start("url"@) =~= "  url = {"@);
    reveal_strlit("volume");
    reveal_strlit("  volume = {");
    assert(field_start("volume"@) =~= "  volume = {"@);
    reveal_strlit("year");
    reveal_strlit("  year = {");
    assert(field_start("year"@) =~= "  year = {"@);
}

/// Each BibTeX field carries its own datum: for each datum that a work has, its entry has
/// exactly one line that begins with the name of its field, and that line holds the
/// escaped datum; for a datum that it lacks there is no such line.
pub proof fn law_each_bibtex_field_has_its_datum(work: WorkRecordView)
    ensures
        ({
            let lines = bibtex_fields(work);
            &&& lines_with(lines, "  abstract = {"@) == single_line("  abstract = {"@, work.abstract_text)
            &&& lines_with(lines, "  archiveprefix = {"@) == single_line("  archiveprefix = {"@, (if work.ids.contains_key("arxiv"@) {
                "arXiv"@
            } else {
                Seq::empty()
            }))
            &&& lines_with(lines, "  booktitle = {"@) == single_line("  booktitle = {"@, (if work.work_type == "paper-conference"@ || work.work_type == "chapter"@ {
                work.container_title
            } else {
                Seq::empty()
            }))
            &&& lines_with(lines, "  doi = {"@) == single_line("  doi = {"@, (match doi_in(work.ids) {
                Some(doi) => doi,
                None => Seq::empty(),
            }))
            &&& lines_with(lines, "  eid = {"@) == single_line("  eid = {"@, work.article_number)
            &&& lines_with(lines, "  eprint = {"@) == single_line("  eprint = {"@, (if work.ids.contains_key("arxiv"@) {
                work.ids["arxiv"@]
            } else {
                Seq::empty()
            }))
            &&& lines_with(lines, "  isbn = {"@) == single_line("  isbn = {"@, joined(work.isbn, ", "@))
            &&& lines_with(lines, "  issn = {"@) == single_line("  issn = {"@, joined(work.issn, ", "@))
            &&& lines_with(lines, "  journal = {"@) == single_line("  journal = {"@, (if work.work_type == "paper-conference"@ || work.work_type == "chapter"@ {
                Seq::empty()
            } else {
                work.container_title
            }))
            &&& lines_with(lines, "  keywords = {"@) == single_line("  keywords = {"@, joined(work.keywords, ", "@))
            &&& lines_with(lines, "  language = {"@) == single_line("  language = {"@, work.language)
            &&& lines_with(lines, "  number = {"@) == single_line("  number = {"@, work.issue)
            &&& lines_with(lines, "  pages = {"@) == single_line("  pages = {"@, work.page)
            &&& lines_with(lines, "  publisher = {"@) == single_line("  publisher = {"@, work.publisher)
            &&& lines_with(lines, "  title = {"@) == single_line("  title = {"@, work.title)
            &&& lines_with(lines, "  url = {"@) == single_line("  url = {"@, work.url)
            &&& lines_with(lines, "  volume = {"@) == single_line("  volume = {"@, work.volume)
            &&& lines_with(lines, "  year = {"@) == single_line("  year = {"@, (match year_of(work) {
                Some(year) => decimal(year as nat),
                None => Seq::empty(),
            }))
        }),
{
    lemma_field_names();
    lemma_field_starts();
    lemma_entry_lines(work, "abstract"@);
    lemma_entry_lines(work, "archiveprefix"@);
    lemma_entry_lines(work, "author"@);
    lemma_entry_lines(work, "booktitle"@);
    lemma_entry_lines(work, "doi"@);
    lemma_entry_lines(work, "eid"@);
    lemma_entry_lines(work, "eprint"@);
    lemma_entry_lines(work, "isbn"@);
    lemma_entry_lines(work, "issn"@);
    lemma_entry_lines(work, "journal"@);
    lemma_entry_lines(work, "keywords"@);
    lemma_entry_lines(work, "language"@);
    lemma_entry_lines(work, "number"@);
    lemma_entry_lines(work, "pages"@);
    lemma_entry_lines(work, "publisher"@);
    lemma_entry_lines(work, "title"@);
    lemma_entry_lines(work, "url"@);
    lemma_entry_lines(work, "volume"@);
    lemma_entry_lines(work, "year"@);
}

/// The authors stand in one line of a BibTeX entry, each by family and given name or in
/// braces by the whole name, with the word `and` between them.
pub proof fn law_the_authors_stand_in_one_line(work: WorkRecordView, names: Seq<Seq<char>>)
    requires
        names.len() == work.authors.len(),
        forall|i: int|
            0 <= i < names.len() ==> #[trigger] names[i] == if work.authors[i].family.len() > 0 {
                work.authors[i].family + ", "@ + work.authors[i].given
            } else {
                "{"@ + work.authors[i].literal + "}"@
            },
    ensures
        lines_with(bibtex_fields(work), "  author = {"@) == single_line(
            "  author = {"@,
            joined(names, " and "@),
        ),
{
    lemma_field_names();
    lemma_field_starts();
    lemma_entry_lines(work, "author"@);
    assert(names =~= Seq::new(
        work.authors.len(),
        |i: int| crate::citations::bibtex_author(work.authors[i]),
    ));
}

/// A character that means something in BibTeX.
pub open spec fn means_something(c: char) -> bool {
    c == '{' || c == '}' || c == '&' || c == '%' || c == '#' || c == '_'
}

/// Escaping goes character by character: one that means something gets a backslash, the
/// backslash itself is spelled out, every other stays.
pub proof fn law_escaping_goes_by_character(a: Seq<char>, b: Seq<char>, c: char)
    ensures
        bibtex_text(Seq::empty()) == Seq::<char>::empty(),
        bibtex_text(a + b) == bibtex_text(a) + bibtex_text(b),
        means_something(c) ==> bibtex_text(seq![c]) == seq!['\\', c],
        !means_something(c) && c != '\\' ==> bibtex_text(seq![c]) == seq![c],
        bibtex_text(seq!['\\']) == "\\textbackslash{}"@,
    decreases b.len(),
{
    reveal_with_fuel(bibtex_text, 2);
    assert(seq![c].drop_last() =~= Seq::empty());
    assert(seq!['\\'].drop_last() =~= Seq::empty());
    assert(bibtex_text(seq![c]) =~= bibtex_char(c));
    assert(bibtex_text(seq!['\\']) =~= bibtex_char('\\'));
    if b.len() == 0 {
        assert(a + b =~= a);
        assert(bibtex_text(a) + bibtex_text(b) =~= bibtex_text(a));
    } else {
        law_escaping_goes_by_character(a, b.drop_last(), c);
        assert((a + b).drop_last() =~= a + b.drop_last());
        assert((a + b).last() == b.last());
        assert(bibtex_text(a + b) =~= bibtex_text(a) + bibtex_text(b));
    }
}

proof fn lemma_text_member(key: Seq<char>, value: Seq<char>, wanted: Seq<char>)
    ensures
        member_in(text_member(key, value), wanted) == if key == wanted && value.len() > 0 {
            Some(JsonView::Text(value))
        } else {
            None
        },
{
    reveal_with_fuel(member_in, 2);
}

proof fn lemma_joined_member(key: Seq<char>, values: Seq<Seq<char>>, wanted: Seq<char>)
    ensures
        member_in(joined_member(key, values), wanted) == if key == wanted && values.len() > 0 {
            Some(JsonView::Text(joined(values, ", "@)))
        } else {
            None
        },
{
    reveal_with_fuel(member_in, 2);
}

/// The members with more behind them: one of the names behind is found there where it is
/// not found before.
proof fn lemma_member_then(
    before: Seq<(Seq<char>, JsonView)>,
    behind: Seq<(Seq<char>, JsonView)>,
    wanted: Seq<char>,
)
    ensures
        member_in(behind, wanted) is None ==> member_in(before + behind, wanted) == member_in(
            before,
            wanted,
        ),
        member_in(before, wanted) is None ==> member_in(before + behind, wanted) == member_in(
            behind,
            wanted,
        ),
{
    lemma_member_of_both(before, behind, wanted);
}

proof fn lemma_doi_member(ids: Map<Seq<char>, Seq<char>>, wanted: Seq<char>)
    ensures
        member_in(doi_members(ids), wanted) == if wanted == "DOI"@ && doi_in(ids) is Some {
            Some(JsonView::Text(doi_in(ids)->0))
        } else {
            None
        },
{
    reveal_with_fuel(member_in, 2);
}

spec fn doi_members(ids: Map<Seq<char>, Seq<char>>) -> Seq<(Seq<char>, JsonView)> {
    match doi_in(ids) {
        Some(doi) => seq![("DOI"@, JsonView::Text(doi))],
        None => Seq::empty(),
    }
}

spec fn head_members(work: WorkRecordView, citation_key: Seq<char>) -> Seq<
    (Seq<char>, JsonView),
> {
    seq![
        ("id"@, JsonView::Text(citation_key)),
        ("type"@, JsonView::Text(csl_type_of(work.work_type))),
        ("title"@, JsonView::Text(work.title)),
        ("author"@, csl_authors(work.authors)),
        ("issued"@, csl_date_of(work.issued)),
    ]
}

proof fn lemma_head_member(work: WorkRecordView, citation_key: Seq<char>, wanted: Seq<char>)
    ensures
        wanted != "id"@ && wanted != "type"@ && wanted != "title"@ && wanted != "author"@ && wanted
            != "issued"@ ==> member_in(head_members(work, citation_key), wanted) is None,
{
    reveal_with_fuel(member_in, 6);
}

proof fn lemma_archive_member(ids: Map<Seq<char>, Seq<char>>, wanted: Seq<char>)
    requires
        "archive"@ != "archive_location"@,
    ensures
        member_in(archive_members(ids), wanted) == if !ids.contains_key("arxiv"@) {
            None
        } else if wanted == "archive"@ {
            Some(JsonView::Text("arXiv"@))
        } else if wanted == "archive_location"@ {
            Some(JsonView::Text(ids["arxiv"@]))
        } else {
            None
        },
{
    reveal_with_fuel(member_in, 3);
}

/// The names of the members of CSL JSON differ.
proof fn lemma_member_names_differ()
    ensures
        "type"@ != "id"@,
        "title"@ != "id"@,
        "title"@ != "type"@,
        "author"@ != "id"@,
        "author"@ != "type"@,
        "author"@ != "title"@,
        "issued"@ != "id"@,
        "issued"@ != "type"@,
        "issued"@ != "title"@,
        "issued"@ != "author"@,
        "container-title"@ != "id"@,
        "container-title"@ != "type"@,
        "container-title"@ != "title"@,
        "container-title"@ != "author"@,
        "container-title"@ != "issued"@,
        "publisher"@ != "id"@,
        "publisher"@ != "type"@,
        "publisher"@ != "title"@,
        "publisher"@ != "author"@,
        "publisher"@ != "issued"@,
        "publisher"@ != "container-title"@,
        "volume"@ != "id"@,
        "volume"@ != "type"@,
        "volume"@ != "title"@,
        "volume"@ != "author"@,
        "volume"@ != "issued"@,
        "volume"@ != "container-title"@,
        "volume"@ != "publisher"@,
        "issue"@ != "id"@,
        "issue"@ != "type"@,
        "issue"@ != "title"@,
        "issue"@ != "author"@,
        "issue"@ != "issued"@,
        "issue"@ != "container-title"@,
        "issue"@ != "publisher"@,
        "issue"@ != "volume"@,
        "page"@ != "id"@,
        "page"@ != "type"@,
        "page"@ != "title"@,
        "page"@ != "author"@,
        "page"@ != "issued"@,
        "page"@ != "container-title"@,
        "page"@ != "publisher"@,
        "page"@ != "volume"@,
        "page"@ != "issue"@,
        "number"@ != "id"@,
        "number"@ != "type"@,
        "number"@ != "title"@,
        "number"@ != "author"@,
        "number"@ != "issued"@,
        "number"@ != "container-title"@,
        "number"@ != "publisher"@,
        "number"@ != "volume"@,
        "number"@ != "issue"@,
        "number"@ != "page"@,
        "language"@ != "id"@,
        "language"@ != "type"@,
        "language"@ != "title"@,
        "language"@ != "author"@,
        "language"@ != "issued"@,
        "language"@ != "container-title"@,
        "language"@ != "publisher"@,
        "language"@ != "volume"@,
        "language"@ != "issue"@,
        "language"@ != "page"@,
        "language"@ != "number"@,
        "URL"@ != "id"@,
        "URL"@ != "type"@,
        "URL"@ != "title"@,
        "URL"@ != "author"@,
        "URL"@ != "issued"@,
        "URL"@ != "container-title"@,
        "URL"@ != "publisher"@,
        "URL"@ != "volume"@,
        "URL"@ != "issue"@,
        "URL"@ != "page"@,
        "URL"@ != "number"@,
        "URL"@ != "language"@,
        "DOI"@ != "id"@,
        "DOI"@ != "type"@,
        "DOI"@ != "title"@,
        "DOI"@ != "author"@,
        "DOI"@ != "issued"@,
        "DOI"@ != "container-title"@,
        "DOI"@ != "publisher"@,
        "DOI"@ != "volume"@,
        "DOI"@ != "issue"@,
        "DOI"@ != "page"@,
        "DOI"@ != "number"@,
        "DOI"@ != "language"@,
        "DOI"@ != "URL"@,
        "ISSN"@ != "id"@,
        "ISSN"@ != "type"@,
        "ISSN"@ != "title"@,
        "ISSN"@ != "author"@,
        "ISSN"@ != "issued"@,
        "ISSN"@ != "container-title"@,
        "ISSN"@ != "publisher"@,
        "ISSN"@ != "volume"@,
        "ISSN"@ != "issue"@,
        "ISSN"@ != "page"@,
        "ISSN"@ != "number"@,
        "ISSN"@ != "language"@,
        "ISSN"@ != "URL"@,
        "ISSN"@ != "DOI"@,
        "ISBN"@ != "id"@,
        "ISBN"@ != "type"@,
        "ISBN"@ != "title"@,
        "ISBN"@ != "author"@,
        "ISBN"@ != "issued"@,
        "ISBN"@ != "container-title"@,
        "ISBN"@ != "publisher"@,
        "ISBN"@ != "volume"@,
        "ISBN"@ != "issue"@,
        "ISBN"@ != "page"@,
        "ISBN"@ != "number"@,
        "ISBN"@ != "language"@,
        "ISBN"@ != "URL"@,
        "ISBN"@ != "DOI"@,
        "ISBN"@ != "ISSN"@,
        "abstract"@ != "id"@,
        "abstract"@ != "type"@,
        "abstract"@ != "title"@,
        "abstract"@ != "author"@,
        "abstract"@ != "issued"@,
        "abstract"@ != "container-title"@,
        "abstract"@ != "publisher"@,
        "abstract"@ != "volume"@,
        "abstract"@ != "issue"@,
        "abstract"@ != "page"@,
        "abstract"@ != "number"@,
        "abstract"@ != "language"@,
        "abstract"@ != "URL"@,
        "abstract"@ != "DOI"@,
        "abstract"@ != "ISSN"@,
        "abstract"@ != "ISBN"@,
        "keyword"@ != "id"@,
        "keyword"@ != "type"@,
        "keyword"@ != "title"@,
        "keyword"@ != "author"@,
        "keyword"@ != "issued"@,
        "keyword"@ != "container-title"@,
        "keyword"@ != "publisher"@,
        "keyword"@ != "volume"@,
        "keyword"@ != "issue"@,
        "keyword"@ != "page"@,
        "keyword"@ != "number"@,
        "keyword"@ != "language"@,
        "keyword"@ != "URL"@,
        "keyword"@ != "DOI"@,
        "keyword"@ != "ISSN"@,
        "keyword"@ != "ISBN"@,
        "keyword"@ != "abstract"@,
        "archive"@ != "id"@,
        "archive"@ != "type"@,
        "archive"@ != "title"@,
        "archive"@ != "author"@,
        "archive"@ != "issued"@,
        "archive"@ != "container-title"@,
        "archive"@ != "publisher"@,
        "archive"@ != "volume"@,
        "archive"@ != "issue"@,
        "archive"@ != "page"@,
        "archive"@ != "number"@,
        "archive"@ != "language"@,
        "archive"@ != "URL"@,
        "archive"@ != "DOI"@,
        "archive"@ != "ISSN"@,
        "archive"@ != "ISBN"@,
        "archive"@ != "abstract"@,
        "archive"@ != "keyword"@,
        "archive_location"@ != "id"@,
        "archive_location"@ != "type"@,
        "archive_location"@ != "title"@,
        "archive_location"@ != "author"@,
        "archive_location"@ != "issued"@,
        "archive_location"@ != "container-title"@,
        "archive_location"@ != "publisher"@,
        "archive_location"@ != "volume"@,
        "archive_location"@ != "issue"@,
        "archive_location"@ != "page"@,
        "archive_location"@ != "number"@,
        "archive_location"@ != "language"@,
        "archive_location"@ != "URL"@,
        "archive_location"@ != "DOI"@,
        "archive_location"@ != "ISSN"@,
        "archive_location"@ != "ISBN"@,
        "archive_location"@ != "abstract"@,
        "archive_location"@ != "keyword"@,
        "archive_location"@ != "archive"@,
{
    reveal_strlit("id");
    reveal_strlit("type");
    reveal_strlit("title");
    reveal_strlit("author");
    reveal_strlit("issued");
    reveal_strlit("container-title");
    reveal_strlit("publisher");
    reveal_strlit("volume");
    reveal_strlit("issue");
    reveal_strlit("page");
    reveal_strlit("number");
    reveal_strlit("language");
    reveal_strlit("URL");
    reveal_strlit("DOI");
    reveal_strlit("ISSN");
    reveal_strlit("ISBN");
    reveal_strlit("abstract");
    reveal_strlit("keyword");
    reveal_strlit("archive");
    reveal_strlit("archive_location");
    assert("id"@.len() == 2);
    assert("type"@.len() == 4);
    assert("title"@.len() == 5);
    assert("author"@.len() == 6);
    assert("issued"@.len() == 6);
    assert("container-title"@.len() == 15);
    assert("publisher"@.len() == 9);
    assert("volume"@.len() == 6);
    assert("issue"@.len() == 5);
    assert("page"@.len() == 4);
    assert("number"@.len() == 6);
    assert("language"@.len() == 8);
    assert("URL"@.len() == 3);
    assert("DOI"@.len() == 3);
    assert("ISSN"@.len() == 4);
    assert("ISBN"@.len() == 4);
    assert("abstract"@.len() == 8);
    assert("keyword"@.len() == 7);
    assert("archive"@.len() == 7);
    assert("archive_location"@.len() == 16);
    assert("issued"@[0] != "author"@[0]);
    assert("volume"@[0] != "author"@[0]);
    assert("volume"@[0] != "issued"@[0]);
    assert("issue"@[0] != "title"@[0]);
    assert("page"@[0] != "type"@[0]);
    assert("number"@[0] != "author"@[0]);
    assert("number"@[0] != "issued"@[0]);
    assert("number"@[0] != "volume"@[0]);
    assert("DOI"@[0] != "URL"@[0]);
    assert("ISSN"@[0] != "type"@[0]);
    assert("ISSN"@[0] != "page"@[0]);
    assert("ISBN"@[0] != "type"@[0]);
    assert("ISBN"@[0] != "page"@[0]);
    assert("ISBN"@[2] != "ISSN"@[2]);
    assert("abstract"@[0] != "language"@[0]);
    assert("archive"@[0] != "keyword"@[0]);
}

/// A member of CSL JSON is the first that there is under its name.
#[verifier::rlimit(40)]
proof fn lemma_csl_member(work: WorkRecordView, citation_key: Seq<char>, wanted: Seq<char>)
    ensures
        wanted == "container-title"@ ==> csl_of(work, citation_key).member(wanted) == (if work.container_title.len() > 0 {
            Some(JsonView::Text(work.container_title))
        } else {
            None
        }),
        wanted == "publisher"@ ==> csl_of(work, citation_key).member(wanted) == (if work.publisher.len() > 0 {
            Some(JsonView::Text(work.publisher))
        } else {
            None
        }),
        wanted == "volume"@ ==> csl_of(work, citation_key).member(wanted) == (if work.volume.len() > 0 {
            Some(JsonView::Text(work.volume))
        } else {
            None
        }),
        wanted == "issue"@ ==> csl_of(work, citation_key).member(wanted) == (if work.issue.len() > 0 {
            Some(JsonView::Text(work.issue))
        } else {
            None
        }),
        wanted == "page"@ ==> csl_of(work, citation_key).member(wanted) == (if work.page.len() > 0 {
            Some(JsonView::Text(work.page))
        } else {
            None
        }),
        wanted == "number"@ ==> csl_of(work, citation_key).member(wanted) == (if work.article_number.len() > 0 {
            Some(JsonView::Text(work.article_number))
        } else {
            None
        }),
        wanted == "language"@ ==> csl_of(work, citation_key).member(wanted) == (if work.language.len() > 0 {
            Some(JsonView::Text(work.language))
        } else {
            None
        }),
        wanted == "URL"@ ==> csl_of(work, citation_key).member(wanted) == (if work.url.len() > 0 {
            Some(JsonView::Text(work.url))
        } else {
            None
        }),
        wanted == "DOI"@ ==> csl_of(work, citation_key).member(wanted) == (match doi_in(work.ids) {
            Some(doi) => Some(JsonView::Text(doi)),
            None => None,
        }),
        wanted == "ISSN"@ ==> csl_of(work, citation_key).member(wanted) == (if work.issn.len() > 0 {
            Some(JsonView::Text(joined(work.issn, ", "@)))
        } else {
            None
        }),
        wanted == "ISBN"@ ==> csl_of(work, citation_key).member(wanted) == (if work.isbn.len() > 0 {
            Some(JsonView::Text(joined(work.isbn, ", "@)))
        } else {
            None
        }),
        wanted == "abstract"@ ==> csl_of(work, citation_key).member(wanted) == (if work.abstract_text.len() > 0 {
            Some(JsonView::Text(work.abstract_text))
        } else {
            None
        }),
        wanted == "keyword"@ ==> csl_of(work, citation_key).member(wanted) == (if work.keywords.len() > 0 {
            Some(JsonView::Text(joined(work.keywords, ", "@)))
        } else {
            None
        }),
        wanted == "archive"@ ==> csl_of(work, citation_key).member(wanted) == (if work.ids.contains_key("arxiv"@) {
            Some(JsonView::Text("arXiv"@))
        } else {
            None
        }),
        wanted == "archive_location"@ ==> csl_of(work, citation_key).member(wanted) == (if work.ids.contains_key("arxiv"@) {
            Some(JsonView::Text(work.ids["arxiv"@]))
        } else {
            None
        }),
{
    lemma_member_names_differ();
    let s0 = head_members(work, citation_key);
    lemma_head_member(work, citation_key, wanted);
    let p0 = text_member("container-title"@, work.container_title);
    lemma_text_member("container-title"@, work.container_title, wanted);
    let s1 = s0 + p0;
    lemma_member_then(s0, p0, wanted);
    let p1 = text_member("publisher"@, work.publisher);
    lemma_text_member("publisher"@, work.publisher, wanted);
    let s2 = s1 + p1;
    lemma_member_then(s1, p1, wanted);
    let p2 = text_member("volume"@, work.volume);
    lemma_text_member("volume"@, work.volume, wanted);
    let s3 = s2 + p2;
    lemma_member_then(s2, p2, wanted);
    let p3 = text_member("issue"@, work.issue);
    lemma_text_member("issue"@, work.issue, wanted);
    let s4 = s3 + p3;
    lemma_member_then(s3, p3, wanted);
    let p4 = text_member("page"@, work.page);
    lemma_text_member("page"@, work.page, wanted);
    let s5 = s4 + p4;
    lemma_member_then(s4, p4, wanted);
    let p5 = text_member("number"@, work.article_number);
    lemma_text_member("number"@, work.article_number, wanted);
    let s6 = s5 + p5;
    lemma_member_then(s5, p5, wanted);
    let p6 = text_member("language"@, work.language);
    lemma_text_member("language"@, work.language, wanted);
    let s7 = s6 + p6;
    lemma_member_then(s6, p6, wanted);
    let p7 = text_member("URL"@, work.url);
    lemma_text_member("URL"@, work.url, wanted);
    let s8 = s7 + p7;
    lemma_member_then(s7, p7, wanted);
    let p8 = doi_members(work.ids);
    lemma_doi_member(work.ids, wanted);
    let s9 = s8 + p8;
    lemma_member_then(s8, p8, wanted);
    let p9 = joined_member("ISSN"@, work.issn);
    lemma_joined_member("ISSN"@, work.issn, wanted);
    let s10 = s9 + p9;
    lemma_member_then(s9, p9, wanted);
    let p10 = joined_member("ISBN"@, work.isbn);
    lemma_joined_member("ISBN"@, work.isbn, wanted);
    let s11 = s10 + p10;
    lemma_member_then(s10, p10, wanted);
    let p11 = text_member("abstract"@, work.abstract_text);
    lemma_text_member("abstract"@, work.abstract_text, wanted);
    let s12 = s11 + p11;
    lemma_member_then(s11, p11, wanted);
    let p12 = joined_member("keyword"@, work.keywords);
    lemma_joined_member("keyword"@, work.keywords, wanted);
    let s13 = s12 + p12;
    lemma_member_then(s12, p12, wanted);
    let p13 = archive_members(work.ids);
    lemma_archive_member(work.ids, wanted);
    let s14 = s13 + p13;
    lemma_member_then(s13, p13, wanted);
    assert(csl_of(work, citation_key) == JsonView::Object(s14));
}

/// Each member of CSL JSON carries its own datum: the datum under its name where the work
/// has it, and no member of that name where it has none.
pub proof fn law_each_csl_member_has_its_datum(work: WorkRecordView, citation_key: Seq<char>)
    ensures
        ({
            let made = csl_of(work, citation_key);
            &&& made.member("id"@) == Some(JsonView::Text(citation_key))
            &&& made.member("title"@) == Some(JsonView::Text(work.title))
            &&& made.member("container-title"@) == (if work.container_title.len() > 0 {
            Some(JsonView::Text(work.container_title))
        } else {
            None
        })
            &&& made.member("publisher"@) == (if work.publisher.len() > 0 {
            Some(JsonView::Text(work.publisher))
        } else {
            None
        })
            &&& made.member("volume"@) == (if work.volume.len() > 0 {
            Some(JsonView::Text(work.volume))
        } else {
            None
        })
            &&& made.member("issue"@) == (if work.issue.len() > 0 {
            Some(JsonView::Text(work.issue))
        } else {
            None
        })
            &&& made.member("page"@) == (if work.page.len() > 0 {
            Some(JsonView::Text(work.page))
        } else {
            None
        })
            &&& made.member("number"@) == (if work.article_number.len() > 0 {
            Some(JsonView::Text(work.article_number))
        } else {
            None
        })
            &&& made.member("language"@) == (if work.language.len() > 0 {
            Some(JsonView::Text(work.language))
        } else {
            None
        })
            &&& made.member("URL"@) == (if work.url.len() > 0 {
            Some(JsonView::Text(work.url))
        } else {
            None
        })
            &&& made.member("DOI"@) == (match doi_in(work.ids) {
            Some(doi) => Some(JsonView::Text(doi)),
            None => None,
        })
            &&& made.member("ISSN"@) == (if work.issn.len() > 0 {
            Some(JsonView::Text(joined(work.issn, ", "@)))
        } else {
            None
        })
            &&& made.member("ISBN"@) == (if work.isbn.len() > 0 {
            Some(JsonView::Text(joined(work.isbn, ", "@)))
        } else {
            None
        })
            &&& made.member("abstract"@) == (if work.abstract_text.len() > 0 {
            Some(JsonView::Text(work.abstract_text))
        } else {
            None
        })
            &&& made.member("keyword"@) == (if work.keywords.len() > 0 {
            Some(JsonView::Text(joined(work.keywords, ", "@)))
        } else {
            None
        })
            &&& made.member("archive"@) == (if work.ids.contains_key("arxiv"@) {
            Some(JsonView::Text("arXiv"@))
        } else {
            None
        })
            &&& made.member("archive_location"@) == (if work.ids.contains_key("arxiv"@) {
            Some(JsonView::Text(work.ids["arxiv"@]))
        } else {
            None
        })
        }),
{
    law_a_csl_item_is_headed(work, citation_key);
    lemma_csl_member(work, citation_key, "container-title"@);
    lemma_csl_member(work, citation_key, "publisher"@);
    lemma_csl_member(work, citation_key, "volume"@);
    lemma_csl_member(work, citation_key, "issue"@);
    lemma_csl_member(work, citation_key, "page"@);
    lemma_csl_member(work, citation_key, "number"@);
    lemma_csl_member(work, citation_key, "language"@);
    lemma_csl_member(work, citation_key, "URL"@);
    lemma_csl_member(work, citation_key, "DOI"@);
    lemma_csl_member(work, citation_key, "ISSN"@);
    lemma_csl_member(work, citation_key, "ISBN"@);
    lemma_csl_member(work, citation_key, "abstract"@);
    lemma_csl_member(work, citation_key, "keyword"@);
    lemma_csl_member(work, citation_key, "archive"@);
    lemma_csl_member(work, citation_key, "archive_location"@);
}

/// A CSL item names its key, its type, its title, its authors one by one, and its date.
pub proof fn law_a_csl_item_is_headed(work: WorkRecordView, citation_key: Seq<char>)
    ensures
        ({
            let made = csl_of(work, citation_key);
            &&& made.member("id"@) == Some(JsonView::Text(citation_key))
            &&& made.member("title"@) == Some(JsonView::Text(work.title))
            &&& made.member("type"@) matches Some(JsonView::Text(kind)) && {
                &&& work.work_type == "preprint"@ ==> kind == "article"@
                &&& work.work_type == "paper-conference"@ || work.work_type == "chapter"@
                    || work.work_type == "book"@ || work.work_type == "thesis"@ || work.work_type
                    == "report"@ || work.work_type == "dataset"@ ==> kind == work.work_type
                &&& work.work_type == "article-journal"@ ==> kind == work.work_type
            }
            &&& made.member("author"@) matches Some(JsonView::List(authors)) && authors.len()
                == work.authors.len() && forall|i: int|
                0 <= i < authors.len() ==> #[trigger] authors[i] == csl_author_of(work.authors[i])
            &&& made.member("issued"@) == Some(csl_date_of(work.issued))
        }),
{
    let made = csl_of(work, citation_key);
    let members = made->Object_0;
    lemma_member_names_differ();
    reveal_strlit("paper-conference");
    reveal_strlit("chapter");
    reveal_strlit("book");
    reveal_strlit("thesis");
    reveal_strlit("report");
    reveal_strlit("dataset");
    reveal_strlit("preprint");
    reveal_strlit("article-journal");
    assert("paper-conference"@.len() == 16);
    assert("chapter"@.len() == 7);
    assert("book"@.len() == 4);
    assert("thesis"@.len() == 6);
    assert("report"@.len() == 6);
    assert("dataset"@.len() == 7);
    assert("preprint"@.len() == 8);
    assert("article-journal"@.len() == 15);
    assert(members[0].0 == "id"@);
    assert(members[1].0 == "type"@);
    assert(members[2].0 == "title"@);
    assert(members[3].0 == "author"@);
    assert(members[4].0 == "issued"@);
    lemma_member_at(members, "id"@, 0);
    lemma_member_at(members, "type"@, 1);
    lemma_member_at(members, "title"@, 2);
    lemma_member_at(members, "author"@, 3);
    lemma_member_at(members, "issued"@, 4);
}

/// An author in CSL has each name that is known under its own name: family and given name
/// where there is one of them, else the whole name; and the ORCID.
pub proof fn law_a_csl_author_has_each_name(author: AuthorView)
    ensures
        ({
            let made = csl_author_of(author);
            let by_parts = author.family.len() > 0 || author.given.len() > 0;
            &&& made.member("family"@) == if author.family.len() > 0 {
                Some(JsonView::Text(author.family))
            } else {
                None
            }
            &&& made.member("given"@) == if author.given.len() > 0 {
                Some(JsonView::Text(author.given))
            } else {
                None
            }
            &&& made.member("literal"@) == if !by_parts && author.literal.len() > 0 {
                Some(JsonView::Text(author.literal))
            } else {
                None
            }
            &&& author.orcid matches Some(orcid) ==> orcid.len() > 0 ==> made.member("ORCID"@)
                == Some(JsonView::Text(orcid))
            &&& author.orcid is None ==> made.member("ORCID"@) is None
        }),
{
    reveal_strlit("family");
    reveal_strlit("given");
    reveal_strlit("literal");
    reveal_strlit("ORCID");
    assert("family"@.len() == 6);
    assert("given"@.len() == 5);
    assert("literal"@.len() == 7);
    assert("ORCID"@.len() == 5);
    assert("given"@[0] != "ORCID"@[0]);
    let names = if author.family.len() > 0 || author.given.len() > 0 {
        text_member("family"@, author.family) + text_member("given"@, author.given)
    } else {
        text_member("literal"@, author.literal)
    };
    let last = match author.orcid {
        Some(orcid) => text_member("ORCID"@, orcid),
        None => Seq::empty(),
    };
    lemma_member_of_both(names, last, "family"@);
    lemma_member_of_both(
        text_member("family"@, author.family),
        text_member("given"@, author.given),
        "family"@,
    );
    lemma_text_member("family"@, author.family, "family"@);
    lemma_text_member("given"@, author.given, "family"@);
    lemma_text_member("literal"@, author.literal, "family"@);
    if author.orcid is Some {
        lemma_text_member("ORCID"@, author.orcid->0, "family"@);
    }
    lemma_member_of_both(names, last, "given"@);
    lemma_member_of_both(
        text_member("family"@, author.family),
        text_member("given"@, author.given),
        "given"@,
    );
    lemma_text_member("family"@, author.family, "given"@);
    lemma_text_member("given"@, author.given, "given"@);
    lemma_text_member("literal"@, author.literal, "given"@);
    if author.orcid is Some {
        lemma_text_member("ORCID"@, author.orcid->0, "given"@);
    }
    lemma_member_of_both(names, last, "literal"@);
    lemma_member_of_both(
        text_member("family"@, author.family),
        text_member("given"@, author.given),
        "literal"@,
    );
    lemma_text_member("family"@, author.family, "literal"@);
    lemma_text_member("given"@, author.given, "literal"@);
    lemma_text_member("literal"@, author.literal, "literal"@);
    if author.orcid is Some {
        lemma_text_member("ORCID"@, author.orcid->0, "literal"@);
    }
    lemma_member_of_both(names, last, "ORCID"@);
    lemma_member_of_both(
        text_member("family"@, author.family),
        text_member("given"@, author.given),
        "ORCID"@,
    );
    lemma_text_member("family"@, author.family, "ORCID"@);
    lemma_text_member("given"@, author.given, "ORCID"@);
    lemma_text_member("literal"@, author.literal, "ORCID"@);
    if author.orcid is Some {
        lemma_text_member("ORCID"@, author.orcid->0, "ORCID"@);
    }
}

/// A date in CSL has the parts of the date, number by number, and its text where it has
/// one.
pub proof fn law_a_csl_date_has_each_part(date: DatePartsView)
    ensures
        ({
            let made = csl_date_of(date);
            &&& made.member("date-parts"@) matches Some(JsonView::List(rows)) && rows.len()
                == date.date_parts.len() && forall|i: int, j: int|
                0 <= i < rows.len() && 0 <= j < date.date_parts[i].len() ==> rows[i] is List
                    && rows[i]->List_0.len() == date.date_parts[i].len() && #[trigger] rows[i]->List_0[j]
                    == unsigned_json(date.date_parts[i][j] as u64)
            &&& made.member("raw"@) == if date.raw.len() > 0 {
                Some(JsonView::Text(date.raw))
            } else {
                None
            }
        }),
{
    let made = csl_date_of(date);
    let members = made->Object_0;
    reveal_strlit("date-parts");
    reveal_strlit("raw");
    assert("date-parts"@.len() == 10);
    assert("raw"@.len() == 3);
    lemma_member_at(members, "date-parts"@, 0);
    let head = members.take(1);
    assert(members =~= head + text_member("raw"@, date.raw));
    lemma_member_of_both(head, text_member("raw"@, date.raw), "raw"@);
    lemma_text_member("raw"@, date.raw, "raw"@);
    assert(member_in(head, "raw"@) is None) by {
        reveal_with_fuel(member_in, 2);
    }
}

proof fn lemma_ris_line(tag: Seq<char>, value: Seq<char>, wanted: Seq<char>)
    requires
        tag.len() == 2,
        wanted.len() == 2,
    ensures
        begins_with(ris_line(tag, value), wanted + "  - "@) <==> tag == wanted,
{
    let line = ris_line(tag, value);
    let start = wanted + "  - "@;
    reveal_strlit("  - ");
    if begins_with(line, start) {
        assert(line.take(start.len() as int) == start);
        assert(line[0] == start[0] && line[1] == start[1]);
        assert(tag =~= wanted);
    }
    if tag == wanted {
        assert(line.take(start.len() as int) =~= start);
    }
}

proof fn lemma_each_line(tag: Seq<char>, values: Seq<Seq<char>>, wanted: Seq<char>)
    requires
        tag.len() == 2,
        wanted.len() == 2,
    ensures
        lines_with(each_line(tag, values), wanted + "  - "@) == if tag == wanted {
            each_line(tag, values)
        } else {
            Seq::empty()
        },
    decreases values.len(),
{
    let rows = each_line(tag, values);
    if values.len() > 0 {
        lemma_each_line(tag, values.drop_last(), wanted);
        lemma_ris_line(tag, values.last(), wanted);
        assert(rows.drop_last() =~= each_line(tag, values.drop_last()));
        assert(rows.last() == ris_line(tag, values.last()));
        if tag == wanted {
            assert(lines_with(rows, wanted + "  - "@) =~= rows);
        }
    } else {
        assert(rows =~= Seq::empty());
    }
}

proof fn lemma_ris_lines(tag: Seq<char>, value: Option<Seq<char>>, wanted: Seq<char>)
    requires
        tag.len() == 2,
        wanted.len() == 2,
    ensures
        lines_with(ris_lines(tag, value), wanted + "  - "@) == if tag == wanted {
            ris_lines(tag, value)
        } else {
            Seq::empty()
        },
{
    match value {
        Some(text) => {
            let values = seq![text];
            assert(ris_lines(tag, value) =~= each_line(tag, values));
            lemma_each_line(tag, values, wanted);
        },
        None => {},
    }
}

/// The tags of RIS have two characters and differ.
proof fn lemma_tags()
    ensures
        "TY"@.len() == 2,
        "TI"@.len() == 2,
        "AU"@.len() == 2,
        "PY"@.len() == 2,
        "JO"@.len() == 2,
        "VL"@.len() == 2,
        "IS"@.len() == 2,
        "PB"@.len() == 2,
        "UR"@.len() == 2,
        "LA"@.len() == 2,
        "AB"@.len() == 2,
        "M3"@.len() == 2,
        "SP"@.len() == 2,
        "EP"@.len() == 2,
        "SN"@.len() == 2,
        "KW"@.len() == 2,
        "DO"@.len() == 2,
        "AN"@.len() == 2,
        "ER"@.len() == 2,
        "TI"@ != "TY"@,
        "AU"@ != "TY"@,
        "AU"@ != "TI"@,
        "PY"@ != "TY"@,
        "PY"@ != "TI"@,
        "PY"@ != "AU"@,
        "JO"@ != "TY"@,
        "JO"@ != "TI"@,
        "JO"@ != "AU"@,
        "JO"@ != "PY"@,
        "VL"@ != "TY"@,
        "VL"@ != "TI"@,
        "VL"@ != "AU"@,
        "VL"@ != "PY"@,
        "VL"@ != "JO"@,
        "IS"@ != "TY"@,
        "IS"@ != "TI"@,
        "IS"@ != "AU"@,
        "IS"@ != "PY"@,
        "IS"@ != "JO"@,
        "IS"@ != "VL"@,
        "PB"@ != "TY"@,
        "PB"@ != "TI"@,
        "PB"@ != "AU"@,
        "PB"@ != "PY"@,
        "PB"@ != "JO"@,
        "PB"@ != "VL"@,
        "PB"@ != "IS"@,
        "UR"@ != "TY"@,
        "UR"@ != "TI"@,
        "UR"@ != "AU"@,
        "UR"@ != "PY"@,
        "UR"@ != "JO"@,
        "UR"@ != "VL"@,
        "UR"@ != "IS"@,
        "UR"@ != "PB"@,
        "LA"@ != "TY"@,
        "LA"@ != "TI"@,
        "LA"@ != "AU"@,
        "LA"@ != "PY"@,
        "LA"@ != "JO"@,
        "LA"@ != "VL"@,
        "LA"@ != "IS"@,
        "LA"@ != "PB"@,
        "LA"@ != "UR"@,
        "AB"@ != "TY"@,
        "AB"@ != "TI"@,
        "AB"@ != "AU"@,
        "AB"@ != "PY"@,
        "AB"@ != "JO"@,
        "AB"@ != "VL"@,
        "AB"@ != "IS"@,
        "AB"@ != "PB"@,
        "AB"@ != "UR"@,
        "AB"@ != "LA"@,
        "M3"@ != "TY"@,
        "M3"@ != "TI"@,
        "M3"@ != "AU"@,
        "M3"@ != "PY"@,
        "M3"@ != "JO"@,
        "M3"@ != "VL"@,
        "M3"@ != "IS"@,
        "M3"@ != "PB"@,
        "M3"@ != "UR"@,
        "M3"@ != "LA"@,
        "M3"@ != "AB"@,
        "SP"@ != "TY"@,
        "SP"@ != "TI"@,
        "SP"@ != "AU"@,
        "SP"@ != "PY"@,
        "SP"@ != "JO"@,
        "SP"@ != "VL"@,
        "SP"@ != "IS"@,
        "SP"@ != "PB"@,
        "SP"@ != "UR"@,
        "SP"@ != "LA"@,
        "SP"@ != "AB"@,
        "SP"@ != "M3"@,
        "EP"@ != "TY"@,
        "EP"@ != "TI"@,
        "EP"@ != "AU"@,
        "EP"@ != "PY"@,
        "EP"@ != "JO"@,
        "EP"@ != "VL"@,
        "EP"@ != "IS"@,
        "EP"@ != "PB"@,
        "EP"@ != "UR"@,
        "EP"@ != "LA"@,
        "EP"@ != "AB"@,
        "EP"@ != "M3"@,
        "EP"@ != "SP"@,
        "SN"@ != "TY"@,
        "SN"@ != "TI"@,
        "SN"@ != "AU"@,
        "SN"@ != "PY"@,
        "SN"@ != "JO"@,
        "SN"@ != "VL"@,
        "SN"@ != "IS"@,
        "SN"@ != "PB"@,
        "SN"@ != "UR"@,
        "SN"@ != "LA"@,
        "SN"@ != "AB"@,
        "SN"@ != "M3"@,
        "SN"@ != "SP"@,
        "SN"@ != "EP"@,
        "KW"@ != "TY"@,
        "KW"@ != "TI"@,
        "KW"@ != "AU"@,
        "KW"@ != "PY"@,
        "KW"@ != "JO"@,
        "KW"@ != "VL"@,
        "KW"@ != "IS"@,
        "KW"@ != "PB"@,
        "KW"@ != "UR"@,
        "KW"@ != "LA"@,
        "KW"@ != "AB"@,
        "KW"@ != "M3"@,
        "KW"@ != "SP"@,
        "KW"@ != "EP"@,
        "KW"@ != "SN"@,
        "DO"@ != "TY"@,
        "DO"@ != "TI"@,
        "DO"@ != "AU"@,
        "DO"@ != "PY"@,
        "DO"@ != "JO"@,
        "DO"@ != "VL"@,
        "DO"@ != "IS"@,
        "DO"@ != "PB"@,
        "DO"@ != "UR"@,
        "DO"@ != "LA"@,
        "DO"@ != "AB"@,
        "DO"@ != "M3"@,
        "DO"@ != "SP"@,
        "DO"@ != "EP"@,
        "DO"@ != "SN"@,
        "DO"@ != "KW"@,
        "AN"@ != "TY"@,
        "AN"@ != "TI"@,
        "AN"@ != "AU"@,
        "AN"@ != "PY"@,
        "AN"@ != "JO"@,
        "AN"@ != "VL"@,
        "AN"@ != "IS"@,
        "AN"@ != "PB"@,
        "AN"@ != "UR"@,
        "AN"@ != "LA"@,
        "AN"@ != "AB"@,
        "AN"@ != "M3"@,
        "AN"@ != "SP"@,
        "AN"@ != "EP"@,
        "AN"@ != "SN"@,
        "AN"@ != "KW"@,
        "AN"@ != "DO"@,
        "ER"@ != "TY"@,
        "ER"@ != "TI"@,
        "ER"@ != "AU"@,
        "ER"@ != "PY"@,
        "ER"@ != "JO"@,
        "ER"@ != "VL"@,
        "ER"@ != "IS"@,
        "ER"@ != "PB"@,
        "ER"@ != "UR"@,
        "ER"@ != "LA"@,
        "ER"@ != "AB"@,
        "ER"@ != "M3"@,
        "ER"@ != "SP"@,
        "ER"@ != "EP"@,
        "ER"@ != "SN"@,
        "ER"@ != "KW"@,
        "ER"@ != "DO"@,
        "ER"@ != "AN"@,
{
    reveal_strlit("TY");
    reveal_strlit("TI");
    reveal_strlit("AU");
    reveal_strlit("PY");
    reveal_strlit("JO");
    reveal_strlit("VL");
    reveal_strlit("IS");
    reveal_strlit("PB");
    reveal_strlit("UR");
    reveal_strlit("LA");
    reveal_strlit("AB");
    reveal_strlit("M3");
    reveal_strlit("SP");
    reveal_strlit("EP");
    reveal_strlit("SN");
    reveal_strlit("KW");
    reveal_strlit("DO");
    reveal_strlit("AN");
    reveal_strlit("ER");
    assert("TY"@.len() == 2);
    assert("TI"@.len() == 2);
    assert("AU"@.len() == 2);
    assert("PY"@.len() == 2);
    assert("JO"@.len() == 2);
    assert("VL"@.len() == 2);
    assert("IS"@.len() == 2);
    assert("PB"@.len() == 2);
    assert("UR"@.len() == 2);
    assert("LA"@.len() == 2);
    assert("AB"@.len() == 2);
    assert("M3"@.len() == 2);
    assert("SP"@.len() == 2);
    assert("EP"@.len() == 2);
    assert("SN"@.len() == 2);
    assert("KW"@.len() == 2);
    assert("DO"@.len() == 2);
    assert("AN"@.len() == 2);
    assert("ER"@.len() == 2);
    assert("TI"@[1] != "TY"@[1]);
    assert("AU"@[0] != "TY"@[0]);
    assert("AU"@[0] != "TI"@[0]);
    assert("PY"@[0] != "TY"@[0]);
    assert("PY"@[0] != "TI"@[0]);
    assert("PY"@[0] != "AU"@[0]);
    assert("JO"@[0] != "TY"@[0]);
    assert("JO"@[0] != "TI"@[0]);
    assert("JO"@[0] != "AU"@[0]);
    assert("JO"@[0] != "PY"@[0]);
    assert("VL"@[0] != "TY"@[0]);
    assert("VL"@[0] != "TI"@[0]);
    assert("VL"@[0] != "AU"@[0]);
    assert("VL"@[0] != "PY"@[0]);
    assert("VL"@[0] != "JO"@[0]);
    assert("IS"@[0] != "TY"@[0]);
    assert("IS"@[0] != "TI"@[0]);
    assert("IS"@[0] != "AU"@[0]);
    assert("IS"@[0] != "PY"@[0]);
    assert("IS"@[0] != "JO"@[0]);
    assert("IS"@[0] != "VL"@[0]);
    assert("PB"@[0] != "TY"@[0]);
    assert("PB"@[0] != "TI"@[0]);
    assert("PB"@[0] != "AU"@[0]);
    assert("PB"@[1] != "PY"@[1]);
    assert("PB"@[0] != "JO"@[0]);
    assert("PB"@[0] != "VL"@[0]);
    assert("PB"@[0] != "IS"@[0]);
    assert("UR"@[0] != "TY"@[0]);
    assert("UR"@[0] != "TI"@[0]);
    assert("UR"@[0] != "AU"@[0]);
    assert("UR"@[0] != "PY"@[0]);
    assert("UR"@[0] != "JO"@[0]);
    assert("UR"@[0] != "VL"@[0]);
    assert("UR"@[0] != "IS"@[0]);
    assert("UR"@[0] != "PB"@[0]);
    assert("LA"@[0] != "TY"@[0]);
    assert("LA"@[0] != "TI"@[0]);
    assert("LA"@[0] != "AU"@[0]);
    assert("LA"@[0] != "PY"@[0]);
    assert("LA"@[0] != "JO"@[0]);
    assert("LA"@[0] != "VL"@[0]);
    assert("LA"@[0] != "IS"@[0]);
    assert("LA"@[0] != "PB"@[0]);
    assert("LA"@[0] != "UR"@[0]);
    assert("AB"@[0] != "TY"@[0]);
    assert("AB"@[0] != "TI"@[0]);
    assert("AB"@[1] != "AU"@[1]);
    assert("AB"@[0] != "PY"@[0]);
    assert("AB"@[0] != "JO"@[0]);
    assert("AB"@[0] != "VL"@[0]);
    assert("AB"@[0] != "IS"@[0]);
    assert("AB"@[0] != "PB"@[0]);
    assert("AB"@[0] != "UR"@[0]);
    assert("AB"@[0] != "LA"@[0]);
    assert("M3"@[0] != "TY"@[0]);
    assert("M3"@[0] != "TI"@[0]);
    assert("M3"@[0] != "AU"@[0]);
    assert("M3"@[0] != "PY"@[0]);
    assert("M3"@[0] != "JO"@[0]);
    assert("M3"@[0] != "VL"@[0]);
    assert("M3"@[0] != "IS"@[0]);
    assert("M3"@[0] != "PB"@[0]);
    assert("M3"@[0] != "UR"@[0]);
    assert("M3"@[0] != "LA"@[0]);
    assert("M3"@[0] != "AB"@[0]);
    assert("SP"@[0] != "TY"@[0]);
    assert("SP"@[0] != "TI"@[0]);
    assert("SP"@[0] != "AU"@[0]);
    assert("SP"@[0] != "PY"@[0]);
    assert("SP"@[0] != "JO"@[0]);
    assert("SP"@[0] != "VL"@[0]);
    assert("SP"@[0] != "IS"@[0]);
    assert("SP"@[0] != "PB"@[0]);
    assert("SP"@[0] != "UR"@[0]);
    assert("SP"@[0] != "LA"@[0]);
    assert("SP"@[0] != "AB"@[0]);
    assert("SP"@[0] != "M3"@[0]);
    assert("EP"@[0] != "TY"@[0]);
    assert("EP"@[0] != "TI"@[0]);
    assert("EP"@[0] != "AU"@[0]);
    assert("EP"@[0] != "PY"@[0]);
    assert("EP"@[0] != "JO"@[0]);
    assert("EP"@[0] != "VL"@[0]);
    assert("EP"@[0] != "IS"@[0]);
    assert("EP"@[0] != "PB"@[0]);
    assert("EP"@[0] != "UR"@[0]);
    assert("EP"@[0] != "LA"@[0]);
    assert("EP"@[0] != "AB"@[0]);
    assert("EP"@[0] != "M3"@[0]);
    assert("EP"@[0] != "SP"@[0]);
    assert("SN"@[0] != "TY"@[0]);
    assert("SN"@[0] != "TI"@[0]);
    assert("SN"@[0] != "AU"@[0]);
    assert("SN"@[0] != "PY"@[0]);
    assert("SN"@[0] != "JO"@[0]);
    assert("SN"@[0] != "VL"@[0]);
    assert("SN"@[0] != "IS"@[0]);
    assert("SN"@[0] != "PB"@[0]);
    assert("SN"@[0] != "UR"@[0]);
    assert("SN"@[0] != "LA"@[0]);
    assert("SN"@[0] != "AB"@[0]);
    assert("SN"@[0] != "M3"@[0]);
    assert("SN"@[1] != "SP"@[1]);
    assert("SN"@[0] != "EP"@[0]);
    assert("KW"@[0] != "TY"@[0]);
    assert("KW"@[0] != "TI"@[0]);
    assert("KW"@[0] != "AU"@[0]);
    assert("KW"@[0] != "PY"@[0]);
    assert("KW"@[0] != "JO"@[0]);
    assert("KW"@[0] != "VL"@[0]);
    assert("KW"@[0] != "IS"@[0]);
    assert("KW"@[0] != "PB"@[0]);
    assert("KW"@[0] != "UR"@[0]);
    assert("KW"@[0] != "LA"@[0]);
    assert("KW"@[0] != "AB"@[0]);
    assert("KW"@[0] != "M3"@[0]);
    assert("KW"@[0] != "SP"@[0]);
    assert("KW"@[0] != "EP"@[0]);
    assert("KW"@[0] != "SN"@[0]);
    assert("DO"@[0] != "TY"@[0]);
    assert("DO"@[0] != "TI"@[0]);
    assert("DO"@[0] != "AU"@[0]);
    assert("DO"@[0] != "PY"@[0]);
    assert("DO"@[0] != "JO"@[0]);
    assert("DO"@[0] != "VL"@[0]);
    assert("DO"@[0] != "IS"@[0]);
    assert("DO"@[0] != "PB"@[0]);
    assert("DO"@[0] != "UR"@[0]);
    assert("DO"@[0] != "LA"@[0]);
    assert("DO"@[0] != "AB"@[0]);
    assert("DO"@[0] != "M3"@[0]);
    assert("DO"@[0] != "SP"@[0]);
    assert("DO"@[0] != "EP"@[0]);
    assert("DO"@[0] != "SN"@[0]);
    assert("DO"@[0] != "KW"@[0]);
    assert("AN"@[0] != "TY"@[0]);
    assert("AN"@[0] != "TI"@[0]);
    assert("AN"@[1] != "AU"@[1]);
    assert("AN"@[0] != "PY"@[0]);
    assert("AN"@[0] != "JO"@[0]);
    assert("AN"@[0] != "VL"@[0]);
    assert("AN"@[0] != "IS"@[0]);
    assert("AN"@[0] != "PB"@[0]);
    assert("AN"@[0] != "UR"@[0]);
    assert("AN"@[0] != "LA"@[0]);
    assert("AN"@[1] != "AB"@[1]);
    assert("AN"@[0] != "M3"@[0]);
    assert("AN"@[0] != "SP"@[0]);
    assert("AN"@[0] != "EP"@[0]);
    assert("AN"@[0] != "SN"@[0]);
    assert("AN"@[0] != "KW"@[0]);
    assert("AN"@[0] != "DO"@[0]);
    assert("ER"@[0] != "TY"@[0]);
    assert("ER"@[0] != "TI"@[0]);
    assert("ER"@[0] != "AU"@[0]);
    assert("ER"@[0] != "PY"@[0]);
    assert("ER"@[0] != "JO"@[0]);
    assert("ER"@[0] != "VL"@[0]);
    assert("ER"@[0] != "IS"@[0]);
    assert("ER"@[0] != "PB"@[0]);
    assert("ER"@[0] != "UR"@[0]);
    assert("ER"@[0] != "LA"@[0]);
    assert("ER"@[0] != "AB"@[0]);
    assert("ER"@[0] != "M3"@[0]);
    assert("ER"@[0] != "SP"@[0]);
    assert("ER"@[1] != "EP"@[1]);
    assert("ER"@[0] != "SN"@[0]);
    assert("ER"@[0] != "KW"@[0]);
    assert("ER"@[0] != "DO"@[0]);
    assert("ER"@[0] != "AN"@[0]);
}

proof fn lemma_lines_then_each(
    before: Seq<Seq<char>>,
    tag: Seq<char>,
    values: Seq<Seq<char>>,
    wanted: Seq<char>,
)
    requires
        tag.len() == 2,
        wanted.len() == 2,
    ensures
        ({
            let start = wanted + "  - "@;
            let kept = lines_with(before, start);
            let found = lines_with(before + each_line(tag, values), start);
            &&& tag != wanted ==> found == kept
            &&& tag == wanted && kept.len() == 0 ==> found == each_line(tag, values)
            &&& tag == wanted ==> found == kept + each_line(tag, values)
        }),
{
    let start = wanted + "  - "@;
    let kept = lines_with(before, start);
    lemma_lines_of_both(before, each_line(tag, values), start);
    lemma_each_line(tag, values, wanted);
    assert(kept + Seq::<Seq<char>>::empty() =~= kept);
    if kept.len() == 0 {
        assert(kept + each_line(tag, values) =~= each_line(tag, values));
    }
}

proof fn lemma_lines_then_one(
    before: Seq<Seq<char>>,
    tag: Seq<char>,
    value: Option<Seq<char>>,
    wanted: Seq<char>,
)
    requires
        tag.len() == 2,
        wanted.len() == 2,
    ensures
        ({
            let start = wanted + "  - "@;
            let kept = lines_with(before, start);
            let found = lines_with(before + ris_lines(tag, value), start);
            &&& tag != wanted ==> found == kept
            &&& tag == wanted && kept.len() == 0 ==> found == ris_lines(tag, value)
        }),
{
    let start = wanted + "  - "@;
    let kept = lines_with(before, start);
    lemma_lines_of_both(before, ris_lines(tag, value), start);
    lemma_ris_lines(tag, value, wanted);
    assert(kept + Seq::<Seq<char>>::empty() =~= kept);
    if kept.len() == 0 {
        assert(kept + ris_lines(tag, value) =~= ris_lines(tag, value));
    }
}

/// The lines of a tag are looked up among all lines of an entry.
#[verifier::rlimit(40)]
proof fn lemma_ris_entry_lines(work: WorkRecordView, wanted: Seq<char>)
    requires
        wanted.len() == 2,
    ensures
        wanted == "TY"@ ==> lines_with(ris_of(work), wanted + "  - "@) == each_line("TY"@, seq![crate::citations::ris_type(work.work_type)]),
        wanted == "TI"@ ==> lines_with(ris_of(work), wanted + "  - "@) == each_line("TI"@, seq![work.title]),
        wanted == "AU"@ ==> lines_with(ris_of(work), wanted + "  - "@) == each_line("AU"@, ris_authors(work.authors)),
        wanted == "PY"@ ==> lines_with(ris_of(work), wanted + "  - "@) == ris_lines("PY"@, year_text(work)),
        wanted == "JO"@ ==> lines_with(ris_of(work), wanted + "  - "@) == ris_lines("JO"@, filled_text(work.container_title)),
        wanted == "VL"@ ==> lines_with(ris_of(work), wanted + "  - "@) == ris_lines("VL"@, filled_text(work.volume)),
        wanted == "IS"@ ==> lines_with(ris_of(work), wanted + "  - "@) == ris_lines("IS"@, filled_text(work.issue)),
        wanted == "PB"@ ==> lines_with(ris_of(work), wanted + "  - "@) == ris_lines("PB"@, filled_text(work.publisher)),
        wanted == "UR"@ ==> lines_with(ris_of(work), wanted + "  - "@) == ris_lines("UR"@, filled_text(work.url)),
        wanted == "LA"@ ==> lines_with(ris_of(work), wanted + "  - "@) == ris_lines("LA"@, filled_text(work.language)),
        wanted == "AB"@ ==> lines_with(ris_of(work), wanted + "  - "@) == ris_lines("AB"@, filled_text(work.abstract_text)),
        wanted == "M3"@ ==> lines_with(ris_of(work), wanted + "  - "@) == ris_lines("M3"@, filled_text(work.article_number)),
        wanted == "SP"@ ==> lines_with(ris_of(work), wanted + "  - "@) == ris_lines("SP"@, first_page(work.page)),
        wanted == "EP"@ ==> lines_with(ris_of(work), wanted + "  - "@) == ris_lines("EP"@, last_page(work.page)),
        wanted == "SN"@ ==> lines_with(ris_of(work), wanted + "  - "@) == each_line("SN"@, work.issn) + each_line("SN"@, work.isbn),
        wanted == "KW"@ ==> lines_with(ris_of(work), wanted + "  - "@) == each_line("KW"@, work.keywords),
        wanted == "DO"@ ==> lines_with(ris_of(work), wanted + "  - "@) == ris_lines("DO"@, doi_in(work.ids)),
        wanted == "AN"@ ==> lines_with(ris_of(work), wanted + "  - "@) == ris_lines("AN"@, crate::citations::accession(work.ids)),
        wanted == "ER"@ ==> lines_with(ris_of(work), wanted + "  - "@) == each_line("ER"@, seq![Seq::<char>::empty()]),
{
    lemma_tags();
    let start = wanted + "  - "@;
    let s0 = Seq::<Seq<char>>::empty();
    assert(lines_with(s0, start).len() == 0);
    let s1 = s0 + each_line("TY"@, seq![crate::citations::ris_type(work.work_type)]);
    lemma_lines_then_each(s0, "TY"@, seq![crate::citations::ris_type(work.work_type)], wanted);
    let s2 = s1 + each_line("TI"@, seq![work.title]);
    lemma_lines_then_each(s1, "TI"@, seq![work.title], wanted);
    let s3 = s2 + each_line("AU"@, ris_authors(work.authors));
    lemma_lines_then_each(s2, "AU"@, ris_authors(work.authors), wanted);
    let s4 = s3 + ris_lines("PY"@, year_text(work));
    lemma_lines_then_one(s3, "PY"@, year_text(work), wanted);
    let s5 = s4 + ris_lines("JO"@, filled_text(work.container_title));
    lemma_lines_then_one(s4, "JO"@, filled_text(work.container_title), wanted);
    let s6 = s5 + ris_lines("VL"@, filled_text(work.volume));
    lemma_lines_then_one(s5, "VL"@, filled_text(work.volume), wanted);
    let s7 = s6 + ris_lines("IS"@, filled_text(work.issue));
    lemma_lines_then_one(s6, "IS"@, filled_text(work.issue), wanted);
    let s8 = s7 + ris_lines("PB"@, filled_text(work.publisher));
    lemma_lines_then_one(s7, "PB"@, filled_text(work.publisher), wanted);
    let s9 = s8 + ris_lines("UR"@, filled_text(work.url));
    lemma_lines_then_one(s8, "UR"@, filled_text(work.url), wanted);
    let s10 = s9 + ris_lines("LA"@, filled_text(work.language));
    lemma_lines_then_one(s9, "LA"@, filled_text(work.language), wanted);
    let s11 = s10 + ris_lines("AB"@, filled_text(work.abstract_text));
    lemma_lines_then_one(s10, "AB"@, filled_text(work.abstract_text), wanted);
    let s12 = s11 + ris_lines("M3"@, filled_text(work.article_number));
    lemma_lines_then_one(s11, "M3"@, filled_text(work.article_number), wanted);
    let s13 = s12 + ris_lines("SP"@, first_page(work.page));
    lemma_lines_then_one(s12, "SP"@, first_page(work.page), wanted);
    let s14 = s13 + ris_lines("EP"@, last_page(work.page));
    lemma_lines_then_one(s13, "EP"@, last_page(work.page), wanted);
    let s15 = s14 + each_line("SN"@, work.issn);
    lemma_lines_then_each(s14, "SN"@, work.issn, wanted);
    let s16 = s15 + each_line("SN"@, work.isbn);
    lemma_lines_then_each(s15, "SN"@, work.isbn, wanted);
    let s17 = s16 + each_line("KW"@, work.keywords);
    lemma_lines_then_each(s16, "KW"@, work.keywords, wanted);
    let s18 = s17 + ris_lines("DO"@, doi_in(work.ids));
    lemma_lines_then_one(s17, "DO"@, doi_in(work.ids), wanted);
    let s19 = s18 + ris_lines("AN"@, crate::citations::accession(work.ids));
    lemma_lines_then_one(s18, "AN"@, crate::citations::accession(work.ids), wanted);
    let s20 = s19 + each_line("ER"@, seq![Seq::<char>::empty()]);
    lemma_lines_then_each(s19, "ER"@, seq![Seq::<char>::empty()], wanted);
    assert(ris_of(work) =~= s20);
}

/// The tags are written with their dashes as one.
proof fn lemma_tag_starts()
    ensures
        "TY"@ + "  - "@ == "TY  - "@,
        "TI"@ + "  - "@ == "TI  - "@,
        "AU"@ + "  - "@ == "AU  - "@,
        "PY"@ + "  - "@ == "PY  - "@,
        "JO"@ + "  - "@ == "JO  - "@,
        "VL"@ + "  - "@ == "VL  - "@,
        "IS"@ + "  - "@ == "IS  - "@,
        "PB"@ + "  - "@ == "PB  - "@,
        "UR"@ + "  - "@ == "UR  - "@,
        "LA"@ + "  - "@ == "LA  - "@,
        "AB"@ + "  - "@ == "AB  - "@,
        "M3"@ + "  - "@ == "M3  - "@,
        "SP"@ + "  - "@ == "SP  - "@,
        "EP"@ + "  - "@ == "EP  - "@,
        "SN"@ + "  - "@ == "SN  - "@,
        "KW"@ + "  - "@ == "KW  - "@,
        "DO"@ + "  - "@ == "DO  - "@,
        "AN"@ + "  - "@ == "AN  - "@,
        "ER"@ + "  - "@ == "ER  - "@,
{
    reveal_strlit("  - ");
    reveal_strlit("TY");
    reveal_strlit("TY  - ");
    assert("TY"@ + "  - "@ =~= "TY  - "@);
    reveal_strlit("TI");
    reveal_strlit("TI  - ");
    assert("TI"@ + "  - "@ =~= "TI  - "@);
    reveal_strlit("AU");
    reveal_strlit("AU  - ");
    assert("AU"@ + "  - "@ =~= "AU  - "@);
    reveal_strlit("PY");
    reveal_strlit("PY  - ");
    assert("PY"@ + "  - "@ =~= "PY  - "@);
    reveal_strlit("JO");
    reveal_strlit("JO  - ");
    assert("JO"@ + "  - "@ =~= "JO  - "@);
    reveal_strlit("VL");
    reveal_strlit("VL  - ");
    assert("VL"@ + "  - "@ =~= "VL  - "@);
    reveal_strlit("IS");
    reveal_strlit("IS  - ");
    assert("IS"@ + "  - "@ =~= "IS  - "@);
    reveal_strlit("PB");
    reveal_strlit("PB  - ");
    assert("PB"@ + "  - "@ =~= "PB  - "@);
    reveal_strlit("UR");
    reveal_strlit("UR  - ");
    assert("UR"@ + "  - "@ =~= "UR  - "@);
    reveal_strlit("LA");
    reveal_strlit("LA  - ");
    assert("LA"@ + "  - "@ =~= "LA  - "@);
    reveal_strlit("AB");
    reveal_strlit("AB  - ");
    assert("AB"@ + "  - "@ =~= "AB  - "@);
    reveal_strlit("M3");
    reveal_strlit("M3  - ");
    assert("M3"@ + "  - "@ =~= "M3  - "@);
    reveal_strlit("SP");
    reveal_strlit("SP  - ");
    assert("SP"@ + "  - "@ =~= "SP  - "@);
    reveal_strlit("EP");
    reveal_strlit("EP  - ");
    assert("EP"@ + "  - "@ =~= "EP  - "@);
    reveal_strlit("SN");
    reveal_strlit("SN  - ");
    assert("SN"@ + "  - "@ =~= "SN  - "@);
    reveal_strlit("KW");
    reveal_strlit("KW  - ");
    assert("KW"@ + "  - "@ =~= "KW  - "@);
    reveal_strlit("DO");
    reveal_strlit("DO  - ");
    assert("DO"@ + "  - "@ =~= "DO  - "@);
    reveal_strlit("AN");
    reveal_strlit("AN  - ");
    assert("AN"@ + "  - "@ =~= "AN  - "@);
    reveal_strlit("ER");
    reveal_strlit("ER  - ");
    assert("ER"@ + "  - "@ =~= "ER  - "@);
}

/// Each line of RIS carries its own datum: for each datum that a work has there is
/// exactly one line with its tag, which holds the datum; for one that it lacks there is
/// none. Lists have a line for each item, in order.
pub proof fn law_each_ris_line_has_its_datum(work: WorkRecordView)
    ensures
        ({
            let lines = ris_of(work);
            &&& lines_with(lines, "TI  - "@) == seq!["TI  - "@ + work.title]
            &&& lines_with(lines, "JO  - "@) == (if work.container_title.len() > 0 {
                seq!["JO  - "@ + work.container_title]
            } else {
                Seq::empty()
            })
            &&& lines_with(lines, "VL  - "@) == (if work.volume.len() > 0 {
                seq!["VL  - "@ + work.volume]
            } else {
                Seq::empty()
            })
            &&& lines_with(lines, "IS  - "@) == (if work.issue.len() > 0 {
                seq!["IS  - "@ + work.issue]
            } else {
                Seq::empty()
            })
            &&& lines_with(lines, "PB  - "@) == (if work.publisher.len() > 0 {
                seq!["PB  - "@ + work.publisher]
            } else {
                Seq::empty()
            })
            &&& lines_with(lines, "UR  - "@) == (if work.url.len() > 0 {
                seq!["UR  - "@ + work.url]
            } else {
                Seq::empty()
            })
            &&& lines_with(lines, "LA  - "@) == (if work.language.len() > 0 {
                seq!["LA  - "@ + work.language]
            } else {
                Seq::empty()
            })
            &&& lines_with(lines, "AB  - "@) == (if work.abstract_text.len() > 0 {
                seq!["AB  - "@ + work.abstract_text]
            } else {
                Seq::empty()
            })
            &&& lines_with(lines, "M3  - "@) == (if work.article_number.len() > 0 {
                seq!["M3  - "@ + work.article_number]
            } else {
                Seq::empty()
            })
            &&& year_of(work) matches Some(year) ==> lines_with(lines, "PY  - "@) == seq![
                "PY  - "@ + decimal(year as nat),
            ]
            &&& year_of(work) is None ==> lines_with(lines, "PY  - "@) == Seq::<Seq<char>>::empty()
            &&& doi_in(work.ids) matches Some(doi) ==> lines_with(lines, "DO  - "@) == seq![
                "DO  - "@ + doi,
            ]
            &&& doi_in(work.ids) is None ==> lines_with(lines, "DO  - "@)
                == Seq::<Seq<char>>::empty()
            &&& lines_with(lines, "AN  - "@) == (if work.ids.contains_key("arxiv"@) {
                seq!["AN  - "@ + ("arXiv:"@ + work.ids["arxiv"@])]
            } else {
                Seq::empty()
            })
            &&& lines_with(lines, "AU  - "@) == Seq::new(
                work.authors.len(),
                |i: int|
                    "AU  - "@ + (if work.authors[i].family.len() > 0 {
                        work.authors[i].family + ", "@ + work.authors[i].given
                    } else {
                        work.authors[i].literal
                    }),
            )
            &&& lines_with(lines, "KW  - "@) == Seq::new(
                work.keywords.len(),
                |i: int| "KW  - "@ + work.keywords[i],
            )
            &&& lines_with(lines, "SN  - "@) == Seq::new(
                work.issn.len(),
                |i: int| "SN  - "@ + work.issn[i],
            ) + Seq::new(work.isbn.len(), |i: int| "SN  - "@ + work.isbn[i])
        }),
{
    lemma_tags();
    lemma_tag_starts();
    let lines = ris_of(work);
    lemma_ris_entry_lines(work, "TY"@);
    lemma_ris_entry_lines(work, "TI"@);
    lemma_ris_entry_lines(work, "AU"@);
    lemma_ris_entry_lines(work, "PY"@);
    lemma_ris_entry_lines(work, "JO"@);
    lemma_ris_entry_lines(work, "VL"@);
    lemma_ris_entry_lines(work, "IS"@);
    lemma_ris_entry_lines(work, "PB"@);
    lemma_ris_entry_lines(work, "UR"@);
    lemma_ris_entry_lines(work, "LA"@);
    lemma_ris_entry_lines(work, "AB"@);
    lemma_ris_entry_lines(work, "M3"@);
    lemma_ris_entry_lines(work, "SP"@);
    lemma_ris_entry_lines(work, "EP"@);
    lemma_ris_entry_lines(work, "SN"@);
    lemma_ris_entry_lines(work, "KW"@);
    lemma_ris_entry_lines(work, "DO"@);
    lemma_ris_entry_lines(work, "AN"@);
    lemma_ris_entry_lines(work, "ER"@);
    assert(lines_with(lines, "TI  - "@) =~= seq!["TI  - "@ + work.title]);
    assert(lines_with(lines, "AU  - "@) =~= Seq::new(
        work.authors.len(),
        |i: int|
            "AU  - "@ + (if work.authors[i].family.len() > 0 {
                work.authors[i].family + ", "@ + work.authors[i].given
            } else {
                work.authors[i].literal
            }),
    ));
    assert(lines_with(lines, "KW  - "@) =~= Seq::new(
        work.keywords.len(),
        |i: int| "KW  - "@ + work.keywords[i],
    ));
    assert(lines_with(lines, "SN  - "@) =~= Seq::new(
        work.issn.len(),
        |i: int| "SN  - "@ + work.issn[i],
    ) + Seq::new(work.isbn.len(), |i: int| "SN  - "@ + work.isbn[i]));
}

/// An entry is headed by the type that its form has for the type of the work, and by its
/// citation key; the fields follow, and the lines of RIS end with their own end.
pub proof fn law_entries_are_headed_by_their_type(work: WorkRecordView, key: Seq<char>)
    ensures
        ({
            let entry = bibtex_of(work, key);
            let rest = key + ",\n"@ + joined(bibtex_fields(work), ",\n"@) + "\n}\n"@;
            let lines = ris_of(work);
            &&& work.work_type == "paper-conference"@ ==> entry == "@inproceedings{"@ + rest && lines[0]
                == "TY  - CPAPER"@
            &&& work.work_type == "chapter"@ ==> entry == "@incollection{"@ + rest && lines[0]
                == "TY  - CHAP"@
            &&& work.work_type == "book"@ ==> entry == "@book{"@ + rest && lines[0]
                == "TY  - BOOK"@
            &&& work.work_type == "thesis"@ ==> entry == "@phdthesis{"@ + rest && lines[0]
                == "TY  - THES"@
            &&& work.work_type == "report"@ ==> entry == "@techreport{"@ + rest && lines[0]
                == "TY  - RPRT"@
            &&& work.work_type == "article-journal"@ ==> entry == "@article{"@ + rest && lines[0]
                == "TY  - JOUR"@
            &&& work.work_type == "preprint"@ ==> entry == "@article{"@ + rest && lines[0]
                == "TY  - JOUR"@
            &&& lines.last() == "ER  - "@
        }),
{
    let rest = key + ",\n"@ + joined(bibtex_fields(work), ",\n"@) + "\n}\n"@;
    let lines = ris_of(work);
    reveal_strlit("paper-conference");
    reveal_strlit("chapter");
    reveal_strlit("book");
    reveal_strlit("thesis");
    reveal_strlit("report");
    reveal_strlit("article-journal");
    reveal_strlit("preprint");
    assert("paper-conference"@.len() == 16);
    assert("chapter"@.len() == 7);
    assert("book"@.len() == 4);
    assert("thesis"@.len() == 6);
    assert("report"@.len() == 6);
    assert("article-journal"@.len() == 15);
    assert("preprint"@.len() == 8);
    assert("report"@[0] != "thesis"@[0]);
    reveal_strlit("@");
    reveal_strlit("{");
    reveal_strlit("TY");
    reveal_strlit("  - ");
    reveal_strlit("ER");
    reveal_strlit("ER  - ");
    assert("ER"@ + "  - "@ + Seq::<char>::empty() =~= "ER  - "@);
    reveal_strlit("article");
    reveal_strlit("@article{");
    assert("@"@ + "article"@ + "{"@ =~= "@article{"@);
    reveal_strlit("book");
    reveal_strlit("@book{");
    assert("@"@ + "book"@ + "{"@ =~= "@book{"@);
    reveal_strlit("incollection");
    reveal_strlit("@incollection{");
    assert("@"@ + "incollection"@ + "{"@ =~= "@incollection{"@);
    reveal_strlit("inproceedings");
    reveal_strlit("@inproceedings{");
    assert("@"@ + "inproceedings"@ + "{"@ =~= "@inproceedings{"@);
    reveal_strlit("phdthesis");
    reveal_strlit("@phdthesis{");
    assert("@"@ + "phdthesis"@ + "{"@ =~= "@phdthesis{"@);
    reveal_strlit("techreport");
    reveal_strlit("@techreport{");
    assert("@"@ + "techreport"@ + "{"@ =~= "@techreport{"@);
    reveal_strlit("BOOK");
    reveal_strlit("TY  - BOOK");
    assert("TY"@ + "  - "@ + "BOOK"@ =~= "TY  - BOOK"@);
    reveal_strlit("CHAP");
    reveal_strlit("TY  - CHAP");
    assert("TY"@ + "  - "@ + "CHAP"@ =~= "TY  - CHAP"@);
    reveal_strlit("CPAPER");
    reveal_strlit("TY  - CPAPER");
    assert("TY"@ + "  - "@ + "CPAPER"@ =~= "TY  - CPAPER"@);
    reveal_strlit("JOUR");
    reveal_strlit("TY  - JOUR");
    assert("TY"@ + "  - "@ + "JOUR"@ =~= "TY  - JOUR"@);
    reveal_strlit("RPRT");
    reveal_strlit("TY  - RPRT");
    assert("TY"@ + "  - "@ + "RPRT"@ =~= "TY  - RPRT"@);
    reveal_strlit("THES");
    reveal_strlit("TY  - THES");
    assert("TY"@ + "  - "@ + "THES"@ =~= "TY  - THES"@);
    let head = "@"@ + crate::citations::bibtex_type(work.work_type) + "{"@;
    assert(bibtex_of(work, key) =~= head + rest);
    assert(lines[0] == ris_line("TY"@, crate::citations::ris_type(work.work_type)));
    assert(lines.last() == ris_line("ER"@, Seq::empty()));
}

/// A citation lacks exactly what is not there: a title, a named author, a year, the venue
/// of a journal article, an identifier that lasts.
pub proof fn law_audits_name_what_a_citation_lacks(work: WorkRecordView)
    ensures
        ({
            let missing = missing_of(work);
            &&& missing.contains("title"@) <==> work.title.len() == 0
            &&& missing.contains("author"@) <==> !any_named(work.authors)
            &&& missing.contains("issued"@) <==> year_of(work) is None
            &&& missing.contains("container-title"@) <==> work.work_type == "article-journal"@ && work.container_title.len() == 0
            &&& missing.contains("persistent-identifier"@) <==> doi_in(work.ids) is None && arxiv_in(work.ids) is None && openalex_in(work.ids) is None
            &&& missing.len() == 0 <==> work.title.len() > 0 && any_named(work.authors) && year_of(
                work,
            ) is Some && !(work.work_type == "article-journal"@ && work.container_title.len() == 0)
                && (doi_in(work.ids) is Some || arxiv_in(work.ids) is Some || openalex_in(
                work.ids,
            ) is Some)
        }),
{
    reveal_strlit("title");
    reveal_strlit("author");
    reveal_strlit("issued");
    reveal_strlit("container-title");
    reveal_strlit("persistent-identifier");
    assert("title"@.len() == 5);
    assert("author"@.len() == 6);
    assert("issued"@.len() == 6);
    assert("container-title"@.len() == 15);
    assert("persistent-identifier"@.len() == 21);
    assert("author"@[0] != "issued"@[0]);
    lemma_missing(work, "title"@);
    lemma_missing(work, "author"@);
    lemma_missing(work, "issued"@);
    lemma_missing(work, "container-title"@);
    lemma_missing(work, "persistent-identifier"@);
}

proof fn lemma_missing(work: WorkRecordView, text: Seq<char>)
    ensures
        missing_of(work).contains(text) <==> {
            ||| (work.title.len() == 0) && text == "title"@
            ||| (!any_named(work.authors)) && text == "author"@
            ||| (year_of(work) is None) && text == "issued"@
            ||| (work.work_type == "article-journal"@ && work.container_title.len() == 0) && text == "container-title"@
            ||| (doi_in(work.ids) is None && arxiv_in(work.ids) is None && openalex_in(work.ids) is None) && text == "persistent-identifier"@
        },
{
    let s0 = Seq::<Seq<char>>::empty();
    let s1 = s0 + note_if(work.title.len() == 0, "title"@);
    lemma_then_noted(s0, work.title.len() == 0, "title"@, text);
    let s2 = s1 + note_if(!any_named(work.authors), "author"@);
    lemma_then_noted(s1, !any_named(work.authors), "author"@, text);
    let s3 = s2 + note_if(year_of(work) is None, "issued"@);
    lemma_then_noted(s2, year_of(work) is None, "issued"@, text);
    let s4 = s3 + note_if(work.work_type == "article-journal"@ && work.container_title.len() == 0, "container-title"@);
    lemma_then_noted(s3, work.work_type == "article-journal"@ && work.container_title.len() == 0, "container-title"@, text);
    let s5 = s4 + note_if(doi_in(work.ids) is None && arxiv_in(work.ids) is None && openalex_in(work.ids) is None, "persistent-identifier"@);
    lemma_then_noted(s4, doi_in(work.ids) is None && arxiv_in(work.ids) is None && openalex_in(work.ids) is None, "persistent-identifier"@, text);
    assert(missing_of(work) =~= s5);
}

/// An audit lists a work exactly where its citation lacks something, with what it lacks.
pub proof fn law_audits_list_the_incomplete_citations(
    works: Seq<(Seq<char>, WorkRecordView)>,
    listed: IncompleteCitationView,
)
    ensures
        incomplete_of(works).contains(listed) <==> exists|i: int|
            0 <= i < works.len() && listed.work_id == (#[trigger] works[i]).0
                && listed.missing_fields == missing_of(works[i].1) && listed.missing_fields.len()
                > 0,
    decreases works.len(),
{
    let all = incomplete_of(works);
    if works.len() > 0 {
        let fewer = works.drop_last();
        let rest = incomplete_of(fewer);
        law_audits_list_the_incomplete_citations(fewer, listed);
        if all.contains(listed) {
            let k = choose|k: int| 0 <= k < all.len() && all[k] == listed;
            if k < rest.len() {
                assert(rest[k] == listed);
                let i = choose|i: int|
                    0 <= i < fewer.len() && listed.work_id == (#[trigger] fewer[i]).0
                        && listed.missing_fields == missing_of(fewer[i].1)
                        && listed.missing_fields.len() > 0;
                assert(works[i] == fewer[i]);
            } else {
                assert(works[works.len() - 1].0 == listed.work_id);
            }
        }
        if exists|i: int|
            0 <= i < works.len() && listed.work_id == (#[trigger] works[i]).0
                && listed.missing_fields == missing_of(works[i].1) && listed.missing_fields.len()
                > 0 {
            let i = choose|i: int|
                0 <= i < works.len() && listed.work_id == (#[trigger] works[i]).0
                    && listed.missing_fields == missing_of(works[i].1)
                    && listed.missing_fields.len() > 0;
            if i < works.len() - 1 {
                assert(fewer[i] == works[i]);
                let k = choose|k: int| 0 <= k < rest.len() && rest[k] == listed;
                assert(all[k] == listed);
            } else {
                assert(all[all.len() - 1] == listed);
            }
        }
    }
}

/// The key that is tried at a place: the base, then the base with two, three and so on.
pub open spec fn numbered(base: Seq<char>, n: nat) -> Seq<char> {
    if n == 0 {
        base
    } else {
        base + decimal(n + 1)
    }
}

proof fn lemma_free_key(base: Seq<char>, used: Seq<Seq<char>>, n: nat, tries: nat)
    ensures
        exists|m: nat|
            n <= m && free_key(base, used, n, tries) == #[trigger] numbered(base, m) && forall|
                k: nat,
            |
                n <= k < m ==> used.contains(#[trigger] numbered(base, k)),
    decreases tries,
{
    if tries == 0 || !used.contains(crate::citations::key_candidate(base, n)) {
        assert(free_key(base, used, n, tries) == numbered(base, n));
    } else {
        lemma_free_key(base, used, n + 1, (tries - 1) as nat);
        let m = choose|m: nat|
            n + 1 <= m && free_key(base, used, n + 1, (tries - 1) as nat) == #[trigger] numbered(
                base,
                m,
            ) && forall|k: nat| n + 1 <= k < m ==> used.contains(#[trigger] numbered(base, k));
        assert(free_key(base, used, n, tries) == numbered(base, m));
        assert forall|k: nat| n <= k < m implies used.contains(#[trigger] numbered(base, k)) by {
            if k == n {
                assert(numbered(base, n) == crate::citations::key_candidate(base, n));
            }
        }
    }
}

/// The citation key of a work is made of its first author, its year and a word of its
/// title; where that is used, it is the first of those numbered from two on that is not.
pub proof fn law_keys_are_numbered_from_two_on(work: WorkRecordView, used: Seq<Seq<char>>)
    ensures
        !used.contains(key_base(work)) ==> key_of(work, used) == key_base(work),
        exists|m: nat|
            key_of(work, used) == #[trigger] numbered(key_base(work), m) && forall|k: nat|
                k < m ==> used.contains(#[trigger] numbered(key_base(work), k)),
{
    lemma_free_key(key_base(work), used, 0, used.len());
    assert(crate::citations::key_candidate(key_base(work), 0) == key_base(work));
}

/// The base of a citation key is made of the family name of the first author, or of the
/// whole name where there is none, of the year, and of the first word of the title that
/// has a letter.
pub proof fn law_keys_name_author_year_and_title(work: WorkRecordView)
    ensures
        ({
            let author = if work.authors.len() == 0 {
                "anonymous"@
            } else if work.authors[0].family.len() > 0 {
                work.authors[0].family
            } else {
                work.authors[0].literal
            };
            let year = match year_of(work) {
                Some(value) => decimal(value as nat),
                None => "nd"@,
            };
            let word = key_word(words_of(work.title));
            key_base(work) == replaced(slug(author, "anonymous"@), "-"@, Seq::empty()) + year
                + replaced(slug(word, "work"@), "-"@, Seq::empty())
        }),
{
}

/// The word of a title that goes into a key is the first that has a letter.
pub proof fn law_the_key_word_has_a_letter(words: Seq<Seq<char>>, i: int)
    requires
        0 <= i < words.len(),
        has_letter(words[i]),
        forall|k: int| 0 <= k < i ==> !has_letter(#[trigger] words[k]),
    ensures
        key_word(words) == words[i],
    decreases words.len(),
{
    if i > 0 {
        let rest = words.skip(1);
        assert(!has_letter(words[0]));
        assert forall|k: int| 0 <= k < i - 1 implies !has_letter(#[trigger] rest[k]) by {
            assert(rest[k] == words[k + 1]);
        }
        law_the_key_word_has_a_letter(rest, i - 1);
    }
}

/// The text has neither a hyphen nor a dash.
pub open spec fn no_dash(s: Seq<char>) -> bool {
    forall|i: int|
        0 <= i < s.len() ==> #[trigger] s[i] != '-' && s[i] != '\u{2013}' && s[i] != '\u{2014}'
}

proof fn lemma_dashes()
    ensures
        forall|c: char| #[trigger]
            "-\u{2013}\u{2014}"@.contains(c) <==> c == '-' || c == '\u{2013}' || c == '\u{2014}',
{
    reveal_strlit("-\u{2013}\u{2014}");
    let dashes = "-\u{2013}\u{2014}"@;
    assert(dashes.len() == 3);
    assert(dashes[0] == '-' && dashes[1] == '\u{2013}' && dashes[2] == '\u{2014}');
}

proof fn lemma_first_dash(before: Seq<char>, rest: Seq<char>)
    requires
        no_dash(before),
        rest.len() > 0 ==> rest[0] == '-',
    ensures
        first_of(before + rest, "-\u{2013}\u{2014}"@) == before.len(),
    decreases before.len(),
{
    lemma_dashes();
    let all = before + rest;
    if before.len() > 0 {
        assert(all[0] == before[0]);
        assert(all.drop_first() =~= before.skip(1) + rest);
        assert forall|i: int| 0 <= i < before.skip(1).len() implies #[trigger] before.skip(1)[i]
            != '-' && before.skip(1)[i] != '\u{2013}' && before.skip(1)[i] != '\u{2014}' by {
            assert(before.skip(1)[i] == before[i + 1]);
        }
        lemma_first_dash(before.skip(1), rest);
    } else {
        assert(all =~= rest);
    }
}

/// A range of pages has a first and a last page, which stand before and behind its first
/// hyphen; a single page is the first alone.
pub proof fn law_page_ranges_have_two_ends(first: Seq<char>, last: Seq<char>)
    requires
        no_dash(first),
        first.len() > 0,
        trimmed(first + "-"@ + last) == first + "-"@ + last,
        trimmed(first) == first,
        trimmed(last) == last,
    ensures
        first_page(first + "-"@ + last) == Some(first),
        last_page(first + "-"@ + last) == Some(last),
        first_page(first) == Some(first),
        last_page(first) is None,
{
    reveal_strlit("-");
    let pages = first + "-"@ + last;
    let rest = "-"@ + last;
    assert(pages =~= first + rest);
    lemma_first_dash(first, rest);
    lemma_first_dash(first, Seq::empty());
    assert(first + Seq::<char>::empty() =~= first);
    let at = first.len() as int;
    assert(pages.take(at) =~= first);
    assert(pages.skip(at + 1) =~= last);
}

/// A library holds the entry of each of its works in each of its forms, under the key of
/// the work.
pub proof fn law_libraries_hold_every_entry(
    works: Seq<(Seq<char>, WorkRecordView)>,
    keys: Seq<Seq<char>>,
    i: int,
)
    requires
        0 <= i < works.len(),
        keys.len() == works.len(),
    ensures
        library_csl(works, keys).len() == works.len(),
        library_csl(works, keys)[i] == csl_of(works[i].1, keys[i]),
        exists|before: Seq<char>, after: Seq<char>|
            library_bibtex(works, keys) == #[trigger] (before + bibtex_of(works[i].1, keys[i])
                + after),
        exists|before: Seq<char>, after: Seq<char>|
            library_ris(works) == #[trigger] (before + joined(ris_of(works[i].1), "\n"@) + after),
{
    lemma_bibtex_held(works, keys, i);
    lemma_ris_held(works, i);
}

proof fn lemma_bibtex_held(
    works: Seq<(Seq<char>, WorkRecordView)>,
    keys: Seq<Seq<char>>,
    i: int,
)
    requires
        0 <= i < works.len(),
    ensures
        exists|before: Seq<char>, after: Seq<char>|
            library_bibtex(works, keys) == #[trigger] (before + bibtex_of(works[i].1, keys[i])
                + after),
    decreases works.len(),
{
    let n = works.len() - 1;
    let fewer = works.drop_last();
    let entry = bibtex_of(works[n].1, keys[n]);
    let whole = library_bibtex(works, keys);
    if i < n {
        lemma_bibtex_held(fewer, keys, i);
        assert(fewer[i] == works[i]);
        let own = bibtex_of(works[i].1, keys[i]);
        let (before, after) = choose|before: Seq<char>, after: Seq<char>|
            library_bibtex(fewer, keys) == #[trigger] (before + own + after);
        assert(whole =~= before + own + (after + entry + "\n"@));
    } else {
        assert(whole =~= library_bibtex(fewer, keys) + entry + "\n"@);
    }
}

proof fn lemma_ris_held(works: Seq<(Seq<char>, WorkRecordView)>, i: int)
    requires
        0 <= i < works.len(),
    ensures
        exists|before: Seq<char>, after: Seq<char>|
            library_ris(works) == #[trigger] (before + joined(ris_of(works[i].1), "\n"@) + after),
    decreases works.len(),
{
    let n = works.len() - 1;
    let fewer = works.drop_last();
    let entry = joined(ris_of(works[n].1), "\n"@);
    let whole = library_ris(works);
    if i < n {
        lemma_ris_held(fewer, i);
        assert(fewer[i] == works[i]);
        let own = joined(ris_of(works[i].1), "\n"@);
        let (before, after) = choose|before: Seq<char>, after: Seq<char>|
            library_ris(fewer) == #[trigger] (before + own + after);
        assert(whole =~= before + own + (after + entry + "\n"@));
    } else {
        assert(whole =~= library_ris(fewer) + entry + "\n"@);
    }
}

} // verus!
