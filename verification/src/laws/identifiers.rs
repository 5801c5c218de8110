//! What identifiers, titles and marked-up texts are taken for.

use crate::text::{
    ascii_digit, ascii_lower, ascii_lower_char, begins_with, finishes_with, lowered, past_last_of,
    trimmed, trimmed_end_of, trimmed_start_of, white_space,
};
use crate::util::{
    alphanumeric, alphanumerics, arxiv_of, decimal_digit, doi_of, doi_slash_at, fingerprint,
    fingerprint_of, hex_digit, hexadecimal, hyphenated, last_segment, lemma_arxiv_chars,
    lemma_past_last, lemma_trimmed_end_of, lemma_trimmed_is_whole, openalex_of, slug, slug_char,
    untagged, without_arxiv_prefix, without_doi_prefix, without_pdf_suffix,
};
use vstd::prelude::*;
use vstd::utf8::is_ascii_chars;

verus! {

/// What a DOI in normal form begins and ends with.
proof fn lemma_doi_ends(doi: Seq<char>)
    requires
        doi_of(doi) == Some(doi),
    ensures
        doi.len() > 7,
        doi[0] == '1',
        !white_space(doi.last()),
        trimmed(doi) == doi,
        trimmed_end_of(doi, " .;,"@) == doi,
        crate::util::doi_shape(doi),
{
    let rest = without_doi_prefix(lowered(trimmed(doi)));
    lemma_trimmed_end_of(rest, " .;,"@);
    let k = choose|k: int| doi_slash_at(doi, k);
    reveal_strlit("10.");
    assert(doi.take(3)[0] == '1');
    assert(!white_space(doi[doi.len() - 1]));
    lemma_trimmed_is_whole(doi);
}

/// The text behind an ASCII prefix in lowercase is in lowercase where it is itself.
proof fn lemma_lowercase_behind(prefix: Seq<char>, text: Seq<char>)
    requires
        is_ascii_chars(prefix),
        is_ascii_chars(text),
        ascii_lower(prefix) == prefix,
        ascii_lower(text) == text,
    ensures
        lowered(prefix + text) == prefix + text,
{
    let all = prefix + text;
    assert forall|i: int| 0 <= i < all.len() implies ascii_lower_char(#[trigger] all[i]) == all[i]
        && '\0' <= all[i] <= '\u{7f}' by {
        if i < prefix.len() {
            assert(all[i] == prefix[i]);
            assert(ascii_lower(prefix)[i] == prefix[i]);
        } else {
            assert(all[i] == text[i - prefix.len()]);
            assert(ascii_lower(text)[i - prefix.len()] == text[i - prefix.len()]);
        }
    }
    assert(is_ascii_chars(all));
    assert(ascii_lower(all) =~= all);
}

proof fn lemma_doi_behind_0(doi: Seq<char>)
    requires
        doi_of(doi) == Some(doi),
        is_ascii_chars(doi),
        ascii_lower(doi) == doi,
    ensures
        doi_of("https://doi.org/"@ + doi) == Some(doi),
{
    let prefix = "https://doi.org/"@;
    let all = prefix + doi;
    reveal_strlit("https://doi.org/");
    lemma_doi_ends(doi);
    assert(ascii_lower(prefix) =~= prefix);
    lemma_lowercase_behind(prefix, doi);
    assert(all[0] == 'h');
    assert(all.last() == doi.last());
    lemma_trimmed_is_whole(all);
    assert(all.take(prefix.len() as int) =~= prefix);
    assert(all.skip(prefix.len() as int) =~= doi);
    assert(without_doi_prefix(all) == doi);
}

proof fn lemma_doi_behind_1(doi: Seq<char>)
    requires
        doi_of(doi) == Some(doi),
        is_ascii_chars(doi),
        ascii_lower(doi) == doi,
    ensures
        doi_of("http://doi.org/"@ + doi) == Some(doi),
{
    let prefix = "http://doi.org/"@;
    let all = prefix + doi;
    reveal_strlit("https://doi.org/");
    reveal_strlit("http://doi.org/");
    lemma_doi_ends(doi);
    assert(ascii_lower(prefix) =~= prefix);
    lemma_lowercase_behind(prefix, doi);
    assert(all[0] == 'h');
    assert(all.last() == doi.last());
    lemma_trimmed_is_whole(all);
    assert(!begins_with(all, "https://doi.org/"@)) by {
        if begins_with(all, "https://doi.org/"@) {
            assert(all.take(16)[4] == "https://doi.org/"@[4]);
            assert(all[4] == prefix[4]);
        }
    }
    assert(all.take(prefix.len() as int) =~= prefix);
    assert(all.skip(prefix.len() as int) =~= doi);
    assert(without_doi_prefix(all) == doi);
}

proof fn lemma_doi_behind_2(doi: Seq<char>)
    requires
        doi_of(doi) == Some(doi),
        is_ascii_chars(doi),
        ascii_lower(doi) == doi,
    ensures
        doi_of("http://dx.doi.org/"@ + doi) == Some(doi),
{
    let prefix = "http://dx.doi.org/"@;
    let all = prefix + doi;
    reveal_strlit("https://doi.org/");
    reveal_strlit("http://doi.org/");
    reveal_strlit("http://dx.doi.org/");
    lemma_doi_ends(doi);
    assert(ascii_lower(prefix) =~= prefix);
    lemma_lowercase_behind(prefix, doi);
    assert(all[0] == 'h');
    assert(all.last() == doi.last());
    lemma_trimmed_is_whole(all);
    assert(!begins_with(all, "https://doi.org/"@)) by {
        if begins_with(all, "https://doi.org/"@) {
            assert(all.take(16)[4] == "https://doi.org/"@[4]);
            assert(all[4] == prefix[4]);
        }
    }
    assert(!begins_with(all, "http://doi.org/"@)) by {
        if begins_with(all, "http://doi.org/"@) {
            assert(all.take(15)[8] == "http://doi.org/"@[8]);
            assert(all[8] == prefix[8]);
        }
    }
    assert(all.take(prefix.len() as int) =~= prefix);
    assert(all.skip(prefix.len() as int) =~= doi);
    assert(without_doi_prefix(all) == doi);
}

proof fn lemma_doi_behind_3(doi: Seq<char>)
    requires
        doi_of(doi) == Some(doi),
        is_ascii_chars(doi),
        ascii_lower(doi) == doi,
    ensures
        doi_of("doi:"@ + doi) == Some(doi),
{
    let prefix = "doi:"@;
    let all = prefix + doi;
    reveal_strlit("https://doi.org/");
    reveal_strlit("http://doi.org/");
    reveal_strlit("http://dx.doi.org/");
    reveal_strlit("doi:");
    lemma_doi_ends(doi);
    assert(ascii_lower(prefix) =~= prefix);
    lemma_lowercase_behind(prefix, doi);
    assert(all[0] == 'd');
    assert(all.last() == doi.last());
    lemma_trimmed_is_whole(all);
    assert(!begins_with(all, "https://doi.org/"@)) by {
        if begins_with(all, "https://doi.org/"@) {
            assert(all.take(16)[0] == "https://doi.org/"@[0]);
            assert(all[0] == prefix[0]);
        }
    }
    assert(!begins_with(all, "http://doi.org/"@)) by {
        if begins_with(all, "http://doi.org/"@) {
            assert(all.take(15)[0] == "http://doi.org/"@[0]);
            assert(all[0] == prefix[0]);
        }
    }
    assert(!begins_with(all, "http://dx.doi.org/"@)) by {
        if begins_with(all, "http://dx.doi.org/"@) {
            assert(all.take(18)[0] == "http://dx.doi.org/"@[0]);
            assert(all[0] == prefix[0]);
        }
    }
    assert(all.take(prefix.len() as int) =~= prefix);
    assert(all.skip(prefix.len() as int) =~= doi);
    assert(without_doi_prefix(all) == doi);
}

/// A DOI is the same behind the address of its resolver and behind its scheme.
pub proof fn law_addresses_denote_their_doi(doi: Seq<char>)
    requires
        doi_of(doi) == Some(doi),
        is_ascii_chars(doi),
        ascii_lower(doi) == doi,
    ensures
        doi_of("https://doi.org/"@ + doi) == Some(doi),
        doi_of("http://doi.org/"@ + doi) == Some(doi),
        doi_of("http://dx.doi.org/"@ + doi) == Some(doi),
        doi_of("doi:"@ + doi) == Some(doi),
{
    lemma_doi_behind_0(doi);
    lemma_doi_behind_1(doi);
    lemma_doi_behind_2(doi);
    lemma_doi_behind_3(doi);
}

/// An arXiv identifier is no file, and has white space at neither end.
proof fn lemma_arxiv_ends(id: Seq<char>)
    requires
        arxiv_of(id) == Some(id),
    ensures
        id.len() > 0,
        !white_space(id[0]),
        !white_space(id.last()),
        !finishes_with(id, ".pdf"@),
        without_pdf_suffix(id + ".pdf"@) == id,
        !white_space((id + ".pdf"@).last()),
{
    lemma_arxiv_chars(id);
    reveal_strlit(".pdf");
    assert(decimal_digit(id[0]) || crate::util::archive_char(id[0]) || id[0] == '/');
    if finishes_with(id, ".pdf"@) {
        assert(id.skip(id.len() - 4)[3] == 'f');
        assert(id.last() == 'f');
    }
    let file = id + ".pdf"@;
    assert(file.skip(file.len() - 4) =~= ".pdf"@);
    assert(file.take(file.len() - 4) =~= id);
    assert(file.last() == 'f');
}

proof fn lemma_arxiv_behind_0(id: Seq<char>)
    requires
        arxiv_of(id) == Some(id),
    ensures
        arxiv_of("arXiv:"@ + id) == Some(id),
        arxiv_of("arXiv:"@ + id + ".pdf"@) == Some(id),
{
    let prefix = "arXiv:"@;
    reveal_strlit(".pdf");
    reveal_strlit("arXiv:");
    lemma_arxiv_ends(id);
    let all = prefix + id;
    assert(all[0] == 'a');
    assert(all.last() == (id).last());
    lemma_trimmed_is_whole(all);
    assert(all.take(prefix.len() as int) =~= prefix);
    assert(all.skip(prefix.len() as int) =~= id);
    assert(without_arxiv_prefix(all) == id);
    let file = prefix + id + ".pdf"@;
    assert(file[0] == 'a');
    assert(file.last() == (id + ".pdf"@).last());
    lemma_trimmed_is_whole(file);
    assert(file.take(prefix.len() as int) =~= prefix);
    assert(file.skip(prefix.len() as int) =~= id + ".pdf"@);
    assert(without_arxiv_prefix(file) == id + ".pdf"@);
}

proof fn lemma_arxiv_behind_1(id: Seq<char>)
    requires
        arxiv_of(id) == Some(id),
    ensures
        arxiv_of("arxiv:"@ + id) == Some(id),
        arxiv_of("arxiv:"@ + id + ".pdf"@) == Some(id),
{
    let prefix = "arxiv:"@;
    reveal_strlit(".pdf");
    reveal_strlit("arXiv:");
    reveal_strlit("arxiv:");
    lemma_arxiv_ends(id);
    let all = prefix + id;
    assert(all[0] == 'a');
    assert(all.last() == (id).last());
    lemma_trimmed_is_whole(all);
    assert(!begins_with(all, "arXiv:"@)) by {
        if begins_with(all, "arXiv:"@) {
            assert(all.take(6)[2] == "arXiv:"@[2]);
            assert(all[2] == prefix[2]);
        }
    }
    assert(all.take(prefix.len() as int) =~= prefix);
    assert(all.skip(prefix.len() as int) =~= id);
    assert(without_arxiv_prefix(all) == id);
    let file = prefix + id + ".pdf"@;
    assert(file[0] == 'a');
    assert(file.last() == (id + ".pdf"@).last());
    lemma_trimmed_is_whole(file);
    assert(!begins_with(file, "arXiv:"@)) by {
        if begins_with(file, "arXiv:"@) {
            assert(file.take(6)[2] == "arXiv:"@[2]);
            assert(file[2] == prefix[2]);
        }
    }
    assert(file.take(prefix.len() as int) =~= prefix);
    assert(file.skip(prefix.len() as int) =~= id + ".pdf"@);
    assert(without_arxiv_prefix(file) == id + ".pdf"@);
}

proof fn lemma_arxiv_behind_2(id: Seq<char>)
    requires
        arxiv_of(id) == Some(id),
    ensures
        arxiv_of("https://arxiv.org/abs/"@ + id) == Some(id),
        arxiv_of("https://arxiv.org/abs/"@ + id + ".pdf"@) == Some(id),
{
    let prefix = "https://arxiv.org/abs/"@;
    reveal_strlit(".pdf");
    reveal_strlit("arXiv:");
    reveal_strlit("arxiv:");
    reveal_strlit("https://arxiv.org/abs/");
    lemma_arxiv_ends(id);
    let all = prefix + id;
    assert(all[0] == 'h');
    assert(all.last() == (id).last());
    lemma_trimmed_is_whole(all);
    assert(!begins_with(all, "arXiv:"@)) by {
        if begins_with(all, "arXiv:"@) {
            assert(all.take(6)[0] == "arXiv:"@[0]);
            assert(all[0] == prefix[0]);
        }
    }
    assert(!begins_with(all, "arxiv:"@)) by {
        if begins_with(all, "arxiv:"@) {
            assert(all.take(6)[0] == "arxiv:"@[0]);
            assert(all[0] == prefix[0]);
        }
    }
    assert(all.take(prefix.len() as int) =~= prefix);
    assert(all.skip(prefix.len() as int) =~= id);
    assert(without_arxiv_prefix(all) == id);
    let file = prefix + id + ".pdf"@;
    assert(file[0] == 'h');
    assert(file.last() == (id + ".pdf"@).last());
    lemma_trimmed_is_whole(file);
    assert(!begins_with(file, "arXiv:"@)) by {
        if begins_with(file, "arXiv:"@) {
            assert(file.take(6)[0] == "arXiv:"@[0]);
            assert(file[0] == prefix[0]);
        }
    }
    assert(!begins_with(file, "arxiv:"@)) by {
        if begins_with(file, "arxiv:"@) {
            assert(file.take(6)[0] == "arxiv:"@[0]);
            assert(file[0] == prefix[0]);
        }
    }
    assert(file.take(prefix.len() as int) =~= prefix);
    assert(file.skip(prefix.len() as int) =~= id + ".pdf"@);
    assert(without_arxiv_prefix(file) == id + ".pdf"@);
}

proof fn lemma_arxiv_behind_3(id: Seq<char>)
    requires
        arxiv_of(id) == Some(id),
    ensures
        arxiv_of("https://arxiv.org/pdf/"@ + id) == Some(id),
        arxiv_of("https://arxiv.org/pdf/"@ + id + ".pdf"@) == Some(id),
{
    let prefix = "https://arxiv.org/pdf/"@;
    reveal_strlit(".pdf");
    reveal_strlit("arXiv:");
    reveal_strlit("arxiv:");
    reveal_strlit("https://arxiv.org/abs/");
    reveal_strlit("https://arxiv.org/pdf/");
    lemma_arxiv_ends(id);
    let all = prefix + id;
    assert(all[0] == 'h');
    assert(all.last() == (id).last());
    lemma_trimmed_is_whole(all);
    assert(!begins_with(all, "arXiv:"@)) by {
        if begins_with(all, "arXiv:"@) {
            assert(all.take(6)[0] == "arXiv:"@[0]);
            assert(all[0] == prefix[0]);
        }
    }
    assert(!begins_with(all, "arxiv:"@)) by {
        if begins_with(all, "arxiv:"@) {
            assert(all.take(6)[0] == "arxiv:"@[0]);
            assert(all[0] == prefix[0]);
        }
    }
    assert(!begins_with(all, "https://arxiv.org/abs/"@)) by {
        if begins_with(all, "https://arxiv.org/abs/"@) {
            assert(all.take(22)[18] == "https://arxiv.org/abs/"@[18]);
            assert(all[18] == prefix[18]);
        }
    }
    assert(all.take(prefix.len() as int) =~= prefix);
    assert(all.skip(prefix.len() as int) =~= id);
    assert(without_arxiv_prefix(all) == id);
    let file = prefix + id + ".pdf"@;
    assert(file[0] == 'h');
    assert(file.last() == (id + ".pdf"@).last());
    lemma_trimmed_is_whole(file);
    assert(!begins_with(file, "arXiv:"@)) by {
        if begins_with(file, "arXiv:"@) {
            assert(file.take(6)[0] == "arXiv:"@[0]);
            assert(file[0] == prefix[0]);
        }
    }
    assert(!begins_with(file, "arxiv:"@)) by {
        if begins_with(file, "arxiv:"@) {
            assert(file.take(6)[0] == "arxiv:"@[0]);
            assert(file[0] == prefix[0]);
        }
    }
    assert(!begins_with(file, "https://arxiv.org/abs/"@)) by {
        if begins_with(file, "https://arxiv.org/abs/"@) {
            assert(file.take(22)[18] == "https://arxiv.org/abs/"@[18]);
            assert(file[18] == prefix[18]);
        }
    }
    assert(file.take(prefix.len() as int) =~= prefix);
    assert(file.skip(prefix.len() as int) =~= id + ".pdf"@);
    assert(without_arxiv_prefix(file) == id + ".pdf"@);
}

proof fn lemma_arxiv_behind_4(id: Seq<char>)
    requires
        arxiv_of(id) == Some(id),
    ensures
        arxiv_of("http://arxiv.org/abs/"@ + id) == Some(id),
        arxiv_of("http://arxiv.org/abs/"@ + id + ".pdf"@) == Some(id),
{
    let prefix = "http://arxiv.org/abs/"@;
    reveal_strlit(".pdf");
    reveal_strlit("arXiv:");
    reveal_strlit("arxiv:");
    reveal_strlit("https://arxiv.org/abs/");
    reveal_strlit("https://arxiv.org/pdf/");
    reveal_strlit("http://arxiv.org/abs/");
    lemma_arxiv_ends(id);
    let all = prefix + id;
    assert(all[0] == 'h');
    assert(all.last() == (id).last());
    lemma_trimmed_is_whole(all);
    assert(!begins_with(all, "arXiv:"@)) by {
        if begins_with(all, "arXiv:"@) {
            assert(all.take(6)[0] == "arXiv:"@[0]);
            assert(all[0] == prefix[0]);
        }
    }
    assert(!begins_with(all, "arxiv:"@)) by {
        if begins_with(all, "arxiv:"@) {
            assert(all.take(6)[0] == "arxiv:"@[0]);
            assert(all[0] == prefix[0]);
        }
    }
    assert(!begins_with(all, "https://arxiv.org/abs/"@)) by {
        if begins_with(all, "https://arxiv.org/abs/"@) {
            assert(all.take(22)[4] == "https://arxiv.org/abs/"@[4]);
            assert(all[4] == prefix[4]);
        }
    }
    assert(!begins_with(all, "https://arxiv.org/pdf/"@)) by {
        if begins_with(all, "https://arxiv.org/pdf/"@) {
            assert(all.take(22)[4] == "https://arxiv.org/pdf/"@[4]);
            assert(all[4] == prefix[4]);
        }
    }
    assert(all.take(prefix.len() as int) =~= prefix);
    assert(all.skip(prefix.len() as int) =~= id);
    assert(without_arxiv_prefix(all) == id);
    let file = prefix + id + ".pdf"@;
    assert(file[0] == 'h');
    assert(file.last() == (id + ".pdf"@).last());
    lemma_trimmed_is_whole(file);
    assert(!begins_with(file, "arXiv:"@)) by {
        if begins_with(file, "arXiv:"@) {
            assert(file.take(6)[0] == "arXiv:"@[0]);
            assert(file[0] == prefix[0]);
        }
    }
    assert(!begins_with(file, "arxiv:"@)) by {
        if begins_with(file, "arxiv:"@) {
            assert(file.take(6)[0] == "arxiv:"@[0]);
            assert(file[0] == prefix[0]);
        }
    }
    assert(!begins_with(file, "https://arxiv.org/abs/"@)) by {
        if begins_with(file, "https://arxiv.org/abs/"@) {
            assert(file.take(22)[4] == "https://arxiv.org/abs/"@[4]);
            assert(file[4] == prefix[4]);
        }
    }
    assert(!begins_with(file, "https://arxiv.org/pdf/"@)) by {
        if begins_with(file, "https://arxiv.org/pdf/"@) {
            assert(file.take(22)[4] == "https://arxiv.org/pdf/"@[4]);
            assert(file[4] == prefix[4]);
        }
    }
    assert(file.take(prefix.len() as int) =~= prefix);
    assert(file.skip(prefix.len() as int) =~= id + ".pdf"@);
    assert(without_arxiv_prefix(file) == id + ".pdf"@);
}

/// An arXiv identifier is the same behind its scheme, behind the addresses of its abstract
/// and its PDF, and as the name of a file.
pub proof fn law_addresses_denote_their_arxiv_work(id: Seq<char>)
    requires
        arxiv_of(id) == Some(id),
    ensures
        arxiv_of("arXiv:"@ + id) == Some(id),
        arxiv_of("arXiv:"@ + id + ".pdf"@) == Some(id),
        arxiv_of("arxiv:"@ + id) == Some(id),
        arxiv_of("arxiv:"@ + id + ".pdf"@) == Some(id),
        arxiv_of("https://arxiv.org/abs/"@ + id) == Some(id),
        arxiv_of("https://arxiv.org/abs/"@ + id + ".pdf"@) == Some(id),
        arxiv_of("https://arxiv.org/pdf/"@ + id) == Some(id),
        arxiv_of("https://arxiv.org/pdf/"@ + id + ".pdf"@) == Some(id),
        arxiv_of("http://arxiv.org/abs/"@ + id) == Some(id),
        arxiv_of("http://arxiv.org/abs/"@ + id + ".pdf"@) == Some(id),
{
    lemma_arxiv_behind_0(id);
    lemma_arxiv_behind_1(id);
    lemma_arxiv_behind_2(id);
    lemma_arxiv_behind_3(id);
    lemma_arxiv_behind_4(id);
}

/// An OpenAlex identifier is the same behind an address, and with a small letter.
pub proof fn law_addresses_denote_their_openalex_work(digits: Seq<char>)
    requires
        digits.len() > 0,
        crate::text::all_digits(digits),
    ensures
        openalex_of("https://openalex.org/W"@ + digits) == Some("W"@ + digits),
        openalex_of("W"@ + digits) == Some("W"@ + digits),
        openalex_of("w"@ + digits) == Some("W"@ + digits),
{
    reveal_strlit("https://openalex.org/W");
    reveal_strlit("W");
    reveal_strlit("w");
    lemma_openalex_segment("https://openalex.org/W"@, digits, 21);
    lemma_openalex_segment("W"@, digits, 0);
    lemma_openalex_segment("w"@, digits, 0);
    let address = "https://openalex.org/W"@ + digits;
    assert(address.skip(21)[0] == 'W');
    assert(address.skip(21).skip(1) =~= digits);
    assert(("W"@ + digits).skip(0).skip(1) =~= digits);
    assert(("w"@ + digits).skip(0).skip(1) =~= digits);
}

/// Behind the last slash of a text and digits stands what follows the slash.
proof fn lemma_openalex_segment(prefix: Seq<char>, digits: Seq<char>, at: int)
    requires
        digits.len() > 0,
        crate::text::all_digits(digits),
        0 <= at < prefix.len(),
        !white_space(prefix[0]),
        at > 0 ==> prefix[at - 1] == '/',
        forall|i: int| at <= i < prefix.len() ==> #[trigger] prefix[i] != '/',
    ensures
        last_segment(trimmed_end_of(trimmed(prefix + digits), "/"@)) == (prefix + digits).skip(at),
{
    let all = prefix + digits;
    reveal_strlit("/");
    assert(forall|c: char| "/"@.contains(c) <==> c == '/') by {
        assert("/"@[0] == '/');
    }
    assert forall|i: int| 0 <= i < digits.len() implies ascii_digit(#[trigger] digits[i]) by {}
    assert(all.last() == digits[digits.len() - 1]);
    assert(ascii_digit(all.last()));
    assert(all[0] == prefix[0]);
    lemma_trimmed_is_whole(all);
    assert(trimmed_end_of(all, "/"@) == all);
    lemma_past_last(all, "/"@);
    let past = past_last_of(all, "/"@) as int;
    assert forall|i: int| at <= i < all.len() implies #[trigger] all[i] != '/' by {
        if i >= prefix.len() {
            assert(all[i] == digits[i - prefix.len()]);
        }
    }
    if past > at {
        assert("/"@.contains(all[past - 1]));
        assert(all[past - 1] == '/');
    }
    if past < at {
        assert(all[at - 1] == '/');
        assert(!"/"@.contains(all[at - 1]));
    }
}

proof fn lemma_fingerprint_of_both(a: Seq<char>, b: Seq<char>)
    ensures
        fingerprint_of(a + b) == fingerprint_of(a) + fingerprint_of(b),
    decreases b.len(),
{
    if b.len() == 0 {
        assert(a + b =~= a);
        assert(fingerprint_of(a) + fingerprint_of(b) =~= fingerprint_of(a));
    } else {
        lemma_fingerprint_of_both(a, b.drop_last());
        assert((a + b).drop_last() =~= a + b.drop_last());
        assert((a + b).last() == b.last());
        assert(fingerprint_of(a + b) =~= fingerprint_of(a) + fingerprint_of(b));
    }
}

/// Titles in ASCII are compared by their letters and digits alone: another character in
/// them makes no difference, and neither does the case of a letter.
pub proof fn law_titles_are_compared_by_letters(a: Seq<char>, b: Seq<char>, c: char)
    requires
        is_ascii_chars(a),
        is_ascii_chars(b),
        c <= '\u{7f}',
    ensures
        !alphanumeric(c) ==> fingerprint(a + seq![c] + b) == fingerprint(a + b),
        fingerprint(a + seq![c] + b) == fingerprint(a + seq![ascii_lower_char(c)] + b),
        alphanumeric(c) && ascii_lower_char(c) == c ==> fingerprint(a + seq![c] + b)
            == fingerprint(a) + seq![c] + fingerprint(b),
{
    let d = ascii_lower_char(c);
    lemma_ascii_row(a, c, b);
    lemma_ascii_row(a, d, b);
    assert(is_ascii_chars(a + b));
    lemma_fingerprint_of_both(a + seq![c], b);
    lemma_fingerprint_of_both(a, seq![c]);
    lemma_fingerprint_of_both(a + seq![d], b);
    lemma_fingerprint_of_both(a, seq![d]);
    lemma_fingerprint_of_both(a, b);
    reveal_with_fuel(fingerprint_of, 2);
    reveal_with_fuel(alphanumerics, 2);
    assert(seq![c].drop_last() =~= Seq::empty());
    assert(seq![d].drop_last() =~= Seq::empty());
    assert(ascii_lower_char(d) == d);
    assert(seq![d].last() == d);
    assert(fingerprint_of(seq![c]) =~= alphanumerics(seq![d]));
    assert(fingerprint_of(seq![d]) =~= alphanumerics(seq![d]));
    if !alphanumeric(c) {
        assert(alphanumerics(seq![d]) =~= Seq::empty());
        assert(fingerprint_of(a) + Seq::<char>::empty() =~= fingerprint_of(a));
    }
    if alphanumeric(c) && d == c {
        assert(alphanumerics(seq![d]) =~= seq![c]);
    }
}

proof fn lemma_ascii_row(a: Seq<char>, c: char, b: Seq<char>)
    requires
        is_ascii_chars(a),
        is_ascii_chars(b),
        c <= '\u{7f}',
    ensures
        is_ascii_chars(a + seq![c] + b),
{
    let all = a + seq![c] + b;
    assert forall|i: int| 0 <= i < all.len() implies '\0' <= #[trigger] all[i] <= '\u{7f}' by {
        if i < a.len() {
            assert(all[i] == a[i]);
        } else if i > a.len() {
            assert(all[i] == b[i - a.len() - 1]);
        }
    }
}

/// A text without a tag stays as it is; a tag is replaced by a space, whatever it says.
pub proof fn law_tags_become_spaces(before: Seq<char>, tag: Seq<char>, after: Seq<char>)
    requires
        !before.contains('<'),
        tag.len() > 0,
        !tag.contains('>'),
    ensures
        untagged(before) == before,
        untagged(before + seq!['<'] + tag + seq!['>'] + after) == before + seq![' '] + untagged(
            after,
        ),
    decreases before.len(),
{
    let whole = before + seq!['<'] + tag + seq!['>'] + after;
    if before.len() > 0 {
        let rest = before.skip(1);
        assert(before[0] != '<');
        assert(!rest.contains('<')) by {
            if rest.contains('<') {
                let i = choose|i: int| 0 <= i < rest.len() && rest[i] == '<';
                assert(before[i + 1] == '<');
            }
        }
        law_tags_become_spaces(rest, tag, after);
        assert(whole[0] == before[0]);
        assert(whole.skip(1) =~= rest + seq!['<'] + tag + seq!['>'] + after);
        assert(untagged(whole) =~= before + seq![' '] + untagged(after));
        assert(untagged(before) =~= before);
    } else {
        assert(whole[0] == '<');
        let inner = tag + seq!['>'] + after;
        assert(whole.skip(1) =~= inner);
        lemma_first_close(tag, after);
        assert(whole.skip(tag.len() + 2int) =~= after);
        assert(untagged(whole) =~= before + seq![' '] + untagged(after));
        assert(untagged(before) =~= before);
    }
}

proof fn lemma_first_close(tag: Seq<char>, after: Seq<char>)
    requires
        !tag.contains('>'),
    ensures
        crate::text::first_of(tag + seq!['>'] + after, ">"@) == tag.len(),
    decreases tag.len(),
{
    reveal_strlit(">");
    assert(forall|c: char| ">"@.contains(c) <==> c == '>') by {
        assert(">"@[0] == '>');
    }
    let all = tag + seq!['>'] + after;
    if tag.len() > 0 {
        assert(tag[0] != '>');
        assert(all[0] == tag[0]);
        let rest = tag.skip(1);
        assert(!rest.contains('>')) by {
            if rest.contains('>') {
                let i = choose|i: int| 0 <= i < rest.len() && rest[i] == '>';
                assert(tag[i + 1] == '>');
            }
        }
        lemma_first_close(rest, after);
        assert(all.drop_first() =~= rest + seq!['>'] + after);
    } else {
        assert(all[0] == '>');
    }
}

/// The number that a hexadecimal digit stands for.
pub open spec fn digit_number(c: char) -> int {
    if '0' <= c && c <= '9' {
        c as int - '0' as int
    } else {
        c as int - 'a' as int + 10
    }
}

/// The hexadecimal form of bytes has two digits for each, which make the byte again; all
/// its letters are small.
pub proof fn law_hexadecimal_makes_the_bytes_again(bytes: Seq<u8>, i: int)
    requires
        0 <= i < bytes.len(),
    ensures
        hexadecimal(bytes).len() == 2 * bytes.len(),
        digit_number(hexadecimal(bytes)[2 * i]) * 16 + digit_number(hexadecimal(bytes)[2 * i + 1])
            == bytes[i],
        hexadecimal(bytes)[2 * i] <= 'f' && hexadecimal(bytes)[2 * i + 1] <= 'f',
        !('A' <= hexadecimal(bytes)[2 * i] && hexadecimal(bytes)[2 * i] <= 'Z'),
        !('A' <= hexadecimal(bytes)[2 * i + 1] && hexadecimal(bytes)[2 * i + 1] <= 'Z'),
{
    let b = bytes[i];
    assert((2 * i) / 2 == i && (2 * i + 1) / 2 == i);
    assert((2 * i) % 2 == 0 && (2 * i + 1) % 2 == 1);
    let text = hexadecimal(bytes);
    assert(text[2 * i] == hex_digit(b / 16));
    assert(text[2 * i + 1] == hex_digit(b % 16));
    lemma_hex_digit(b / 16);
    lemma_hex_digit(b % 16);
}

proof fn lemma_hex_digit(n: u8)
    requires
        n < 16,
    ensures
        digit_number(hex_digit(n)) == n,
        hex_digit(n) <= 'f',
        !('A' <= hex_digit(n) && hex_digit(n) <= 'Z'),
{
}

/// A word of small ASCII letters and digits is its own slug, and words with another ASCII
/// character between them are joined by a hyphen.
pub proof fn law_slugs_join_words_by_hyphens(first: Seq<char>, c: char, second: Seq<char>)
    requires
        first.len() > 0,
        second.len() > 0,
        first.len() + second.len() < 96,
        forall|i: int| 0 <= i < first.len() ==> slug_char(#[trigger] first[i]),
        forall|i: int| 0 <= i < second.len() ==> slug_char(#[trigger] second[i]),
        c <= '\u{7f}',
        !slug_char(ascii_lower_char(c)),
    ensures
        slug(first, Seq::empty()) == first,
        slug(first + seq![c] + second, Seq::empty()) == first + seq!['-'] + second,
{
    let none = Seq::<char>::empty();
    let both = first + seq![c] + second;
    reveal_strlit("-");
    assert(forall|d: char| "-"@.contains(d) <==> d == '-') by {
        assert("-"@[0] == '-');
    }
    lemma_hyphenated_word(none, first);
    assert(none + first =~= first);
    assert(hyphenated(none) + first =~= first);
    lemma_hyphenated_word(first + seq![c], second);
    assert((first + seq![c]).drop_last() =~= first);
    assert((first + seq![c]).last() == c);
    assert(hyphenated(first).last() == first.last());
    assert(slug_char(first[first.len() - 1]));
    assert(hyphenated(first + seq![c]) =~= first + seq!['-']);
    assert(hyphenated(both) =~= first + seq!['-'] + second);
    assert(is_ascii_chars(first));
    assert(is_ascii_chars(both)) by {
        assert forall|i: int| 0 <= i < both.len() implies '\0' <= #[trigger] both[i]
            <= '\u{7f}' by {
            if i < first.len() {
                assert(slug_char(first[i]));
            } else if i > first.len() {
                assert(slug_char(second[i - first.len() - 1]));
            }
        }
    }
    let whole = first + seq!['-'] + second;
    assert(whole[0] == first[0]);
    assert(whole.last() == second[second.len() - 1]);
    assert(slug_char(first[0]) && slug_char(second[second.len() - 1]));
    assert(trimmed_start_of(whole, "-"@) == whole);
    assert(trimmed_end_of(whole, "-"@) == whole);
    assert(trimmed_start_of(first, "-"@) == first);
    assert(trimmed_end_of(first, "-"@) == first);
}

proof fn lemma_hyphenated_word(before: Seq<char>, word: Seq<char>)
    requires
        forall|i: int| 0 <= i < word.len() ==> slug_char(#[trigger] word[i]),
    ensures
        hyphenated(before + word) == hyphenated(before) + word,
    decreases word.len(),
{
    if word.len() == 0 {
        assert(before + word =~= before);
        assert(hyphenated(before) + word =~= hyphenated(before));
    } else {
        let fewer = word.drop_last();
        assert forall|i: int| 0 <= i < fewer.len() implies slug_char(#[trigger] fewer[i]) by {
            assert(fewer[i] == word[i]);
        }
        lemma_hyphenated_word(before, fewer);
        assert((before + word).drop_last() =~= before + fewer);
        assert((before + word).last() == word[word.len() - 1]);
        assert(slug_char(word[word.len() - 1]));
        assert(hyphenated(before + word) =~= hyphenated(before) + word);
    }
}

} // verus!
