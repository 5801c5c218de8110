//! Normal forms of texts and of persistent identifiers.

pub use crate::adapters::now;
use crate::adapters::{
    absorbed, char_alphanumeric, char_lowercase, compatibility_decomposition, decompose,
    finish_hasher, is_char_alphanumeric, is_regex_digit, lowercase_of_char, new_hasher,
    regex_digit, sha256, sha256_digest, update_hasher, Hasher,
};
use crate::text::{
    all_digits, ascii_digit, ascii_lower, ascii_lower_char, begins_with, chars_of, ends_with,
    eq_ignore_ascii_case, find_past_last, finishes_with, first_of, is_ascii_digit, is_white_space,
    join, joined, lemma_words_of_joined, lower, lower_ascii_char, lowered, past_last_of, same_text,
    starts_with, strip_prefix, strip_suffix, text_of, texts, trim, trim_end_of, trim_start_of,
    trimmed, trimmed_end, trimmed_end_of, trimmed_start, trimmed_start_of, white_space, words,
    words_of,
};
use vstd::prelude::*;
use vstd::string::StringExecFns;
use vstd::utf8::is_ascii_chars;

verus! {

/// The words of `s` with single spaces between them.
pub open spec fn spaced(s: Seq<char>) -> Seq<char> {
    joined(words_of(s), " "@)
}

/// The words of `value` with single spaces between them.
pub fn normalize_space(value: &str) -> (r: String)
    ensures
        r@ == spaced(value@),
{
    join(&words(value), " ")
}

/// A decimal digit in Unicode's sense; none of them is white space.
pub open spec fn decimal_digit(c: char) -> bool {
    if c <= '\u{7f}' {
        ascii_digit(c)
    } else {
        !white_space(c) && regex_digit(c)
    }
}

/// Whether `c` is a decimal digit in Unicode's sense.
fn is_decimal_digit(c: char) -> (r: bool)
    ensures
        r == decimal_digit(c),
{
    if c <= '\u{7f}' {
        is_ascii_digit(c)
    } else {
        !is_white_space(c) && is_regex_digit(c)
    }
}

/// Every character of `s` from index `from` up to `to` is a decimal digit.
pub open spec fn digits_between(s: Seq<char>, from: int, to: int) -> bool {
    forall|i: int| from <= i < to ==> decimal_digit(#[trigger] s[i])
}

/// Whether the characters from index `from` up to `to` are decimal digits.
fn are_digits(chars: &Vec<char>, from: usize, to: usize) -> (r: bool)
    requires
        from <= to <= chars@.len(),
    ensures
        r == digits_between(chars@, from as int, to as int),
{
    let mut i: usize = from;
    while i < to
        invariant
            from <= i <= to <= chars@.len(),
            digits_between(chars@, from as int, i as int),
        decreases to - i,
    {
        if !is_decimal_digit(chars[i]) {
            return false;
        }
        i += 1;
    }
    true
}

/// The slash of a DOI stands at index `k`: `10.`, four to nine decimal digits, the
/// slash, and at least one more character, none of them white space.
pub open spec fn doi_slash_at(s: Seq<char>, k: int) -> bool {
    &&& 7 <= k <= 12
    &&& k + 1 < s.len()
    &&& begins_with(s, "10."@)
    &&& digits_between(s, 3, k)
    &&& s[k] == '/'
    &&& forall|i: int| k < i < s.len() ==> !white_space(#[trigger] s[i])
}

/// `s` has the form of a DOI.
pub open spec fn doi_shape(s: Seq<char>) -> bool {
    exists|k: int| doi_slash_at(s, k)
}

/// Whether `value` has the form of a DOI.
pub fn is_doi(value: &str) -> (r: bool)
    ensures
        r == doi_shape(value@),
{
    let chars = chars_of(value);
    if strip_prefix(value, "10.").is_none() {
        return false;
    }
    proof {
        reveal_strlit("10.");
    }
    let mut k: usize = 3;
    while k < chars.len() && is_decimal_digit(chars[k])
        invariant
            chars@ == value@,
            3 <= k <= chars@.len(),
            digits_between(chars@, 3, k as int),
        decreases chars@.len() - k,
    {
        k += 1;
    }
    assert forall|j: int| doi_slash_at(value@, j) implies j == k by {
        if j < k {
            assert(decimal_digit(chars@[j]));
        }
    }
    if k < 7 || k > 12 || k >= chars.len() || chars[k] != '/' || chars.len() - k < 2 {
        return false;
    }
    let mut i: usize = k + 1;
    while i < chars.len()
        invariant
            chars@ == value@,
            k < i <= chars@.len(),
            forall|j: int| doi_slash_at(value@, j) ==> j == k,
            forall|j: int| k < j < i ==> !white_space(#[trigger] chars@[j]),
        decreases chars@.len() - i,
    {
        if is_white_space(chars[i]) {
            assert(white_space(chars@[i as int]));
            return false;
        }
        i += 1;
    }
    assert(doi_slash_at(value@, k as int));
    true
}

/// What follows the first of the DOI prefixes that `s` begins with, trimmed, or
/// all of `s`.
pub open spec fn without_doi_prefix(s: Seq<char>) -> Seq<char> {
    if begins_with(s, "https://doi.org/"@) {
        trimmed(s.skip("https://doi.org/"@.len() as int))
    } else if begins_with(s, "http://doi.org/"@) {
        trimmed(s.skip("http://doi.org/"@.len() as int))
    } else if begins_with(s, "http://dx.doi.org/"@) {
        trimmed(s.skip("http://dx.doi.org/"@.len() as int))
    } else if begins_with(s, "doi:"@) {
        trimmed(s.skip("doi:"@.len() as int))
    } else {
        s
    }
}

/// The DOI that a text in lowercase denotes.
pub open spec fn doi_in_lowercase(s: Seq<char>) -> Option<Seq<char>> {
    let doi = trimmed_end_of(without_doi_prefix(s), " .;,"@);
    if doi_shape(doi) {
        Some(doi)
    } else {
        None
    }
}

/// The DOI that a text denotes, in its normal form.
pub open spec fn doi_of(s: Seq<char>) -> Option<Seq<char>> {
    doi_in_lowercase(lowered(trimmed(s)))
}

/// The DOI that `value`, a text in lowercase, denotes: without a resolver's
/// address or scheme before it and without punctuation after it.
pub fn normalize_lowercase_doi(value: &str) -> (r: Option<String>)
    ensures
        crate::text::opt_text(r) == doi_in_lowercase(value@),
{
    let rest = if let Some(rest) = strip_prefix(value, "https://doi.org/") {
        trim(&rest)
    } else if let Some(rest) = strip_prefix(value, "http://doi.org/") {
        trim(&rest)
    } else if let Some(rest) = strip_prefix(value, "http://dx.doi.org/") {
        trim(&rest)
    } else if let Some(rest) = strip_prefix(value, "doi:") {
        trim(&rest)
    } else {
        value.to_owned()
    };
    let doi = trim_end_of(&rest, " .;,");
    if is_doi(&doi) {
        Some(doi)
    } else {
        None
    }
}

/// The DOI that `value` denotes, in its normal form: in lowercase, without a
/// resolver's address or scheme and without trailing punctuation.
pub fn normalize_doi(value: &str) -> (r: Option<String>)
    ensures
        crate::text::opt_text(r) == doi_of(value@),
{
    let trimmed_value = trim(value);
    let lowercase = lower(&trimmed_value);
    normalize_lowercase_doi(&lowercase)
}

/// A letter of the archive part of an old arXiv identifier. Case does not
/// matter; the long s and the Kelvin sign fold to `s` and `k`.
pub open spec fn archive_letter(c: char) -> bool {
    ('a' <= c && c <= 'z') || ('A' <= c && c <= 'Z') || c == '\u{17f}' || c == '\u{212a}'
}

/// A character of the archive part after its first.
pub open spec fn archive_char(c: char) -> bool {
    archive_letter(c) || ascii_digit(c) || c == '.' || c == '-'
}

fn is_archive_letter(c: char) -> (r: bool)
    ensures
        r == archive_letter(c),
{
    ('a' <= c && c <= 'z') || ('A' <= c && c <= 'Z') || c == '\u{17f}' || c == '\u{212a}'
}

/// The arXiv numbers of today: four decimal digits, a dot, four or five digits.
pub open spec fn new_arxiv_shape(s: Seq<char>) -> bool {
    &&& 9 <= s.len() <= 10
    &&& digits_between(s, 0, 4)
    &&& s[4] == '.'
    &&& digits_between(s, 5, s.len() as int)
}

/// The arXiv numbers of old: an archive, a slash, seven decimal digits.
pub open spec fn old_arxiv_shape(s: Seq<char>) -> bool {
    &&& 9 <= s.len()
    &&& archive_letter(s[0])
    &&& forall|i: int| 1 <= i < s.len() - 8 ==> archive_char(#[trigger] s[i])
    &&& s[s.len() - 8] == '/'
    &&& digits_between(s, s.len() - 7, s.len() as int)
}

/// `s` has the form of an arXiv identifier without a version.
pub open spec fn arxiv_base_shape(s: Seq<char>) -> bool {
    new_arxiv_shape(s) || old_arxiv_shape(s)
}

/// A version mark stands at index `k`: what precedes it is an identifier without
/// a version, what follows it are decimal digits, at least one.
pub open spec fn arxiv_version_at(s: Seq<char>, k: int) -> bool {
    &&& 0 <= k
    &&& k + 1 < s.len()
    &&& (s[k] == 'v' || s[k] == 'V')
    &&& digits_between(s, k + 1, s.len() as int)
    &&& arxiv_base_shape(s.take(k))
}

/// `s` has the form of an arXiv identifier, with or without a version.
pub open spec fn arxiv_shape(s: Seq<char>) -> bool {
    arxiv_base_shape(s) || exists|k: int| arxiv_version_at(s, k)
}

/// Whether the first `len` characters have the form of an identifier without a version.
fn is_arxiv_base(chars: &Vec<char>, len: usize) -> (r: bool)
    requires
        len <= chars@.len(),
    ensures
        r == arxiv_base_shape(chars@.take(len as int)),
{
    let ghost s = chars@.take(len as int);
    if len < 9 {
        return false;
    }
    assert forall|from: int, to: int| 0 <= from <= to <= len implies digits_between(s, from, to)
        == #[trigger] digits_between(chars@, from, to) by {
        if digits_between(s, from, to) {
            assert forall|i: int| from <= i < to implies decimal_digit(#[trigger] chars@[i]) by {
                assert(decimal_digit(s[i]));
            }
        }
    }
    if len <= 10 && are_digits(chars, 0, 4) && chars[4] == '.' && are_digits(chars, 5, len) {
        return true;
    }
    if !is_archive_letter(chars[0]) || chars[len - 8] != '/' || !are_digits(chars, len - 7, len) {
        return false;
    }
    let mut i: usize = 1;
    while i < len - 8
        invariant
            9 <= len <= chars@.len(),
            s == chars@.take(len as int),
            1 <= i <= len - 8,
            forall|j: int| 1 <= j < i ==> archive_char(#[trigger] s[j]),
            !new_arxiv_shape(s),
        decreases len - i,
    {
        let c = chars[i];
        if !(is_archive_letter(c) || is_ascii_digit(c) || c == '.' || c == '-') {
            assert(!archive_char(s[i as int]));
            return false;
        }
        i += 1;
    }
    true
}

/// Behind the last character of a set none of the set stands, and it stands right before.
pub proof fn lemma_past_last(s: Seq<char>, set: Seq<char>)
    ensures
        past_last_of(s, set) <= s.len(),
        forall|i: int| past_last_of(s, set) <= i < s.len() ==> !set.contains(#[trigger] s[i]),
        past_last_of(s, set) > 0 ==> set.contains(s[past_last_of(s, set) - 1]),
    decreases s.len(),
{
    if s.len() > 0 && !set.contains(s.last()) {
        lemma_past_last(s.drop_last(), set);
        assert forall|i: int| past_last_of(s, set) <= i < s.len() implies !set.contains(
            #[trigger] s[i],
        ) by {
            if i < s.len() - 1 {
                assert(s[i] == s.drop_last()[i]);
            }
        }
    }
}

proof fn lemma_version_letters()
    ensures
        forall|c: char| "vV"@.contains(c) <==> (c == 'v' || c == 'V'),
{
    reveal_strlit("vV");
    assert("vV"@[0] == 'v' && "vV"@[1] == 'V');
}

/// A version mark can stand only where the last `v` stands.
proof fn lemma_version_is_last(s: Seq<char>, k: int)
    requires
        0 <= k < s.len(),
        s[k] == 'v' || s[k] == 'V',
        digits_between(s, k + 1, s.len() as int),
    ensures
        past_last_of(s, "vV"@) == k + 1,
{
    lemma_version_letters();
    lemma_past_last(s, "vV"@);
    let p = past_last_of(s, "vV"@) as int;
    if p <= k {
        assert("vV"@.contains(s[k]));
    }
    if p > k + 1 {
        assert("vV"@.contains(s[p - 1]));
        assert(decimal_digit(s[p - 1]));
    }
}

/// Whether `value` has the form of an arXiv identifier.
pub fn is_arxiv(value: &str) -> (r: bool)
    ensures
        r == arxiv_shape(value@),
{
    let chars = chars_of(value);
    assert(chars@.take(chars@.len() as int) =~= chars@);
    if is_arxiv_base(&chars, chars.len()) {
        return true;
    }
    let past = find_past_last(&chars, "vV");
    proof {
        lemma_version_letters();
        lemma_past_last(chars@, "vV"@);
        assert forall|k: int| arxiv_version_at(value@, k) implies k + 1 == past by {
            lemma_version_is_last(value@, k);
        }
    }
    if past > 0 && past < chars.len() && are_digits(&chars, past, chars.len()) && is_arxiv_base(
        &chars,
        past - 1,
    ) {
        assert(arxiv_version_at(value@, past - 1));
        true
    } else {
        assert(!arxiv_version_at(value@, past - 1));
        false
    }
}

/// What follows the first of the arXiv prefixes that `s` begins with, or all of `s`.
pub open spec fn without_arxiv_prefix(s: Seq<char>) -> Seq<char> {
    if begins_with(s, "arXiv:"@) {
        s.skip("arXiv:"@.len() as int)
    } else if begins_with(s, "arxiv:"@) {
        s.skip("arxiv:"@.len() as int)
    } else if begins_with(s, "https://arxiv.org/abs/"@) {
        s.skip("https://arxiv.org/abs/"@.len() as int)
    } else if begins_with(s, "https://arxiv.org/pdf/"@) {
        s.skip("https://arxiv.org/pdf/"@.len() as int)
    } else if begins_with(s, "http://arxiv.org/abs/"@) {
        s.skip("http://arxiv.org/abs/"@.len() as int)
    } else {
        s
    }
}

/// What precedes a final `.pdf`, or all of `s`.
pub open spec fn without_pdf_suffix(s: Seq<char>) -> Seq<char> {
    if finishes_with(s, ".pdf"@) {
        s.take(s.len() - ".pdf"@.len())
    } else {
        s
    }
}

/// The arXiv identifier that a text denotes, in its normal form.
pub open spec fn arxiv_of(s: Seq<char>) -> Option<Seq<char>> {
    let id = without_pdf_suffix(without_arxiv_prefix(trimmed(s)));
    if arxiv_shape(id) {
        Some(id)
    } else {
        None
    }
}

/// The arXiv identifier that `value` denotes, without a scheme, an address or the
/// ending of a file.
pub fn normalize_arxiv(value: &str) -> (r: Option<String>)
    ensures
        crate::text::opt_text(r) == arxiv_of(value@),
{
    let whole = trim(value);
    let rest = if let Some(rest) = strip_prefix(&whole, "arXiv:") {
        rest
    } else if let Some(rest) = strip_prefix(&whole, "arxiv:") {
        rest
    } else if let Some(rest) = strip_prefix(&whole, "https://arxiv.org/abs/") {
        rest
    } else if let Some(rest) = strip_prefix(&whole, "https://arxiv.org/pdf/") {
        rest
    } else if let Some(rest) = strip_prefix(&whole, "http://arxiv.org/abs/") {
        rest
    } else {
        whole
    };
    let id = match strip_suffix(&rest, ".pdf") {
        Some(stem) => stem,
        None => rest,
    };
    if is_arxiv(&id) {
        Some(id)
    } else {
        None
    }
}

/// `id` without its version: what precedes its last `v`, if that is not empty and
/// ASCII digits, at least one, follow.
pub open spec fn without_version(id: Seq<char>) -> Seq<char> {
    let past = past_last_of(id, "vV"@) as int;
    if past > 1 && past < id.len() && all_digits(id.skip(past)) {
        id.take(past - 1)
    } else {
        id
    }
}

/// The identifier without its version that a text denotes.
pub open spec fn arxiv_base_of(s: Seq<char>) -> Option<Seq<char>> {
    match arxiv_of(s) {
        Some(id) => Some(without_version(id)),
        None => None,
    }
}

/// Whether the characters from index `from` on are ASCII digits.
fn ends_in_digits(chars: &Vec<char>, from: usize) -> (r: bool)
    requires
        from <= chars@.len(),
    ensures
        r == all_digits(chars@.skip(from as int)),
{
    let mut i: usize = from;
    while i < chars.len()
        invariant
            from <= i <= chars@.len(),
            forall|j: int| 0 <= j < i - from ==> ascii_digit(
                #[trigger] chars@.skip(from as int)[j],
            ),
        decreases chars@.len() - i,
    {
        if !is_ascii_digit(chars[i]) {
            assert(!ascii_digit(chars@.skip(from as int)[i - from]));
            return false;
        }
        i += 1;
    }
    true
}

/// `id` without its version.
fn strip_version(id: &str) -> (r: String)
    ensures
        r@ == without_version(id@),
{
    let chars = chars_of(id);
    let past = find_past_last(&chars, "vV");
    if past > 1 && past < chars.len() && ends_in_digits(&chars, past) {
        assert(chars@.subrange(0, past - 1) =~= chars@.take(past - 1));
        text_of(&chars, 0, past - 1)
    } else {
        id.to_owned()
    }
}

/// The arXiv identifier that `value` denotes, without its version.
pub fn arxiv_base_id(value: &str) -> (r: Option<String>)
    ensures
        crate::text::opt_text(r) == arxiv_base_of(value@),
{
    match normalize_arxiv(value) {
        Some(id) => Some(strip_version(&id)),
        None => None,
    }
}

/// Every character of an arXiv identifier is a digit, a character of an archive
/// or the slash after it; its first is no white space and its last is a digit.
pub proof fn lemma_arxiv_chars(s: Seq<char>)
    requires
        arxiv_shape(s),
    ensures
        s.len() > 0,
        forall|i: int| 0 <= i < s.len() ==> decimal_digit(#[trigger] s[i]) || archive_char(s[i])
            || s[i] == '/',
        decimal_digit(s.last()),
{
    if !arxiv_base_shape(s) {
        let k = choose|k: int| arxiv_version_at(s, k);
        let base = s.take(k);
        assert forall|i: int| 0 <= i < s.len() implies decimal_digit(#[trigger] s[i])
            || archive_char(s[i]) || s[i] == '/' by {
            if i < k {
                assert(s[i] == base[i]);
                if i >= base.len() - 7 || new_arxiv_shape(base) {
                    assert(decimal_digit(base[i]) || base[i] == '.');
                } else if 1 <= i < base.len() - 8 {
                    assert(archive_char(base[i]));
                }
            } else if i > k {
                assert(decimal_digit(s[i]));
            }
        }
        assert(decimal_digit(s[s.len() - 1]));
    } else {
        assert(decimal_digit(s[s.len() - 1]));
    }
}

/// A text with white space at neither end stays whole when it is trimmed.
pub proof fn lemma_trimmed_is_whole(s: Seq<char>)
    requires
        s.len() > 0,
        !white_space(s[0]),
        !white_space(s.last()),
    ensures
        trimmed(s) == s,
{
}

/// An arXiv identifier in its normal form denotes itself: normalizing twice is
/// normalizing once.
pub proof fn law_arxiv_normal_form(s: Seq<char>)
    ensures
        arxiv_of(s) matches Some(id) ==> arxiv_of(id) == Some(id),
{
    if let Some(id) = arxiv_of(s) {
        lemma_arxiv_chars(id);
        assert(!white_space(id[0]) && !white_space(id.last()));
        lemma_trimmed_is_whole(id);
        reveal_strlit("arXiv:");
        reveal_strlit("arxiv:");
        reveal_strlit("https://arxiv.org/abs/");
        reveal_strlit("https://arxiv.org/pdf/");
        reveal_strlit("http://arxiv.org/abs/");
        reveal_strlit(".pdf");
        assert forall|p: Seq<char>, i: int|
            0 <= i < p.len() && #[trigger] p[i] == ':' implies !#[trigger] begins_with(id, p) by {
            if begins_with(id, p) {
                assert(id[i] == id.take(p.len() as int)[i]);
                assert(decimal_digit(id[i]) || archive_char(id[i]) || id[i] == '/');
            }
        }
        assert("arXiv:"@[5] == ':' && "arxiv:"@[5] == ':');
        assert("https://arxiv.org/abs/"@[5] == ':' && "https://arxiv.org/pdf/"@[5] == ':');
        assert("http://arxiv.org/abs/"@[4] == ':');
        if finishes_with(id, ".pdf"@) {
            assert(id.skip(id.len() - 4)[3] == 'f');
            assert(id.last() == 'f');
        }
    }
}

/// It does not matter whether the version is taken off before or after lowercase.
proof fn lemma_version_in_lowercase(id: Seq<char>)
    ensures
        without_version(ascii_lower(id)) == ascii_lower(without_version(id)),
{
    let set = "vV"@;
    let low = ascii_lower(id);
    let p = past_last_of(id, set) as int;
    let q = past_last_of(low, set) as int;
    lemma_version_letters();
    lemma_past_last(id, set);
    lemma_past_last(low, set);
    assert forall|i: int| 0 <= i < id.len() implies set.contains(#[trigger] id[i]) == set.contains(
        low[i],
    ) by {}
    if p < q {
        assert(set.contains(low[q - 1]));
        assert(set.contains(id[q - 1]));
    } else if q < p {
        assert(set.contains(id[p - 1]));
        assert(set.contains(low[p - 1]));
    }
    assert(all_digits(id.skip(p)) == all_digits(low.skip(p))) by {
        assert forall|i: int| 0 <= i < id.len() - p implies ascii_digit(#[trigger] id.skip(p)[i])
            == ascii_digit(low.skip(p)[i]) by {}
        if all_digits(id.skip(p)) {
            assert forall|i: int| 0 <= i < low.skip(p).len() implies ascii_digit(
                #[trigger] low.skip(p)[i],
            ) by {
                assert(ascii_digit(id.skip(p)[i]));
            }
        }
        if all_digits(low.skip(p)) {
            assert forall|i: int| 0 <= i < id.skip(p).len() implies ascii_digit(
                #[trigger] id.skip(p)[i],
            ) by {
                assert(ascii_digit(low.skip(p)[i]));
            }
        }
    }
    assert(without_version(low) =~= ascii_lower(without_version(id)));
}

/// An identifier without a version stays as it is.
proof fn lemma_base_has_no_version(base: Seq<char>)
    requires
        arxiv_base_shape(base),
    ensures
        without_version(base) == base,
{
    let p = past_last_of(base, "vV"@) as int;
    lemma_version_letters();
    lemma_past_last(base, "vV"@);
    if p > 1 && p < base.len() && all_digits(base.skip(p)) {
        assert("vV"@.contains(base[p - 1]));
        if new_arxiv_shape(base) {
            assert(p - 1 < 4 ==> decimal_digit(base[p - 1]));
            assert(p - 1 > 4 ==> decimal_digit(base[p - 1]));
        } else {
            let slash = base.len() - 8;
            if p - 1 < slash {
                assert(base.skip(p)[slash - p] == '/');
                assert(ascii_digit(base.skip(p)[slash - p]));
            } else if p - 1 > slash {
                assert(decimal_digit(base[p - 1]));
            }
        }
    }
}

/// Of an ASCII identifier one version is taken off, and no more.
proof fn lemma_one_version(id: Seq<char>)
    requires
        arxiv_shape(id),
        is_ascii_chars(id),
    ensures
        without_version(without_version(id)) == without_version(id),
{
    if arxiv_base_shape(id) {
        lemma_base_has_no_version(id);
    } else {
        let k = choose|k: int| arxiv_version_at(id, k);
        lemma_version_is_last(id, k);
        assert forall|i: int| 0 <= i < id.skip(k + 1).len() implies ascii_digit(
            #[trigger] id.skip(k + 1)[i],
        ) by {
            assert(decimal_digit(id[k + 1 + i]));
        }
        assert(all_digits(id.skip(k + 1)));
        assert(without_version(id) == id.take(k));
        lemma_base_has_no_version(id.take(k));
    }
}

/// Two ASCII identifiers whose works differ, whatever their case, differ in lowercase,
/// with their versions and without.
pub proof fn lemma_arxiv_lowercase_differs(a: Seq<char>, b: Seq<char>)
    requires
        arxiv_shape(a) && is_ascii_chars(a),
        arxiv_shape(b) && is_ascii_chars(b),
        ascii_lower(without_version(a)) != ascii_lower(without_version(b)),
    ensures
        lowered(a) != lowered(b),
        lowered(a) != lowered(without_version(b)),
        lowered(without_version(a)) != lowered(b),
        lowered(without_version(a)) != lowered(without_version(b)),
{
    lemma_version_in_lowercase(a);
    lemma_version_in_lowercase(b);
    lemma_version_in_lowercase(without_version(a));
    lemma_version_in_lowercase(without_version(b));
    lemma_one_version(a);
    lemma_one_version(b);
    assert(is_ascii_chars(without_version(a)));
    assert(is_ascii_chars(without_version(b)));
}

/// `candidate` denotes what `requested` asks for: the very version that it names,
/// or any version where it names none. Case does not matter.
pub open spec fn arxiv_match(requested: Seq<char>, candidate: Seq<char>) -> bool {
    match (arxiv_of(requested), arxiv_of(candidate)) {
        (Some(wanted), Some(found)) => if without_version(wanted) != wanted {
            ascii_lower(wanted) == ascii_lower(found)
        } else {
            ascii_lower(without_version(found)) == ascii_lower(wanted)
        },
        _ => false,
    }
}

/// Whether `candidate` denotes what `requested` asks for: the very version that it
/// names, or any version where it names none.
pub fn arxiv_ids_match(requested: &str, candidate: &str) -> (r: bool)
    ensures
        r == arxiv_match(requested@, candidate@),
{
    let wanted = match normalize_arxiv(requested) {
        Some(id) => id,
        None => return false,
    };
    let found = match normalize_arxiv(candidate) {
        Some(id) => id,
        None => return false,
    };
    proof {
        law_arxiv_normal_form(requested@);
        law_arxiv_normal_form(candidate@);
    }
    let wanted_base = match arxiv_base_id(&wanted) {
        Some(id) => id,
        None => return false,
    };
    if !same_text(&wanted, &wanted_base) {
        eq_ignore_ascii_case(&wanted, &found)
    } else {
        match arxiv_base_id(&found) {
            Some(found_base) => eq_ignore_ascii_case(&found_base, &wanted_base),
            None => false,
        }
    }
}

/// What follows the last slash of `s`, or all of it.
pub open spec fn last_segment(s: Seq<char>) -> Seq<char> {
    s.skip(past_last_of(s, "/"@) as int)
}

/// What follows the last slash of `value`, or all of it.
pub fn after_last_slash(value: &str) -> (r: String)
    ensures
        r@ == last_segment(value@),
{
    let chars = chars_of(value);
    let from = find_past_last(&chars, "/");
    assert(chars@.subrange(from as int, chars@.len() as int) =~= chars@.skip(from as int));
    text_of(&chars, from, chars.len())
}

/// The OpenAlex work identifier that a text denotes, in its normal form: `W` and
/// the digits after it.
pub open spec fn openalex_of(s: Seq<char>) -> Option<Seq<char>> {
    let id = last_segment(trimmed_end_of(trimmed(s), "/"@));
    if id.len() > 1 && (id[0] == 'w' || id[0] == 'W') && all_digits(id.skip(1)) {
        Some("W"@ + id.skip(1))
    } else {
        None
    }
}

/// The OpenAlex work identifier that `value` denotes.
pub fn normalize_openalex(value: &str) -> (r: Option<String>)
    ensures
        crate::text::opt_text(r) == openalex_of(value@),
{
    let whole = trim(value);
    let path = trim_end_of(&whole, "/");
    let id = after_last_slash(&path);
    let chars = chars_of(&id);
    if chars.len() > 1 && (chars[0] == 'w' || chars[0] == 'W') && ends_in_digits(&chars, 1) {
        let mut out = "W".to_owned();
        let digits = text_of(&chars, 1, chars.len());
        assert(digits@ =~= id@.skip(1));
        out.append(&digits);
        Some(out)
    } else {
        None
    }
}

/// The lowercase of a character: itself or the ASCII letter, or Unicode's mapping.
pub open spec fn lowered_char(c: char) -> Seq<char> {
    if c <= '\u{7f}' {
        seq![ascii_lower_char(c)]
    } else {
        char_lowercase(c)
    }
}

/// A letter or a number.
pub open spec fn alphanumeric(c: char) -> bool {
    if c <= '\u{7f}' {
        ('a' <= c && c <= 'z') || ('A' <= c && c <= 'Z') || ascii_digit(c)
    } else {
        char_alphanumeric(c)
    }
}

fn is_alphanumeric(c: char) -> (r: bool)
    ensures
        r == alphanumeric(c),
{
    if c <= '\u{7f}' {
        ('a' <= c && c <= 'z') || ('A' <= c && c <= 'Z') || is_ascii_digit(c)
    } else {
        is_char_alphanumeric(c)
    }
}

/// The letters and numbers of `s`, in order.
pub open spec fn alphanumerics(s: Seq<char>) -> Seq<char>
    decreases s.len(),
{
    if s.len() == 0 {
        Seq::empty()
    } else if alphanumeric(s.last()) {
        alphanumerics(s.drop_last()).push(s.last())
    } else {
        alphanumerics(s.drop_last())
    }
}

/// The letters and numbers among the lowercase forms of the characters of `s`.
pub open spec fn fingerprint_of(s: Seq<char>) -> Seq<char>
    decreases s.len(),
{
    if s.len() == 0 {
        Seq::empty()
    } else {
        fingerprint_of(s.drop_last()) + alphanumerics(lowered_char(s.last()))
    }
}

/// A text with its compatibility characters taken apart; ASCII is as it is.
pub open spec fn decomposed(s: Seq<char>) -> Seq<char> {
    if is_ascii_chars(s) {
        s
    } else {
        compatibility_decomposition(s)
    }
}

/// What two spellings of a title have in common: its letters and numbers, in
/// lowercase, with accents taken apart and dropped.
pub open spec fn fingerprint(s: Seq<char>) -> Seq<char> {
    fingerprint_of(decomposed(s))
}

/// ASCII white space leaves nothing of a title.
pub proof fn lemma_blank_fingerprint(s: Seq<char>)
    requires
        is_ascii_chars(s),
        forall|i: int| 0 <= i < s.len() ==> white_space(#[trigger] s[i]),
    ensures
        fingerprint(s).len() == 0,
    decreases s.len(),
{
    if s.len() > 0 {
        let rest = s.drop_last();
        assert forall|i: int| 0 <= i < rest.len() implies white_space(#[trigger] rest[i])
            && '\0' <= rest[i] <= '\u{7f}' by {
            assert(rest[i] == s[i]);
        }
        lemma_blank_fingerprint(rest);
        let c = s[s.len() - 1];
        assert(white_space(c) && c <= '\u{7f}');
        let low = lowered_char(c);
        assert(low =~= seq![c]);
        assert(low.drop_last() =~= Seq::empty());
        assert(alphanumerics(low.drop_last()).len() == 0);
        assert(!alphanumeric(low.last()));
        assert(alphanumerics(low).len() == 0);
    }
}

fn decompose_text(value: &str) -> (r: String)
    ensures
        r@ == decomposed(value@),
{
    if value.is_ascii() {
        value.to_owned()
    } else {
        decompose(value)
    }
}

fn lower_char(c: char) -> (r: Vec<char>)
    ensures
        r@ == lowered_char(c),
{
    if c <= '\u{7f}' {
        let mut out: Vec<char> = Vec::new();
        out.push(lower_ascii_char(c));
        assert(out@ =~= lowered_char(c));
        out
    } else {
        let text = lowercase_of_char(c);
        chars_of(&text)
    }
}

/// The letters and numbers, in lowercase, of a text already decomposed.
pub fn fingerprint_decomposed(value: &str) -> (r: String)
    ensures
        r@ == fingerprint_of(value@),
{
    let chars = chars_of(value);
    let mut out = String::new();
    let mut i: usize = 0;
    while i < chars.len()
        invariant
            i <= chars@.len(),
            out@ == fingerprint_of(chars@.take(i as int)),
        decreases chars@.len() - i,
    {
        assert(chars@.take(i + 1).drop_last() =~= chars@.take(i as int));
        let lowercase = lower_char(chars[i]);
        let ghost before = out@;
        let mut j: usize = 0;
        assert(before + alphanumerics(lowercase@.take(0)) =~= before);
        while j < lowercase.len()
            invariant
                j <= lowercase@.len(),
                out@ == before + alphanumerics(lowercase@.take(j as int)),
            decreases lowercase@.len() - j,
        {
            assert(lowercase@.take(j + 1).drop_last() =~= lowercase@.take(j as int));
            if is_alphanumeric(lowercase[j]) {
                out.push(lowercase[j]);
                assert(out@ =~= before + alphanumerics(lowercase@.take(j + 1)));
            }
            j += 1;
        }
        assert(lowercase@.take(lowercase@.len() as int) =~= lowercase@);
        i += 1;
    }
    assert(chars@.take(chars@.len() as int) =~= chars@);
    out
}

/// What two spellings of a title have in common.
pub fn title_fingerprint(value: &str) -> (r: String)
    ensures
        r@ == fingerprint(value@),
{
    let parts = decompose_text(value);
    fingerprint_decomposed(&parts)
}

/// `s` with each tag replaced by a space. A tag is a `<`, one or more characters
/// other than `>`, and the next `>`.
pub open spec fn untagged(s: Seq<char>) -> Seq<char>
    decreases s.len(),
{
    if s.len() == 0 {
        Seq::empty()
    } else {
        let close = 1 + first_of(s.skip(1), ">"@) as int;
        if s[0] == '<' && 2 <= close < s.len() {
            seq![' '] + untagged(s.skip(close + 1))
        } else {
            seq![s[0]] + untagged(s.skip(1))
        }
    }
}

/// The text of `s` without its tags, its words separated by single spaces.
pub open spec fn unmarked(s: Seq<char>) -> Seq<char> {
    spaced(untagged(s))
}

/// The first index from `from` on at which `>` stands, or the length.
fn find_close(chars: &Vec<char>, from: usize) -> (r: usize)
    requires
        from <= chars@.len(),
    ensures
        r == from + first_of(chars@.skip(from as int), ">"@),
        r <= chars@.len(),
{
    proof {
        reveal_strlit(">");
        assert(">"@[0] == '>');
        assert(forall|c: char| ">"@.contains(c) <==> c == '>');
    }
    let mut i: usize = from;
    while i < chars.len() && chars[i] != '>'
        invariant
            from <= i <= chars@.len(),
            forall|c: char| ">"@.contains(c) <==> c == '>',
            first_of(chars@.skip(from as int), ">"@) == i - from + first_of(
                chars@.skip(i as int),
                ">"@,
            ),
        decreases chars@.len() - i,
    {
        assert(chars@.skip(i as int).drop_first() =~= chars@.skip(i + 1));
        i += 1;
    }
    i
}

fn remove_tags(value: &str) -> (r: String)
    ensures
        r@ == untagged(value@),
{
    let chars = chars_of(value);
    let mut out = String::new();
    let mut i: usize = 0;
    assert(chars@.skip(0) =~= chars@);
    assert(Seq::<char>::empty() + untagged(chars@) =~= untagged(chars@));
    while i < chars.len()
        invariant
            i <= chars@.len(),
            out@ + untagged(chars@.skip(i as int)) == untagged(chars@),
        decreases chars@.len() - i,
    {
        let ghost rest = chars@.skip(i as int);
        assert(rest.skip(1) =~= chars@.skip(i + 1));
        let close = find_close(&chars, i + 1);
        let ghost before = out@;
        if chars[i] == '<' && close > i + 1 && close < chars.len() {
            out.push(' ');
            assert(rest.skip(close - i + 1) =~= chars@.skip(close + 1));
            assert(before.push(' ') + untagged(chars@.skip(close + 1)) =~= before + (seq![' ']
                + untagged(chars@.skip(close + 1))));
            i = close + 1;
        } else {
            let c = chars[i];
            out.push(c);
            assert(before.push(c) + untagged(chars@.skip(i + 1)) =~= before + (seq![c] + untagged(
                chars@.skip(i + 1),
            )));
            i += 1;
        }
    }
    assert(out@ + Seq::<char>::empty() =~= out@);
    out
}

/// The text of `value` without its tags, its words separated by single spaces.
pub fn strip_markup(value: &str) -> (r: String)
    ensures
        r@ == unmarked(value@),
{
    let plain = remove_tags(value);
    normalize_space(&plain)
}

/// Some text of `kept` equals `key` in lowercase.
pub open spec fn kept_already(kept: Seq<Seq<char>>, key: Seq<char>) -> bool {
    exists|i: int| 0 <= i < kept.len() && lowered(#[trigger] kept[i]) == key
}

/// The texts with their words separated by single spaces, without those that are
/// empty and without those that equal an earlier one in lowercase.
pub open spec fn distinct(values: Seq<Seq<char>>) -> Seq<Seq<char>>
    decreases values.len(),
{
    if values.len() == 0 {
        Seq::empty()
    } else {
        let kept = distinct(values.drop_last());
        let cleaned = spaced(values.last());
        if cleaned.len() == 0 || kept_already(kept, lowered(cleaned)) {
            kept
        } else {
            kept.push(cleaned)
        }
    }
}

/// The values with their words separated by single spaces, each once: the empty
/// ones and those that equal an earlier one in lowercase are left out.
pub fn unique(values: &Vec<String>) -> (r: Vec<String>)
    ensures
        texts(r@) == distinct(texts(values@)),
{
    let mut out: Vec<String> = Vec::new();
    let mut keys: Vec<String> = Vec::new();
    let ghost all = texts(values@);
    let mut i: usize = 0;
    assert(texts(out@) =~= distinct(all.take(0)));
    while i < values.len()
        invariant
            i <= values@.len(),
            all == texts(values@),
            texts(out@) == distinct(all.take(i as int)),
            keys@.len() == out@.len(),
            forall|j: int| 0 <= j < keys@.len() ==> (#[trigger] keys@[j])@ == lowered(out@[j]@),
        decreases values@.len() - i,
    {
        assert(all.take(i + 1).drop_last() =~= all.take(i as int));
        assert(all.take(i + 1).last() == values@[i as int]@);
        let cleaned = normalize_space(&values[i]);
        if !cleaned.as_str().is_empty() {
            let key = lower(&cleaned);
            let seen = crate::text::text_in(&key, &keys);
            assert(seen == kept_already(texts(out@), key@)) by {
                if seen {
                    let j = choose|j: int| 0 <= j < keys@.len() && texts(keys@)[j] == key@;
                    assert(lowered(texts(out@)[j]) == keys@[j]@);
                }
                if kept_already(texts(out@), key@) {
                    let j = choose|j: int|
                        0 <= j < out@.len() && lowered(#[trigger] texts(out@)[j]) == key@;
                    assert(texts(keys@)[j] == keys@[j]@);
                    assert(texts(keys@).contains(key@));
                }
            }
            if !seen {
                let ghost before = texts(out@);
                let ghost added = cleaned@;
                out.push(cleaned);
                keys.push(key);
                assert(texts(out@) =~= before.push(added));
            }
        }
        i += 1;
    }
    assert(all.take(all.len() as int) =~= all);
    out
}

/// The lowercase hexadecimal digit of a number below sixteen.
pub open spec fn hex_digit(n: u8) -> char {
    if n < 10 {
        ((n as u32) + ('0' as u32)) as char
    } else {
        ((n as u32) - 10 + ('a' as u32)) as char
    }
}

/// The bytes in lowercase hexadecimal, two digits each.
pub open spec fn hexadecimal(bytes: Seq<u8>) -> Seq<char> {
    Seq::new(
        bytes.len() * 2,
        |i: int|
            if i % 2 == 0 {
                hex_digit(bytes[i / 2] / 16)
            } else {
                hex_digit(bytes[i / 2] % 16)
            },
    )
}

pub fn hex_char(n: u8) -> (r: char)
    requires
        n < 16,
    ensures
        r == hex_digit(n),
{
    if n < 10 {
        (n + 48u8) as char
    } else {
        (n + 87u8) as char
    }
}

/// The bytes in lowercase hexadecimal, two digits each.
pub fn hex_text(bytes: &Vec<u8>) -> (r: String)
    ensures
        r@ == hexadecimal(bytes@),
{
    let mut out = String::new();
    let mut i: usize = 0;
    while i < bytes.len()
        invariant
            i <= bytes@.len(),
            out@ == hexadecimal(bytes@.take(i as int)),
        decreases bytes@.len() - i,
    {
        let ghost before = out@;
        out.push(hex_char(bytes[i] / 16));
        out.push(hex_char(bytes[i] % 16));
        assert(out@ =~= hexadecimal(bytes@.take(i + 1))) by {
            assert forall|j: int| 0 <= j < out@.len() implies out@[j] == hexadecimal(
                bytes@.take(i + 1),
            )[j] by {
                if j < 2 * i {
                    assert(out@[j] == before[j]);
                    assert(bytes@.take(i as int)[j / 2] == bytes@.take(i + 1)[j / 2]);
                }
            }
        }
        i += 1;
    }
    assert(bytes@.take(bytes@.len() as int) =~= bytes@);
    out
}

/// The SHA-256 digest of `bytes` in lowercase hexadecimal.
pub fn sha256_bytes(bytes: &[u8]) -> (r: String)
    ensures
        r@ == hexadecimal(sha256(bytes@)),
        r@.len() == 64,
{
    let digest = sha256_digest(bytes);
    hex_text(&digest)
}

/// How many bytes have a digest: their bits are counted in 64 bits.
pub const DIGESTIBLE: u64 = 0x1fff_ffff_ffff_ffff;

/// The digest of bytes that come one part after another.
#[derive(Debug)]
pub struct StreamDigest {
    hasher: Hasher,
    length: u64,
}

impl View for StreamDigest {
    type V = Seq<u8>;

    /// All the bytes that have come.
    closed spec fn view(&self) -> Seq<u8> {
        absorbed(self.hasher)
    }
}

impl StreamDigest {
    #[verifier::type_invariant]
    spec fn counted(self) -> bool {
        self.length == absorbed(self.hasher).len() && self.length <= DIGESTIBLE
    }

    /// Nothing has come yet.
    pub fn new() -> (r: StreamDigest)
        ensures
            r@ == Seq::<u8>::empty(),
    {
        StreamDigest { hasher: new_hasher(), length: 0 }
    }

    /// How many bytes have come.
    pub fn length(&self) -> (r: u64)
        ensures
            r == self@.len(),
            r <= DIGESTIBLE,
    {
        proof {
            use_type_invariant(self);
        }
        self.length
    }

    /// Takes more bytes in, if all of them together have a digest.
    pub fn take_chunk(&mut self, chunk: &[u8]) -> (r: bool)
        ensures
            r == (old(self)@.len() + chunk@.len() <= DIGESTIBLE),
            final(self)@ == (if r {
                old(self)@ + chunk@
            } else {
                old(self)@
            }),
    {
        proof {
            use_type_invariant(&*self);
        }
        let more: u64 = chunk.len() as u64;
        if more > DIGESTIBLE - self.length {
            return false;
        }
        let mut before = StreamDigest::new();
        std::mem::swap(self, &mut before);
        let StreamDigest { mut hasher, length } = before;
        update_hasher(&mut hasher, chunk);
        *self = StreamDigest { hasher, length: length + more };
        true
    }

    /// The digest of all the bytes that have come, in lowercase hexadecimal.
    pub fn finish(self) -> (r: String)
        ensures
            r@ == hexadecimal(sha256(self@)),
            r@.len() == 64,
    {
        proof {
            use_type_invariant(&self);
        }
        let StreamDigest { hasher, length: _ } = self;
        hex_text(&finish_hasher(hasher))
    }
}

/// The letters and digits that a slug is made of.
pub open spec fn slug_char(c: char) -> bool {
    ('a' <= c && c <= 'z') || ascii_digit(c)
}

/// The ASCII characters of `s` in lowercase, with each run of other than letters
/// and digits replaced by one hyphen.
pub open spec fn hyphenated(s: Seq<char>) -> Seq<char>
    decreases s.len(),
{
    if s.len() == 0 {
        Seq::empty()
    } else {
        let rest = hyphenated(s.drop_last());
        let c = ascii_lower_char(s.last());
        if c > '\u{7f}' {
            rest
        } else if slug_char(c) {
            rest.push(c)
        } else if rest.len() > 0 && rest.last() == '-' {
            rest
        } else {
            rest.push('-')
        }
    }
}

/// The slug of a text already decomposed, at most 96 characters of it: without
/// hyphens at its ends, or `fallback` where nothing is left.
pub open spec fn slug_of(s: Seq<char>, fallback: Seq<char>) -> Seq<char> {
    let slug = trimmed_end_of(trimmed_start_of(hyphenated(s), "-"@), "-"@);
    let chosen = if slug.len() == 0 {
        fallback
    } else {
        slug
    };
    if chosen.len() > 96 {
        chosen.take(96)
    } else {
        chosen
    }
}

/// The slug of a text: its ASCII letters and digits, in lowercase and with accents
/// dropped, with hyphens between the runs of them.
pub open spec fn slug(s: Seq<char>, fallback: Seq<char>) -> Seq<char> {
    slug_of(decomposed(s), fallback)
}

fn hyphenate(value: &str) -> (r: String)
    ensures
        r@ == hyphenated(value@),
{
    let chars = chars_of(value);
    let mut out: Vec<char> = Vec::new();
    let mut i: usize = 0;
    while i < chars.len()
        invariant
            i <= chars@.len(),
            out@ == hyphenated(chars@.take(i as int)),
        decreases chars@.len() - i,
    {
        assert(chars@.take(i + 1).drop_last() =~= chars@.take(i as int));
        let c = lower_ascii_char(chars[i]);
        if c <= '\u{7f}' {
            if ('a' <= c && c <= 'z') || is_ascii_digit(c) {
                out.push(c);
            } else if out.len() == 0 || out[out.len() - 1] != '-' {
                out.push('-');
            }
        }
        i += 1;
    }
    assert(chars@.take(chars@.len() as int) =~= chars@);
    assert(out@.subrange(0, out@.len() as int) =~= out@);
    text_of(&out, 0, out.len())
}

/// The slug of a text already decomposed.
pub fn slug_decomposed(value: &str, fallback: &str) -> (r: String)
    ensures
        r@ == slug_of(value@, fallback@),
{
    let runs = hyphenate(value);
    let start = trim_start_of(&runs, "-");
    let inner = trim_end_of(&start, "-");
    let chosen = if inner.as_str().is_empty() {
        chars_of(fallback)
    } else {
        chars_of(&inner)
    };
    let len: usize = if chosen.len() > 96 {
        96
    } else {
        chosen.len()
    };
    assert(chosen@.subrange(0, len as int) =~= chosen@.take(len as int));
    assert(chosen@.take(chosen@.len() as int) =~= chosen@);
    text_of(&chosen, 0, len)
}

/// The slug of `value`, or `fallback` where nothing of it is left.
pub fn safe_slug(value: &str, fallback: &str) -> (r: String)
    ensures
        r@ == slug(value@, fallback@),
{
    let parts = decompose_text(value);
    slug_decomposed(&parts, fallback)
}

/// The path of a part below a base.
pub open spec fn path_of(base: Seq<char>, part: Seq<char>) -> Seq<char> {
    if begins_with(part, "/"@) || base.len() == 0 {
        part
    } else if finishes_with(base, "/"@) {
        base + part
    } else {
        base + "/"@ + part
    }
}

/// The path of a part below a base.
pub fn join_path(base: &str, part: &str) -> (r: String)
    ensures
        r@ == path_of(base@, part@),
{
    if starts_with(part, "/") || base.is_empty() {
        return part.to_owned();
    }
    let mut path = base.to_owned();
    if !ends_with(base, "/") {
        path.append("/");
    }
    path.append(part);
    path
}

/// Putting single spaces between the words of a text keeps its words, and doing so
/// twice is doing so once.
pub proof fn law_spacing_keeps_the_words(s: Seq<char>)
    ensures
        words_of(spaced(s)) == words_of(s),
        spaced(spaced(s)) == spaced(s),
{
    lemma_words_of_joined(s);
}

/// A text without the characters of a set at its end is a beginning of it that ends in none.
pub proof fn lemma_trimmed_end_of(s: Seq<char>, set: Seq<char>)
    ensures
        trimmed_end_of(s, set).len() <= s.len(),
        trimmed_end_of(s, set) == s.take(trimmed_end_of(s, set).len() as int),
        trimmed_end_of(s, set).len() > 0 ==> !set.contains(trimmed_end_of(s, set).last()),
    decreases s.len(),
{
    if s.len() > 0 && set.contains(s.last()) {
        lemma_trimmed_end_of(s.drop_last(), set);
        let kept = trimmed_end_of(s, set);
        assert(s.drop_last().take(kept.len() as int) =~= s.take(kept.len() as int));
    } else {
        assert(s.take(s.len() as int) =~= s);
    }
}

proof fn lemma_trimmed_is_part(s: Seq<char>)
    ensures
        forall|c: char| #[trigger] trimmed(s).contains(c) ==> s.contains(c),
{
    lemma_trimmed_start_is_part(s);
    lemma_trimmed_end_is_part(trimmed_start(s));
}

proof fn lemma_trimmed_start_is_part(s: Seq<char>)
    ensures
        forall|c: char| #[trigger] trimmed_start(s).contains(c) ==> s.contains(c),
    decreases s.len(),
{
    if s.len() > 0 && white_space(s[0]) {
        lemma_trimmed_start_is_part(s.drop_first());
        assert forall|c: char| #[trigger] trimmed_start(s).contains(c) implies s.contains(c) by {
            assert(trimmed_start(s.drop_first()).contains(c));
            assert(s.drop_first().contains(c));
            let i = choose|i: int| 0 <= i < s.drop_first().len() && s.drop_first()[i] == c;
            assert(s[i + 1] == c);
        }
    }
}

proof fn lemma_trimmed_end_is_part(s: Seq<char>)
    ensures
        forall|c: char| #[trigger] trimmed_end(s).contains(c) ==> s.contains(c),
    decreases s.len(),
{
    if s.len() > 0 && white_space(s.last()) {
        lemma_trimmed_end_is_part(s.drop_last());
        assert forall|c: char| #[trigger] trimmed_end(s).contains(c) implies s.contains(c) by {
            assert(trimmed_end(s.drop_last()).contains(c));
            assert(s.drop_last().contains(c));
            let i = choose|i: int| 0 <= i < s.drop_last().len() && s.drop_last()[i] == c;
            assert(s[i] == c);
        }
    }
}

/// Every character is ASCII and no capital letter.
spec fn plain_lowercase(s: Seq<char>) -> bool {
    forall|c: char| #[trigger] s.contains(c) ==> c <= '\u{7f}' && ascii_lower_char(c) == c
}

proof fn lemma_plain_lowercase(s: Seq<char>)
    requires
        plain_lowercase(s),
    ensures
        lowered(s) == s,
{
    assert forall|i: int| 0 <= i < s.len() implies ascii_lower_char(#[trigger] s[i]) == s[i]
        && s[i] <= '\u{7f}' by {
        assert(s.contains(s[i]));
    }
    assert(is_ascii_chars(s));
    assert(ascii_lower(s) =~= s);
}

/// What an ASCII text denotes as a DOI is its own lowercase.
proof fn lemma_ascii_doi_is_lowercase(s: Seq<char>)
    requires
        is_ascii_chars(s),
        doi_of(s) is Some,
    ensures
        lowered(doi_of(s)->0) == doi_of(s)->0,
{
    let doi = doi_of(s)->0;
    let inner = trimmed(s);
    let low = lowered(inner);
    let rest = without_doi_prefix(low);
    lemma_trimmed_is_part(s);
    assert forall|i: int| 0 <= i < inner.len() implies '\0' <= #[trigger] inner[i] <= '\u{7f}' by {
        assert(inner.contains(inner[i]));
        assert(s.contains(inner[i]));
        let k = choose|k: int| 0 <= k < s.len() && s[k] == inner[i];
        assert(s[k] <= '\u{7f}');
    }
    assert(is_ascii_chars(inner));
    assert(low == ascii_lower(inner));
    assert(plain_lowercase(low)) by {
        assert forall|c: char| #[trigger] low.contains(c) implies c <= '\u{7f}'
            && ascii_lower_char(c) == c by {
            let i = choose|i: int| 0 <= i < low.len() && low[i] == c;
            assert(low[i] == ascii_lower_char(inner[i]));
        }
    }
    assert forall|k: int| 0 <= k <= low.len() implies plain_lowercase(
        #[trigger] trimmed(low.skip(k)),
    ) by {
        lemma_trimmed_is_part(low.skip(k));
        assert forall|c: char| #[trigger] trimmed(low.skip(k)).contains(c) implies c <= '\u{7f}'
            && ascii_lower_char(c) == c by {
            let i = choose|i: int| 0 <= i < low.skip(k).len() && low.skip(k)[i] == c;
            assert(low[k + i] == c);
        }
    }
    assert(plain_lowercase(rest));
    lemma_trimmed_end_of(rest, " .;,"@);
    assert(plain_lowercase(doi)) by {
        assert forall|c: char| #[trigger] doi.contains(c) implies c <= '\u{7f}'
            && ascii_lower_char(c) == c by {
            let i = choose|i: int| 0 <= i < doi.len() && doi[i] == c;
            assert(rest[i] == c);
            assert(rest.contains(c));
        }
    }
    lemma_plain_lowercase(doi);
}

/// A DOI in its normal form denotes itself, normalizing twice is normalizing once,
/// wherever that form is its own lowercase; that of an ASCII text always is.
pub proof fn law_doi_normal_form(s: Seq<char>)
    ensures
        doi_of(s) matches Some(doi) ==> {
            &&& lowered(doi) == doi ==> doi_of(doi) == Some(doi)
            &&& is_ascii_chars(s) ==> lowered(doi) == doi
        },
{
    if let Some(doi) = doi_of(s) {
        let rest = without_doi_prefix(lowered(trimmed(s)));
        let set = " .;,"@;
        lemma_trimmed_end_of(rest, set);
        if is_ascii_chars(s) {
            lemma_ascii_doi_is_lowercase(s);
        }
        let k = choose|k: int| doi_slash_at(doi, k);
        reveal_strlit("10.");
        reveal_strlit("https://doi.org/");
        reveal_strlit("http://doi.org/");
        reveal_strlit("http://dx.doi.org/");
        reveal_strlit("doi:");
        assert(doi.take(3)[0] == '1');
        assert(doi[0] == '1');
        assert(!white_space(doi[doi.len() - 1]));
        lemma_trimmed_is_whole(doi);
        assert forall|p: Seq<char>| p.len() > 0 && p[0] != '1' implies !#[trigger] begins_with(
            doi,
            p,
        ) by {
            if begins_with(doi, p) {
                assert(doi.take(p.len() as int)[0] == doi[0]);
            }
        }
        assert(without_doi_prefix(doi) == doi);
        assert(trimmed_end_of(doi, set) == doi);
    }
}

/// An OpenAlex identifier in its normal form denotes itself: normalizing twice is
/// normalizing once.
pub proof fn law_openalex_normal_form(s: Seq<char>)
    ensures
        openalex_of(s) matches Some(id) ==> openalex_of(id) == Some(id),
{
    if let Some(id) = openalex_of(s) {
        reveal_strlit("W");
        reveal_strlit("/");
        let found = last_segment(trimmed_end_of(trimmed(s), "/"@));
        let digits = found.skip(1);
        assert(id =~= seq!['W'] + digits);
        assert(id.skip(1) =~= digits);
        assert forall|i: int| 1 <= i < id.len() implies ascii_digit(#[trigger] id[i]) by {
            assert(ascii_digit(digits[i - 1]));
        }
        assert(!white_space(id[0]) && !white_space(id.last()));
        lemma_trimmed_is_whole(id);
        assert(forall|c: char| "/"@.contains(c) ==> c == '/');
        assert(trimmed_end_of(id, "/"@) == id);
        lemma_past_last(id, "/"@);
        let past = past_last_of(id, "/"@) as int;
        if past > 0 {
            assert("/"@.contains(id[past - 1]));
        }
        assert(last_segment(id) =~= id);
    }
}

/// No two of the texts that are kept are equal in lowercase, none of them is empty, and
/// each holds its words with single spaces between them.
pub proof fn law_distinct_texts_differ(values: Seq<Seq<char>>)
    ensures
        forall|i: int, j: int|
            0 <= i < j < distinct(values).len() ==> lowered(#[trigger] distinct(values)[i])
                != lowered(#[trigger] distinct(values)[j]),
        forall|i: int|
            0 <= i < distinct(values).len() ==> (#[trigger] distinct(values)[i]).len() > 0
                && spaced(distinct(values)[i]) == distinct(values)[i],
    decreases values.len(),
{
    if values.len() > 0 {
        let kept = distinct(values.drop_last());
        let whole = distinct(values);
        law_distinct_texts_differ(values.drop_last());
        law_spacing_keeps_the_words(values.last());
        assert forall|i: int, j: int| 0 <= i < j < whole.len() implies lowered(
            #[trigger] whole[i],
        ) != lowered(#[trigger] whole[j]) by {
            assert(whole[i] == kept[i]);
            if j < kept.len() {
                assert(whole[j] == kept[j]);
            }
        }
        assert forall|i: int| 0 <= i < whole.len() implies (#[trigger] whole[i]).len() > 0
            && spaced(whole[i]) == whole[i] by {
            if i < kept.len() {
                assert(whole[i] == kept[i]);
            }
        }
    }
}

/// Of every text that is not blank one is kept that equals it in lowercase, once its
/// words are separated by single spaces.
pub proof fn law_distinct_texts_are_complete(values: Seq<Seq<char>>, i: int)
    requires
        0 <= i < values.len(),
        spaced(values[i]).len() > 0,
    ensures
        kept_already(distinct(values), lowered(spaced(values[i]))),
    decreases values.len(),
{
    let kept = distinct(values.drop_last());
    let whole = distinct(values);
    let key = lowered(spaced(values[i]));
    if i < values.len() - 1 {
        law_distinct_texts_are_complete(values.drop_last(), i);
        let k = choose|k: int| 0 <= k < kept.len() && lowered(#[trigger] kept[k]) == key;
        assert(whole[k] == kept[k]);
    } else if !kept_already(kept, key) {
        assert(lowered(whole[whole.len() - 1]) == key);
    }
}

proof fn lemma_hyphenated(s: Seq<char>)
    ensures
        forall|i: int|
            0 <= i < hyphenated(s).len() ==> slug_char(#[trigger] hyphenated(s)[i])
                || hyphenated(s)[i] == '-',
    decreases s.len(),
{
    if s.len() > 0 {
        let rest = hyphenated(s.drop_last());
        lemma_hyphenated(s.drop_last());
        assert forall|i: int| 0 <= i < hyphenated(s).len() implies slug_char(
            #[trigger] hyphenated(s)[i],
        ) || hyphenated(s)[i] == '-' by {
            if i < rest.len() {
                assert(hyphenated(s)[i] == rest[i]);
            }
        }
    }
}

proof fn lemma_trimmed_start_of(s: Seq<char>, set: Seq<char>)
    ensures
        forall|c: char| #[trigger] trimmed_start_of(s, set).contains(c) ==> s.contains(c),
    decreases s.len(),
{
    if s.len() > 0 && set.contains(s[0]) {
        lemma_trimmed_start_of(s.drop_first(), set);
        assert forall|c: char| #[trigger] trimmed_start_of(s, set).contains(c) implies s.contains(c) by {
            assert(trimmed_start_of(s.drop_first(), set).contains(c));
            assert(s.drop_first().contains(c));
            let i = choose|i: int| 0 <= i < s.drop_first().len() && s.drop_first()[i] == c;
            assert(s[i + 1] == c);
        }
    }
}

/// A slug holds only the lowercase letters and digits of ASCII and hyphens, and what a
/// fallback holds, at most 96 characters: with a fallback like that it is safe as the
/// name of a file.
pub proof fn law_slugs_are_safe(s: Seq<char>, fallback: Seq<char>)
    ensures
        slug(s, fallback).len() <= 96,
        fallback.len() > 0 ==> slug(s, fallback).len() > 0,
        forall|i: int|
            0 <= i < slug(s, fallback).len() ==> slug_char(#[trigger] slug(s, fallback)[i])
                || slug(s, fallback)[i] == '-' || fallback.contains(slug(s, fallback)[i]),
{
    let runs = hyphenated(decomposed(s));
    let start = trimmed_start_of(runs, "-"@);
    let inner = trimmed_end_of(start, "-"@);
    let whole = slug(s, fallback);
    lemma_hyphenated(decomposed(s));
    lemma_trimmed_start_of(runs, "-"@);
    lemma_trimmed_end_of(start, "-"@);
    assert forall|i: int| 0 <= i < whole.len() implies slug_char(#[trigger] whole[i]) || whole[i]
        == '-' || fallback.contains(whole[i]) by {
        if inner.len() > 0 {
            assert(whole[i] == start[i]);
            assert(start.contains(start[i]));
            assert(runs.contains(start[i]));
            let k = choose|k: int| 0 <= k < runs.len() && runs[k] == start[i];
            assert(slug_char(runs[k]) || runs[k] == '-');
        } else {
            assert(fallback.contains(fallback[i]));
        }
    }
}

} // verus!
