//! Text as sequences of characters: reading, trimming, splitting and joining.

use crate::model::{opt_view, views};
use vstd::prelude::*;
use vstd::string::StringExecFns;
use vstd::utf8::{encode_utf8, is_ascii_chars};

verus! {

/// `String::push` appends one character at the end of the string.
pub assume_specification[ String::push ](s: &mut String, c: char)
    ensures
        final(s)@ == old(s)@.push(c),
;

/// What `str::to_lowercase` returns: the full Unicode lowercase mapping of a text.
pub uninterp spec fn unicode_lowercase(s: Seq<char>) -> Seq<char>;

/// `str::to_lowercase` maps a text to lowercase by Unicode's rules. Claimed: the
/// result depends on the text alone.
pub assume_specification[ str::to_lowercase ](s: &str) -> (r: String)
    ensures
        r@ == unicode_lowercase(s@),
;

/// The characters that Unicode lists with the property `White_Space`.
pub open spec fn white_space(c: char) -> bool {
    ||| '\u{9}' <= c && c <= '\u{d}'
    ||| c == ' ' || c == '\u{85}' || c == '\u{a0}' || c == '\u{1680}'
    ||| '\u{2000}' <= c && c <= '\u{200a}'
    ||| c == '\u{2028}' || c == '\u{2029}' || c == '\u{202f}' || c == '\u{205f}'
    ||| c == '\u{3000}'
}

/// Whether `c` is white space.
pub fn is_white_space(c: char) -> (r: bool)
    ensures
        r == white_space(c),
{
    ('\u{9}' <= c && c <= '\u{d}') || c == ' ' || c == '\u{85}' || c == '\u{a0}' || c
        == '\u{1680}' || ('\u{2000}' <= c && c <= '\u{200a}') || c == '\u{2028}' || c
        == '\u{2029}' || c == '\u{202f}' || c == '\u{205f}' || c == '\u{3000}'
}

/// Unicode's control characters, general category `Cc`.
pub open spec fn control(c: char) -> bool {
    c <= '\u{1f}' || ('\u{7f}' <= c && c <= '\u{9f}')
}

/// Whether `c` is a control character.
pub fn is_control(c: char) -> (r: bool)
    ensures
        r == control(c),
{
    c <= '\u{1f}' || ('\u{7f}' <= c && c <= '\u{9f}')
}

/// The ASCII digits.
pub open spec fn ascii_digit(c: char) -> bool {
    '0' <= c && c <= '9'
}

/// Whether `c` is an ASCII digit.
pub fn is_ascii_digit(c: char) -> (r: bool)
    ensures
        r == ascii_digit(c),
{
    '0' <= c && c <= '9'
}

/// Every character of `s` is an ASCII digit.
pub open spec fn all_digits(s: Seq<char>) -> bool {
    forall|i: int| 0 <= i < s.len() ==> ascii_digit(#[trigger] s[i])
}

/// The lowercase of an ASCII capital, every other character as it is.
pub open spec fn ascii_lower_char(c: char) -> char {
    if 'A' <= c && c <= 'Z' {
        ((c as u32) + 32) as char
    } else {
        c
    }
}

/// `s` with its ASCII capitals in lowercase.
pub open spec fn ascii_lower(s: Seq<char>) -> Seq<char> {
    Seq::new(s.len(), |i: int| ascii_lower_char(s[i]))
}

/// The lowercase of an ASCII capital, every other character as it is.
pub fn lower_ascii_char(c: char) -> (r: char)
    ensures
        r == ascii_lower_char(c),
{
    if 'A' <= c && c <= 'Z' {
        let code: u8 = c as u8;
        (code + 32) as char
    } else {
        c
    }
}

/// The characters of `value`, in order.
pub fn chars_of(value: &str) -> (r: Vec<char>)
    ensures
        r@ == value@,
{
    let mut out: Vec<char> = Vec::new();
    for c in it: value.chars()
        invariant
            out@ == value@.take(it.index()),
            it.seq() == value@,
    {
        out.push(c);
        assert(value@.take(it.index() + 1) =~= value@.take(it.index()).push(c));
    }
    assert(value@.take(value@.len() as int) =~= value@);
    out
}

/// The text of the characters `from..to`.
pub fn text_of(chars: &Vec<char>, from: usize, to: usize) -> (r: String)
    requires
        from <= to <= chars@.len(),
    ensures
        r@ == chars@.subrange(from as int, to as int),
{
    let mut out = String::new();
    let mut i: usize = from;
    while i < to
        invariant
            from <= i <= to <= chars@.len(),
            out@ == chars@.subrange(from as int, i as int),
        decreases to - i,
    {
        out.push(chars[i]);
        assert(chars@.subrange(from as int, i + 1) =~= chars@.subrange(from as int, i as int).push(
            chars@[i as int],
        ));
        i += 1;
    }
    out
}

/// Whether two texts hold the same characters.
pub fn same_text(a: &str, b: &str) -> (r: bool)
    ensures
        r == (a@ == b@),
{
    let x = a.as_bytes();
    let y = b.as_bytes();
    if x.len() != y.len() {
        return false;
    }
    let mut i: usize = 0;
    while i < x.len()
        invariant
            x@ == encode_utf8(a@),
            y@ == encode_utf8(b@),
            x@.len() == y@.len(),
            i <= x@.len(),
            forall|j: int| 0 <= j < i ==> x@[j] == y@[j],
        decreases x@.len() - i,
    {
        if x[i] != y[i] {
            return false;
        }
        i += 1;
    }
    proof {
        assert(x@ =~= y@);
        vstd::utf8::encode_utf8_decode_utf8(a@);
        vstd::utf8::encode_utf8_decode_utf8(b@);
    }
    true
}

/// How many bytes the UTF-8 form of `s` takes.
pub open spec fn byte_len(s: Seq<char>) -> nat {
    encode_utf8(s).len()
}

/// `s` without its leading white space.
pub open spec fn trimmed_start(s: Seq<char>) -> Seq<char>
    decreases s.len(),
{
    if s.len() > 0 && white_space(s[0]) {
        trimmed_start(s.drop_first())
    } else {
        s
    }
}

/// `s` without its trailing white space.
pub open spec fn trimmed_end(s: Seq<char>) -> Seq<char>
    decreases s.len(),
{
    if s.len() > 0 && white_space(s.last()) {
        trimmed_end(s.drop_last())
    } else {
        s
    }
}

/// `s` without white space at either end.
pub open spec fn trimmed(s: Seq<char>) -> Seq<char> {
    trimmed_end(trimmed_start(s))
}

/// `value` without white space at either end.
pub fn trim(value: &str) -> (r: String)
    ensures
        r@ == trimmed(value@),
{
    let chars = chars_of(value);
    let mut from: usize = 0;
    assert(chars@.subrange(0, chars@.len() as int) =~= chars@);
    while from < chars.len() && is_white_space(chars[from])
        invariant
            from <= chars@.len(),
            trimmed_start(chars@) == trimmed_start(
                chars@.subrange(from as int, chars@.len() as int),
            ),
        decreases chars@.len() - from,
    {
        assert(chars@.subrange(from as int, chars@.len() as int).drop_first() =~= chars@.subrange(
            from + 1,
            chars@.len() as int,
        ));
        from += 1;
    }
    let ghost start = chars@.subrange(from as int, chars@.len() as int);
    assert(trimmed_start(chars@) == start);
    let mut to: usize = chars.len();
    while from < to && is_white_space(chars[to - 1])
        invariant
            from <= to <= chars@.len(),
            trimmed_end(start) == trimmed_end(chars@.subrange(from as int, to as int)),
        decreases to,
    {
        assert(chars@.subrange(from as int, to as int).drop_last() =~= chars@.subrange(
            from as int,
            to - 1,
        ));
        to -= 1;
    }
    text_of(&chars, from, to)
}

/// Whether `value` holds nothing but white space.
pub fn is_blank(value: &str) -> (r: bool)
    ensures
        r == (trimmed(value@).len() == 0),
{
    let rest = trim(value);
    rest.as_str().is_empty()
}

/// A blank text holds white space only.
pub proof fn lemma_blank(s: Seq<char>)
    requires
        trimmed(s).len() == 0,
    ensures
        forall|i: int| 0 <= i < s.len() ==> white_space(#[trigger] s[i]),
    decreases s.len(),
{
    if s.len() > 0 {
        if white_space(s[0]) {
            lemma_blank(s.drop_first());
            assert forall|i: int| 0 <= i < s.len() implies white_space(#[trigger] s[i]) by {
                if i > 0 {
                    assert(s.drop_first()[i - 1] == s[i]);
                }
            }
        } else {
            lemma_end_stops(s, 0);
        }
    }
}

/// What stands up to a character that is no white space is not trimmed at the end.
proof fn lemma_end_stops(s: Seq<char>, at: int)
    requires
        0 <= at < s.len(),
        !white_space(s[at]),
    ensures
        trimmed_end(s).len() > at,
    decreases s.len(),
{
    if white_space(s.last()) {
        lemma_end_stops(s.drop_last(), at);
    }
}

/// Whether `c` is one of the characters of `set`.
pub fn char_in(c: char, set: &Vec<char>) -> (r: bool)
    ensures
        r == set@.contains(c),
{
    let mut i: usize = 0;
    while i < set.len()
        invariant
            i <= set@.len(),
            forall|j: int| 0 <= j < i ==> set@[j] != c,
        decreases set@.len() - i,
    {
        if set[i] == c {
            assert(set@.contains(set@[i as int]));
            return true;
        }
        i += 1;
    }
    false
}

/// `s` without its trailing characters from `set`.
pub open spec fn trimmed_end_of(s: Seq<char>, set: Seq<char>) -> Seq<char>
    decreases s.len(),
{
    if s.len() > 0 && set.contains(s.last()) {
        trimmed_end_of(s.drop_last(), set)
    } else {
        s
    }
}

/// `s` without its leading characters from `set`.
pub open spec fn trimmed_start_of(s: Seq<char>, set: Seq<char>) -> Seq<char>
    decreases s.len(),
{
    if s.len() > 0 && set.contains(s[0]) {
        trimmed_start_of(s.drop_first(), set)
    } else {
        s
    }
}

/// `value` without its trailing characters from `set`.
pub fn trim_end_of(value: &str, set: &str) -> (r: String)
    ensures
        r@ == trimmed_end_of(value@, set@),
{
    let chars = chars_of(value);
    let set = chars_of(set);
    let mut to: usize = chars.len();
    assert(chars@.subrange(0, to as int) =~= chars@);
    while 0 < to && char_in(chars[to - 1], &set)
        invariant
            to <= chars@.len(),
            trimmed_end_of(chars@, set@) == trimmed_end_of(chars@.subrange(0, to as int), set@),
        decreases to,
    {
        assert(chars@.subrange(0, to as int).drop_last() =~= chars@.subrange(0, to - 1));
        to -= 1;
    }
    text_of(&chars, 0, to)
}

/// `value` without its leading characters from `set`.
pub fn trim_start_of(value: &str, set: &str) -> (r: String)
    ensures
        r@ == trimmed_start_of(value@, set@),
{
    let chars = chars_of(value);
    let set = chars_of(set);
    let mut from: usize = 0;
    assert(chars@.subrange(0, chars@.len() as int) =~= chars@);
    while from < chars.len() && char_in(chars[from], &set)
        invariant
            from <= chars@.len(),
            trimmed_start_of(chars@, set@) == trimmed_start_of(
                chars@.subrange(from as int, chars@.len() as int),
                set@,
            ),
        decreases chars@.len() - from,
    {
        assert(chars@.subrange(from as int, chars@.len() as int).drop_first() =~= chars@.subrange(
            from + 1,
            chars@.len() as int,
        ));
        from += 1;
    }
    text_of(&chars, from, chars.len())
}

/// `s` begins with `prefix`.
pub open spec fn begins_with(s: Seq<char>, prefix: Seq<char>) -> bool {
    prefix.len() <= s.len() && s.take(prefix.len() as int) == prefix
}

/// `s` ends with `suffix`.
pub open spec fn finishes_with(s: Seq<char>, suffix: Seq<char>) -> bool {
    suffix.len() <= s.len() && s.skip(s.len() - suffix.len()) == suffix
}

/// Whether `part` stands in `whole` at index `at`.
fn stands_at(whole: &Vec<char>, part: &Vec<char>, at: usize) -> (r: bool)
    requires
        at + part@.len() <= whole@.len(),
    ensures
        r == (whole@.subrange(at as int, at + part@.len()) == part@),
{
    let total: usize = whole.len();
    let mut i: usize = 0;
    while i < part.len()
        invariant
            total == whole@.len(),
            at + part@.len() <= total,
            i <= part@.len(),
            forall|j: int| 0 <= j < i ==> whole@[at + j] == part@[j],
        decreases part@.len() - i,
    {
        if whole[at + i] != part[i] {
            assert(whole@.subrange(at as int, at + part@.len())[i as int] == whole@[at + i]);
            return false;
        }
        i += 1;
    }
    assert(whole@.subrange(at as int, at + part@.len()) =~= part@);
    true
}

/// What follows `prefix` in `value`, if `value` begins with it.
pub fn strip_prefix(value: &str, prefix: &str) -> (r: Option<String>)
    ensures
        r is Some <==> begins_with(value@, prefix@),
        r matches Some(rest) ==> rest@ == value@.skip(prefix@.len() as int),
{
    let chars = chars_of(value);
    let start = chars_of(prefix);
    if start.len() <= chars.len() && stands_at(&chars, &start, 0) {
        assert(value@.take(prefix@.len() as int) =~= chars@.subrange(0, start@.len() as int));
        assert(value@.skip(prefix@.len() as int) =~= chars@.subrange(
            start@.len() as int,
            chars@.len() as int,
        ));
        Some(text_of(&chars, start.len(), chars.len()))
    } else {
        assert(start@.len() <= chars@.len() ==> value@.take(prefix@.len() as int)
            =~= chars@.subrange(0, start@.len() as int));
        None
    }
}

/// What precedes `suffix` in `value`, if `value` ends with it.
pub fn strip_suffix(value: &str, suffix: &str) -> (r: Option<String>)
    ensures
        r is Some <==> finishes_with(value@, suffix@),
        r matches Some(rest) ==> rest@ == value@.take(value@.len() - suffix@.len()),
{
    let chars = chars_of(value);
    let end = chars_of(suffix);
    if end.len() <= chars.len() {
        let at: usize = chars.len() - end.len();
        assert(value@.skip(at as int) =~= chars@.subrange(at as int, at + end@.len()));
        if stands_at(&chars, &end, at) {
            assert(value@.take(at as int) =~= chars@.subrange(0, at as int));
            return Some(text_of(&chars, 0, at));
        }
    }
    None
}

/// Whether `value` begins with `prefix`.
pub fn starts_with(value: &str, prefix: &str) -> (r: bool)
    ensures
        r == begins_with(value@, prefix@),
{
    strip_prefix(value, prefix).is_some()
}

/// Whether `value` ends with `suffix`.
pub fn ends_with(value: &str, suffix: &str) -> (r: bool)
    ensures
        r == finishes_with(value@, suffix@),
{
    strip_suffix(value, suffix).is_some()
}

/// `part` stands in `s` at index `at`.
pub open spec fn found_at(s: Seq<char>, part: Seq<char>, at: int) -> bool {
    0 <= at && at + part.len() <= s.len() && s.subrange(at, at + part.len()) == part
}

/// `part` stands somewhere in `s`.
pub open spec fn holds_text(s: Seq<char>, part: Seq<char>) -> bool {
    exists|at: int| found_at(s, part, at)
}

/// Whether `part` stands somewhere in `value`.
pub fn contains(value: &str, part: &str) -> (r: bool)
    ensures
        r == holds_text(value@, part@),
{
    let chars = chars_of(value);
    let needle = chars_of(part);
    if needle.len() > chars.len() {
        return false;
    }
    let last: usize = chars.len() - needle.len();
    let mut at: usize = 0;
    while at <= last
        invariant
            chars@ == value@,
            needle@ == part@,
            last + needle@.len() == chars@.len(),
            at <= last + 1,
            forall|i: int| 0 <= i < at ==> !found_at(chars@, needle@, i),
        decreases last + 1 - at,
    {
        if stands_at(&chars, &needle, at) {
            assert(found_at(chars@, needle@, at as int));
            return true;
        }
        if at == last {
            assert(forall|i: int| found_at(chars@, needle@, i) ==> i <= last);
            return false;
        }
        at += 1;
    }
    false
}

/// Whether two texts are equal but for the case of ASCII letters.
pub fn eq_ignore_ascii_case(a: &str, b: &str) -> (r: bool)
    ensures
        r == (ascii_lower(a@) == ascii_lower(b@)),
{
    let x = chars_of(a);
    let y = chars_of(b);
    if x.len() != y.len() {
        assert(ascii_lower(a@).len() != ascii_lower(b@).len());
        return false;
    }
    let mut i: usize = 0;
    while i < x.len()
        invariant
            x@ == a@,
            y@ == b@,
            x@.len() == y@.len(),
            i <= x@.len(),
            forall|j: int| 0 <= j < i ==> ascii_lower_char(x@[j]) == ascii_lower_char(y@[j]),
        decreases x@.len() - i,
    {
        if lower_ascii_char(x[i]) != lower_ascii_char(y[i]) {
            assert(ascii_lower(a@)[i as int] != ascii_lower(b@)[i as int]);
            return false;
        }
        i += 1;
    }
    assert(ascii_lower(a@) =~= ascii_lower(b@));
    true
}

/// `s` with each character from `set` replaced by `with`.
pub open spec fn replaced(s: Seq<char>, set: Seq<char>, with: Seq<char>) -> Seq<char>
    decreases s.len(),
{
    if s.len() == 0 {
        Seq::empty()
    } else if set.contains(s.last()) {
        replaced(s.drop_last(), set, with) + with
    } else {
        replaced(s.drop_last(), set, with).push(s.last())
    }
}

/// `value` with each character from `set` replaced by `with`.
pub fn replace(value: &str, set: &str, with: &str) -> (r: String)
    ensures
        r@ == replaced(value@, set@, with@),
{
    let chars = chars_of(value);
    let set = chars_of(set);
    let mut out = String::new();
    let mut i: usize = 0;
    while i < chars.len()
        invariant
            i <= chars@.len(),
            out@ == replaced(chars@.take(i as int), set@, with@),
        decreases chars@.len() - i,
    {
        assert(chars@.take(i + 1).drop_last() =~= chars@.take(i as int));
        if char_in(chars[i], &set) {
            out.append(with);
        } else {
            out.push(chars[i]);
        }
        i += 1;
    }
    assert(chars@.take(chars@.len() as int) =~= chars@);
    out
}

/// The contents of a sequence of strings.
pub open spec fn texts(v: Seq<String>) -> Seq<Seq<char>> {
    views(v)
}

/// The content of an optional string.
pub open spec fn opt_text(v: Option<String>) -> Option<Seq<char>> {
    opt_view(v)
}

/// The parts one after another, with `sep` between neighbours.
pub open spec fn joined(parts: Seq<Seq<char>>, sep: Seq<char>) -> Seq<char>
    decreases parts.len(),
{
    if parts.len() == 0 {
        Seq::empty()
    } else if parts.len() == 1 {
        parts[0]
    } else {
        joined(parts.drop_last(), sep) + sep + parts.last()
    }
}

/// The parts one after another, with `sep` between neighbours.
pub fn join(parts: &Vec<String>, sep: &str) -> (r: String)
    ensures
        r@ == joined(texts(parts@), sep@),
{
    let mut out = String::new();
    let ghost all = texts(parts@);
    let mut i: usize = 0;
    while i < parts.len()
        invariant
            i <= parts@.len(),
            all == texts(parts@),
            out@ == joined(all.take(i as int), sep@),
        decreases parts@.len() - i,
    {
        assert(all.take(i + 1).drop_last() =~= all.take(i as int));
        assert(all.take(i + 1).last() == parts@[i as int]@);
        if i > 0 {
            out.append(sep);
        }
        out.append(parts[i].as_str());
        proof {
            if i == 0 {
                assert(out@ =~= parts@[0]@);
            }
        }
        i += 1;
    }
    assert(all.take(all.len() as int) =~= all);
    out
}

/// A copy of each string, in order.
pub fn copy_texts(values: &Vec<String>) -> (r: Vec<String>)
    ensures
        r@ == values@,
{
    let mut out: Vec<String> = Vec::new();
    let mut i: usize = 0;
    while i < values.len()
        invariant
            i <= values@.len(),
            out@ == values@.take(i as int),
        decreases values@.len() - i,
    {
        out.push(values[i].clone());
        assert(values@.take(i + 1) =~= values@.take(i as int).push(values@[i as int]));
        i += 1;
    }
    assert(values@.take(values@.len() as int) =~= values@);
    out
}

/// Whether `value` is one of `values`.
pub fn text_in(value: &str, values: &Vec<String>) -> (r: bool)
    ensures
        r == texts(values@).contains(value@),
{
    let mut i: usize = 0;
    while i < values.len()
        invariant
            i <= values@.len(),
            forall|j: int| 0 <= j < i ==> (#[trigger] texts(values@)[j]) != value@,
        decreases values@.len() - i,
    {
        if same_text(values[i].as_str(), value) {
            assert(texts(values@)[i as int] == value@);
            return true;
        }
        i += 1;
    }
    false
}

/// The ASCII digit of a number below ten.
pub open spec fn digit_char(n: nat) -> char {
    if n == 0 { '0' } else if n == 1 { '1' } else if n == 2 { '2' } else if n == 3 { '3' }
    else if n == 4 { '4' } else if n == 5 { '5' } else if n == 6 { '6' } else if n == 7 { '7' }
    else if n == 8 { '8' } else { '9' }
}

/// The decimal notation of `n`.
pub open spec fn decimal(n: nat) -> Seq<char>
    decreases n,
{
    if n < 10 {
        seq![digit_char(n)]
    } else {
        decimal(n / 10).push(digit_char(n % 10))
    }
}

/// The decimal notation of `n`.
pub fn decimal_text(n: u64) -> (r: String)
    ensures
        r@ == decimal(n as nat),
    decreases n,
{
    let mut out = if n < 10 {
        String::new()
    } else {
        decimal_text(n / 10)
    };
    let d: u64 = n % 10;
    let c = if d == 0 { '0' } else if d == 1 { '1' } else if d == 2 { '2' } else if d == 3 { '3' }
    else if d == 4 { '4' } else if d == 5 { '5' } else if d == 6 { '6' } else if d == 7 { '7' }
    else if d == 8 { '8' } else { '9' };
    out.push(c);
    assert(n < 10 ==> out@ =~= seq![digit_char(n as nat)]);
    out
}

/// The number that a row of decimal digits denotes.
pub open spec fn digits_value(s: Seq<char>) -> nat
    decreases s.len(),
{
    if s.len() == 0 {
        0
    } else {
        digits_value(s.drop_last()) * 10 + ((s.last() as u32) - ('0' as u32)) as nat
    }
}

/// What follows a leading plus sign, or all of `s`.
pub open spec fn without_plus(s: Seq<char>) -> Seq<char> {
    if s.len() > 0 && s[0] == '+' {
        s.skip(1)
    } else {
        s
    }
}

/// The unsigned number that `s` denotes, if it is a row of ASCII digits, with
/// or without a leading plus sign, whose value is at most `max`.
pub open spec fn unsigned_value(s: Seq<char>, max: nat) -> Option<nat> {
    let digits = without_plus(s);
    if digits.len() > 0 && all_digits(digits) && digits_value(digits) <= max {
        Some(digits_value(digits))
    } else {
        None
    }
}

/// A number is what its decimal notation denotes.
pub proof fn lemma_decimal_value(n: nat)
    ensures
        digits_value(decimal(n)) == n,
        decimal(n).len() > 0,
        all_digits(decimal(n)),
    decreases n,
{
    if n >= 10 {
        lemma_decimal_value(n / 10);
        assert(decimal(n).drop_last() =~= decimal(n / 10));
    } else {
        assert(decimal(n).drop_last() =~= Seq::<char>::empty());
        assert(digits_value(Seq::<char>::empty()) == 0);
        assert(decimal(n).last() == digit_char(n));
    }
}

proof fn lemma_digits_value_grows(s: Seq<char>, i: int)
    requires
        0 <= i <= s.len(),
        all_digits(s),
    ensures
        digits_value(s.take(i)) <= digits_value(s),
    decreases s.len() - i,
{
    if i < s.len() {
        lemma_digits_value_grows(s, i + 1);
        assert(s.take(i + 1).drop_last() =~= s.take(i));
        assert(ascii_digit(s[i]));
    } else {
        assert(s.take(i) =~= s);
    }
}

/// Reads an unsigned number of at most `max`.
pub fn parse_unsigned(value: &str, max: u64) -> (r: Option<u64>)
    ensures
        r is Some <==> unsigned_value(value@, max as nat) is Some,
        r matches Some(n) ==> unsigned_value(value@, max as nat) == Some(n as nat),
{
    let chars = chars_of(value);
    let from: usize = if chars.len() > 0 && chars[0] == '+' {
        1
    } else {
        0
    };
    let ghost digits = without_plus(value@);
    assert(digits =~= chars@.skip(from as int));
    if from == chars.len() {
        return None;
    }
    let mut n: u64 = 0;
    let mut i: usize = from;
    while i < chars.len()
        invariant
            from <= i <= chars@.len(),
            digits == chars@.skip(from as int),
            digits == without_plus(value@),
            forall|j: int| 0 <= j < i - from ==> ascii_digit(#[trigger] digits[j]),
            n == digits_value(digits.take(i - from)),
            n <= max,
        decreases chars@.len() - i,
    {
        let c = chars[i];
        assert(c == digits[i - from]);
        if !is_ascii_digit(c) {
            assert(!all_digits(digits));
            return None;
        }
        let d: u64 = (c as u32 - '0' as u32) as u64;
        assert(digits.take(i + 1 - from).drop_last() =~= digits.take(i - from));
        assert(digits_value(digits.take(i + 1 - from)) == n * 10 + d);
        if n > (u64::MAX - d) / 10 || n * 10 + d > max {
            assert(n * 10 + d > max);
            proof {
                if all_digits(digits) {
                    lemma_digits_value_grows(digits, i + 1 - from);
                }
            }
            return None;
        }
        n = n * 10 + d;
        i += 1;
    }
    assert(digits.take(digits.len() as int) =~= digits);
    Some(n)
}

/// `a` stands before `b` in the order of code points.
pub open spec fn text_less(a: Seq<char>, b: Seq<char>) -> bool
    decreases b.len(),
{
    if b.len() == 0 {
        false
    } else if a.len() == 0 {
        true
    } else {
        a[0] < b[0] || (a[0] == b[0] && text_less(a.drop_first(), b.drop_first()))
    }
}

/// Whether `a` stands before `b` in the order of code points.
pub fn is_less(a: &str, b: &str) -> (r: bool)
    ensures
        r == text_less(a@, b@),
{
    let x = chars_of(a);
    let y = chars_of(b);
    let mut i: usize = 0;
    assert(x@.skip(0) =~= x@ && y@.skip(0) =~= y@);
    while i < x.len() && i < y.len() && x[i] == y[i]
        invariant
            x@ == a@,
            y@ == b@,
            i <= x@.len(),
            i <= y@.len(),
            text_less(a@, b@) == text_less(x@.skip(i as int), y@.skip(i as int)),
        decreases x@.len() - i,
    {
        assert(x@.skip(i as int).drop_first() =~= x@.skip(i + 1));
        assert(y@.skip(i as int).drop_first() =~= y@.skip(i + 1));
        i += 1;
    }
    if i == y.len() {
        false
    } else if i == x.len() {
        true
    } else {
        x[i] < y[i]
    }
}

/// The first index at which a character from `set` stands in `s`, or the length of `s`.
pub open spec fn first_of(s: Seq<char>, set: Seq<char>) -> nat
    decreases s.len(),
{
    if s.len() == 0 || set.contains(s[0]) {
        0
    } else {
        1 + first_of(s.drop_first(), set)
    }
}

/// One past the last index at which a character from `set` stands in `s`, or zero.
pub open spec fn past_last_of(s: Seq<char>, set: Seq<char>) -> nat
    decreases s.len(),
{
    if s.len() == 0 || set.contains(s.last()) {
        s.len()
    } else {
        past_last_of(s.drop_last(), set)
    }
}

/// The first index at which a character from `set` stands, or the length.
pub fn find_first(chars: &Vec<char>, set: &str) -> (r: usize)
    ensures
        r == first_of(chars@, set@),
        r <= chars@.len(),
{
    let set = chars_of(set);
    let mut i: usize = 0;
    assert(chars@.skip(0) =~= chars@);
    while i < chars.len() && !char_in(chars[i], &set)
        invariant
            i <= chars@.len(),
            first_of(chars@, set@) == i + first_of(chars@.skip(i as int), set@),
        decreases chars@.len() - i,
    {
        assert(chars@.skip(i as int).drop_first() =~= chars@.skip(i + 1));
        i += 1;
    }
    i
}

/// One past the last index at which a character from `set` stands, or zero.
pub fn find_past_last(chars: &Vec<char>, set: &str) -> (r: usize)
    ensures
        r == past_last_of(chars@, set@),
        r <= chars@.len(),
{
    let set = chars_of(set);
    let mut i: usize = chars.len();
    assert(chars@.take(i as int) =~= chars@);
    while i > 0 && !char_in(chars[i - 1], &set)
        invariant
            i <= chars@.len(),
            past_last_of(chars@, set@) == past_last_of(chars@.take(i as int), set@),
        decreases i,
    {
        assert(chars@.take(i as int).drop_last() =~= chars@.take(i - 1));
        i -= 1;
    }
    i
}

/// The maximal runs of `s` without white space: those that have ended, in order,
/// and the one that the end of `s` leaves open.
pub open spec fn word_runs(s: Seq<char>) -> (Seq<Seq<char>>, Seq<char>)
    decreases s.len(),
{
    if s.len() == 0 {
        (Seq::empty(), Seq::empty())
    } else {
        let (done, open) = word_runs(s.drop_last());
        if !white_space(s.last()) {
            (done, open.push(s.last()))
        } else if open.len() > 0 {
            (done.push(open), Seq::empty())
        } else {
            (done, open)
        }
    }
}

/// The words of `s`: its maximal runs without white space, in order.
pub open spec fn words_of(s: Seq<char>) -> Seq<Seq<char>> {
    let (done, open) = word_runs(s);
    if open.len() > 0 {
        done.push(open)
    } else {
        done
    }
}

/// The words of `value`: its maximal runs without white space, in order.
pub fn words(value: &str) -> (r: Vec<String>)
    ensures
        texts(r@) == words_of(value@),
{
    let chars = chars_of(value);
    let mut done: Vec<String> = Vec::new();
    let mut open = String::new();
    let mut i: usize = 0;
    assert(texts(done@) =~= word_runs(chars@.take(0)).0);
    while i < chars.len()
        invariant
            i <= chars@.len(),
            texts(done@) == word_runs(chars@.take(i as int)).0,
            open@ == word_runs(chars@.take(i as int)).1,
        decreases chars@.len() - i,
    {
        assert(chars@.take(i + 1).drop_last() =~= chars@.take(i as int));
        if !is_white_space(chars[i]) {
            open.push(chars[i]);
        } else if !open.as_str().is_empty() {
            let ghost before = done@;
            let ghost word = open;
            done.push(open);
            assert(texts(done@) =~= texts(before).push(word@));
            open = String::new();
        }
        i += 1;
    }
    assert(chars@.take(chars@.len() as int) =~= chars@);
    if !open.as_str().is_empty() {
        let ghost before = done@;
        let ghost word = open;
        done.push(open);
        assert(texts(done@) =~= texts(before).push(word@));
    }
    done
}

/// The lowercase of a text: letter by letter on ASCII, by Unicode's mapping otherwise.
pub open spec fn lowered(s: Seq<char>) -> Seq<char> {
    if is_ascii_chars(s) {
        ascii_lower(s)
    } else {
        unicode_lowercase(s)
    }
}

/// The lowercase of `value`.
pub fn lower(value: &str) -> (r: String)
    ensures
        r@ == lowered(value@),
{
    if !value.is_ascii() {
        return value.to_lowercase();
    }
    let mut out = String::new();
    let chars = chars_of(value);
    let mut i: usize = 0;
    while i < chars.len()
        invariant
            i <= chars@.len(),
            out@ == ascii_lower(chars@.take(i as int)),
        decreases chars@.len() - i,
    {
        let ghost before = out@;
        out.push(lower_ascii_char(chars[i]));
        assert(out@ =~= ascii_lower(chars@.take(i + 1))) by {
            assert(chars@.take(i + 1).take(i as int) =~= chars@.take(i as int));
        }
        i += 1;
    }
    assert(chars@.take(chars@.len() as int) =~= chars@);
    out
}

/// Of two texts at most one precedes the other.
pub proof fn lemma_text_one_way(a: Seq<char>, b: Seq<char>)
    ensures
        !(text_less(a, b) && text_less(b, a)),
    decreases a.len(),
{
    if a.len() > 0 && b.len() > 0 && a[0] == b[0] {
        lemma_text_one_way(a.drop_first(), b.drop_first());
    }
}

/// Of two different texts one precedes the other.
pub proof fn lemma_text_total(a: Seq<char>, b: Seq<char>)
    ensures
        a == b || text_less(a, b) || text_less(b, a),
    decreases a.len(),
{
    if a.len() > 0 && b.len() > 0 {
        if a[0] == b[0] {
            lemma_text_total(a.drop_first(), b.drop_first());
            if a.drop_first() == b.drop_first() {
                assert(a =~= seq![a[0]] + a.drop_first());
                assert(b =~= seq![b[0]] + b.drop_first());
            }
        }
    } else {
        assert(a.len() == 0 && b.len() == 0 ==> a =~= b);
    }
}

/// A text that does not precede another does not precede what that does not precede.
pub proof fn lemma_text_chain(a: Seq<char>, b: Seq<char>, c: Seq<char>)
    ensures
        !text_less(b, a) && !text_less(c, b) ==> !text_less(c, a),
    decreases a.len(),
{
    if a.len() > 0 && b.len() > 0 && c.len() > 0 {
        lemma_text_chain(a.drop_first(), b.drop_first(), c.drop_first());
    }
}

/// A word: characters without white space, at least one.
pub open spec fn is_word(s: Seq<char>) -> bool {
    s.len() > 0 && forall|i: int| 0 <= i < s.len() ==> !white_space(#[trigger] s[i])
}

proof fn lemma_runs_are_words(s: Seq<char>)
    ensures
        forall|i: int| 0 <= i < word_runs(s).0.len() ==> is_word(#[trigger] word_runs(s).0[i]),
        word_runs(s).1.len() > 0 ==> is_word(word_runs(s).1),
    decreases s.len(),
{
    if s.len() > 0 {
        lemma_runs_are_words(s.drop_last());
    }
}

proof fn lemma_runs_with_tail(s: Seq<char>, tail: Seq<char>)
    requires
        forall|i: int| 0 <= i < tail.len() ==> !white_space(#[trigger] tail[i]),
    ensures
        word_runs(s + tail) == (word_runs(s).0, word_runs(s).1 + tail),
    decreases tail.len(),
{
    let whole = s + tail;
    if tail.len() == 0 {
        assert(whole =~= s);
        assert(word_runs(s).1 + tail =~= word_runs(s).1);
    } else {
        lemma_runs_with_tail(s, tail.drop_last());
        assert(whole.drop_last() =~= s + tail.drop_last());
        assert(whole.last() == tail.last());
        assert((word_runs(s).1 + tail.drop_last()).push(tail.last()) =~= word_runs(s).1 + tail);
    }
}

proof fn lemma_runs_of_joined(parts: Seq<Seq<char>>)
    requires
        parts.len() > 0,
        forall|i: int| 0 <= i < parts.len() ==> is_word(#[trigger] parts[i]),
    ensures
        word_runs(joined(parts, " "@)) == (parts.drop_last(), parts.last()),
    decreases parts.len(),
{
    reveal_strlit(" ");
    let empty = Seq::<char>::empty();
    assert(is_word(parts.last()));
    if parts.len() == 1 {
        lemma_runs_with_tail(empty, parts[0]);
        assert(empty + parts[0] =~= parts[0]);
        assert(word_runs(empty).1 + parts[0] =~= parts[0]);
        assert(word_runs(empty).0 =~= parts.drop_last());
    } else {
        let rest = parts.drop_last();
        lemma_runs_of_joined(rest);
        let before = joined(rest, " "@);
        let spaced = before + " "@;
        assert(spaced.drop_last() =~= before);
        assert(spaced.last() == ' ');
        assert(is_word(rest.last()));
        assert(rest.drop_last().push(rest.last()) =~= rest);
        assert(word_runs(spaced) == (rest, empty));
        lemma_runs_with_tail(spaced, parts.last());
        assert(empty + parts.last() =~= parts.last());
    }
}

/// The words of a text joined by single spaces are the words of the text.
pub proof fn lemma_words_of_joined(s: Seq<char>)
    ensures
        words_of(joined(words_of(s), " "@)) == words_of(s),
        forall|i: int| 0 <= i < words_of(s).len() ==> is_word(#[trigger] words_of(s)[i]),
{
    let parts = words_of(s);
    lemma_runs_are_words(s);
    if parts.len() > 0 {
        lemma_runs_of_joined(parts);
        assert(is_word(parts.last()));
        assert(parts.drop_last().push(parts.last()) =~= parts);
    }
}

} // verus!
