//! JSON values: reading members of them, and writing them as text.

use crate::adapters::{json_text, value_of, write_value};
use crate::model::{views, Duplicate};
use crate::score::Score;
use crate::text::{decimal, decimal_text, holds_text, opt_text, same_text, texts};
use vstd::prelude::*;
use vstd::string::StringExecFns;
use vstd::utf8::is_ascii_chars;

verus! {

/// A JSON number: its text, and what it is as a number of each kind that it fits.
#[derive(Debug)]
pub struct JsonNumber {
    pub text: String,
    pub unsigned: Option<u64>,
    pub signed: Option<i64>,
    pub floating: Option<Score>,
}

/// What a `JsonNumber` holds.
#[verifier::ext_equal]
pub struct JsonNumberView {
    pub text: Seq<char>,
    pub unsigned: Option<u64>,
    pub signed: Option<i64>,
    pub floating: Option<Score>,
}

impl View for JsonNumber {
    type V = JsonNumberView;

    open spec fn view(&self) -> JsonNumberView {
        JsonNumberView {
            text: self.text@,
            unsigned: self.unsigned,
            signed: self.signed,
            floating: self.floating,
        }
    }
}

/// A JSON value.
#[derive(Debug)]
pub enum Json {
    Null,
    Bool(bool),
    Number(JsonNumber),
    Text(String),
    List(Vec<Json>),
    Object(Vec<(String, Json)>),
}

/// What a `Json` holds.
#[verifier::ext_equal]
pub enum JsonView {
    Null,
    Bool(bool),
    Number(JsonNumberView),
    Text(Seq<char>),
    List(Seq<JsonView>),
    Object(Seq<(Seq<char>, JsonView)>),
}

impl Json {
    /// What the value holds, down to its leaves.
    pub open spec fn content(self) -> JsonView
        decreases self,
    {
        match self {
            Json::Null => JsonView::Null,
            Json::Bool(value) => JsonView::Bool(value),
            Json::Number(number) => JsonView::Number(number@),
            Json::Text(text) => JsonView::Text(text@),
            Json::List(items) => JsonView::List(
                Seq::new(
                    items@.len(),
                    |i: int|
                        if 0 <= i < items@.len() {
                            items@[i].content()
                        } else {
                            JsonView::Null
                        },
                ),
            ),
            Json::Object(members) => JsonView::Object(
                Seq::new(
                    members@.len(),
                    |i: int|
                        if 0 <= i < members@.len() {
                            (members@[i].0@, members@[i].1.content())
                        } else {
                            (Seq::empty(), JsonView::Null)
                        },
                ),
            ),
        }
    }
}

impl View for Json {
    type V = JsonView;

    open spec fn view(&self) -> JsonView {
        self.content()
    }
}

/// The views of the members of an object.
pub open spec fn member_views(members: Seq<(String, Json)>) -> Seq<(Seq<char>, JsonView)> {
    Seq::new(members.len(), |i: int| (members[i].0@, members[i].1@))
}

/// The value of the first member with the key.
pub open spec fn member_in(members: Seq<(Seq<char>, JsonView)>, key: Seq<char>) -> Option<JsonView>
    decreases members.len(),
{
    if members.len() == 0 {
        None
    } else if members[0].0 == key {
        Some(members[0].1)
    } else {
        member_in(members.skip(1), key)
    }
}

/// The member under a key is the first of that key.
pub proof fn lemma_member_at(members: Seq<(Seq<char>, JsonView)>, key: Seq<char>, at: int)
    requires
        0 <= at < members.len(),
        members[at].0 == key,
        forall|j: int| 0 <= j < at ==> (#[trigger] members[j]).0 != key,
    ensures
        member_in(members, key) == Some(members[at].1),
    decreases members.len(),
{
    if at > 0 {
        let rest = members.skip(1);
        assert(members[0].0 != key);
        assert forall|j: int| 0 <= j < at - 1 implies (#[trigger] rest[j]).0 != key by {
            assert(rest[j] == members[j + 1]);
        }
        lemma_member_at(rest, key, at - 1);
    }
}

/// The member of two rows of members is that of the first, else that of the second.
pub proof fn lemma_member_of_both(
    first: Seq<(Seq<char>, JsonView)>,
    second: Seq<(Seq<char>, JsonView)>,
    key: Seq<char>,
)
    ensures
        member_in(first + second, key) == (match member_in(first, key) {
            Some(value) => Some(value),
            None => member_in(second, key),
        }),
    decreases first.len(),
{
    let all = first + second;
    if first.len() == 0 {
        assert(all =~= second);
    } else {
        assert(all[0] == first[0]);
        if first[0].0 != key {
            lemma_member_of_both(first.skip(1), second, key);
            assert(all.skip(1) =~= first.skip(1) + second);
        }
    }
}

impl JsonView {
    /// The member of an object under the key.
    pub open spec fn member(self, key: Seq<char>) -> Option<JsonView> {
        match self {
            JsonView::Object(members) => member_in(members, key),
            _ => None,
        }
    }

    /// The items of a list.
    pub open spec fn items(self) -> Option<Seq<JsonView>> {
        match self {
            JsonView::List(items) => Some(items),
            _ => None,
        }
    }

    /// The text of a string.
    pub open spec fn string(self) -> Option<Seq<char>> {
        match self {
            JsonView::Text(text) => Some(text),
            _ => None,
        }
    }
}

/// The member under the key of the value, if there is one.
pub open spec fn field_of(value: Option<JsonView>, key: Seq<char>) -> Option<JsonView> {
    match value {
        Some(json) => json.member(key),
        None => None,
    }
}

/// The text of a string or of a number; empty for anything else.
pub open spec fn text_at(value: Option<JsonView>) -> Seq<char> {
    match value {
        Some(JsonView::Text(text)) => text,
        Some(JsonView::Number(number)) => number.text,
        _ => Seq::empty(),
    }
}

/// The text of a string.
pub open spec fn string_at(value: Option<JsonView>) -> Option<Seq<char>> {
    match value {
        Some(json) => json.string(),
        None => None,
    }
}

/// The items of a list; none for anything else.
pub open spec fn items_at(value: Option<JsonView>) -> Seq<JsonView> {
    match value {
        Some(JsonView::List(items)) => items,
        _ => Seq::empty(),
    }
}

/// The value is the boolean `true`.
pub open spec fn true_at(value: Option<JsonView>) -> bool {
    value == Some(JsonView::Bool(true))
}

/// The value as an unsigned number.
pub open spec fn unsigned_at(value: Option<JsonView>) -> Option<u64> {
    match value {
        Some(JsonView::Number(number)) => number.unsigned,
        _ => None,
    }
}

/// The value as a signed number.
pub open spec fn signed_at(value: Option<JsonView>) -> Option<i64> {
    match value {
        Some(JsonView::Number(number)) => number.signed,
        _ => None,
    }
}

/// The value as a floating-point number.
pub open spec fn floating_at(value: Option<JsonView>) -> Option<Score> {
    match value {
        Some(JsonView::Number(number)) => number.floating,
        _ => None,
    }
}

/// The view of the value that is referred to, if there is one.
pub open spec fn seen(value: Option<&Json>) -> Option<JsonView> {
    match value {
        Some(json) => Some(json@),
        None => None,
    }
}

/// The member under the key of the value, if there is one.
pub fn field<'a>(value: Option<&'a Json>, key: &str) -> (r: Option<&'a Json>)
    ensures
        seen(r) == field_of(seen(value), key@),
{
    match value {
        Some(Json::Object(members)) => {
            let ghost all = member_views(members@);
            assert(value->0@ == JsonView::Object(all)) by {
                assert(value->0@->Object_0 =~= all);
            }
            let mut i: usize = 0;
            assert(all.skip(0) =~= all);
            while i < members.len()
                invariant
                    i <= members@.len(),
                    all == member_views(members@),
                    field_of(seen(value), key@) == member_in(all, key@),
                    member_in(all, key@) == member_in(all.skip(i as int), key@),
                decreases members@.len() - i,
            {
                assert(all.skip(i as int)[0] == all[i as int]);
                assert(all.skip(i as int).skip(1) =~= all.skip(i + 1));
                if same_text(&members[i].0, key) {
                    return Some(&members[i].1);
                }
                i += 1;
            }
            None
        },
        _ => None,
    }
}

/// The text of a string or of a number; empty for anything else.
pub fn text(value: Option<&Json>) -> (r: String)
    ensures
        r@ == text_at(seen(value)),
{
    match value {
        Some(Json::Text(text)) => text.clone(),
        Some(Json::Number(number)) => number.text.clone(),
        _ => String::new(),
    }
}

/// The text of a string.
pub fn string(value: Option<&Json>) -> (r: Option<String>)
    ensures
        opt_text(r) == string_at(seen(value)),
{
    match value {
        Some(Json::Text(text)) => Some(text.clone()),
        _ => None,
    }
}

/// Whether the value is the boolean `true`.
pub fn is_true(value: Option<&Json>) -> (r: bool)
    ensures
        r == true_at(seen(value)),
{
    match value {
        Some(Json::Bool(flag)) => *flag,
        _ => false,
    }
}

/// The value as an unsigned number.
pub fn unsigned(value: Option<&Json>) -> (r: Option<u64>)
    ensures
        r == unsigned_at(seen(value)),
{
    match value {
        Some(Json::Number(number)) => number.unsigned,
        _ => None,
    }
}

/// The value as a signed number.
pub fn signed(value: Option<&Json>) -> (r: Option<i64>)
    ensures
        r == signed_at(seen(value)),
{
    match value {
        Some(Json::Number(number)) => number.signed,
        _ => None,
    }
}

/// The value as a floating-point number.
pub fn floating(value: Option<&Json>) -> (r: Option<Score>)
    ensures
        r == floating_at(seen(value)),
{
    match value {
        Some(Json::Number(number)) => number.floating,
        _ => None,
    }
}

/// The number of items of a list; none for anything else.
pub fn count(value: Option<&Json>) -> (r: usize)
    ensures
        r == items_at(seen(value)).len(),
{
    match value {
        Some(Json::List(items)) => items.len(),
        _ => 0,
    }
}

/// The item of a list at the index.
pub fn item<'a>(value: Option<&'a Json>, index: usize) -> (r: Option<&'a Json>)
    ensures
        seen(r) == (if index < items_at(seen(value)).len() {
            Some(items_at(seen(value))[index as int])
        } else {
            None
        }),
{
    match value {
        Some(Json::List(items)) => {
            if index < items.len() {
                Some(&items[index])
            } else {
                None
            }
        },
        _ => None,
    }
}

/// The texts of those items that are strings, in order.
pub open spec fn strings_in(items: Seq<Option<JsonView>>) -> Seq<Seq<char>>
    decreases items.len(),
{
    if items.len() == 0 {
        Seq::empty()
    } else {
        let rest = strings_in(items.drop_last());
        match string_at(items.last()) {
            Some(text) => rest.push(text),
            None => rest,
        }
    }
}

/// The items of a list, each as a value that there is.
pub open spec fn each(items: Seq<JsonView>) -> Seq<Option<JsonView>> {
    Seq::new(items.len(), |i: int| Some(items[i]))
}

/// The member under the key of each item.
pub open spec fn each_field(items: Seq<JsonView>, key: Seq<char>) -> Seq<Option<JsonView>> {
    Seq::new(items.len(), |i: int| items[i].member(key))
}

/// The strings of a list.
pub fn strings(value: Option<&Json>) -> (r: Vec<String>)
    ensures
        texts(r@) == strings_in(each(items_at(seen(value)))),
{
    let ghost all = each(items_at(seen(value)));
    let total: usize = count(value);
    let mut out: Vec<String> = Vec::new();
    let mut i: usize = 0;
    assert(texts(out@) =~= strings_in(all.take(0)));
    while i < total
        invariant
            i <= total,
            total == all.len(),
            all == each(items_at(seen(value))),
            texts(out@) == strings_in(all.take(i as int)),
        decreases total - i,
    {
        assert(all.take(i + 1).drop_last() =~= all.take(i as int));
        let ghost before = texts(out@);
        if let Some(text) = string(item(value, i)) {
            let ghost added = text@;
            out.push(text);
            assert(texts(out@) =~= before.push(added));
        }
        i += 1;
    }
    assert(all.take(all.len() as int) =~= all);
    out
}

/// The strings that the items of a list have under the key.
pub fn strings_under(value: Option<&Json>, key: &str) -> (r: Vec<String>)
    ensures
        texts(r@) == strings_in(each_field(items_at(seen(value)), key@)),
{
    let ghost all = each_field(items_at(seen(value)), key@);
    let total: usize = count(value);
    let mut out: Vec<String> = Vec::new();
    let mut i: usize = 0;
    assert(texts(out@) =~= strings_in(all.take(0)));
    while i < total
        invariant
            i <= total,
            total == all.len(),
            all == each_field(items_at(seen(value)), key@),
            texts(out@) == strings_in(all.take(i as int)),
        decreases total - i,
    {
        assert(all.take(i + 1).drop_last() =~= all.take(i as int));
        let ghost before = texts(out@);
        if let Some(text) = string(field(item(value, i), key)) {
            let ghost added = text@;
            out.push(text);
            assert(texts(out@) =~= before.push(added));
        }
        i += 1;
    }
    assert(all.take(all.len() as int) =~= all);
    out
}

/// The string that comes first in a list; empty where there is none.
pub open spec fn first_string_at(value: Option<JsonView>) -> Seq<char> {
    if items_at(value).len() > 0 && string_at(Some(items_at(value)[0])) is Some {
        string_at(Some(items_at(value)[0]))->0
    } else {
        Seq::empty()
    }
}

/// The string that comes first in a list; empty where there is none.
pub fn first_string(value: Option<&Json>) -> (r: String)
    ensures
        r@ == first_string_at(seen(value)),
{
    match string(item(value, 0)) {
        Some(text) => text,
        None => String::new(),
    }
}

/// Every character is printable ASCII other than a quote or a backslash.
pub open spec fn plain_text(s: Seq<char>) -> bool {
    forall|i: int|
        0 <= i < s.len() ==> ' ' <= #[trigger] s[i] && s[i] <= '~' && s[i] != '"' && s[i] != '\\'
}

/// No key occurs twice.
pub open spec fn keys_apart(members: Seq<(Seq<char>, JsonView)>) -> bool {
    forall|i: int, j: int|
        0 <= i < j < members.len() ==> (#[trigger] members[i]).0 != (#[trigger] members[j]).0
}

impl JsonView {
    /// Every string and every key in the value is ASCII.
    pub open spec fn ascii(self) -> bool
        decreases self,
    {
        match self {
            JsonView::Text(text) => is_ascii_chars(text),
            JsonView::List(items) => forall|i: int|
                0 <= i < items.len() ==> (#[trigger] items[i]).ascii(),
            JsonView::Object(members) => forall|i: int|
                0 <= i < members.len() ==> is_ascii_chars((#[trigger] members[i]).0)
                    && members[i].1.ascii(),
            _ => true,
        }
    }

    /// The string is in the value, at any depth. Where a key occurs twice in an object
    /// nothing is said of what it holds.
    pub open spec fn holds_string(self, text: Seq<char>) -> bool
        decreases self,
    {
        match self {
            JsonView::Text(own) => own == text,
            JsonView::List(items) => exists|i: int|
                0 <= i < items.len() && (#[trigger] items[i]).holds_string(text),
            JsonView::Object(members) => keys_apart(members) && exists|i: int|
                0 <= i < members.len() && (#[trigger] members[i]).1.holds_string(text),
            _ => false,
        }
    }
}

impl Json {
    /// The value as JSON text without white space: ASCII where the value is, and with
    /// every plain string that is in it.
    pub fn to_text(&self) -> (r: String)
        ensures
            r@ == json_text(self@),
            self@.ascii() ==> is_ascii_chars(r@),
            forall|text: Seq<char>| #[trigger]
                self@.holds_string(text) && plain_text(text) ==> holds_text(r@, text),
    {
        write_value(&value_of(self))
    }

    /// The number as a JSON value.
    pub fn from_unsigned(value: u64) -> (r: Json)
        ensures
            r@ == unsigned_json(value),
    {
        let signed: Option<i64> = if value <= 0x7fff_ffff_ffff_ffff {
            Some(value as i64)
        } else {
            None
        };
        Json::Number(
            JsonNumber { text: decimal_text(value), unsigned: Some(value), signed, floating: None },
        )
    }

    /// The text as a JSON value.
    pub fn from_text(value: &str) -> (r: Json)
        ensures
            r@ == JsonView::Text(value@),
    {
        Json::Text(value.to_owned())
    }
}

/// An unsigned number as a JSON value.
pub open spec fn unsigned_json(value: u64) -> JsonView {
    JsonView::Number(
        JsonNumberView {
            text: decimal(value as nat),
            unsigned: Some(value),
            signed: if value <= 0x7fff_ffff_ffff_ffff {
                Some(value as i64)
            } else {
                None
            },
            floating: None,
        },
    )
}

/// The object with one more member.
pub fn insert(members: &mut Vec<(String, Json)>, key: &str, value: Json)
    ensures
        member_views(final(members)@) == member_views(old(members)@).push((key@, value@)),
{
    let ghost before = member_views(members@);
    members.push((key.to_owned(), value));
    assert(member_views(members@) =~= before.push((key@, value@)));
}

/// The object with the members.
pub fn object(members: Vec<(String, Json)>) -> (r: Json)
    ensures
        r@ == JsonView::Object(member_views(members@)),
{
    let ghost views = member_views(members@);
    let r = Json::Object(members);
    assert(r@->Object_0 =~= views);
    r
}

/// The list of the items.
pub fn list(items: Vec<Json>) -> (r: Json)
    ensures
        r@ == JsonView::List(views(items@)),
{
    let ghost all = views(items@);
    let r = Json::List(items);
    assert(r@->List_0 =~= all);
    r
}

/// Another value that holds the same.
pub fn copy(value: &Json) -> (r: Json)
    ensures
        r@ == value@,
    decreases value,
{
    match value {
        Json::Null => Json::Null,
        Json::Bool(flag) => Json::Bool(*flag),
        Json::Number(number) => Json::Number(
            JsonNumber {
                text: number.text.clone(),
                unsigned: number.unsigned,
                signed: number.signed,
                floating: number.floating,
            },
        ),
        Json::Text(text) => Json::Text(text.clone()),
        Json::List(items) => {
            let mut out: Vec<Json> = Vec::new();
            let mut i: usize = 0;
            while i < items.len()
                invariant
                    i <= items@.len(),
                    *value == Json::List(*items),
                    out@.len() == i,
                    forall|j: int| 0 <= j < i ==> (#[trigger] out@[j])@ == items@[j]@,
                decreases items@.len() - i,
            {
                assert(decreases_to!(*value => value->List_0));
                assert(decreases_to!(value->List_0 => value->List_0@));
                assert(decreases_to!(value->List_0@ => value->List_0@[i as int]));
                out.push(copy(&items[i]));
                i += 1;
            }
            let r = Json::List(out);
            assert(r@->List_0 =~= value@->List_0);
            r
        },
        Json::Object(members) => {
            let mut out: Vec<(String, Json)> = Vec::new();
            let mut i: usize = 0;
            while i < members.len()
                invariant
                    i <= members@.len(),
                    *value == Json::Object(*members),
                    out@.len() == i,
                    forall|j: int|
                        0 <= j < i ==> (#[trigger] out@[j]).0@ == members@[j].0@ && out@[j].1@
                            == members@[j].1@,
                decreases members@.len() - i,
            {
                assert(decreases_to!(*value => value->Object_0));
                assert(decreases_to!(value->Object_0 => value->Object_0@));
                assert(decreases_to!(value->Object_0@ => value->Object_0@[i as int]));
                assert(decreases_to!(value->Object_0@[i as int] => value->Object_0@[i as int].1));
                out.push((members[i].0.clone(), copy(&members[i].1)));
                i += 1;
            }
            let r = Json::Object(out);
            assert(r@->Object_0 =~= value@->Object_0);
            r
        },
    }
}

impl Duplicate for Json {
    fn duplicate(&self) -> (r: Json) {
        copy(self)
    }
}

} // verus!
