//! The rendered pages of PDFs: their names, sizes and texts.

use crate::adapters::{name_uuid, sha256, uuid_v5};
use crate::domain::{PageRecord, PageRecordView};
use crate::download::{file_stem, stem_of};
use crate::model::views;
use crate::state::{pages_apart, pages_clash};
use crate::text::{
    ascii_digit, chars_of, control, decimal, decimal_text, is_control, lemma_decimal_value,
    opt_text, text_of,
};
use crate::util::{hexadecimal, join_path, normalize_space, path_of, spaced, StreamDigest};
use vstd::prelude::*;
use vstd::string::StringExecFns;

verus! {

/// The namespace of page identifiers.
pub const PAGE_NAMESPACE: u128 = 0x264e_568e_093f_4cf1_877e_a1c2_b56b_1eb6;

/// The text with a space in place of each control character.
pub open spec fn uncontrolled(s: Seq<char>) -> Seq<char> {
    Seq::new(
        s.len(),
        |i: int|
            if control(s[i]) {
                ' '
            } else {
                s[i]
            },
    )
}

/// The text of a page: its words with single spaces between them, and no control
/// characters.
pub fn normalize_page_text(value: &str) -> (r: String)
    ensures
        r@ == spaced(uncontrolled(value@)),
{
    let chars = chars_of(value);
    let mut plain: Vec<char> = Vec::new();
    let mut i: usize = 0;
    while i < chars.len()
        invariant
            i <= chars@.len(),
            plain@.len() == i,
            forall|j: int|
                0 <= j < i ==> #[trigger] plain@[j] == (if control(chars@[j]) {
                    ' '
                } else {
                    chars@[j]
                }),
        decreases chars@.len() - i,
    {
        if is_control(chars[i]) {
            plain.push(' ');
        } else {
            plain.push(chars[i]);
        }
        i += 1;
    }
    assert(plain@.subrange(0, plain@.len() as int) =~= uncontrolled(value@));
    normalize_space(&text_of(&plain, 0, plain.len()))
}

/// The number with zeros in front, five digits at least.
pub open spec fn padded(n: nat) -> Seq<char> {
    let digits = decimal(n);
    if digits.len() >= 5 {
        digits
    } else {
        Seq::new((5 - digits.len()) as nat, |i: int| '0') + digits
    }
}

fn pad(n: u32) -> (r: String)
    ensures
        r@ == padded(n as nat),
{
    let digits = decimal_text(n as u64);
    let count: usize = chars_of(&digits).len();
    let mut out = String::new();
    let mut i: usize = count;
    while i < 5
        invariant
            count <= i,
            count <= 5 ==> i <= 5,
            count > 5 ==> i == count,
            out@ == Seq::new((i - count) as nat, |k: int| '0'),
        decreases 5 - i,
    {
        out.push('0');
        i += 1;
        assert(out@ =~= Seq::new((i - count) as nat, |k: int| '0'));
    }
    out.append(&digits);
    assert(out@ =~= padded(n as nat));
    out
}

/// The name of a page among all pages: its work and its number.
pub open spec fn page_name(work_id: Seq<char>, page_number: nat) -> Seq<char> {
    work_id + "\u{1f}"@ + decimal(page_number)
}

/// The identifier of a page: a UUID made of the work and the page number.
pub open spec fn page_id_of(work_id: Seq<char>, page_number: nat) -> Seq<char> {
    uuid_v5(PAGE_NAMESPACE, page_name(work_id, page_number))
}

/// The identifier of a page.
pub fn page_id(work_id: &str, page_number: u32) -> (r: String)
    ensures
        r@ == page_id_of(work_id@, page_number as nat),
{
    let mut name = work_id.to_owned();
    name.append("\u{1f}");
    name.append(&decimal_text(page_number as u64));
    name_uuid(PAGE_NAMESPACE, &name)
}

/// Where the pages of a work are rendered to.
pub open spec fn pages_dir(workspace: Seq<char>, work_id: Seq<char>) -> Seq<char> {
    path_of(path_of(workspace, "pages"@), file_stem(work_id))
}

/// Where the pages of the work are rendered to.
pub fn page_directory(workspace: &str, work_id: &str) -> (r: String)
    ensures
        r@ == pages_dir(workspace@, work_id@),
{
    join_path(&join_path(workspace, "pages"), &stem_of(work_id))
}

/// Where a page of a work is rendered to.
pub open spec fn page_file(workspace: Seq<char>, work_id: Seq<char>, page_number: nat) -> Seq<
    char,
> {
    path_of(pages_dir(workspace, work_id), padded(page_number) + ".jpg"@)
}

/// Where a page of the work is rendered to.
pub fn page_path(workspace: &str, work_id: &str, page_number: u32) -> (r: String)
    ensures
        r@ == page_file(workspace@, work_id@, page_number as nat),
{
    let mut name = pad(page_number);
    name.append(".jpg");
    join_path(&page_directory(workspace, work_id), &name)
}

/// The width to which pages are rendered at a resolution, and the most height.
pub open spec fn render_bounds(dpi: int) -> (int, int) {
    (
        if dpi * 17 / 2 >= 1000 {
            dpi * 17 / 2
        } else {
            1000
        },
        if dpi * 14 >= 1400 {
            dpi * 14
        } else {
            1400
        },
    )
}

/// The width to which pages are rendered, and the most height: letter format at the
/// resolution, and no less than a thousand pixels wide.
pub fn render_size(dpi: u16) -> (r: (i32, i32))
    ensures
        r.0 == (if dpi * 17 / 2 >= 1000 {
            dpi * 17 / 2
        } else {
            1000
        }),
        r.1 == (if dpi * 14 >= 1400 {
            dpi * 14
        } else {
            1400
        }),
        (r.0 as int, r.1 as int) == render_bounds(dpi as int),
{
    let wide: i32 = dpi as i32 * 17 / 2;
    let high: i32 = dpi as i32 * 14;
    let width: i32 = if wide >= 1000 {
        wide
    } else {
        1000
    };
    let height: i32 = if high >= 1400 {
        high
    } else {
        1400
    };
    (width, height)
}

/// A page as it was rendered: its text, where it has one, its image file and the size
/// of that.
#[derive(Debug)]
pub struct RenderedPage {
    pub native_text: Option<String>,
    pub image: StreamDigest,
    pub width: u32,
    pub height: u32,
}

/// What a `RenderedPage` holds.
#[verifier::ext_equal]
pub struct RenderedPageView {
    pub native_text: Option<Seq<char>>,
    pub image: Seq<u8>,
    pub width: u32,
    pub height: u32,
}

impl View for RenderedPage {
    type V = RenderedPageView;

    open spec fn view(&self) -> RenderedPageView {
        RenderedPageView {
            native_text: opt_text(self.native_text),
            image: self.image@,
            width: self.width,
            height: self.height,
        }
    }
}

/// The record of a page that was rendered and not indexed yet.
pub open spec fn rendered_record(
    workspace: Seq<char>,
    work_id: Seq<char>,
    page_number: u32,
    page: RenderedPageView,
) -> PageRecordView {
    PageRecordView {
        page_id: page_id_of(work_id, page_number as nat),
        work_id,
        page_number,
        image_path: page_file(workspace, work_id, page_number as nat),
        image_sha256: hexadecimal(sha256(page.image)),
        page_text: match page.native_text {
            Some(text) => spaced(uncontrolled(text)),
            None => Seq::empty(),
        },
        width: page.width,
        height: page.height,
        indexed_at: None,
    }
}

/// The record of a page that was rendered and not indexed yet.
pub fn page_record(workspace: &str, work_id: &str, page_number: u32, page: RenderedPage) -> (r:
    PageRecord)
    ensures
        r@ == rendered_record(workspace@, work_id@, page_number, page@),
{
    let page_text = match &page.native_text {
        Some(text) => normalize_page_text(text),
        None => String::new(),
    };
    PageRecord {
        page_id: page_id(work_id, page_number),
        work_id: work_id.to_owned(),
        page_number,
        image_path: page_path(workspace, work_id, page_number),
        image_sha256: page.image.finish(),
        page_text,
        width: page.width,
        height: page.height,
        indexed_at: None,
    }
}

/// The records of the pages of a work, numbered from one on.
pub open spec fn rendered_records(
    workspace: Seq<char>,
    work_id: Seq<char>,
    pages: Seq<RenderedPageView>,
) -> Seq<PageRecordView> {
    Seq::new(
        pages.len(),
        |i: int| rendered_record(workspace, work_id, (i + 1) as u32, pages[i]),
    )
}

/// The records of the pages of a work, numbered from one on.
pub fn page_records(workspace: &str, work_id: &str, pages: Vec<RenderedPage>) -> (r: Vec<
    PageRecord,
>)
    requires
        pages@.len() <= 0xffff_ffff,
    ensures
        views(r@) == rendered_records(workspace@, work_id@, views(pages@)),
{
    let ghost all = views(pages@);
    let ghost items = pages@;
    let mut out: Vec<PageRecord> = Vec::new();
    let mut number: u32 = 0;
    for page in it: pages
        invariant
            it.seq() == items,
            all == views(items),
            items.len() <= 0xffff_ffff,
            number == it.index(),
            out@.len() == number,
            forall|i: int|
                0 <= i < number ==> (#[trigger] out@[i])@ == rendered_record(
                    workspace@,
                    work_id@,
                    (i + 1) as u32,
                    all[i],
                ),
    {
        number += 1;
        assert(all[number - 1] == page@);
        out.push(page_record(workspace, work_id, number, page));
    }
    assert(views(out@) =~= rendered_records(workspace@, work_id@, all));
    out
}

/// Rendering a work anew keeps the identifiers of its pages, whatever their images and
/// texts are and wherever the files lie: page by page they depend on the work and the
/// number alone. There is a record for each page, numbered from one on, and none is
/// indexed yet.
pub proof fn law_page_ids_are_stable(
    work_id: Seq<char>,
    first_workspace: Seq<char>,
    first: Seq<RenderedPageView>,
    second_workspace: Seq<char>,
    second: Seq<RenderedPageView>,
    i: int,
)
    requires
        first.len() == second.len() <= 0xffff_ffff,
        0 <= i < first.len(),
    ensures
        ({
            let before = rendered_records(first_workspace, work_id, first);
            let after = rendered_records(second_workspace, work_id, second);
            &&& before.len() == first.len() && after.len() == second.len()
            &&& before[i].page_id == after[i].page_id
            &&& before[i].page_number == i + 1 && after[i].page_number == i + 1
            &&& before[i].work_id == work_id && after[i].work_id == work_id
            &&& before[i].indexed_at is None && after[i].indexed_at is None
        }),
{
}

/// No two pages have the same name, neither of one work nor of two.
pub proof fn law_page_names_differ(
    left_work: Seq<char>,
    left_number: nat,
    right_work: Seq<char>,
    right_number: nat,
)
    requires
        page_name(left_work, left_number) == page_name(right_work, right_number),
    ensures
        left_work == right_work,
        left_number == right_number,
{
    reveal_strlit("\u{1f}");
    let left = decimal(left_number);
    let right = decimal(right_number);
    let name = page_name(left_work, left_number);
    lemma_decimal_value(left_number);
    lemma_decimal_value(right_number);
    assert(name == left_work + "\u{1f}"@ + left);
    assert(name == right_work + "\u{1f}"@ + right);
    assert(name.len() == left_work.len() + 1 + left.len());
    assert(name.len() == right_work.len() + 1 + right.len());
    assert(name[left_work.len() as int] == '\u{1f}');
    assert(name[right_work.len() as int] == '\u{1f}');
    if left_work.len() < right_work.len() {
        let k = right_work.len() - left_work.len() - 1;
        assert(0 <= k < left.len());
        assert((left_work + "\u{1f}"@ + left)[left_work.len() + 1 + k] == left[k]);
        assert(ascii_digit(left[k]));
    } else if right_work.len() < left_work.len() {
        let k = left_work.len() - right_work.len() - 1;
        assert(0 <= k < right.len());
        assert((right_work + "\u{1f}"@ + right)[right_work.len() + 1 + k] == right[k]);
        assert(ascii_digit(right[k]));
    }
    assert(name.take(left_work.len() as int) =~= left_work);
    assert(name.take(right_work.len() as int) =~= right_work);
    assert(name.skip((left_work.len() + 1) as int) =~= left);
    assert(name.skip((right_work.len() + 1) as int) =~= right);
}

/// The UUIDs of the first pages of a work differ.
pub open spec fn no_collision(work_id: Seq<char>, count: nat) -> bool {
    forall|i: nat, j: nat|
        1 <= i <= count && 1 <= j <= count && page_name(work_id, i) != page_name(work_id, j)
            ==> #[trigger] page_id_of(work_id, i) != #[trigger] page_id_of(work_id, j)
}

/// The pages of a rendering have different identifiers and numbers, wherever different
/// names have different UUIDs: they can be stored together.
pub proof fn law_rendered_pages_are_apart(
    workspace: Seq<char>,
    work_id: Seq<char>,
    pages: Seq<RenderedPageView>,
)
    requires
        pages.len() <= 0xffff_ffff,
        no_collision(work_id, pages.len()),
    ensures
        pages_apart(rendered_records(workspace, work_id, pages)),
{
    let records = rendered_records(workspace, work_id, pages);
    assert forall|i: int, j: int| 0 <= i < j < records.len() implies !pages_clash(
        #[trigger] records[i],
        #[trigger] records[j],
    ) by {
        let a = (i + 1) as nat;
        let b = (j + 1) as nat;
        if page_name(work_id, a) == page_name(work_id, b) {
            law_page_names_differ(work_id, a, work_id, b);
        }
        assert(page_id_of(work_id, a) != page_id_of(work_id, b));
    }
}

} // verus!
