//! What the models are asked of pages and questions, and what pages are made of.

use crate::adapters::{base64_form, sha256};
use crate::json::{lemma_member_at, JsonView};
use crate::nvidia::{
    embed_request, image_url_of, images_request, page_passage_of, pages_request, positioned,
    question_request, rerank_request, score_of, text_passage_of, IndexedEmbedding, PageInputView,
    RankingItem,
};
use crate::order::{law_ordered, ordered};
use crate::render::{
    padded, page_file, page_id_of, render_bounds, rendered_record, uncontrolled, RenderedPageView,
};
use crate::text::{decimal, lowered, trimmed};
use crate::util::{hexadecimal, spaced};
use vstd::prelude::*;

verus! {

proof fn lemma_embed_request(
    model: Seq<char>,
    input: Seq<JsonView>,
    input_type: Seq<char>,
    modality: JsonView,
)
    ensures
        ({
            let made = embed_request(model, input, input_type, modality);
            &&& made.member("model"@) == Some(JsonView::Text(model))
            &&& made.member("input"@) == Some(JsonView::List(input))
            &&& made.member("input_type"@) == Some(JsonView::Text(input_type))
            &&& made.member("modality"@) == Some(modality)
            &&& made.member("embedding_type"@) == Some(JsonView::Text("float"@))
            &&& made.member("encoding_format"@) == Some(JsonView::Text("float"@))
            &&& made.member("truncate"@) == Some(JsonView::Text("END"@))
        }),
{
    let members = embed_request(model, input, input_type, modality)->Object_0;
    reveal_strlit("model");
    reveal_strlit("input");
    reveal_strlit("input_type");
    reveal_strlit("modality");
    reveal_strlit("embedding_type");
    reveal_strlit("encoding_format");
    reveal_strlit("truncate");
    assert("model"@.len() == 5);
    assert("input"@.len() == 5);
    assert("input_type"@.len() == 10);
    assert("modality"@.len() == 8);
    assert("embedding_type"@.len() == 14);
    assert("encoding_format"@.len() == 15);
    assert("truncate"@.len() == 8);
    lemma_member_at(members, "model"@, 0);
    assert("input"@[0] != "model"@[0]);
    lemma_member_at(members, "input"@, 1);
    lemma_member_at(members, "input_type"@, 2);
    lemma_member_at(members, "modality"@, 3);
    lemma_member_at(members, "embedding_type"@, 4);
    lemma_member_at(members, "encoding_format"@, 5);
    assert("truncate"@[0] != "modality"@[0]);
    lemma_member_at(members, "truncate"@, 6);
}

/// A question is embedded as a question and as text, by the model that is asked.
pub proof fn law_questions_are_embedded_as_questions(model: Seq<char>, query: Seq<char>)
    ensures
        ({
            let made = question_request(model, query);
            &&& made.member("model"@) == Some(JsonView::Text(model))
            &&& made.member("input"@) == Some(JsonView::List(seq![JsonView::Text(query)]))
            &&& made.member("input_type"@) == Some(JsonView::Text("query"@))
            &&& made.member("modality"@) == Some(JsonView::Text("text"@))
            &&& made.member("truncate"@) == Some(JsonView::Text("END"@))
        }),
{
    lemma_embed_request(
        model,
        seq![JsonView::Text(query)],
        "query"@,
        JsonView::Text("text"@),
    );
}

/// Pages are embedded as passages, one by one and in order: a page with a text by its text
/// and its image, a page without one by its image alone.
pub proof fn law_pages_are_embedded_as_passages(
    model: Seq<char>,
    pages: Seq<PageInputView>,
    i: int,
)
    requires
        0 <= i < pages.len(),
    ensures
        ({
            let made = pages_request(model, pages);
            let blank = trimmed(pages[i].text).len() == 0;
            &&& made.member("model"@) == Some(JsonView::Text(model))
            &&& made.member("input_type"@) == Some(JsonView::Text("passage"@))
            &&& made.member("input"@) matches Some(JsonView::List(inputs)) && inputs.len()
                == pages.len() && inputs[i] == JsonView::Text(
                if blank {
                    pages[i].image
                } else {
                    pages[i].text + " "@ + pages[i].image
                },
            )
            &&& made.member("modality"@) matches Some(JsonView::List(kinds)) && kinds.len()
                == pages.len() && kinds[i] == JsonView::Text(
                if blank {
                    "image"@
                } else {
                    "text_image"@
                },
            )
        }),
{
    lemma_embed_request(
        model,
        crate::nvidia::page_inputs(pages),
        "passage"@,
        JsonView::List(crate::nvidia::page_modalities(pages)),
    );
}

/// Images are embedded as passages, one by one and in order.
pub proof fn law_images_are_embedded_as_passages(
    model: Seq<char>,
    images: Seq<Seq<char>>,
    i: int,
)
    requires
        0 <= i < images.len(),
    ensures
        ({
            let made = images_request(model, images);
            &&& made.member("model"@) == Some(JsonView::Text(model))
            &&& made.member("input_type"@) == Some(JsonView::Text("passage"@))
            &&& made.member("modality"@) == Some(JsonView::Text("image"@))
            &&& made.member("input"@) matches Some(JsonView::List(inputs)) && inputs.len()
                == images.len() && inputs[i] == JsonView::Text(images[i])
        }),
{
    lemma_embed_request(
        model,
        crate::nvidia::text_items(images),
        "passage"@,
        JsonView::Text("image"@),
    );
}

/// The reranker is asked the question about the passages, as they are and in order.
pub proof fn law_the_reranker_is_asked_about_the_passages(
    model: Seq<char>,
    query: Seq<char>,
    passages: Seq<JsonView>,
)
    ensures
        ({
            let made = rerank_request(model, query, passages);
            &&& made.member("model"@) == Some(JsonView::Text(model))
            &&& made.member("query"@) matches Some(asked) && asked.member("text"@) == Some(
                JsonView::Text(query),
            )
            &&& made.member("passages"@) == Some(JsonView::List(passages))
            &&& made.member("truncate"@) == Some(JsonView::Text("END"@))
        }),
{
    let members = rerank_request(model, query, passages)->Object_0;
    reveal_strlit("model");
    reveal_strlit("query");
    reveal_strlit("passages");
    reveal_strlit("truncate");
    assert("model"@.len() == 5);
    assert("query"@.len() == 5);
    assert("passages"@.len() == 8);
    assert("truncate"@.len() == 8);
    lemma_member_at(members, "model"@, 0);
    assert("query"@[0] != "model"@[0]);
    lemma_member_at(members, "query"@, 1);
    lemma_member_at(members, "passages"@, 2);
    assert("truncate"@[0] != "passages"@[0]);
    lemma_member_at(members, "truncate"@, 3);
    lemma_member_at(text_passage_of(query)->Object_0, "text"@, 0);
}

/// A page is a passage with its image, and with its text exactly where it has one.
pub proof fn law_a_page_passage_has_its_image(page: PageInputView)
    ensures
        ({
            let made = page_passage_of(page);
            &&& made.member("image"@) == Some(JsonView::Text(page.image))
            &&& trimmed(page.text).len() > 0 ==> made.member("text"@) == Some(
                JsonView::Text(page.text),
            )
            &&& trimmed(page.text).len() == 0 ==> made.member("text"@) is None
        }),
{
    let members = page_passage_of(page)->Object_0;
    reveal_strlit("text");
    reveal_strlit("image");
    assert("text"@.len() == 4 && "image"@.len() == 5);
    if trimmed(page.text).len() == 0 {
        lemma_member_at(members, "image"@, 0);
        reveal_with_fuel(crate::json::member_in, 2);
        assert(members.skip(1) =~= Seq::empty());
    } else {
        lemma_member_at(members, "text"@, 0);
        lemma_member_at(members, "image"@, 1);
    }
}

/// An image is handed over as a data URL of its media type exactly where it has no more
/// than twenty-five mebibytes.
pub proof fn law_images_are_handed_over_by_type(extension: Seq<char>, bytes: Seq<u8>)
    ensures
        image_url_of(extension, bytes) is Some <==> bytes.len() <= 25 * 1024 * 1024,
        ({
            let kind = if lowered(extension) == "png"@ {
                "image/png"@
            } else if lowered(extension) == "webp"@ {
                "image/webp"@
            } else {
                "image/jpeg"@
            };
            image_url_of(extension, bytes) matches Some(url) ==> url == "data:"@ + kind
                + ";base64,"@ + base64_form(bytes)
        }),
{
}

/// The score of a passage is what the reranker said last of its index; there is none
/// exactly where it said nothing of it.
pub proof fn law_passages_have_their_own_scores(rankings: Seq<RankingItem>, index: int)
    ensures
        score_of(rankings, index) is Some <==> exists|k: int|
            0 <= k < rankings.len() && (#[trigger] rankings[k]).index == index,
        score_of(rankings, index) matches Some(score) ==> exists|k: int|
            0 <= k < rankings.len() && (#[trigger] rankings[k]).index == index && score.logit
                == rankings[k].logit && score.normalized == rankings[k].normalized && forall|j: int|
                k < j < rankings.len() ==> (#[trigger] rankings[j]).index != index,
    decreases rankings.len(),
{
    if rankings.len() > 0 {
        let rest = rankings.drop_last();
        let n = rankings.len() - 1;
        law_passages_have_their_own_scores(rest, index);
        if rankings.last().index == index {
            assert(rankings[n].index == index);
        } else {
            if score_of(rest, index) is Some {
                let score = score_of(rest, index)->0;
                let k = choose|k: int|
                    0 <= k < rest.len() && (#[trigger] rest[k]).index == index && score.logit
                        == rest[k].logit && score.normalized == rest[k].normalized && forall|
                        j: int,
                    |
                        k < j < rest.len() ==> (#[trigger] rest[j]).index != index;
                assert(rankings[k] == rest[k]);
                assert forall|j: int| k < j < rankings.len() implies (#[trigger] rankings[j]).index
                    != index by {
                    if j < n {
                        assert(rankings[j] == rest[j]);
                    }
                }
            }
            if exists|k: int| 0 <= k < rankings.len() && (#[trigger] rankings[k]).index == index {
                let k = choose|k: int|
                    0 <= k < rankings.len() && (#[trigger] rankings[k]).index == index;
                assert(rest[k].index == index);
            }
        }
    }
}

/// A page that was rendered is recorded under its work and its number, with the file, the
/// digest, the text and the size of what was rendered, and as not indexed yet.
pub proof fn law_rendered_pages_are_recorded(
    workspace: Seq<char>,
    work_id: Seq<char>,
    page_number: u32,
    page: RenderedPageView,
)
    ensures
        ({
            let made = rendered_record(workspace, work_id, page_number, page);
            &&& made.work_id == work_id
            &&& made.page_number == page_number
            &&& made.page_id == page_id_of(work_id, page_number as nat)
            &&& made.image_path == page_file(workspace, work_id, page_number as nat)
            &&& made.image_sha256 == hexadecimal(sha256(page.image))
            &&& page.native_text matches Some(text) ==> made.page_text == spaced(
                uncontrolled(text),
            )
            &&& page.native_text is None ==> made.page_text.len() == 0
            &&& made.width == page.width && made.height == page.height
            &&& made.indexed_at is None
        }),
{
}

/// The files of pages are numbered with five digits at least: zeros, then the number.
pub proof fn law_page_files_are_numbered(n: nat)
    ensures
        padded(n).len() >= 5,
        decimal(n).len() <= 5 ==> padded(n).len() == 5,
        decimal(n).len() >= 5 ==> padded(n) == decimal(n),
        padded(n).skip(padded(n).len() - decimal(n).len()) == decimal(n),
        forall|i: int| 0 <= i < padded(n).len() - decimal(n).len() ==> #[trigger] padded(n)[i] == '0',
{
    let digits = decimal(n);
    if digits.len() < 5 {
        let zeros = Seq::new((5 - digits.len()) as nat, |i: int| '0');
        assert(padded(n) == zeros + digits);
        assert((zeros + digits).skip(zeros.len() as int) =~= digits);
    } else {
        assert(digits.skip(0) =~= digits);
    }
}

/// Pages are rendered in letter format at the resolution, eight and a half inches wide and
/// up to fourteen high, and no smaller than a thousand by fourteen hundred pixels.
pub proof fn law_pages_are_rendered_in_letter_format(dpi: int)
    requires
        dpi >= 0,
    ensures
        render_bounds(dpi).0 >= 1000 && render_bounds(dpi).1 >= 1400,
        dpi >= 118 ==> render_bounds(dpi).0 == dpi * 17 / 2,
        dpi >= 100 ==> render_bounds(dpi).1 == dpi * 14,
        dpi < 118 ==> render_bounds(dpi).0 == 1000,
        dpi <= 100 ==> render_bounds(dpi).1 == 1400,
{
}

/// Embeddings return to their inputs: where an answer holds one for each input, in whatever
/// order, the embedding of an input is put in its place.
pub proof fn law_embeddings_return_to_their_inputs(indices: Seq<usize>, p: int)
    requires
        indices.no_duplicates(),
        forall|i: int| 0 <= i < indices.len() ==> #[trigger] indices[i] < indices.len(),
        0 <= p < indices.len(),
        indices.len() <= usize::MAX,
    ensures
        ordered::<IndexedEmbedding>(positioned(indices))[indices[p] as int] == (
            indices[p],
            p as usize,
        ),
{
    let n = indices.len() as int;
    let all = positioned(indices);
    let sorted = ordered::<IndexedEmbedding>(all);
    law_ordered::<IndexedEmbedding>(all);
    broadcast use vstd::seq_lib::group_to_multiset_ensures;

    assert forall|i: int| 0 <= i < n implies all.contains(#[trigger] sorted[i]) by {
        assert(sorted.contains(sorted[i]));
        assert(sorted.to_multiset().count(sorted[i]) > 0);
    }
    assert forall|i: int, j: int| 0 <= i < j < n implies #[trigger] all[i] != #[trigger] all[j] by {
        assert(indices[i] != indices[j]);
    }
    all.lemma_multiset_has_no_duplicates();
    sorted.lemma_multiset_has_no_duplicates_conv();
    assert forall|i: int, j: int| 0 <= i < j < n implies (#[trigger] sorted[i]).0 < (
    #[trigger] sorted[j]).0 by {
        assert(all.contains(sorted[i]) && all.contains(sorted[j]));
        let a = choose|a: int| 0 <= a < all.len() && all[a] == sorted[i];
        let b = choose|b: int| 0 <= b < all.len() && all[b] == sorted[j];
        if sorted[i].0 == sorted[j].0 {
            assert(indices[a] == indices[b]);
            assert(a == b);
            assert(sorted[i] == sorted[j]);
        }
        assert(!(<IndexedEmbedding as crate::order::Ranked>::before(sorted[j], sorted[i])));
    }
    assert forall|i: int| 0 <= i < n implies (#[trigger] sorted[i]).0 < n by {
        let a = choose|a: int| 0 <= a < all.len() && all[a] == sorted[i];
        assert(indices[a] < indices.len());
    }
    lemma_counted_up(sorted, n);
    assert(all[p] == (indices[p], p as usize));
    assert(all.contains(all[p]));
    assert(all.to_multiset().count(all[p]) > 0);
    assert(sorted.contains(all[p]));
    let k = choose|k: int| 0 <= k < sorted.len() && sorted[k] == all[p];
    assert(sorted[k].0 == k);
}

/// Numbers that grow from place to place and stay below their count are the places.
proof fn lemma_counted_up(sorted: Seq<(usize, usize)>, n: int)
    requires
        sorted.len() == n,
        forall|i: int, j: int|
            0 <= i < j < n ==> (#[trigger] sorted[i]).0 < (#[trigger] sorted[j]).0,
        forall|i: int| 0 <= i < n ==> (#[trigger] sorted[i]).0 < n,
    ensures
        forall|i: int| 0 <= i < n ==> (#[trigger] sorted[i]).0 == i,
{
    assert forall|i: int| 0 <= i < n implies (#[trigger] sorted[i]).0 == i by {
        lemma_no_less(sorted, n, i);
        lemma_no_more(sorted, n, i);
    }
}

proof fn lemma_no_less(sorted: Seq<(usize, usize)>, n: int, i: int)
    requires
        sorted.len() == n,
        0 <= i < n,
        forall|i: int, j: int|
            0 <= i < j < n ==> (#[trigger] sorted[i]).0 < (#[trigger] sorted[j]).0,
    ensures
        sorted[i].0 >= i,
    decreases i,
{
    if i > 0 {
        lemma_no_less(sorted, n, i - 1);
        assert(sorted[i - 1].0 < sorted[i].0);
    }
}

proof fn lemma_no_more(sorted: Seq<(usize, usize)>, n: int, i: int)
    requires
        sorted.len() == n,
        0 <= i < n,
        forall|i: int, j: int|
            0 <= i < j < n ==> (#[trigger] sorted[i]).0 < (#[trigger] sorted[j]).0,
        forall|i: int| 0 <= i < n ==> (#[trigger] sorted[i]).0 < n,
    ensures
        sorted[i].0 <= i,
    decreases n - i,
{
    if i < n - 1 {
        lemma_no_more(sorted, n, i + 1);
        assert(sorted[i].0 < sorted[i + 1].0);
    } else {
        assert(sorted[i].0 < n);
    }
}

/// In the text of a page each control character becomes a space, and all else stays.
pub proof fn law_control_characters_become_spaces(text: Seq<char>, i: int)
    requires
        0 <= i < text.len(),
    ensures
        uncontrolled(text).len() == text.len(),
        text[i] < ' ' || ('\u{7f}' <= text[i] && text[i] <= '\u{9f}') ==> uncontrolled(text)[i]
            == ' ',
        !(text[i] < ' ' || ('\u{7f}' <= text[i] && text[i] <= '\u{9f}')) ==> uncontrolled(text)[i]
            == text[i],
{
}

} // verus!
