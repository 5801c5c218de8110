//! Where full texts may come from, and what is taken for one.

use crate::adapters::sha256;
use crate::discovery::{arxiv_in, openalex_in};
use crate::domain::{doi_in, FullTextCandidateView, WorkRecordView};
use crate::download::{
    authorized_places, destination_of, entry_fault, file_stem, handed_out, manual_request,
    manual_urls, redirect_fault, searched, signature_at, signed_as_pdf, supplied_pdf, target_fault,
    url_fault_of, with_id_url, with_places_urls, with_url, ManualPdfError, RedirectError, UrlError,
};
use crate::text::{ascii_lower, finishes_with, trimmed};
use crate::util::hexadecimal;
use vstd::prelude::*;

verus! {

/// The IPv4 address is one of a private network, of this host, of the link, or none.
pub open spec fn not_public(ip: (u8, u8, u8, u8)) -> bool {
    ||| ip.0 == 10 || ip.0 == 127
    ||| ip.0 == 172 && ip.1 / 16 == 1
    ||| ip.0 == 192 && ip.1 == 168
    ||| ip.0 == 169 && ip.1 == 254
    ||| ip.0 == 255 && ip.1 == 255 && ip.2 == 255 && ip.3 == 255
    ||| ip.0 == 0 && ip.1 == 0 && ip.2 == 0 && ip.3 == 0
}

/// Only public addresses are fetched, and only by HTTP: an address is refused exactly
/// where it speaks another protocol, names no host, names this host or one of the local
/// network, or is an IP address of a network that is not public.
pub proof fn law_only_public_addresses_are_fetched(
    scheme: Seq<char>,
    host: Option<Seq<char>>,
    ipv4: Option<(u8, u8, u8, u8)>,
    ipv6: Option<Seq<u16>>,
)
    requires
        ipv6 matches Some(ip) ==> ip.len() == 8,
    ensures
        ({
            let fault = target_fault(scheme, host, ipv4, ipv6);
            let local = host matches Some(name) && (ascii_lower(name) == "localhost"@
                || finishes_with(name, ".local"@));
            let loopback = ipv6 matches Some(ip) && ip[0] == 0 && ip[1] == 0 && ip[2] == 0 && ip[3]
                == 0 && ip[4] == 0 && ip[5] == 0 && ip[6] == 0 && ip[7] <= 1;
            let unique_local = ipv6 matches Some(ip) && 0xfc00 <= ip[0] <= 0xfdff;
            &&& fault == Some(UrlError::NotHttp) <==> scheme != "http"@ && scheme != "https"@
            &&& fault is None <==> (scheme == "http"@ || scheme == "https"@) && host is Some
                && !local && !(ipv4 matches Some(ip) && not_public(ip)) && !loopback
                && !unique_local
            &&& fault == Some(UrlError::LocalNetwork) ==> local
            &&& fault == Some(UrlError::PrivateNetwork) ==> (ipv4 matches Some(ip) && not_public(
                ip,
            )) || loopback || unique_local
        }),
{
    reveal_strlit("localhost");
    assert(ascii_lower("localhost"@) =~= "localhost"@);
    if ipv6 is Some {
        let ip = ipv6->0;
        let none = seq![0u16, 0u16, 0u16, 0u16, 0u16, 0u16, 0u16, 0u16];
        let here = seq![0u16, 0u16, 0u16, 0u16, 0u16, 0u16, 0u16, 1u16];
        if ip[0] == 0 && ip[1] == 0 && ip[2] == 0 && ip[3] == 0 && ip[4] == 0 && ip[5] == 0
            && ip[6] == 0 && ip[7] == 0 {
            assert(ip =~= none);
        }
        if ip[0] == 0 && ip[1] == 0 && ip[2] == 0 && ip[3] == 0 && ip[4] == 0 && ip[5] == 0
            && ip[6] == 0 && ip[7] == 1 {
            assert(ip =~= here);
        }
        if ip == none {
            assert(ip[0] == 0 && ip[1] == 0 && ip[2] == 0 && ip[3] == 0 && ip[4] == 0 && ip[5] == 0
                && ip[6] == 0 && ip[7] == 0);
        }
        if ip == here {
            assert(ip[0] == 0 && ip[1] == 0 && ip[2] == 0 && ip[3] == 0 && ip[4] == 0 && ip[5] == 0
                && ip[6] == 0 && ip[7] == 1);
        }
    }
}

/// A redirect is followed exactly where it leads to a public address behind no more than
/// ten others.
pub proof fn law_redirects_stay_public(previous: nat, url: Seq<char>)
    ensures
        redirect_fault(previous, url) is None <==> previous <= 10 && url_fault_of(url) is None,
        previous > 10 ==> redirect_fault(previous, url) == Some(RedirectError::TooMany),
        previous <= 10 && url_fault_of(url) is Some ==> redirect_fault(previous, url) == Some(
            RedirectError::NotPublic,
        ),
{
}

/// The addresses are all public, none of them is there twice, and none has white space
/// around it.
pub open spec fn public_addresses(urls: Seq<Seq<char>>) -> bool {
    &&& urls.no_duplicates()
    &&& forall|i: int| 0 <= i < urls.len() ==> url_fault_of(#[trigger] urls[i]) is None
    &&& forall|i: int| 0 <= i < urls.len() ==> (#[trigger] urls[i]).len() > 0
}

proof fn lemma_with_url(urls: Seq<Seq<char>>, value: Seq<char>)
    requires
        public_addresses(urls),
    ensures
        public_addresses(with_url(urls, value)),
        forall|url: Seq<char>| urls.contains(url) ==> #[trigger] with_url(urls, value).contains(
            url,
        ),
        trimmed(value).len() > 0 && url_fault_of(trimmed(value)) is None ==> with_url(
            urls,
            value,
        ).contains(trimmed(value)),
        forall|url: Seq<char>| #[trigger]
            with_url(urls, value).contains(url) ==> urls.contains(url) || url == trimmed(value),
        with_url(urls, value).len() >= urls.len(),
        urls.len() > 0 ==> with_url(urls, value)[0] == urls[0],
{
    let next = with_url(urls, value);
    assert forall|url: Seq<char>| urls.contains(url) implies #[trigger] next.contains(url) by {
        let i = choose|i: int| 0 <= i < urls.len() && urls[i] == url;
        assert(next[i] == url);
    }
    if next.len() > urls.len() {
        assert(next[next.len() - 1] == trimmed(value));
    }
    assert forall|url: Seq<char>| #[trigger] next.contains(url) implies urls.contains(url) || url
        == trimmed(value) by {
        let i = choose|i: int| 0 <= i < next.len() && next[i] == url;
        if i < urls.len() {
            assert(urls[i] == url);
        }
    }
}

proof fn lemma_with_places_urls(places: Seq<FullTextCandidateView>)
    ensures
        public_addresses(with_places_urls(Seq::empty(), places)),
        forall|i: int|
            0 <= i < places.len() && trimmed((#[trigger] places[i]).url).len() > 0 && url_fault_of(
                trimmed(places[i].url),
            ) is None ==> with_places_urls(Seq::empty(), places).contains(trimmed(places[i].url)),
    decreases places.len(),
{
    if places.len() > 0 {
        let rest = with_places_urls(Seq::empty(), places.drop_last());
        lemma_with_places_urls(places.drop_last());
        lemma_with_url(rest, places.last().url);
        let all = with_places_urls(Seq::empty(), places);
        assert forall|i: int|
            0 <= i < places.len() && trimmed((#[trigger] places[i]).url).len() > 0 && url_fault_of(
                trimmed(places[i].url),
            ) is None implies all.contains(trimmed(places[i].url)) by {
            if i < places.len() - 1 {
                assert(places.drop_last()[i] == places[i]);
            }
        }
    }
}

/// The user is shown every public address at which the full text of a work may be found,
/// each once: those of its full texts, that of the work, and those that its DOI, its
/// OpenAlex identifier and its arXiv identifier make; and no address that is not public.
pub proof fn law_the_user_sees_every_public_address(work: WorkRecordView)
    ensures
        ({
            let urls = manual_urls(work);
            &&& public_addresses(urls)
            &&& forall|i: int|
                0 <= i < work.fulltext_candidates.len() && trimmed(
                    (#[trigger] work.fulltext_candidates[i]).url,
                ).len() > 0 && url_fault_of(trimmed(work.fulltext_candidates[i].url)) is None
                    ==> urls.contains(trimmed(work.fulltext_candidates[i].url))
            &&& trimmed(work.url).len() > 0 && url_fault_of(trimmed(work.url)) is None
                ==> urls.contains(trimmed(work.url))
            &&& doi_in(work.ids) matches Some(doi) ==> trimmed("https://doi.org/"@ + doi).len() > 0
                && url_fault_of(trimmed("https://doi.org/"@ + doi)) is None ==> urls.contains(
                trimmed("https://doi.org/"@ + doi),
            )
            &&& openalex_in(work.ids) matches Some(id) ==> trimmed(
                "https://openalex.org/"@ + id,
            ).len() > 0 && url_fault_of(trimmed("https://openalex.org/"@ + id)) is None
                ==> urls.contains(trimmed("https://openalex.org/"@ + id))
            &&& arxiv_in(work.ids) matches Some(id) ==> trimmed(
                "https://arxiv.org/abs/"@ + id,
            ).len() > 0 && url_fault_of(trimmed("https://arxiv.org/abs/"@ + id)) is None
                ==> urls.contains(trimmed("https://arxiv.org/abs/"@ + id))
        }),
{
    let a = with_places_urls(Seq::empty(), work.fulltext_candidates);
    lemma_with_places_urls(work.fulltext_candidates);
    lemma_with_url(a, work.url);
    let b = with_url(a, work.url);
    let c = with_id_url(b, "https://doi.org/"@, doi_in(work.ids));
    if doi_in(work.ids) is Some {
        lemma_with_url(b, "https://doi.org/"@ + doi_in(work.ids)->0);
    }
    let d = with_id_url(c, "https://openalex.org/"@, openalex_in(work.ids));
    if openalex_in(work.ids) is Some {
        lemma_with_url(c, "https://openalex.org/"@ + openalex_in(work.ids)->0);
    }
    let e = with_id_url(d, "https://arxiv.org/abs/"@, arxiv_in(work.ids));
    if arxiv_in(work.ids) is Some {
        lemma_with_url(d, "https://arxiv.org/abs/"@ + arxiv_in(work.ids)->0);
    }
    assert forall|i: int|
        0 <= i < work.fulltext_candidates.len() && trimmed(
            (#[trigger] work.fulltext_candidates[i]).url,
        ).len() > 0 && url_fault_of(
            trimmed(work.fulltext_candidates[i].url),
        ) is None implies e.contains(trimmed(work.fulltext_candidates[i].url)) by {
        let url = trimmed(work.fulltext_candidates[i].url);
        assert(a.contains(url));
        assert(b.contains(url));
        assert(c.contains(url));
        assert(d.contains(url));
    }
    let own = trimmed(work.url);
    if own.len() > 0 && url_fault_of(own) is None {
        assert(b.contains(own));
        assert(c.contains(own));
        assert(d.contains(own));
    }
    if doi_in(work.ids) is Some {
        let url = trimmed("https://doi.org/"@ + doi_in(work.ids)->0);
        assert(c.contains(url) ==> d.contains(url));
        assert(d.contains(url) ==> e.contains(url));
    }
    if openalex_in(work.ids) is Some {
        let url = trimmed("https://openalex.org/"@ + openalex_in(work.ids)->0);
        assert(d.contains(url) ==> e.contains(url));
    }
}

/// The user is asked for the PDF of the work by its title and its DOI, at the addresses
/// where it may be found, to be put where the program looks for it.
pub proof fn law_requests_name_the_work(
    workspace: Seq<char>,
    work_id: Seq<char>,
    work: WorkRecordView,
    reason: Seq<char>,
)
    ensures
        ({
            let request = manual_request(workspace, work_id, work, reason);
            &&& request.work_id == work_id
            &&& request.title == work.title
            &&& request.doi == doi_in(work.ids)
            &&& request.download_urls == manual_urls(work)
            &&& request.reason == reason
            &&& request.destination == destination_of(workspace, work_id)
            &&& request.google_scholar_query_url is Some ==> work.flags.contains_key(
                "google_scholar_library_access"@,
            ) && work.flags["google_scholar_library_access"@] && doi_in(work.ids) is Some
        }),
{
}

/// The PDF of a work is preserved among the PDFs of the workspace, under the name of the
/// work.
pub proof fn law_pdfs_are_kept_in_their_directory(workspace: Seq<char>, work_id: Seq<char>)
    requires
        workspace.len() > 0,
        !finishes_with(workspace, "/"@),
        !crate::text::begins_with(file_stem(work_id) + ".pdf"@, "/"@),
    ensures
        destination_of(workspace, work_id) == workspace + "/"@ + "pdfs"@ + "/"@ + (file_stem(
            work_id,
        ) + ".pdf"@),
{
    reveal_strlit("/");
    reveal_strlit("pdfs");
    let base = workspace + "/"@ + "pdfs"@;
    assert(!crate::text::begins_with("pdfs"@, "/"@)) by {
        assert("pdfs"@[0] == 'p' && "/"@[0] == '/');
        if crate::text::begins_with("pdfs"@, "/"@) {
            assert("pdfs"@.take(1)[0] == "/"@[0]);
        }
    }
    assert(!finishes_with(base, "/"@)) by {
        assert(base[base.len() - 1] == 's');
        if finishes_with(base, "/"@) {
            assert(base.skip(base.len() - 1)[0] == "/"@[0]);
        }
    }
}

/// A file of the user is not even read exactly where it is a link, no regular file, empty
/// or larger than the limit.
pub proof fn law_only_fitting_files_are_read(
    symbolic_link: bool,
    regular: bool,
    length: u64,
    limit: u64,
)
    ensures
        entry_fault(symbolic_link, regular, length, limit) is None <==> !symbolic_link && regular
            && 0 < length <= limit,
        entry_fault(symbolic_link, regular, length, limit) == Some(ManualPdfError::SymbolicLink)
            <==> symbolic_link,
        entry_fault(symbolic_link, regular, length, limit) == Some(ManualPdfError::NotAFile)
            <==> !symbolic_link && !regular,
        entry_fault(symbolic_link, regular, length, limit) == Some(ManualPdfError::Empty)
            <==> !symbolic_link && regular && length == 0,
        entry_fault(symbolic_link, regular, length, limit) == Some(
            ManualPdfError::TooLarge { length, limit },
        ) <==> !symbolic_link && regular && length > 0 && length > limit,
{
}

/// Bytes are those of a PDF exactly where `%PDF-` stands somewhere among them.
pub proof fn law_a_pdf_is_known_by_its_signature(before: Seq<u8>, after: Seq<u8>, bytes: Seq<u8>)
    ensures
        signed_as_pdf(before + seq![0x25u8, 0x50u8, 0x44u8, 0x46u8, 0x2du8] + after),
        signed_as_pdf(bytes) <==> exists|at: int|
            0 <= at && at + 5 <= bytes.len() && #[trigger] bytes[at] == 0x25 && bytes[at + 1]
                == 0x50 && bytes[at + 2] == 0x44 && bytes[at + 3] == 0x46 && bytes[at + 4] == 0x2d,
{
    let mark = seq![0x25u8, 0x50u8, 0x44u8, 0x46u8, 0x2du8];
    let whole = before + mark + after;
    let n = before.len() as int;
    assert(whole.subrange(n, n + 5) =~= mark);
    assert(signature_at(whole, n));
    if signed_as_pdf(bytes) {
        let at = choose|at: int| signature_at(bytes, at);
        let part = bytes.subrange(at, at + 5);
        assert(part[0] == bytes[at] && part[1] == bytes[at + 1] && part[2] == bytes[at + 2]
            && part[3] == bytes[at + 3] && part[4] == bytes[at + 4]);
        assert(bytes[at] == 0x25);
    }
    if exists|at: int|
        0 <= at && at + 5 <= bytes.len() && #[trigger] bytes[at] == 0x25 && bytes[at + 1] == 0x50
            && bytes[at + 2] == 0x44 && bytes[at + 3] == 0x46 && bytes[at + 4] == 0x2d {
        let at = choose|at: int|
            0 <= at && at + 5 <= bytes.len() && #[trigger] bytes[at] == 0x25 && bytes[at + 1]
                == 0x50 && bytes[at + 2] == 0x44 && bytes[at + 3] == 0x46 && bytes[at + 4] == 0x2d;
        assert(bytes.subrange(at, at + 5) =~= mark);
        assert(signature_at(bytes, at));
    }
}

/// The signature of a PDF is sought in its first thousand and twenty-four bytes.
pub proof fn law_the_signature_is_sought_at_the_beginning(bytes: Seq<u8>)
    ensures
        searched(bytes).len() <= 1024,
        bytes.len() <= 1024 ==> searched(bytes) == bytes,
        bytes.len() > 1024 ==> searched(bytes) == bytes.take(1024),
{
}

/// A PDF that the user supplied has the digest of its contents, lies where the PDF of the
/// work is preserved, is named by the first address of the work, and claims no license.
pub proof fn law_supplied_pdfs_claim_no_license(
    workspace: Seq<char>,
    work_id: Seq<char>,
    work: WorkRecordView,
    contents: Seq<u8>,
)
    requires
        manual_urls(work).len() > 0,
    ensures
        ({
            let pdf = supplied_pdf(workspace, work_id, work, contents);
            &&& pdf.user_supplied
            &&& pdf.license == "user-supplied; reuse rights not established"@
            &&& pdf.sha256 == hexadecimal(sha256(contents))
            &&& pdf.path == destination_of(workspace, work_id)
            &&& pdf.url == manual_urls(work)[0]
        }),
{
}

/// The places that are downloaded from are the authorized ones, all of them and in order.
pub proof fn law_every_authorized_place_is_tried(places: Seq<FullTextCandidateView>)
    ensures
        authorized_places(places) == places.filter(
            |place: FullTextCandidateView| place.authorized,
        ),
    decreases places.len(),
{
    reveal(Seq::filter);
    if places.len() > 0 {
        law_every_authorized_place_is_tried(places.drop_last());
    }
}

/// A PDF that a place handed out is that of the place, under its license, with the digest
/// of what came, where the PDF of the work is preserved; the user did not supply it.
pub proof fn law_downloads_name_their_place(
    workspace: Seq<char>,
    work_id: Seq<char>,
    place: FullTextCandidateView,
    contents: Seq<u8>,
)
    ensures
        ({
            let pdf = handed_out(workspace, work_id, place, contents);
            &&& pdf.url == place.url
            &&& pdf.license == place.license
            &&& pdf.sha256 == hexadecimal(sha256(contents))
            &&& pdf.path == destination_of(workspace, work_id)
            &&& !pdf.user_supplied
        }),
{
}

} // verus!
