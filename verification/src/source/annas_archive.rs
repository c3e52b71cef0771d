//! Anna's Archive search, from the pages that a browser session loads.
//!
//! The public site protects search and partner-link pages with a browser
//! check, so pages are loaded in a browser. What the pages mean, and how long
//! to wait for them, is decided here.

use vstd::prelude::*;

use crate::html;
use crate::number;
use crate::source::libgen;
use crate::source::{Amount, AmountView, Book, BookView, Download, DownloadView, Draft, DraftView};
use crate::source::{Format, FormatView, Listing, Source};
use crate::text;
use crate::url;
use crate::words;

verus! {

broadcast use {
    crate::text::lemma_texts_push,
    crate::source::lemma_downloads_push,
    crate::source::lemma_drafts_push,
};

/// The address of the site.
pub const BASE_URL: &'static str = "https://annas-archive.gl";

/// How many seconds the browser check may take.
pub const CHALLENGE_SECONDS: u64 = 35;

/// How many seconds the partner link may take to appear.
pub const PARTNER_SECONDS: u64 = 25;

/// The Anna's Archive catalog.
#[derive(Debug)]
pub struct AnnasArchive;

impl Default for AnnasArchive {
    fn default() -> (r: AnnasArchive)
        ensures
            r == AnnasArchive,
    {
        AnnasArchive
    }
}

impl Source for AnnasArchive {
    open spec fn tag(&self) -> Seq<char> {
        "annas-archive"@
    }

    fn name(&self) -> (r: &'static str) {
        "annas-archive"
    }
}

/// The address of a page of results, if one can be built.
pub fn search_url(query: &str, page: usize) -> (r: Option<String>)
    ensures
        text::text_in(r) == url::url_with_query(
            BASE_URL@ + "/search"@,
            ("q"@, query@),
            ("page"@, number::decimal(crate::source::page_number(page))),
        ),
{
    let mut base = BASE_URL.to_owned();
    base.append("/search");
    proof {
        reveal_strlit("https://annas-archive.gl");
        reveal_strlit("/search");
        assert(!base@.contains('#'));
    }
    let number = crate::source::page_text(page);
    url::with_query(base.as_str(), ("q", query), ("page", number.as_str()))
}

// ---- the fields of a result -----------------------------------------------------

/// The hash in a link to a result, in small letters.
pub open spec fn result_hash(href: Option<Seq<char>>) -> Option<Seq<char>> {
    match href {
        Some(href) => match text::after_prefix(href, "/md5/"@) {
            Some(hash) => if hash.len() == 32 && text::all_hex(hash) {
                Some(text::lowered(hash))
            } else {
                None
            },
            None => None,
        },
        None => None,
    }
}

fn hash_of(href: &Option<String>) -> (r: Option<String>)
    ensures
        text::text_in(r) == result_hash(text::text_in(*href)),
{
    match href {
        Some(href) => match text::strip_prefix(href.as_str(), "/md5/") {
            Some(hash) => if text::hex_digits(hash.as_str(), 32) {
                Some(text::lower(hash.as_str()))
            } else {
                None
            },
            None => None,
        },
        None => None,
    }
}

/// The ebook format that an extension stands for, in any letter case.
pub fn format_from_extension(extension: &str) -> (r: Option<Format>)
    ensures
        crate::source::format_in(r) == libgen::format_of(extension@),
{
    libgen::format_from_extension(extension)
}

/// The amount in a size of one unit, such as `0.4mb`.
pub open spec fn amount_in_unit(
    value: Seq<char>,
    unit: Seq<char>,
    multiplier: u64,
) -> Option<AmountView> {
    match text::before_suffix(value, unit) {
        Some(digits) => Some(
            AmountView {
                digits: text::replaced(text::trimmed(digits), seq![','], '.'),
                multiplier,
            },
        ),
        None => None,
    }
}

/// The amount in a size such as `0.4MB`: the longest unit that it ends in
/// counts.
pub open spec fn amount_of(value: Seq<char>) -> Option<AmountView> {
    let value = text::lowered(text::trimmed(value));
    match amount_in_unit(value, "gb"@, 1_000_000_000) {
        Some(amount) => Some(amount),
        None => match amount_in_unit(value, "mb"@, 1_000_000) {
            Some(amount) => Some(amount),
            None => match amount_in_unit(value, "kb"@, 1_000) {
                Some(amount) => Some(amount),
                None => amount_in_unit(value, "b"@, 1),
            },
        },
    }
}

fn parse_unit(value: &str, unit: &str, multiplier: u64) -> (r: Option<Amount>)
    ensures
        crate::source::amount_in(r) == amount_in_unit(value@, unit@, multiplier),
{
    match text::strip_suffix(value, unit) {
        Some(digits) => {
            let trimmed = text::trim(digits.as_str());
            Some(Amount { digits: libgen::pointed(trimmed.as_str()), multiplier })
        },
        None => None,
    }
}

/// The amount in a size such as `0.4MB`.
pub fn parse_size(value: &str) -> (r: Option<Amount>)
    ensures
        crate::source::amount_in(r) == amount_of(value@),
{
    let trimmed = text::trim(value);
    let lower = text::lower(trimmed.as_str());
    let value = lower.as_str();
    if let Some(amount) = parse_unit(value, "gb", 1_000_000_000) {
        return Some(amount);
    }
    if let Some(amount) = parse_unit(value, "mb", 1_000_000) {
        return Some(amount);
    }
    if let Some(amount) = parse_unit(value, "kb", 1_000) {
        return Some(amount);
    }
    parse_unit(value, "b", 1)
}

/// What a metadata line says of a file.
#[derive(Debug)]
pub struct Metadata {
    pub language: Option<String>,
    pub format: Format,
    pub amount: Option<Amount>,
}

/// The mathematical counterpart of [`Metadata`].
pub struct MetadataView {
    pub language: Option<Seq<char>>,
    pub format: FormatView,
    pub amount: Option<AmountView>,
}

impl View for Metadata {
    type V = MetadataView;

    open spec fn view(&self) -> MetadataView {
        MetadataView {
            language: text::text_in(self.language),
            format: self.format@,
            amount: crate::source::amount_in(self.amount),
        }
    }
}

/// The metadata in an optional one.
pub open spec fn metadata_in(value: Option<Metadata>) -> Option<MetadataView> {
    match value {
        Some(metadata) => Some(metadata@),
        None => None,
    }
}

/// The language that the first part of a metadata line names: what stands
/// before the code in brackets.
pub open spec fn language_of(part: Seq<char>) -> Option<Seq<char>> {
    let name = text::trimmed(text::before_first(text::trimmed(part), " ["@));
    if name.len() == 0 {
        None
    } else {
        Some(name)
    }
}

/// What a line such as `Serbian [sr] · EPUB · 0.4MB` says: the language, the
/// format, and the size where there is one.
pub open spec fn metadata_of(line: Seq<char>) -> Option<MetadataView> {
    let parts = words::pieces(line, seq!['·']);
    if parts.len() < 2 {
        None
    } else {
        match libgen::format_of(text::trimmed(parts[1])) {
            Some(format) => Some(
                MetadataView {
                    language: language_of(parts[0]),
                    format,
                    amount: if parts.len() < 3 {
                        None
                    } else {
                        amount_of(text::trimmed(parts[2]))
                    },
                },
            ),
            None => None,
        }
    }
}

/// What a metadata line says of a file, if it names an ebook format.
pub fn parse_metadata(value: &str) -> (r: Option<Metadata>)
    ensures
        metadata_in(r) == metadata_of(value@),
{
    let stops: [char; 1] = ['·'];
    assert(stops@ =~= seq!['·']);
    let parts = words::split(value, &stops);
    assert(forall|i: int|
        0 <= i < parts@.len() ==> text::texts(parts@)[i] == #[trigger] parts@[i]@);
    let first = text::trim(parts[0].as_str());
    let head = text::head_before(first.as_str(), " [");
    let name = text::trim(head.as_str());
    let language = if name.as_str().is_empty() {
        None
    } else {
        Some(name)
    };
    if parts.len() < 2 {
        return None;
    }
    let second = text::trim(parts[1].as_str());
    let format = match format_from_extension(second.as_str()) {
        Some(format) => format,
        None => return None,
    };
    let amount = if parts.len() < 3 {
        None
    } else {
        let third = text::trim(parts[2].as_str());
        parse_size(third.as_str())
    };
    Some(Metadata { language, format, amount })
}

/// The node is the box around one result.
pub open spec fn is_container(node: Option<html::AncestorView>) -> bool {
    &&& node is Some
    &&& node->0.tag == "div"@
    &&& node->0.class is Some
    &&& words::words(node->0.class->0).contains("border-b"@)
}

/// The closest box around a result.
pub open spec fn container_place(around: Seq<Option<html::AncestorView>>, from: int) -> Option<int>
    decreases around.len() - from,
{
    if from < 0 || from >= around.len() {
        None
    } else if is_container(around[from]) {
        Some(from)
    } else {
        container_place(around, from + 1)
    }
}

/// The place of the closest box around a result.
pub fn result_container(around: &Vec<Option<html::Ancestor>>) -> (r: Option<usize>)
    ensures
        match r {
            Some(i) => i < around@.len() && around@[i as int] is Some && container_place(
                html::ancestors_view(around@),
                0,
            ) == Some(i as int),
            None => container_place(html::ancestors_view(around@), 0) is None,
        },
{
    let ghost all = html::ancestors_view(around@);
    let mut i: usize = 0;
    while i < around.len()
        invariant
            i <= around@.len(),
            all == html::ancestors_view(around@),
            container_place(all, 0) == container_place(all, i as int),
        decreases around@.len() - i,
    {
        assert(all[i as int] == html::ancestor_in(around@[i as int]));
        if let Some(element) = &around[i] {
            if text::same(element.tag.as_str(), "div") {
                if let Some(class) = &element.class {
                    let classes = words::split_words(class.as_str());
                    if text::holds(&classes, "border-b") {
                        return Some(i);
                    }
                }
            }
        }
        i += 1;
    }
    None
}

/// The book that a result describes, given its hash.
pub open spec fn result_draft(link: html::ResultLinkView, hash: Seq<char>) -> Option<DraftView> {
    match container_place(link.around, 0) {
        Some(place) => {
            let container = link.around[place]->0;
            if container.metadata.len() == 0 {
                None
            } else {
                match metadata_of(words::squeezed(container.metadata[0])) {
                    Some(metadata) => Some(
                        DraftView {
                            book: BookView {
                                source: "annas-archive"@,
                                id: hash,
                                title: words::squeezed(link.text),
                                authors: if container.authors.len() == 0 {
                                    Seq::empty()
                                } else {
                                    libgen::at_most_one(
                                        words::squeezed_text(container.authors[0]),
                                    )
                                },
                                language: metadata.language,
                                downloads: seq![
                                    DownloadView {
                                        format: metadata.format,
                                        url: BASE_URL@ + "/slow_download/"@ + hash + "/0/0"@,
                                        size: None,
                                    },
                                ],
                            },
                            amount: metadata.amount,
                        },
                    ),
                    None => None,
                }
            }
        },
        None => None,
    }
}

/// The book that a result describes, given its hash.
pub fn book_from_result(link: &html::ResultLink, hash: String) -> (r: Option<Draft>)
    ensures
        libgen::draft_in(r) == result_draft(link@, hash@),
{
    let place: usize = match result_container(&link.around) {
        Some(place) => place,
        None => return None,
    };
    assert(link@.around[place as int] == html::ancestor_in(link.around@[place as int]));
    let container = match &link.around[place] {
        Some(container) => container,
        None => return None,
    };
    if container.metadata.len() == 0 {
        return None;
    }
    assert(text::texts(container.metadata@)[0] == container.metadata@[0]@);
    let line = words::squeeze(container.metadata[0].as_str());
    let metadata = match parse_metadata(line.as_str()) {
        Some(metadata) => metadata,
        None => return None,
    };
    let authors = if container.authors.len() == 0 {
        let none: Vec<String> = Vec::new();
        assert(text::texts(none@) =~= Seq::<Seq<char>>::empty());
        none
    } else {
        assert(text::texts(container.authors@)[0] == container.authors@[0]@);
        libgen::list_of(words::squeeze_some(container.authors[0].as_str()))
    };
    let mut address = BASE_URL.to_owned();
    address.append("/slow_download/");
    address.append(hash.as_str());
    address.append("/0/0");
    let mut downloads: Vec<Download> = Vec::new();
    downloads.push(Download { format: metadata.format, url: address, size: None });
    let ghost id = hash@;
    let draft = Draft {
        book: Book {
            source: "annas-archive",
            id: hash,
            title: words::squeeze(link.text.as_str()),
            authors,
            language: metadata.language,
            downloads,
        },
        amount: metadata.amount,
    };
    assert(draft@.book.downloads =~= result_draft(link@, id)->0.book.downloads);
    Some(draft)
}

// ---- results ----------------------------------------------------------------------

/// One of the first `n` links leads to the hash `hash`.
pub open spec fn hash_seen(links: Seq<html::ResultLinkView>, n: int, hash: Seq<char>) -> bool {
    exists|i: int| 0 <= i < n && result_hash((#[trigger] links[i]).href) == Some(hash)
}

/// The books that the first `n` links describe. Only the first link to a hash
/// counts, even where it describes no book; there are `limit` books at most.
pub open spec fn gathered(links: Seq<html::ResultLinkView>, n: int, limit: nat) -> Seq<DraftView>
    decreases n,
{
    if n <= 0 {
        Seq::empty()
    } else {
        let before = gathered(links, n - 1, limit);
        match result_hash(links[n - 1].href) {
            Some(hash) => if before.len() >= limit || hash_seen(links, n - 1, hash) {
                before
            } else {
                match result_draft(links[n - 1], hash) {
                    Some(draft) => before.push(draft),
                    None => before,
                }
            },
            None => before,
        }
    }
}

/// The books that the links describe.
pub fn books_from_results(links: &Vec<html::ResultLink>, limit: usize) -> (r: Vec<Draft>)
    ensures
        crate::source::drafts_view(r@) == gathered(
            html::results_view(links@),
            links@.len() as int,
            limit as nat,
        ),
{
    let ghost all = html::results_view(links@);
    let mut seen: Vec<String> = Vec::new();
    let mut out: Vec<Draft> = Vec::new();
    let mut i: usize = 0;
    assert(crate::source::drafts_view(out@) =~= gathered(all, 0, limit as nat));
    while i < links.len()
        invariant
            i <= links@.len(),
            all == html::results_view(links@),
            crate::source::drafts_view(out@) == gathered(all, i as int, limit as nat),
            forall|hash: Seq<char>| #[trigger]
                text::texts(seen@).contains(hash) <==> hash_seen(all, i as int, hash),
        decreases links@.len() - i,
    {
        assert(all[i as int] == links@[i as int]@);
        let ghost before = text::texts(seen@);
        let found = hash_of(&links[i].href);
        let ghost here = text::text_in(found);
        if let Some(hash) = found {
            let known = text::holds(&seen, hash.as_str());
            seen.push(hash.clone());
            if out.len() < limit && !known {
                if let Some(draft) = book_from_result(&links[i], hash) {
                    out.push(draft);
                }
            }
        }
        proof {
            let after = text::texts(seen@);
            assert forall|hash: Seq<char>| #[trigger] after.contains(hash) <==> hash_seen(
                all,
                i + 1,
                hash,
            ) by {
                if hash_seen(all, i + 1, hash) {
                    let k = choose|k: int|
                        0 <= k < i + 1 && result_hash((#[trigger] all[k]).href) == Some(hash);
                    if k < i {
                        assert(hash_seen(all, i as int, hash));
                        assert(before.contains(hash));
                        let m = choose|m: int| 0 <= m < before.len() && before[m] == hash;
                        assert(after[m] == hash);
                    } else {
                        assert(after.last() == hash);
                    }
                }
                if after.contains(hash) {
                    let m = choose|m: int| 0 <= m < after.len() && after[m] == hash;
                    if m < before.len() {
                        assert(before[m] == hash);
                        assert(before.contains(hash));
                        assert(hash_seen(all, i as int, hash));
                    } else {
                        assert(result_hash(all[i as int].href) == Some(hash));
                    }
                }
            }
        }
        i += 1;
    }
    out
}

/// No two books of a page share a hash, and there are never more than the
/// limit.
pub proof fn law_hashes_are_distinct(links: Seq<html::ResultLinkView>, n: int, limit: nat)
    requires
        n <= links.len(),
    ensures
        gathered(links, n, limit).len() <= limit,
        forall|i: int|
            0 <= i < gathered(links, n, limit).len() ==> hash_seen(
                links,
                n,
                (#[trigger] gathered(links, n, limit)[i]).book.id,
            ),
        forall|i: int, j: int|
            0 <= i < j < gathered(links, n, limit).len() ==> (#[trigger] gathered(
                links,
                n,
                limit,
            )[i]).book.id != (#[trigger] gathered(links, n, limit)[j]).book.id,
    decreases n,
{
    if n > 0 {
        law_hashes_are_distinct(links, n - 1, limit);
        let before = gathered(links, n - 1, limit);
        let now = gathered(links, n, limit);
        assert forall|i: int| 0 <= i < now.len() implies hash_seen(
            links,
            n,
            (#[trigger] now[i]).book.id,
        ) by {
            if i < before.len() {
                assert(now[i] == before[i]);
                let id = before[i].book.id;
                let k = choose|k: int|
                    0 <= k < n - 1 && result_hash((#[trigger] links[k]).href) == Some(id);
                assert(result_hash(links[k].href) == Some(id));
            } else {
                assert(result_hash(links[n - 1].href) == Some(now[i].book.id));
            }
        }
    }
}

// ---- pages --------------------------------------------------------------------------

/// One of the links leads to page `page`.
pub open spec fn links_to(links: Seq<Option<Seq<char>>>, page: int) -> bool {
    exists|i: int|
        0 <= i < links.len() && (#[trigger] links[i]) is Some && match libgen::page_in(
            links[i]->0,
        ) {
            Some(linked) => linked == page,
            None => false,
        }
}

/// The number of pages, as far as page number `page` shows it: an empty page
/// comes after the last one, and a page that links to no next one is the last.
pub open spec fn end_of_pages(
    links: Seq<Option<Seq<char>>>,
    page: usize,
    books_empty: bool,
) -> Option<usize> {
    if books_empty && page > 1 {
        Some((page - 1) as usize)
    } else if links_to(links, page + 1) {
        None
    } else {
        Some(
            if page < 1 {
                1
            } else {
                page
            },
        )
    }
}

/// The number of pages, as far as the links of page number `page` show it.
pub fn pagination_end(links: &Vec<Option<String>>, page: usize, books_empty: bool) -> (r: Option<
    usize,
>)
    ensures
        r == end_of_pages(text::texts_in(links@), page, books_empty),
{
    if books_empty && page > 1 {
        return Some(page - 1);
    }
    let ghost all = text::texts_in(links@);
    let mut i: usize = 0;
    while i < links.len()
        invariant
            i <= links@.len(),
            all == text::texts_in(links@),
            !(books_empty && page > 1),
            forall|k: int|
                0 <= k < i && (#[trigger] all[k]) is Some ==> match libgen::page_in(all[k]->0) {
                    Some(linked) => linked != page + 1,
                    None => true,
                },
        decreases links@.len() - i,
    {
        assert(all[i as int] == text::text_in(links@[i as int]));
        if let Some(href) = &links[i] {
            if let Some(linked) = libgen::page_from_href(href.as_str()) {
                if linked > 0 && linked - 1 == page {
                    assert(links_to(all, page + 1)) by {
                        assert(all[i as int] is Some);
                    }
                    return None;
                }
            }
        }
        i += 1;
    }
    Some(
        if page < 1 {
            1
        } else {
            page
        },
    )
}

/// The browser check is still running, so the page is not the results.
#[derive(Debug, Clone, Copy, PartialEq, Eq)]
pub struct VerificationActive;

impl VerificationActive {
    /// What the user is told.
    pub fn message(&self) -> (r: &'static str)
        ensures
            r@ == "Anna's Archive browser verification is still active"@,
    {
        "Anna's Archive browser verification is still active"
    }
}

/// The page holds no books because the browser check is still running.
pub open spec fn is_blocked(body: Seq<char>, books: nat, limit: nat) -> bool {
    limit > 0 && books == 0 && text::occurs(body, "DDoS-Guard"@)
}

/// One page of results, given what the page holds.
pub fn listing_of(
    body: &str,
    results: &Vec<html::ResultLink>,
    pages: &Vec<Option<String>>,
    limit: usize,
    page: usize,
) -> (r: Result<Listing, VerificationActive>)
    ensures
        ({
            let books = gathered(
                html::results_view(results@),
                results@.len() as int,
                limit as nat,
            );
            match r {
                Ok(listing) => !is_blocked(body@, books.len(), limit as nat)
                    && crate::source::drafts_view(listing.drafts@) == books && listing.total_pages
                    == end_of_pages(text::texts_in(pages@), page, books.len() == 0),
                Err(_) => is_blocked(body@, books.len(), limit as nat),
            }
        }),
{
    let drafts = books_from_results(results, limit);
    proof {
        law_hashes_are_distinct(
            html::results_view(results@),
            results@.len() as int,
            limit as nat,
        );
    }
    let empty = drafts.len() == 0;
    if limit > 0 && empty && text::contains(body, "DDoS-Guard") {
        return Err(VerificationActive);
    }
    Ok(Listing { drafts, total_pages: pagination_end(pages, page, empty) })
}

/// One page of results.
pub fn parse_search(body: &str, limit: usize, page: usize) -> (r: Result<
    Listing,
    VerificationActive,
>)
    requires
        html::is_page(body@),
    ensures
        ({
            let results = html::document_results(
                body@,
                "a.js-vim-focus[href^='/md5/']"@,
                "a[href^='/search?q=']"@,
                "div.text-gray-800"@,
            );
            let pages = html::document_links(
                body@,
                "nav[aria-label='Pagination'] a[href*='page=']"@,
            );
            let books = gathered(results, results.len() as int, limit as nat);
            match r {
                Ok(listing) => !is_blocked(body@, books.len(), limit as nat)
                    && crate::source::drafts_view(listing.drafts@) == books && listing.total_pages
                    == end_of_pages(pages, page, books.len() == 0),
                Err(_) => is_blocked(body@, books.len(), limit as nat),
            }
        }),
{
    proof {
        reveal_strlit("a.js-vim-focus[href^='/md5/']");
        reveal_strlit("a[href^='/search?q=']");
        reveal_strlit("div.text-gray-800");
        reveal_strlit("nav[aria-label='Pagination'] a[href*='page=']");
    }
    let results = html::result_links(
        body,
        "a.js-vim-focus[href^='/md5/']",
        "a[href^='/search?q=']",
        "div.text-gray-800",
    );
    let pages = html::links(body, "nav[aria-label='Pagination'] a[href*='page=']");
    listing_of(body, &results, &pages, limit, page)
}

// ---- waiting for the browser ------------------------------------------------------------

/// What to do about a page that may be the browser check.
#[derive(Debug, Clone, Copy, PartialEq, Eq, Structural)]
pub enum ChallengeStep {
    /// The page is the one that was asked for.
    Ready,
    /// Look again after a second.
    Wait,
    /// The check takes too long.
    TimedOut,
}

/// The title is that of a browser check.
pub open spec fn is_challenge(title: Seq<char>) -> bool {
    text::occurs(title, "DDoS-Guard"@) || text::occurs(title, "Just a moment"@)
}

/// What to do about a page with the title `title` after `elapsed` whole seconds.
pub fn challenge_step(title: &str, elapsed: u64) -> (r: ChallengeStep)
    ensures
        r == (if !is_challenge(title@) {
            ChallengeStep::Ready
        } else if elapsed >= CHALLENGE_SECONDS {
            ChallengeStep::TimedOut
        } else {
            ChallengeStep::Wait
        }),
{
    if !text::contains(title, "DDoS-Guard") && !text::contains(title, "Just a moment") {
        ChallengeStep::Ready
    } else if elapsed >= CHALLENGE_SECONDS {
        ChallengeStep::TimedOut
    } else {
        ChallengeStep::Wait
    }
}

/// A file at the path `path` has the format `format`.
pub open spec fn has_format(path: Seq<char>, format: FormatView) -> bool {
    text::has_suffix(text::lowered(path), "."@ + format.extension())
}

/// The first of the links whose path is that of a file in the format `format`.
pub open spec fn partner_link(
    links: Seq<Option<Seq<char>>>,
    paths: Seq<Option<Seq<char>>>,
    n: int,
    format: FormatView,
) -> Option<Seq<char>>
    decreases n,
{
    if n <= 0 {
        None
    } else {
        match partner_link(links, paths, n - 1, format) {
            Some(href) => Some(href),
            None => match (links[n - 1], paths[n - 1]) {
                (Some(href), Some(path)) => if has_format(path, format) {
                    Some(href)
                } else {
                    None
                },
                _ => None,
            },
        }
    }
}

/// The paths of some links, where they can be told.
pub open spec fn paths_of(links: Seq<Option<Seq<char>>>) -> Seq<Option<Seq<char>>> {
    Seq::new(
        links.len(),
        |i: int|
            match links[i] {
                Some(href) => url::url_path(href),
                None => None,
            },
    )
}

/// The first of the links to a file in the expected format, given their paths.
pub fn first_partner(
    links: &Vec<Option<String>>,
    paths: &Vec<Option<String>>,
    expected_format: &Format,
) -> (r: Option<String>)
    requires
        links@.len() == paths@.len(),
    ensures
        text::text_in(r) == partner_link(
            text::texts_in(links@),
            text::texts_in(paths@),
            links@.len() as int,
            expected_format@,
        ),
{
    let ghost all = text::texts_in(links@);
    let ghost all_paths = text::texts_in(paths@);
    let mut ending = ".".to_owned();
    ending.append(expected_format.extension());
    let mut found: Option<String> = None;
    let mut i: usize = 0;
    while i < links.len()
        invariant
            i <= links@.len(),
            links@.len() == paths@.len(),
            all == text::texts_in(links@),
            all_paths == text::texts_in(paths@),
            ending@ == "."@ + expected_format@.extension(),
            text::text_in(found) == partner_link(all, all_paths, i as int, expected_format@),
        decreases links@.len() - i,
    {
        assert(all[i as int] == text::text_in(links@[i as int]));
        assert(all_paths[i as int] == text::text_in(paths@[i as int]));
        if found.is_none() {
            if let Some(href) = &links[i] {
                if let Some(path) = &paths[i] {
                    if text::ends_with(text::lower(path.as_str()).as_str(), ending.as_str()) {
                        found = Some(href.clone());
                    }
                }
            }
        }
        i += 1;
    }
    found
}

fn tell_paths(links: &Vec<Option<String>>) -> (r: Vec<Option<String>>)
    ensures
        text::texts_in(r@) == paths_of(text::texts_in(links@)),
{
    let ghost expected = paths_of(text::texts_in(links@));
    let mut paths: Vec<Option<String>> = Vec::new();
    let mut i: usize = 0;
    while i < links.len()
        invariant
            i <= links@.len(),
            expected == paths_of(text::texts_in(links@)),
            paths@.len() == i,
            forall|k: int| 0 <= k < i ==> text::text_in(#[trigger] paths@[k]) == expected[k],
        decreases links@.len() - i,
    {
        assert(text::texts_in(links@)[i as int] == text::text_in(links@[i as int]));
        let path = match &links[i] {
            Some(href) => url::path(href.as_str()),
            None => None,
        };
        paths.push(path);
        i += 1;
    }
    assert(text::texts_in(paths@) =~= expected);
    paths
}

/// The first link on the page `body` to a file in the expected format.
pub fn direct_download_url(body: &str, expected_format: &Format) -> (r: Option<String>)
    requires
        html::is_page(body@),
    ensures
        ({
            let links = html::document_links(body@, "a[href^='https://']"@);
            text::text_in(r) == partner_link(
                links,
                paths_of(links),
                links.len() as int,
                expected_format@,
            )
        }),
{
    proof {
        reveal_strlit("a[href^='https://']");
    }
    let links = html::links(body, "a[href^='https://']");
    let paths = tell_paths(&links);
    assert(text::texts_in(paths@).len() == paths@.len());
    first_partner(&links, &paths, expected_format)
}

/// What to do about the page that is to link to a partner.
#[derive(Debug)]
pub enum PartnerStep {
    /// The file is at this address.
    Found(String),
    /// Look again after half a second.
    Wait,
    /// The link takes too long to appear.
    TimedOut,
}

/// What to do, given the link found on the page, after `elapsed` whole seconds.
pub fn partner_step(found: Option<String>, elapsed: u64) -> (r: PartnerStep)
    ensures
        match r {
            PartnerStep::Found(url) => text::text_in(found) == Some(url@),
            PartnerStep::Wait => found is None && elapsed < PARTNER_SECONDS,
            PartnerStep::TimedOut => found is None && elapsed >= PARTNER_SECONDS,
        },
{
    match found {
        Some(url) => PartnerStep::Found(url),
        None => if elapsed >= PARTNER_SECONDS {
            PartnerStep::TimedOut
        } else {
            PartnerStep::Wait
        },
    }
}

/// What is written down when no partner link appeared.
pub fn partner_failure(title: &str, body: &str) -> (r: String)
    ensures
        r@
            == "Anna's Archive did not provide a partner download URL within 25 seconds; page_title="@
            + title@ + "; html="@ + body@,
{
    let mut out =
        "Anna's Archive did not provide a partner download URL within 25 seconds; page_title=".to_owned();
    out.append(title);
    out.append("; html=");
    out.append(body);
    out
}

// ---- the browser ------------------------------------------------------------------

/// A folder that the environment names.
#[derive(Debug, Clone, Copy, PartialEq, Eq, Structural)]
pub enum ProfileBase {
    /// The folder for files that can be made again.
    Cache,
    /// The user's own folder.
    Home,
    /// The folder for temporary files.
    Temporary,
}

/// Where the browser keeps its profile below a folder of the environment.
pub const PROFILE: &'static str = "tui-book-search/annas-chromium";

/// Where the browser keeps its profile below the user's own folder.
pub const PROFILE_BELOW_HOME: &'static str = ".cache/tui-book-search/annas-chromium";

/// Where the browser keeps its profile: below the folder for files that can be
/// made again if the environment names one, else below the user's own folder,
/// else among temporary files.
pub fn browser_profile_dir(has_cache: bool, has_home: bool) -> (r: (ProfileBase, &'static str))
    ensures
        r.0 == (if has_cache {
            ProfileBase::Cache
        } else if has_home {
            ProfileBase::Home
        } else {
            ProfileBase::Temporary
        }),
        r.1@ == (if !has_cache && has_home {
            PROFILE_BELOW_HOME@
        } else {
            PROFILE@
        }),
{
    if has_cache {
        (ProfileBase::Cache, PROFILE)
    } else if has_home {
        (ProfileBase::Home, PROFILE_BELOW_HOME)
    } else {
        (ProfileBase::Temporary, PROFILE)
    }
}

/// The process that holds a profile, as the name in its lock gives it: the
/// number after the last dash.
pub open spec fn holder_of(lock: Seq<char>) -> Option<usize> {
    number::size_value(words::pieces(lock, seq!['-']).last())
}

/// The process that holds a profile, if the name in its lock gives one.
pub fn lock_holder(lock: &str) -> (r: Option<usize>)
    ensures
        r == holder_of(lock@),
{
    let dashes: [char; 1] = ['-'];
    assert(dashes@ =~= seq!['-']);
    let last = words::last_piece(lock, &dashes);
    number::parse_size(last.as_str())
}

/// A profile's lock may be taken away: nothing answers on the browser's socket,
/// and the process that holds the lock is gone.
pub fn may_clear_lock(answers: bool, held: bool) -> (r: bool)
    ensures
        r == (!answers && !held),
{
    !answers && !held
}

/// The name under which the browser introduces itself.
pub fn browser_name(user_agent: &str) -> (r: String)
    ensures
        r@ == text::exchanged(user_agent@, "HeadlessChrome/"@, "Chrome/"@),
{
    proof {
        reveal_strlit("HeadlessChrome/");
    }
    text::exchange(user_agent, "HeadlessChrome/", "Chrome/")
}

// ---- laws -------------------------------------------------------------------------

/// A search asks for the query and the page.
pub proof fn law_search_url(query: &str, page: usize, r: Option<String>)
    requires
        call_ensures(search_url, (query, page), r),
    ensures
        text::text_in(r) == url::url_with_query(
            "https://annas-archive.gl/search"@,
            ("q"@, query@),
            ("page"@, number::decimal(if page == 0 {
                1
            } else {
                page as nat
            })),
        ),
{
    reveal_strlit("https://annas-archive.gl");
    reveal_strlit("/search");
    reveal_strlit("https://annas-archive.gl/search");
    assert(BASE_URL@ + "/search"@ =~= "https://annas-archive.gl/search"@);
}

/// A link to a result is `/md5/` and 32 hexadecimal digits, of which the letters
/// are small ones in the hash.
pub proof fn law_result_hash(href: Seq<char>, hash: Seq<char>)
    ensures
        href == "/md5/"@ + hash ==> result_hash(Some(href)) == (if hash.len() == 32
            && text::all_hex(hash) {
            Some(text::lowered(hash))
        } else {
            None
        }),
        !text::has_prefix(href, "/md5/"@) ==> result_hash(Some(href)) is None,
        result_hash(None) is None,
        result_hash(Some(href)) matches Some(found) ==> found.len() == 32 && text::all_hex(found)
            && text::lowered(found) == found,
{
    reveal_strlit("/md5/");
    if href == "/md5/"@ + hash {
        assert(href.subrange(0, 5) =~= "/md5/"@);
        assert(href.subrange(5, href.len() as int) =~= hash);
    }
    if let Some(found) = result_hash(Some(href)) {
        assert(text::lowered(found) =~= found);
    }
}

/// A size ends in its unit, in any letter case: `gb`, `mb`, `kb` or `b`, each a
/// thousand of the next. What stands before the unit are the digits, with a
/// decimal point for a comma.
pub proof fn law_units_scale_by_a_thousand(value: &str, r: Option<Amount>)
    requires
        call_ensures(parse_size, (value,), r),
    ensures
        ({
            let size = text::trimmed(value@);
            let n = size.len() as int;
            let bytes = n >= 1 && (size[n - 1] == 'b' || size[n - 1] == 'B');
            let k = n >= 2 && (size[n - 2] == 'k' || size[n - 2] == 'K');
            let m = n >= 2 && (size[n - 2] == 'm' || size[n - 2] == 'M');
            let g = n >= 2 && (size[n - 2] == 'g' || size[n - 2] == 'G');
            let number = |length: int|
                text::replaced(
                    text::trimmed(text::lowered(size).take(length)),
                    seq![','],
                    '.',
                );
            &&& !bytes ==> r is None
            &&& bytes && k ==> r is Some && r->0.multiplier == 1000 && r->0.digits@ == number(
                n - 2,
            )
            &&& bytes && m ==> r is Some && r->0.multiplier == 1000 * 1000 && r->0.digits@
                == number(n - 2)
            &&& bytes && g ==> r is Some && r->0.multiplier == 1000 * 1000 * 1000 && r->0.digits@
                == number(n - 2)
            &&& bytes && !k && !m && !g ==> r is Some && r->0.multiplier == 1 && r->0.digits@
                == number(n - 1)
        }),
{
    let size = text::trimmed(value@);
    let low = text::lowered(size);
    let n = size.len() as int;
    reveal_strlit("b");
    reveal_strlit("kb");
    reveal_strlit("mb");
    reveal_strlit("gb");
    assert forall|i: int| 0 <= i < n implies {
        &&& (#[trigger] low[i] == 'b' <==> size[i] == 'b' || size[i] == 'B')
        &&& (low[i] == 'k' <==> size[i] == 'k' || size[i] == 'K')
        &&& (low[i] == 'm' <==> size[i] == 'm' || size[i] == 'M')
        &&& (low[i] == 'g' <==> size[i] == 'g' || size[i] == 'G')
    } by {
        assert(low[i] == text::lower_char(size[i]));
    }
    if n >= 1 {
        let tail = low.subrange(n - 1, n);
        assert(tail =~= "b"@ <==> low[n - 1] == 'b') by {
            assert(tail[0] == low[n - 1]);
            assert("b"@[0] == 'b');
        }
        assert(low.subrange(0, n - 1) =~= low.take(n - 1));
    }
    if n >= 2 {
        let tail = low.subrange(n - 2, n);
        assert(tail[0] == low[n - 2] && tail[1] == low[n - 1]);
        assert("kb"@[0] == 'k' && "kb"@[1] == 'b');
        assert("mb"@[0] == 'm' && "mb"@[1] == 'b');
        assert("gb"@[0] == 'g' && "gb"@[1] == 'b');
        assert(tail =~= "kb"@ <==> low[n - 2] == 'k' && low[n - 1] == 'b');
        assert(tail =~= "mb"@ <==> low[n - 2] == 'm' && low[n - 1] == 'b');
        assert(tail =~= "gb"@ <==> low[n - 2] == 'g' && low[n - 1] == 'b');
        assert(low.subrange(0, n - 2) =~= low.take(n - 2));
    }
}

/// A metadata line is divided by dots in the middle of the line: the language
/// comes first, the format second, the size third. Without a format there is
/// nothing to download.
pub proof fn law_metadata_line(
    value: &str,
    r: Option<Metadata>,
    language: Seq<char>,
    format: Seq<char>,
    size: Seq<char>,
    rest: Seq<char>,
)
    requires
        call_ensures(parse_metadata, (value,), r),
        !language.contains('·'),
        !format.contains('·'),
        !size.contains('·'),
        rest.len() > 0 ==> rest[0] == '·',
    ensures
        value@ == language ==> r is None,
        value@ == language + seq!['·'] + format ==> {
            &&& r is Some <==> libgen::format_of(text::trimmed(format)) is Some
            &&& r is Some ==> Some(r->0.format@) == libgen::format_of(text::trimmed(format))
            &&& r is Some ==> text::text_in(r->0.language) == language_of(language)
            &&& r is Some ==> r->0.amount is None
        },
        value@ == language + seq!['·'] + (format + seq!['·'] + (size + rest)) ==> {
            &&& r is Some <==> libgen::format_of(text::trimmed(format)) is Some
            &&& r is Some ==> Some(r->0.format@) == libgen::format_of(text::trimmed(format))
            &&& r is Some ==> text::text_in(r->0.language) == language_of(language)
            &&& r is Some ==> crate::source::amount_in(r->0.amount) == amount_of(
                text::trimmed(size),
            )
        },
{
    let stops = seq!['·'];
    assert(stops[0] == '·');
    assert forall|i: int| 0 <= i < language.len() implies !stops.contains(
        #[trigger] language[i],
    ) by {
        assert(language.contains(language[i]));
    }
    assert forall|i: int| 0 <= i < format.len() implies !stops.contains(#[trigger] format[i]) by {
        assert(format.contains(format[i]));
    }
    assert forall|i: int| 0 <= i < size.len() implies !stops.contains(#[trigger] size[i]) by {
        assert(size.contains(size[i]));
    }
    words::law_one_piece(language, stops);
    words::law_one_piece(format, stops);
    words::law_one_piece(size, stops);
    words::law_stops_divide(language, '·', format, stops);
    words::law_stops_divide(language, '·', format + seq!['·'] + (size + rest), stops);
    words::law_stops_divide(format, '·', size + rest, stops);
    words::law_first_piece(size, rest, stops);
    words::law_pieces_lie_between_stops(size + rest, stops);
    let whole = words::pieces(value@, stops);
    if value@ == language + seq!['·'] + (format + seq!['·'] + (size + rest)) {
        assert(whole == seq![language] + (seq![format] + words::pieces(size + rest, stops)));
        assert(whole[0] == language && whole[1] == format && whole[2] == size);
    }
    if value@ == language + seq!['·'] + format {
        assert(whole == seq![language] + seq![format]);
        assert(whole[0] == language && whole[1] == format && whole.len() == 2);
    }
}

/// The language is what stands before the code in brackets; one that is empty
/// is none.
pub proof fn law_language(name: Seq<char>, code: Seq<char>)
    requires
        name.len() > 0,
        code.len() > 0,
        !text::is_space(name.first()),
        !text::is_space(name.last()),
        !text::is_space(code.last()),
        !name.contains('['),
    ensures
        language_of(name + " ["@ + code) == Some(name),
        language_of(name) == Some(name),
        language_of(Seq::empty()) is None,
{
    reveal_strlit(" [");
    let part = name + " ["@ + code;
    assert(part.first() == name.first() && part.last() == code.last());
    assert(text::trimmed(part) == part);
    assert(text::trimmed(name) == name);
    text::lemma_find(part, " ["@, 0);
    text::lemma_find(name, " ["@, 0);
    assert(part.subrange(name.len() as int, name.len() as int + 2) =~= " ["@);
    assert(text::occurs_at(part, " ["@, name.len() as int));
    let i = text::find(part, " ["@, 0)->0;
    if i < name.len() {
        assert(part.subrange(i, i + 2)[1] == part[i + 1]);
        assert(part[i + 1] == '[');
        if i + 1 < name.len() {
            assert(name.contains(name[i + 1]));
        } else {
            assert(part[i + 1] == " ["@[0]);
        }
    }
    assert(part.subrange(0, i) =~= name);
    if let Some(k) = text::find(name, " ["@, 0) {
        assert(name.subrange(k, k + 2)[1] == name[k + 1]);
        assert(name.contains(name[k + 1]));
    }
    let none = Seq::<char>::empty();
    assert(text::trimmed(none) =~= none);
    text::lemma_find(none, " ["@, 0);
    assert(text::before_first(none, " ["@) =~= none);
}

/// The box around a result is a division of the page with the class `border-b`.
pub open spec fn is_box(node: Option<html::AncestorView>) -> bool {
    node matches Some(element) && element.tag == seq!['d', 'i', 'v'] && (
    element.class matches Some(class) && exists|w: int|
        0 <= w < words::words(class).len() && #[trigger] words::words(class)[w] == "border-b"@)
}

proof fn lemma_is_box(node: Option<html::AncestorView>)
    ensures
        is_box(node) == is_container(node),
{
    reveal_strlit("div");
    assert("div"@ =~= seq!['d', 'i', 'v']);
    if is_container(node) {
        let list = words::words(node->0.class->0);
        let w = choose|w: int| 0 <= w < list.len() && list[w] == "border-b"@;
        assert(list[w] == "border-b"@);
    }
    if is_box(node) {
        let list = words::words(node->0.class->0);
        let w = choose|w: int| 0 <= w < list.len() && #[trigger] list[w] == "border-b"@;
        assert(list.contains("border-b"@));
    }
}

proof fn lemma_closest_box(around: Seq<Option<html::AncestorView>>, from: int, place: int)
    requires
        0 <= from <= place < around.len(),
        is_container(around[place]),
        forall|j: int| from <= j < place ==> !is_container(#[trigger] around[j]),
    ensures
        container_place(around, from) == Some(place),
    decreases place - from,
{
    if from < place {
        lemma_closest_box(around, from + 1, place);
    }
}

proof fn lemma_no_box(around: Seq<Option<html::AncestorView>>, from: int)
    requires
        0 <= from,
        forall|j: int| from <= j < around.len() ==> !is_container(#[trigger] around[j]),
    ensures
        container_place(around, from) is None,
    decreases around.len() - from,
{
    if from < around.len() {
        lemma_no_box(around, from + 1);
    }
}

/// What a result tells of its book is read from the closest box around it: the
/// authors are the text of the first author link in that box, whatever links
/// follow it, and the rest is what the first metadata line in it says. The
/// title is the text of the result itself.
pub proof fn law_book_of_a_result(
    link: &html::ResultLink,
    hash: String,
    r: Option<Draft>,
    place: int,
    line: &str,
    metadata: Option<Metadata>,
)
    requires
        call_ensures(book_from_result, (link, hash), r),
        0 <= place < link.around@.len(),
        is_box(link@.around[place]),
        forall|j: int| 0 <= j < place ==> !is_box(#[trigger] link@.around[j]),
        link.around@[place]->0.metadata@.len() > 0 ==> line@ == words::squeezed(
            link.around@[place]->0.metadata@[0]@,
        ),
        call_ensures(parse_metadata, (line,), metadata),
    ensures
        ({
            let element = link.around@[place]->0;
            &&& r is Some <==> element.metadata@.len() > 0 && metadata is Some
            &&& r is Some ==> {
                let book = r->0.book;
                &&& element.authors@.len() == 0 ==> book.authors@.len() == 0
                &&& element.authors@.len() > 0 && words::squeezed(element.authors@[0]@).len() == 0
                    ==> book.authors@.len() == 0
                &&& element.authors@.len() > 0 && words::squeezed(element.authors@[0]@).len() > 0
                    ==> book.authors@.len() == 1 && book.authors@[0]@ == words::squeezed(
                    element.authors@[0]@,
                )
                &&& book.title@ == words::squeezed(link.text@)
                &&& book.id@ == hash@
                &&& book.source@ == "annas-archive"@
                &&& text::text_in(book.language) == text::text_in(metadata->0.language)
                &&& crate::source::amount_in(r->0.amount) == crate::source::amount_in(
                    metadata->0.amount,
                )
                &&& book.downloads@.len() == 1
                &&& book.downloads@[0].format@ == metadata->0.format@
                &&& book.downloads@[0].url@ == "https://annas-archive.gl/slow_download/"@ + hash@
                    + "/0/0"@
                &&& book.downloads@[0].size is None
            }
        }),
{
    let around = link@.around;
    assert forall|j: int| 0 <= j <= place implies is_container(#[trigger] around[j]) == is_box(
        around[j],
    ) by {
        lemma_is_box(around[j]);
    }
    lemma_closest_box(around, 0, place);
    let element = link.around@[place]->0;
    assert(around[place] == html::ancestor_in(link.around@[place]));
    assert(around[place]->0 == element@);
    assert(text::texts(element.metadata@).len() == element.metadata@.len());
    assert(text::texts(element.authors@).len() == element.authors@.len());
    if element.metadata@.len() > 0 {
        assert(text::texts(element.metadata@)[0] == element.metadata@[0]@);
    }
    if element.authors@.len() > 0 {
        assert(text::texts(element.authors@)[0] == element.authors@[0]@);
    }
    if r is Some {
        let book = r->0.book;
        assert(r->0@.book == book@);
        assert(text::texts(book.authors@).len() == book.authors@.len());
        if book.authors@.len() > 0 {
            assert(text::texts(book.authors@)[0] == book.authors@[0]@);
        }
        assert(book@.downloads.len() == book.downloads@.len());
        assert(book@.downloads[0] == book.downloads@[0]@);
        reveal_strlit("https://annas-archive.gl");
        reveal_strlit("/slow_download/");
        reveal_strlit("https://annas-archive.gl/slow_download/");
        assert(BASE_URL@ + "/slow_download/"@ =~= "https://annas-archive.gl/slow_download/"@);
    }
}

/// A result outside of any box tells of no book.
pub proof fn law_results_are_in_boxes(link: &html::ResultLink, hash: String, r: Option<Draft>)
    requires
        call_ensures(book_from_result, (link, hash), r),
        forall|j: int| 0 <= j < link.around@.len() ==> !is_box(#[trigger] link@.around[j]),
    ensures
        r is None,
{
    let around = link@.around;
    assert forall|j: int| 0 <= j < around.len() implies !is_container(#[trigger] around[j]) by {
        lemma_is_box(around[j]);
    }
    lemma_no_box(around, 0);
}

/// Every book of a page is that of a link, the first one with its hash; and the
/// books stand in the order of the links.
pub proof fn law_results_keep_their_order(
    links: Seq<html::ResultLinkView>,
    n: int,
    limit: nat,
    i: int,
)
    requires
        0 <= n <= links.len(),
        0 <= i < gathered(links, n, limit).len(),
    ensures
        exists|k: int|
            0 <= k < n && result_hash((#[trigger] links[k]).href) is Some && result_draft(
                links[k],
                result_hash(links[k].href)->0,
            ) == Some(gathered(links, n, limit)[i]) && gathered(links, k, limit).len() == i
                && forall|j: int|
                0 <= j < k ==> result_hash((#[trigger] links[j]).href) != result_hash(
                    links[k].href,
                ),
    decreases n,
{
    let before = gathered(links, n - 1, limit);
    let now = gathered(links, n, limit);
    if i < before.len() {
        law_results_keep_their_order(links, n - 1, limit, i);
        assert(now[i] == before[i]);
    } else {
        let hash = result_hash(links[n - 1].href)->0;
        assert(!hash_seen(links, n - 1, hash));
        assert(result_draft(links[n - 1], hash) == Some(now[i]));
    }
}

/// As long as the page is not full, every first link to a hash that tells of a
/// book is listed.
pub proof fn law_results_are_listed(links: Seq<html::ResultLinkView>, n: int, limit: nat, k: int)
    requires
        0 <= k < n <= links.len(),
        gathered(links, n, limit).len() < limit,
        result_hash(links[k].href) is Some,
        forall|j: int|
            0 <= j < k ==> result_hash((#[trigger] links[j]).href) != result_hash(links[k].href),
        result_draft(links[k], result_hash(links[k].href)->0) is Some,
    ensures
        gathered(links, n, limit).contains(
            result_draft(links[k], result_hash(links[k].href)->0)->0,
        ),
    decreases n,
{
    let before = gathered(links, n - 1, limit);
    let now = gathered(links, n, limit);
    let draft = result_draft(links[k], result_hash(links[k].href)->0)->0;
    if k < n - 1 {
        law_results_are_listed(links, n - 1, limit, k);
        let i = choose|i: int| 0 <= i < before.len() && before[i] == draft;
        assert(now[i] == draft);
    } else {
        assert(now[before.len() as int] == draft);
    }
}

/// An empty page past the first one comes after the last; a page with a link to
/// the next one is not the last; any other page is the last.
pub proof fn law_pagination_end(
    links: &Vec<Option<String>>,
    page: usize,
    books_empty: bool,
    r: Option<usize>,
)
    requires
        call_ensures(pagination_end, (links, page, books_empty), r),
    ensures
        ({
            let next = exists|i: int|
                0 <= i < links@.len() && (#[trigger] links@[i]) is Some && (libgen::page_in(
                    links@[i]->0@,
                ) matches Some(linked) && linked == page + 1);
            &&& books_empty && page > 1 ==> r == Some((page - 1) as usize)
            &&& !(books_empty && page > 1) && next ==> r is None
            &&& !(books_empty && page > 1) && !next && page > 0 ==> r == Some(page)
            &&& !next && page == 0 ==> r == Some(1usize)
        }),
{
    let all = text::texts_in(links@);
    assert forall|i: int| 0 <= i < links@.len() implies #[trigger] all[i] == text::text_in(
        links@[i],
    ) by {}
    if links_to(all, page + 1) {
        let i = choose|i: int|
            0 <= i < all.len() && (#[trigger] all[i]) is Some && match libgen::page_in(all[i]->0) {
                Some(linked) => linked == page + 1,
                None => false,
            };
        assert(links@[i] is Some);
    }
    if exists|i: int|
        0 <= i < links@.len() && (#[trigger] links@[i]) is Some && (libgen::page_in(
            links@[i]->0@,
        ) matches Some(linked) && linked == page + 1) {
        let i = choose|i: int|
            0 <= i < links@.len() && (#[trigger] links@[i]) is Some && (libgen::page_in(
                links@[i]->0@,
            ) matches Some(linked) && linked == page + 1);
        assert(all[i] is Some);
    }
}

/// A page without books that speaks of the guard is no page of results; any
/// other page is.
pub proof fn law_blocked_pages(
    body: &str,
    results: &Vec<html::ResultLink>,
    pages: &Vec<Option<String>>,
    limit: usize,
    page: usize,
    r: Result<Listing, VerificationActive>,
)
    requires
        call_ensures(listing_of, (body, results, pages, limit, page), r),
    ensures
        limit == 0 ==> r is Ok,
        gathered(html::results_view(results@), results@.len() as int, limit as nat).len() > 0
            ==> r is Ok,
        r is Err ==> text::occurs(body@, "DDoS-Guard"@),
        !text::occurs(body@, "DDoS-Guard"@) ==> r is Ok,
        limit > 0 && results@.len() == 0 && text::occurs(body@, "DDoS-Guard"@) ==> r is Err,
        limit > 0 && r is Ok && text::occurs(body@, "DDoS-Guard"@) ==> r->Ok_0.drafts@.len() > 0,
        r is Ok ==> r->Ok_0.drafts@.len() <= limit,
{
    let all = html::results_view(results@);
    law_hashes_are_distinct(all, results@.len() as int, limit as nat);
    if r is Ok {
        assert(crate::source::drafts_view(r->Ok_0.drafts@).len() == r->Ok_0.drafts@.len());
    }
}

/// What is read of a page of results: the links to results, the author links and
/// the metadata lines around them, and the links of the pager.
pub proof fn law_page_of_results(
    body: &str,
    limit: usize,
    page: usize,
    r: Result<Listing, VerificationActive>,
)
    requires
        call_ensures(parse_search, (body, limit, page), r),
        r is Ok,
    ensures
        ({
            let results = html::document_results(
                body@,
                "a.js-vim-focus[href^='/md5/']"@,
                "a[href^='/search?q=']"@,
                "div.text-gray-800"@,
            );
            let books = gathered(results, results.len() as int, limit as nat);
            let pages = html::document_links(
                body@,
                "nav[aria-label='Pagination'] a[href*='page=']"@,
            );
            &&& crate::source::drafts_view(r->Ok_0.drafts@) == books
            &&& r->Ok_0.total_pages == end_of_pages(pages, page, books.len() == 0)
        }),
{
}

/// A browser check is waited for up to 35 seconds; a page with another title is
/// ready at once.
pub proof fn law_challenges_are_waited_for(title: &str, elapsed: u64, r: ChallengeStep)
    requires
        call_ensures(challenge_step, (title, elapsed), r),
    ensures
        ({
            let check = text::occurs(title@, "DDoS-Guard"@) || text::occurs(
                title@,
                "Just a moment"@,
            );
            &&& !check <==> r == ChallengeStep::Ready
            &&& check && elapsed < 35 <==> r == ChallengeStep::Wait
            &&& check && elapsed >= 35 <==> r == ChallengeStep::TimedOut
        }),
{
}

/// A partner link is waited for up to 25 seconds.
pub proof fn law_partners_are_waited_for(found: Option<String>, elapsed: u64, r: PartnerStep)
    requires
        call_ensures(partner_step, (found, elapsed), r),
    ensures
        found is Some ==> (r matches PartnerStep::Found(url) && url@ == found->0@),
        found is None && elapsed < 25 ==> r is Wait,
        found is None && elapsed >= 25 ==> r is TimedOut,
{
}

/// The first link whose path ends in a dot and the extension of the format, in
/// any letter case, is the one to the file.
pub proof fn law_partner_link(
    links: &Vec<Option<String>>,
    paths: &Vec<Option<String>>,
    format: &Format,
    r: Option<String>,
    k: int,
)
    requires
        call_ensures(first_partner, (links, paths, format), r),
        links@.len() == paths@.len(),
        0 <= k < links@.len(),
        links@[k] is Some,
        paths@[k] is Some,
        text::has_suffix(text::lowered(paths@[k]->0@), seq!['.'] + format@.extension()),
        forall|j: int|
            0 <= j < k ==> ((#[trigger] links@[j]) is Some && paths@[j] is Some
                ==> !text::has_suffix(
                text::lowered(paths@[j]->0@),
                seq!['.'] + format@.extension(),
            )),
    ensures
        r is Some,
        r->0@ == links@[k]->0@,
{
    reveal_strlit(".");
    assert("."@ =~= seq!['.']);
    let all = text::texts_in(links@);
    let all_paths = text::texts_in(paths@);
    assert forall|j: int| 0 <= j <= k implies #[trigger] all[j] == text::text_in(links@[j])
        && all_paths[j] == text::text_in(paths@[j]) by {}
    lemma_partner(all, all_paths, k, format@);
    lemma_partner_stays(all, all_paths, links@.len() as int, k + 1, format@);
}

proof fn lemma_partner(
    links: Seq<Option<Seq<char>>>,
    paths: Seq<Option<Seq<char>>>,
    n: int,
    format: FormatView,
)
    requires
        forall|j: int|
            0 <= j < n ==> ((#[trigger] links[j]) is Some && paths[j] is Some ==> !has_format(
                paths[j]->0,
                format,
            )),
    ensures
        partner_link(links, paths, n, format) is None,
    decreases n,
{
    if n > 0 {
        lemma_partner(links, paths, n - 1, format);
        assert(links[n - 1] is Some && paths[n - 1] is Some ==> !has_format(
            paths[n - 1]->0,
            format,
        ));
    }
}

proof fn lemma_partner_stays(
    links: Seq<Option<Seq<char>>>,
    paths: Seq<Option<Seq<char>>>,
    n: int,
    m: int,
    format: FormatView,
)
    requires
        0 <= m <= n,
        partner_link(links, paths, m, format) is Some,
    ensures
        partner_link(links, paths, n, format) == partner_link(links, paths, m, format),
    decreases n - m,
{
    if m < n {
        lemma_partner_stays(links, paths, n - 1, m, format);
    }
}

/// A link whose path ends otherwise is no link to the file.
pub proof fn law_partner_has_the_format(
    links: &Vec<Option<String>>,
    paths: &Vec<Option<String>>,
    format: &Format,
    r: Option<String>,
)
    requires
        call_ensures(first_partner, (links, paths, format), r),
        links@.len() == paths@.len(),
        r is Some,
    ensures
        exists|k: int|
            0 <= k < links@.len() && (#[trigger] links@[k]) is Some && links@[k]->0@ == r->0@
                && paths@[k] is Some && text::has_suffix(
                text::lowered(paths@[k]->0@),
                seq!['.'] + format@.extension(),
            ),
{
    reveal_strlit(".");
    assert("."@ =~= seq!['.']);
    let all = text::texts_in(links@);
    let all_paths = text::texts_in(paths@);
    lemma_partner_found(all, all_paths, links@.len() as int, format@);
    let k = choose|k: int|
        0 <= k < links@.len() && #[trigger] all[k] == partner_link(
            all,
            all_paths,
            links@.len() as int,
            format@,
        ) && all_paths[k] is Some && has_format(all_paths[k]->0, format@);
    assert(all[k] == text::text_in(links@[k]));
    assert(all_paths[k] == text::text_in(paths@[k]));
}

proof fn lemma_partner_found(
    links: Seq<Option<Seq<char>>>,
    paths: Seq<Option<Seq<char>>>,
    n: int,
    format: FormatView,
)
    requires
        partner_link(links, paths, n, format) is Some,
    ensures
        exists|k: int|
            0 <= k < n && #[trigger] links[k] == partner_link(links, paths, n, format)
                && paths[k] is Some && has_format(paths[k]->0, format),
    decreases n,
{
    if partner_link(links, paths, n - 1, format) is Some {
        lemma_partner_found(links, paths, n - 1, format);
    } else {
        assert(links[n - 1] == partner_link(links, paths, n, format));
    }
}

/// The file is looked for among all secure links of the page.
pub proof fn law_partner_of_a_page(body: &str, format: &Format, r: Option<String>)
    requires
        call_ensures(direct_download_url, (body, format), r),
    ensures
        ({
            let links = html::document_links(body@, "a[href^='https://']"@);
            text::text_in(r) == partner_link(links, paths_of(links), links.len() as int, format@)
        }),
{
}

/// The path of a link is that of its address.
pub proof fn law_paths_of_links(links: Seq<Option<Seq<char>>>, i: int)
    requires
        0 <= i < links.len(),
    ensures
        paths_of(links).len() == links.len(),
        links[i] is Some ==> paths_of(links)[i] == url::url_path(links[i]->0),
        links[i] is None ==> paths_of(links)[i] is None,
{
}

/// What is written down when no partner link appeared, and what the user is told
/// while the check is running.
pub proof fn law_failures_are_told(
    title: &str,
    body: &str,
    r: String,
    check: &VerificationActive,
    told: &'static str,
)
    requires
        call_ensures(partner_failure, (title, body), r),
        call_ensures(VerificationActive::message, (check,), told),
    ensures
        r@
            == "Anna's Archive did not provide a partner download URL within 25 seconds; page_title="@
            + title@ + "; html="@ + body@,
        told@ == "Anna's Archive browser verification is still active"@,
{
}

/// The browser's profile goes below the folder for files that can be made again,
/// else below the user's own folder, else among temporary files.
pub proof fn law_browser_profile(
    has_cache: bool,
    has_home: bool,
    r: (ProfileBase, &'static str),
)
    requires
        call_ensures(browser_profile_dir, (has_cache, has_home), r),
    ensures
        has_cache ==> r.0 == ProfileBase::Cache && r.1@ == "tui-book-search/annas-chromium"@,
        !has_cache && has_home ==> r.0 == ProfileBase::Home && r.1@
            == ".cache/tui-book-search/annas-chromium"@,
        !has_cache && !has_home ==> r.0 == ProfileBase::Temporary && r.1@
            == "tui-book-search/annas-chromium"@,
{
}

/// The lock of a profile names the machine and, behind the last dash, the process
/// that holds it.
pub proof fn law_lock_holder(lock: &str, r: Option<usize>, machine: Seq<char>, process: nat)
    requires
        call_ensures(lock_holder, (lock,), r),
        process <= usize::MAX,
    ensures
        lock@ == machine + seq!['-'] + number::decimal(process) ==> r == Some(process as usize),
{
    let stops = seq!['-'];
    assert(stops[0] == '-');
    let digits = number::decimal(process);
    number::law_decimal_is_read_back(process);
    number::law_decimal_has_digits_only(process);
    assert forall|i: int| 0 <= i < digits.len() implies !stops.contains(#[trigger] digits[i]) by {}
    words::law_one_piece(digits, stops);
    words::law_stops_divide(machine, '-', digits, stops);
}

/// A lock is taken away only where nothing answers and nobody holds it; and the
/// browser does not say that it has no window.
pub proof fn law_browser_housekeeping(
    answers: bool,
    held: bool,
    r: bool,
    user_agent: &str,
    name: String,
)
    requires
        call_ensures(may_clear_lock, (answers, held), r),
        call_ensures(browser_name, (user_agent,), name),
    ensures
        answers || held ==> !r,
        !answers && !held ==> r,
        name@ == text::exchanged(user_agent@, "HeadlessChrome/"@, "Chrome/"@),
{
}

} // verus!
