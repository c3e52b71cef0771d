//! Library Genesis search backed by its HTML results table.

use vstd::prelude::*;
use vstd::utf8::*;

use crate::html;
use crate::number;
use crate::source::http;
use crate::source::{Amount, AmountView, Book, BookView, Download, DownloadView, Draft, DraftView};
use crate::source::{Format, FormatView, Listing, Request, RequestView, Source};
use crate::text;
use crate::url;
use crate::words;

verus! {

broadcast use {
    crate::text::lemma_texts_push,
    crate::source::lemma_downloads_push,
    crate::source::lemma_drafts_push,
};

/// The catalog's search page.
pub const SEARCH_URL: &'static str = "https://libgen.li/";

/// The address of a file, without its hash.
pub const DOWNLOAD_URL: &'static str = "https://libgen.li/get.php?md5=";

/// How many times a file is asked for.
pub const MAX_DOWNLOAD_ATTEMPTS: u64 = 5;

/// The Library Genesis catalog.
#[derive(Debug)]
pub struct Libgen;

impl Default for Libgen {
    fn default() -> (r: Libgen)
        ensures
            r == Libgen,
    {
        Libgen
    }
}

impl Source for Libgen {
    open spec fn tag(&self) -> Seq<char> {
        "libgen"@
    }

    fn name(&self) -> (r: &'static str) {
        "libgen"
    }
}

/// The search for `query`, as the catalog understands it.
pub fn search_request(query: &str, page: usize) -> (r: Request)
    ensures
        r@ == (RequestView {
            url: SEARCH_URL@,
            params: seq![
                ("req"@, query@),
                ("page"@, number::decimal(crate::source::page_number(page))),
            ],
        }),
{
    let mut params: Vec<(&'static str, String)> = Vec::new();
    params.push(("req", query.to_owned()));
    params.push(("page", crate::source::page_text(page)));
    let r = Request { url: SEARCH_URL, params };
    assert(r@.params =~= seq![
        ("req"@, query@),
        ("page"@, number::decimal(crate::source::page_number(page))),
    ]);
    r
}

// ---- the fields of a row ------------------------------------------------------

/// The hash in a link to a file: what stands between `/md5/` and the next
/// delimiter, if it is a hash at all, in small letters.
pub open spec fn hash_in(href: Seq<char>) -> Option<Seq<char>> {
    match text::after_first(href, "/md5/"@) {
        Some(tail) => {
            let hash = words::pieces(tail, seq!['/', '?', '#']).first();
            if hash.len() == 32 && text::all_hex(hash) {
                Some(text::lowered(hash))
            } else {
                None
            }
        },
        None => None,
    }
}

/// The hash in a link to a file, if there is one.
pub fn md5_from_href(href: &str) -> (r: Option<String>)
    ensures
        text::text_in(r) == hash_in(href@),
{
    match text::tail_after(href, "/md5/") {
        Some(tail) => {
            let stops: [char; 3] = ['/', '?', '#'];
            assert(stops@ =~= seq!['/', '?', '#']);
            let hash = words::first_piece(tail.as_str(), &stops);
            if text::hex_digits(hash.as_str(), 32) {
                Some(text::lower(hash.as_str()))
            } else {
                None
            }
        },
        None => None,
    }
}

/// The ebook format that an extension stands for, in any letter case.
pub open spec fn format_of(extension: Seq<char>) -> Option<FormatView> {
    FormatView::of_extension(text::lowered(text::trimmed(extension)))
}

/// The ebook format that an extension stands for, in any letter case.
pub fn format_from_extension(extension: &str) -> (r: Option<Format>)
    ensures
        crate::source::format_in(r) == format_of(extension@),
{
    let trimmed = text::trim(extension);
    let lower = text::lower(trimmed.as_str());
    Format::from_extension(lower.as_str())
}

/// What a unit of size multiplies by.
pub open spec fn unit_value(unit: Seq<char>) -> Option<u64> {
    if unit == "b"@ {
        Some(1)
    } else if unit == "kb"@ {
        Some(1_000)
    } else if unit == "mb"@ {
        Some(1_000_000)
    } else if unit == "gb"@ {
        Some(1_000_000_000)
    } else {
        None
    }
}

/// What a unit of size multiplies by.
pub fn multiplier_of(unit: &str) -> (r: Option<u64>)
    ensures
        r == unit_value(unit@),
{
    if text::same(unit, "b") {
        Some(1)
    } else if text::same(unit, "kb") {
        Some(1_000)
    } else if text::same(unit, "mb") {
        Some(1_000_000)
    } else if text::same(unit, "gb") {
        Some(1_000_000_000)
    } else {
        None
    }
}

/// The amount in a size such as `2,5 MB`: the first word with a decimal point
/// for a comma, times the unit that the second word names.
pub open spec fn amount_of(value: Seq<char>) -> Option<AmountView> {
    let parts = words::words(value);
    if parts.len() < 2 {
        None
    } else {
        match unit_value(text::lowered(parts[1])) {
            Some(multiplier) => Some(
                AmountView { digits: text::replaced(parts[0], seq![','], '.'), multiplier },
            ),
            None => None,
        }
    }
}

/// `s` with a decimal point for each comma.
pub fn pointed(s: &str) -> (r: String)
    ensures
        r@ == text::replaced(s@, seq![','], '.'),
{
    let commas: [char; 1] = [','];
    assert(commas@ =~= seq![',']);
    text::replace(s, &commas, '.')
}

/// The amount in a size such as `2.5 MB`.
pub fn parse_size(value: &str) -> (r: Option<Amount>)
    ensures
        crate::source::amount_in(r) == amount_of(value@),
{
    let parts = words::split_words(value);
    if parts.len() < 2 {
        return None;
    }
    assert(text::texts(parts@)[0] == parts@[0]@);
    assert(text::texts(parts@)[1] == parts@[1]@);
    let unit = text::lower(parts[1].as_str());
    match multiplier_of(unit.as_str()) {
        Some(multiplier) => Some(Amount { digits: pointed(parts[0].as_str()), multiplier }),
        None => None,
    }
}

/// The texts among the child nodes of an element.
pub open spec fn own_texts(nodes: Seq<Option<Seq<char>>>) -> Seq<Seq<char>>
    decreases nodes.len(),
{
    if nodes.len() == 0 {
        Seq::empty()
    } else {
        match nodes.last() {
            Some(found) => own_texts(nodes.drop_last()).push(found),
            None => own_texts(nodes.drop_last()),
        }
    }
}

/// The text that stands directly in an element, unless it is empty.
pub open spec fn direct_text(nodes: Seq<Option<Seq<char>>>) -> Option<Seq<char>> {
    words::squeezed_text(words::concatenated(own_texts(nodes)))
}

/// The text that stands directly in an element, given its child nodes.
pub fn direct_text_of(nodes: &Vec<Option<String>>) -> (r: Option<String>)
    ensures
        text::text_in(r) == direct_text(text::texts_in(nodes@)),
{
    let ghost all = text::texts_in(nodes@);
    let mut found: Vec<String> = Vec::new();
    let mut i: usize = 0;
    assert(text::texts(found@) =~= own_texts(all.take(0)));
    while i < nodes.len()
        invariant
            i <= nodes@.len(),
            all == text::texts_in(nodes@),
            text::texts(found@) == own_texts(all.take(i as int)),
        decreases nodes@.len() - i,
    {
        assert(all.take(i + 1).drop_last() =~= all.take(i as int));
        assert(all.take(i + 1).last() == text::text_in(nodes@[i as int]));
        if let Some(text) = &nodes[i] {
            found.push(text.clone());
        }
        i += 1;
    }
    assert(all.take(i as int) =~= all);
    let whole = words::concat(&found);
    words::squeeze_some(whole.as_str())
}

/// How many bytes a text takes.
pub open spec fn byte_len(s: Seq<char>) -> usize {
    encode_utf8(s).len() as usize
}

/// The longest direct text of the title elements; the last one among equals.
pub open spec fn longest_title(titles: Seq<Seq<Option<Seq<char>>>>) -> Option<Seq<char>>
    decreases titles.len(),
{
    if titles.len() == 0 {
        None
    } else {
        match (longest_title(titles.drop_last()), direct_text(titles.last())) {
            (Some(best), Some(title)) => if byte_len(title) >= byte_len(best) {
                Some(title)
            } else {
                Some(best)
            },
            (Some(best), None) => Some(best),
            (None, title) => title,
        }
    }
}

fn best_title(cell: &html::Cell) -> (r: Option<String>)
    ensures
        text::text_in(r) == longest_title(cell@.titles),
{
    let ghost all = cell@.titles;
    let mut best: Option<String> = None;
    let mut i: usize = 0;
    while i < cell.titles.len()
        invariant
            i <= cell.titles@.len(),
            all == cell@.titles,
            text::text_in(best) == longest_title(all.take(i as int)),
        decreases cell.titles@.len() - i,
    {
        assert(all.take(i + 1).drop_last() =~= all.take(i as int));
        assert(all.take(i + 1).last() == text::texts_in(cell.titles@[i as int]@));
        if let Some(title) = direct_text_of(&cell.titles[i]) {
            let better = match &best {
                Some(known) => title.as_str().len() >= known.as_str().len(),
                None => true,
            };
            if better {
                best = Some(title);
            }
        }
        i += 1;
    }
    assert(all.take(i as int) =~= all);
    best
}

/// The first hash among some links.
pub open spec fn first_hash(links: Seq<Option<Seq<char>>>) -> Option<Seq<char>>
    decreases links.len(),
{
    if links.len() == 0 {
        None
    } else {
        match first_hash(links.drop_last()) {
            Some(hash) => Some(hash),
            None => match links.last() {
                Some(href) => hash_in(href),
                None => None,
            },
        }
    }
}

fn first_md5(links: &Vec<Option<String>>) -> (r: Option<String>)
    ensures
        text::text_in(r) == first_hash(text::texts_in(links@)),
{
    let ghost all = text::texts_in(links@);
    let mut found: Option<String> = None;
    let mut i: usize = 0;
    while i < links.len()
        invariant
            i <= links@.len(),
            all == text::texts_in(links@),
            text::text_in(found) == first_hash(all.take(i as int)),
        decreases links@.len() - i,
    {
        assert(all.take(i + 1).drop_last() =~= all.take(i as int));
        assert(all.take(i + 1).last() == text::text_in(links@[i as int]));
        if found.is_none() {
            if let Some(href) = &links[i] {
                found = md5_from_href(href.as_str());
            }
        }
        i += 1;
    }
    assert(all.take(i as int) =~= all);
    found
}

// ---- rows -----------------------------------------------------------------------

/// The list with the text in `value`, if there is one.
pub open spec fn at_most_one(value: Option<Seq<char>>) -> Seq<Seq<char>> {
    match value {
        Some(text) => seq![text],
        None => Seq::empty(),
    }
}

/// The book that a row of the results table describes.
pub open spec fn row_draft(cells: Seq<html::CellView>) -> Option<DraftView> {
    if cells.len() < 9 {
        None
    } else {
        let title = longest_title(cells[0].titles);
        let format = match words::squeezed_text(cells[7].text) {
            Some(extension) => format_of(extension),
            None => None,
        };
        let hash = first_hash(cells[8].links);
        if title is None || format is None || hash is None {
            None
        } else {
            Some(
                DraftView {
                    book: BookView {
                        source: "libgen"@,
                        id: hash->0,
                        title: title->0,
                        authors: at_most_one(words::squeezed_text(cells[1].text)),
                        language: words::squeezed_text(cells[4].text),
                        downloads: seq![
                            DownloadView {
                                format: format->0,
                                url: DOWNLOAD_URL@ + hash->0,
                                size: None,
                            },
                        ],
                    },
                    amount: match words::squeezed_text(cells[6].text) {
                        Some(value) => amount_of(value),
                        None => None,
                    },
                },
            )
        }
    }
}

/// The draft in an optional one.
pub open spec fn draft_in(value: Option<Draft>) -> Option<DraftView> {
    match value {
        Some(draft) => Some(draft@),
        None => None,
    }
}

/// The list with the text in `value`, if there is one.
pub fn list_of(value: Option<String>) -> (r: Vec<String>)
    ensures
        text::texts(r@) == at_most_one(text::text_in(value)),
{
    let mut list: Vec<String> = Vec::new();
    if let Some(text) = value {
        list.push(text);
    }
    assert(text::texts(list@) =~= at_most_one(text::text_in(value)));
    list
}

/// The book that a row of the results table describes, if it describes one.
pub fn book_from_row(cells: &Vec<html::Cell>) -> (r: Option<Draft>)
    ensures
        draft_in(r) == row_draft(html::row_view(cells@)),
{
    if cells.len() < 9 {
        return None;
    }
    let ghost row = html::row_view(cells@);
    assert(forall|i: int| 0 <= i < cells@.len() ==> row[i] == #[trigger] cells@[i]@);
    let title = match best_title(&cells[0]) {
        Some(title) => title,
        None => return None,
    };
    let format = match words::squeeze_some(cells[7].text.as_str()) {
        Some(extension) => match format_from_extension(extension.as_str()) {
            Some(format) => format,
            None => return None,
        },
        None => return None,
    };
    let hash = match first_md5(&cells[8].links) {
        Some(hash) => hash,
        None => return None,
    };
    let amount = match words::squeeze_some(cells[6].text.as_str()) {
        Some(value) => parse_size(value.as_str()),
        None => None,
    };
    let mut url = DOWNLOAD_URL.to_owned();
    url.append(hash.as_str());
    let mut downloads: Vec<Download> = Vec::new();
    downloads.push(Download { format, url, size: None });
    let book = Book {
        source: "libgen",
        id: hash,
        title,
        authors: list_of(words::squeeze_some(cells[1].text.as_str())),
        language: words::squeeze_some(cells[4].text.as_str()),
        downloads,
    };
    let draft = Draft { book, amount };
    assert(draft@.book.downloads =~= row_draft(row)->0.book.downloads);
    Some(draft)
}

/// The books that the first `n` rows describe: one for each hash, the first
/// that has it, and `limit` at most.
pub open spec fn collected(rows: Seq<Seq<html::CellView>>, n: int, limit: nat) -> Seq<DraftView>
    decreases n,
{
    if n <= 0 {
        Seq::empty()
    } else {
        let before = collected(rows, n - 1, limit);
        match row_draft(rows[n - 1]) {
            Some(draft) => if before.len() < limit && !crate::source::has_id(
                before,
                draft.book.id,
            ) {
                before.push(draft)
            } else {
                before
            },
            None => before,
        }
    }
}

/// The books that the rows of the results table describe.
pub fn books_from_rows(rows: &Vec<Vec<html::Cell>>, limit: usize) -> (r: Vec<Draft>)
    ensures
        crate::source::drafts_view(r@) == collected(
            html::rows_view(rows@),
            rows@.len() as int,
            limit as nat,
        ),
{
    let ghost all = html::rows_view(rows@);
    let mut out: Vec<Draft> = Vec::new();
    let mut i: usize = 0;
    assert(crate::source::drafts_view(out@) =~= collected(all, 0, limit as nat));
    while i < rows.len()
        invariant
            i <= rows@.len(),
            all == html::rows_view(rows@),
            crate::source::drafts_view(out@) == collected(all, i as int, limit as nat),
        decreases rows@.len() - i,
    {
        assert(all[i as int] == html::row_view(rows@[i as int]@));
        if let Some(draft) = book_from_row(&rows[i]) {
            if out.len() < limit && !crate::source::drafted(&out, draft.book.id.as_str()) {
                out.push(draft);
            }
        }
        i += 1;
    }
    out
}

// ---- pages ----------------------------------------------------------------------

/// The page number in a link: the first part `page=...`, if it is a number.
pub open spec fn page_in(href: Seq<char>) -> Option<usize> {
    first_page(words::pieces(href, seq!['?', '&']), 0)
}

/// The number in the first part from `from` on that begins with `page=`.
pub open spec fn first_page(parts: Seq<Seq<char>>, from: int) -> Option<usize>
    decreases parts.len() - from,
{
    if from < 0 || from >= parts.len() {
        None
    } else {
        match text::after_prefix(parts[from], "page="@) {
            Some(value) => number::size_value(value),
            None => first_page(parts, from + 1),
        }
    }
}

/// The page number in a link, if it names one.
pub fn page_from_href(href: &str) -> (r: Option<usize>)
    ensures
        r == page_in(href@),
{
    let stops: [char; 2] = ['?', '&'];
    assert(stops@ =~= seq!['?', '&']);
    let parts = words::split(href, &stops);
    let ghost all = text::texts(parts@);
    let mut i: usize = 0;
    while i < parts.len()
        invariant
            i <= parts@.len(),
            all == text::texts(parts@),
            page_in(href@) == first_page(all, i as int),
        decreases parts@.len() - i,
    {
        assert(all[i as int] == parts@[i as int]@);
        if let Some(value) = text::strip_prefix(parts[i].as_str(), "page=") {
            return number::parse_size(value.as_str());
        }
        i += 1;
    }
    None
}

/// The highest page number among some links.
pub open spec fn last_page(links: Seq<Option<Seq<char>>>) -> Option<usize>
    decreases links.len(),
{
    if links.len() == 0 {
        None
    } else {
        let page = match links.last() {
            Some(href) => page_in(href),
            None => None,
        };
        match (last_page(links.drop_last()), page) {
            (Some(highest), Some(page)) => Some(
                if page >= highest {
                    page
                } else {
                    highest
                },
            ),
            (Some(highest), None) => Some(highest),
            (None, page) => page,
        }
    }
}

/// What opens the number of pages in the page's script.
pub const PAGINATOR: &'static str = "new Paginator(\"paginator_example_bottom\",";

/// The number of pages that the page's script names.
pub open spec fn script_pages(body: Seq<char>) -> Option<usize> {
    match text::after_first(body, PAGINATOR@) {
        Some(tail) => number::size_value(
            text::trimmed(words::pieces(tail, seq![',']).first()),
        ),
        None => None,
    }
}

/// The number of pages: the one that the script names, else the highest one
/// that is linked to.
pub open spec fn pages_of(body: Seq<char>, links: Seq<Option<Seq<char>>>) -> Option<usize> {
    match script_pages(body) {
        Some(pages) => Some(pages),
        None => last_page(links),
    }
}

/// The number of pages of the search, given the page and its page links.
pub fn total_pages(body: &str, links: &Vec<Option<String>>) -> (r: Option<usize>)
    ensures
        r == pages_of(body@, text::texts_in(links@)),
{
    if let Some(tail) = text::tail_after(body, PAGINATOR) {
        let stops: [char; 1] = [','];
        assert(stops@ =~= seq![',']);
        let first = words::first_piece(tail.as_str(), &stops);
        let value = text::trim(first.as_str());
        let pages = number::parse_size(value.as_str());
        if pages.is_some() {
            return pages;
        }
    }
    let ghost all = text::texts_in(links@);
    let mut highest: Option<usize> = None;
    let mut i: usize = 0;
    while i < links.len()
        invariant
            i <= links@.len(),
            all == text::texts_in(links@),
            highest == last_page(all.take(i as int)),
        decreases links@.len() - i,
    {
        assert(all.take(i + 1).drop_last() =~= all.take(i as int));
        assert(all.take(i + 1).last() == text::text_in(links@[i as int]));
        if let Some(href) = &links[i] {
            if let Some(page) = page_from_href(href.as_str()) {
                highest = match highest {
                    Some(known) => if page >= known {
                        Some(page)
                    } else {
                        Some(known)
                    },
                    None => Some(page),
                };
            }
        }
        i += 1;
    }
    assert(all.take(i as int) =~= all);
    highest
}

/// One page of results.
pub fn parse(body: &str, limit: usize) -> (r: Listing)
    requires
        html::is_page(body@),
    ensures
        ({
            let rows = html::document_rows(
                body@,
                "table#tablelibgen tbody tr"@,
                "td"@,
                "a[href^='edition.php']"@,
                "a[href]"@,
            );
            crate::source::drafts_view(r.drafts@) == collected(
                rows,
                rows.len() as int,
                limit as nat,
            )
        }),
        r.total_pages == pages_of(
            body@,
            html::document_links(body@, "#paginator_example_bottom a[href]"@),
        ),
{
    proof {
        reveal_strlit("table#tablelibgen tbody tr");
        reveal_strlit("td");
        reveal_strlit("a[href^='edition.php']");
        reveal_strlit("a[href]");
        reveal_strlit("#paginator_example_bottom a[href]");
    }
    let rows = html::table_rows(
        body,
        "table#tablelibgen tbody tr",
        "td",
        "a[href^='edition.php']",
        "a[href]",
    );
    let links = html::links(body, "#paginator_example_bottom a[href]");
    Listing { drafts: books_from_rows(&rows, limit), total_pages: total_pages(body, &links) }
}

/// No two books of a page share a hash, and there are never more than the
/// limit.
pub proof fn law_hashes_are_distinct(rows: Seq<Seq<html::CellView>>, n: int, limit: nat)
    ensures
        collected(rows, n, limit).len() <= limit,
        forall|i: int, j: int|
            0 <= i < j < collected(rows, n, limit).len() ==> (#[trigger] collected(
                rows,
                n,
                limit,
            )[i]).book.id != (#[trigger] collected(rows, n, limit)[j]).book.id,
    decreases n,
{
    if n > 0 {
        law_hashes_are_distinct(rows, n - 1, limit);
    }
}

/// The limit counts books after duplicates are removed: as long as the page is
/// not full, the hash of every row that describes a book is listed.
pub proof fn law_limit_counts_distinct_books(
    rows: Seq<Seq<html::CellView>>,
    n: int,
    limit: nat,
    row: int,
)
    requires
        0 <= row < n <= rows.len(),
        row_draft(rows[row]) is Some,
        collected(rows, n, limit).len() < limit,
    ensures
        crate::source::has_id(collected(rows, n, limit), row_draft(rows[row])->0.book.id),
    decreases n,
{
    let before = collected(rows, n - 1, limit);
    let now = collected(rows, n, limit);
    if row < n - 1 {
        law_limit_counts_distinct_books(rows, n - 1, limit, row);
        let i = choose|i: int|
            0 <= i < before.len() && (#[trigger] before[i]).book.id == row_draft(
                rows[row],
            )->0.book.id;
        assert(now[i] == before[i]);
    } else {
        let id = row_draft(rows[row])->0.book.id;
        if crate::source::has_id(before, id) {
            assert(now == before);
        } else {
            assert(now[before.len() as int].book.id == id);
        }
    }
}

/// Every listed book can be asked for by its hash: 32 hexadecimal digits in
/// small letters, which also end the address of its one download.
pub proof fn law_books_are_addressed_by_hash(cells: Seq<html::CellView>)
    ensures
        row_draft(cells) matches Some(draft) ==> {
            &&& draft.book.id.len() == 32
            &&& text::all_hex(draft.book.id)
            &&& text::lowered(draft.book.id) == draft.book.id
            &&& draft.book.downloads.len() == 1
            &&& draft.book.downloads[0].url == DOWNLOAD_URL@ + draft.book.id
        },
{
    if let Some(draft) = row_draft(cells) {
        lemma_first_hash(cells[8].links);
    }
}

proof fn lemma_first_hash(links: Seq<Option<Seq<char>>>)
    ensures
        first_hash(links) matches Some(hash) ==> hash.len() == 32 && text::all_hex(hash)
            && text::lowered(hash) == hash,
    decreases links.len(),
{
    if links.len() > 0 {
        lemma_first_hash(links.drop_last());
        if first_hash(links.drop_last()) is None && links.last() is Some {
            if let Some(hash) = hash_in(links.last()->0) {
                assert(text::lowered(hash) =~= hash);
            }
        }
    }
}

// ---- download links -------------------------------------------------------------

/// A link that downloads the file with the hash `hash`.
pub open spec fn is_keyed(href: Seq<char>, hash: Seq<char>) -> bool {
    text::has_prefix(href, "get.php?md5="@) && text::occurs(href, "&key="@) && text::occurs(
        href,
        hash,
    )
}

/// The address of the first link that downloads the file with the hash `hash`.
pub open spec fn keyed_url(links: Seq<Option<Seq<char>>>, hash: Seq<char>) -> Option<Seq<char>>
    decreases links.len(),
{
    if links.len() == 0 {
        None
    } else {
        match keyed_url(links.drop_last(), hash) {
            Some(url) => Some(url),
            None => match links.last() {
                Some(href) => if is_keyed(href, hash) {
                    Some("https://libgen.li/"@ + href)
                } else {
                    None
                },
                None => None,
            },
        }
    }
}

/// The address of the first of the links that downloads the file with the hash
/// `hash`.
pub fn keyed_link(links: &Vec<Option<String>>, hash: &str) -> (r: Option<String>)
    ensures
        text::text_in(r) == keyed_url(text::texts_in(links@), hash@),
{
    let ghost all = text::texts_in(links@);
    let mut found: Option<String> = None;
    let mut i: usize = 0;
    while i < links.len()
        invariant
            i <= links@.len(),
            all == text::texts_in(links@),
            text::text_in(found) == keyed_url(all.take(i as int), hash@),
        decreases links@.len() - i,
    {
        assert(all.take(i + 1).drop_last() =~= all.take(i as int));
        assert(all.take(i + 1).last() == text::text_in(links@[i as int]));
        if found.is_none() {
            if let Some(href) = &links[i] {
                let link = href.as_str();
                if text::starts_with(link, "get.php?md5=") && text::contains(link, "&key=")
                    && text::contains(link, hash) {
                    let mut url = "https://libgen.li/".to_owned();
                    url.append(link);
                    found = Some(url);
                }
            }
        }
        i += 1;
    }
    assert(all.take(i as int) =~= all);
    found
}

/// The address on the page `body` that downloads the file with the expected
/// hash.
pub fn keyed_download_url(body: &str, expected_hash: &str) -> (r: Option<String>)
    requires
        html::is_page(body@),
    ensures
        text::text_in(r) == keyed_url(
            html::document_links(body@, "a[href]"@),
            expected_hash@,
        ),
{
    proof {
        reveal_strlit("a[href]");
    }
    let links = html::links(body, "a[href]");
    keyed_link(&links, expected_hash)
}

/// The other host of the file network.
pub open spec fn other_host(host: Seq<char>) -> Option<Seq<char>> {
    if host == "cdn2.booksdl.lc"@ {
        Some("cdn3.booksdl.lc"@)
    } else if host == "cdn3.booksdl.lc"@ {
        Some("cdn2.booksdl.lc"@)
    } else {
        None
    }
}

/// The other host of the file network, if `host` is one of its two.
pub fn alternate_host(host: &str) -> (r: Option<&'static str>)
    ensures
        match r {
            Some(other) => other_host(host@) == Some(other@),
            None => other_host(host@) is None,
        },
{
    if text::same(host, "cdn2.booksdl.lc") {
        Some("cdn3.booksdl.lc")
    } else if text::same(host, "cdn3.booksdl.lc") {
        Some("cdn2.booksdl.lc")
    } else {
        None
    }
}

/// Switching hosts twice leads back.
pub proof fn law_hosts_alternate(host: Seq<char>)
    ensures
        other_host(host) matches Some(other) ==> other != host && other_host(other) == Some(host),
{
    reveal_strlit("cdn2.booksdl.lc");
    reveal_strlit("cdn3.booksdl.lc");
    assert("cdn2.booksdl.lc"@[3] != "cdn3.booksdl.lc"@[3]);
}

/// The same file at the other host of the file network.
pub open spec fn alternate_url(url: Seq<char>) -> Option<Seq<char>> {
    match url::url_host(url) {
        Some(host) => match other_host(host) {
            Some(other) => url::url_with_host(url, other),
            None => None,
        },
        None => None,
    }
}

/// The same file at the other host of the file network, if `url` is on it. The
/// key, which is in the query, stays the same.
pub fn alternate_cdn_url(url: &str) -> (r: Option<String>)
    ensures
        text::text_in(r) == alternate_url(url@),
        forall|host: Seq<char>, query: Seq<char>|
            url@ == #[trigger] url::file_address(host, query) && other_host(host) is Some
                && url::is_simple_query(query) ==> text::text_in(r) == Some(
                url::file_address(other_host(host)->0, query),
            ),
{
    match url::host(url) {
        Some(host) => match alternate_host(host.as_str()) {
            Some(other) => url::with_host(url, other),
            None => None,
        },
        None => None,
    }
}

// ---- downloading ------------------------------------------------------------------

/// A download in progress: how many times the file was asked for, this time
/// included, and where.
#[derive(Debug)]
pub struct Fetch {
    pub attempt: u64,
    pub url: String,
}

/// The mathematical counterpart of [`Fetch`].
pub struct FetchView {
    pub attempt: u64,
    pub url: Seq<char>,
}

impl View for Fetch {
    type V = FetchView;

    open spec fn view(&self) -> FetchView {
        FetchView { attempt: self.attempt, url: self.url@ }
    }
}

impl FetchView {
    /// The next attempt, at `url`.
    pub open spec fn again(self, url: Seq<char>) -> FetchView {
        FetchView { attempt: (self.attempt + 1) as u64, url }
    }

    /// Another attempt is left.
    pub open spec fn may_retry(self) -> bool {
        self.attempt < MAX_DOWNLOAD_ATTEMPTS
    }
}

/// What to do with a response.
#[derive(Debug, Clone, Copy, PartialEq, Eq, Structural)]
pub enum ResponseStep {
    /// Save the body: it is the file.
    Save,
    /// Read the body: it is a page that may link to the file.
    ReadPage,
    /// Write the failure down, pause, and ask again.
    Retry { wait_ms: u64 },
    /// Write the failure down and give up.
    Fail,
}

/// What to do after a page or a file.
#[derive(Debug, Clone, Copy, PartialEq, Eq, Structural)]
pub enum NextStep {
    /// The file is complete.
    Done,
    /// Ask again.
    Again,
    /// Give up.
    GiveUp,
}

/// The file comes as an attachment that is no page.
pub open spec fn is_file(content_type: Seq<char>, disposition: Option<Seq<char>>) -> bool {
    &&& !text::has_prefix(content_type, "text/html"@)
    &&& disposition is Some
    &&& text::occurs(text::lowered(disposition->0), "attachment"@)
}

/// What to do with a response.
pub open spec fn response_step(
    fetch: FetchView,
    status: u16,
    content_type: Seq<char>,
    disposition: Option<Seq<char>>,
) -> ResponseStep {
    if !http::is_success(status) {
        if http::is_server_error(status) && fetch.may_retry() {
            ResponseStep::Retry { wait_ms: (400 * fetch.attempt) as u64 }
        } else {
            ResponseStep::Fail
        }
    } else if is_file(content_type, disposition) {
        ResponseStep::Save
    } else {
        ResponseStep::ReadPage
    }
}

/// The download after a response that came from `response_url`: a server error
/// is asked again, at the other host where there is one.
pub open spec fn after_response(
    fetch: FetchView,
    status: u16,
    response_url: Seq<char>,
) -> FetchView {
    if !http::is_success(status) && http::is_server_error(status) && fetch.may_retry() {
        match alternate_url(response_url) {
            Some(url) => fetch.again(url),
            None => fetch.again(fetch.url),
        }
    } else {
        fetch
    }
}

/// The download after a page: asked again at the link found there, or where it
/// began.
pub open spec fn after_page(
    fetch: FetchView,
    keyed: Option<Seq<char>>,
    start: Seq<char>,
) -> FetchView {
    if fetch.may_retry() {
        match keyed {
            Some(url) => fetch.again(url),
            None => fetch.again(start),
        }
    } else {
        fetch
    }
}

/// A file of `seen` bytes is all that was announced.
pub open spec fn is_complete(seen: u64, content_length: Option<u64>) -> bool {
    content_length matches Some(expected) ==> seen == expected
}

impl Fetch {
    /// The first attempt, at the address that the catalog gave.
    pub fn new(url: &str) -> (r: Fetch)
        ensures
            r@ == (FetchView { attempt: 1, url: url@ }),
    {
        Fetch { attempt: 1, url: url.to_owned() }
    }

    /// Decide what to do with a response that came from `response_url`. A
    /// missing content type is an empty one.
    pub fn on_response(
        &mut self,
        status: u16,
        response_url: &str,
        content_type: &str,
        disposition: Option<String>,
    ) -> (r: ResponseStep)
        ensures
            r == response_step(old(self)@, status, content_type@, text::text_in(disposition)),
            final(self)@ == after_response(old(self)@, status, response_url@),
    {
        if !(200 <= status && status < 300) {
            if 500 <= status && status < 600 && self.attempt < MAX_DOWNLOAD_ATTEMPTS {
                let wait_ms: u64 = 400 * self.attempt;
                if let Some(url) = alternate_cdn_url(response_url) {
                    self.url = url;
                }
                self.attempt = self.attempt + 1;
                ResponseStep::Retry { wait_ms }
            } else {
                ResponseStep::Fail
            }
        } else {
            let attachment = match disposition {
                Some(value) => text::contains(text::lower(value.as_str()).as_str(), "attachment"),
                None => false,
            };
            if text::starts_with(content_type, "text/html") || !attachment {
                ResponseStep::ReadPage
            } else {
                ResponseStep::Save
            }
        }
    }

    /// Decide what to do after a page instead of the file. `keyed` is the
    /// address of the file that the page links to, `start` the one that the
    /// catalog gave.
    pub fn on_keyed(&mut self, keyed: Option<String>, start: &str) -> (r: NextStep)
        ensures
            r == (if old(self)@.may_retry() {
                NextStep::Again
            } else {
                NextStep::GiveUp
            }),
            final(self)@ == after_page(old(self)@, text::text_in(keyed), start@),
    {
        if self.attempt < MAX_DOWNLOAD_ATTEMPTS {
            self.url = match keyed {
                Some(url) => url,
                None => start.to_owned(),
            };
            self.attempt = self.attempt + 1;
            NextStep::Again
        } else {
            NextStep::GiveUp
        }
    }

    /// Decide what to do after the page `page` instead of the file with the
    /// hash `hash`; none if the page could not be read.
    pub fn on_page(&mut self, page: Option<String>, hash: &str, start: &str) -> (r: NextStep)
        requires
            page matches Some(body) ==> html::is_page(body@),
        ensures
            r == (if old(self)@.may_retry() {
                NextStep::Again
            } else {
                NextStep::GiveUp
            }),
            final(self)@ == after_page(
                old(self)@,
                match page {
                    Some(body) => keyed_url(html::document_links(body@, "a[href]"@), hash@),
                    None => None,
                },
                start@,
            ),
    {
        let keyed = match page {
            Some(body) => keyed_download_url(body.as_str(), hash),
            None => None,
        };
        self.on_keyed(keyed, start)
    }

    /// Decide what to do after `seen` bytes were saved of `content_length`.
    pub fn on_saved(&mut self, seen: u64, content_length: Option<u64>) -> (r: NextStep)
        ensures
            r == (if is_complete(seen, content_length) {
                NextStep::Done
            } else if old(self)@.may_retry() {
                NextStep::Again
            } else {
                NextStep::GiveUp
            }),
            final(self)@ == (if r == NextStep::Again {
                old(self)@.again(old(self)@.url)
            } else {
                old(self)@
            }),
    {
        let complete = match content_length {
            Some(expected) => seen == expected,
            None => true,
        };
        if complete {
            NextStep::Done
        } else if self.attempt < MAX_DOWNLOAD_ATTEMPTS {
            self.attempt = self.attempt + 1;
            NextStep::Again
        } else {
            NextStep::GiveUp
        }
    }
}

/// A file is asked for five times at most: nothing is asked again after the
/// last attempt, and each time that something is asked again counts.
pub proof fn law_attempts_end(
    fetch: FetchView,
    status: u16,
    response_url: Seq<char>,
    content_type: Seq<char>,
    disposition: Option<Seq<char>>,
    keyed: Option<Seq<char>>,
    start: Seq<char>,
)
    ensures
        response_step(fetch, status, content_type, disposition) is Retry
            ==> fetch.attempt < MAX_DOWNLOAD_ATTEMPTS && after_response(
            fetch,
            status,
            response_url,
        ).attempt == fetch.attempt + 1,
        !(response_step(fetch, status, content_type, disposition) is Retry) ==> after_response(
            fetch,
            status,
            response_url,
        ) == fetch,
        fetch.attempt <= MAX_DOWNLOAD_ATTEMPTS ==> after_response(
            fetch,
            status,
            response_url,
        ).attempt <= MAX_DOWNLOAD_ATTEMPTS && after_page(fetch, keyed, start).attempt
            <= MAX_DOWNLOAD_ATTEMPTS,
{
}

/// What the user is told when only pages came.
pub fn html_failure(status: &str, url: &str) -> (r: String)
    ensures
        r@ == "LibGen returned HTML instead of an ebook after 5 attempts ("@ + status@ + " from "@
            + url@ + ")"@,
{
    let mut out = "LibGen returned HTML instead of an ebook after 5 attempts (".to_owned();
    out.append(status);
    out.append(" from ");
    out.append(url);
    out.append(")");
    out
}

/// An optional number as it is written in a message.
pub open spec fn optional_number(value: Option<u64>) -> Seq<char> {
    match value {
        Some(n) => "Some("@ + number::decimal(n as nat) + ")"@,
        None => "None"@,
    }
}

/// What the user is told when the file never came whole.
pub fn incomplete_failure(seen: u64, total: Option<u64>) -> (r: String)
    ensures
        r@ == "incomplete LibGen download: received "@ + number::decimal(seen as nat)
            + " bytes, expected "@ + optional_number(total),
{
    let mut out = "incomplete LibGen download: received ".to_owned();
    out.append(number::to_decimal(seen).as_str());
    out.append(" bytes, expected ");
    let expected = match total {
        Some(n) => {
            let mut text = "Some(".to_owned();
            text.append(number::to_decimal(n).as_str());
            text.append(")");
            text
        },
        None => "None".to_owned(),
    };
    out.append(expected.as_str());
    out
}

// ---- laws -------------------------------------------------------------------------

/// A search asks the catalog's front page for the query and the page.
pub proof fn law_search_request(query: &str, page: usize, r: Request)
    requires
        call_ensures(search_request, (query, page), r),
    ensures
        r.url@ == "https://libgen.li/"@,
        r.params@.len() == 2,
        r@.params[0] == ("req"@, query@),
        r@.params[1] == ("page"@, number::decimal(if page == 0 {
                1
            } else {
                page as nat
            })),
{
    assert(r@.params.len() == r.params@.len());
}

proof fn lemma_unit(unit: Seq<char>)
    ensures
        text::lowered(unit) == "b"@ <==> unit.len() == 1 && (unit[0] == 'b' || unit[0] == 'B'),
        text::lowered(unit) == "kb"@ <==> unit.len() == 2 && (unit[0] == 'k' || unit[0] == 'K') && (
        unit[1] == 'b' || unit[1] == 'B'),
        text::lowered(unit) == "mb"@ <==> unit.len() == 2 && (unit[0] == 'm' || unit[0] == 'M') && (
        unit[1] == 'b' || unit[1] == 'B'),
        text::lowered(unit) == "gb"@ <==> unit.len() == 2 && (unit[0] == 'g' || unit[0] == 'G') && (
        unit[1] == 'b' || unit[1] == 'B'),
{
    reveal_strlit("b");
    reveal_strlit("kb");
    reveal_strlit("mb");
    reveal_strlit("gb");
    let low = text::lowered(unit);
    assert("b"@.len() == 1 && "b"@[0] == 'b');
    assert("kb"@.len() == 2 && "kb"@[0] == 'k' && "kb"@[1] == 'b');
    assert("mb"@.len() == 2 && "mb"@[0] == 'm' && "mb"@[1] == 'b');
    assert("gb"@.len() == 2 && "gb"@[0] == 'g' && "gb"@[1] == 'b');
    assert forall|i: int| 0 <= i < unit.len() implies {
        &&& (#[trigger] low[i] == 'b' <==> unit[i] == 'b' || unit[i] == 'B')
        &&& (low[i] == 'k' <==> unit[i] == 'k' || unit[i] == 'K')
        &&& (low[i] == 'm' <==> unit[i] == 'm' || unit[i] == 'M')
        &&& (low[i] == 'g' <==> unit[i] == 'g' || unit[i] == 'G')
    } by {
        let c = unit[i];
        assert(low[i] == text::lower_char(c));
    }
    if unit.len() == 1 {
        assert(low =~= "b"@ <==> low[0] == 'b');
    } else if unit.len() == 2 {
        assert(low =~= "kb"@ <==> low[0] == 'k' && low[1] == 'b');
        assert(low =~= "mb"@ <==> low[0] == 'm' && low[1] == 'b');
        assert(low =~= "gb"@ <==> low[0] == 'g' && low[1] == 'b');
    }
}

/// A size is a number and a unit, in any letter case, and each unit is a
/// thousand of the one before: bytes, thousands, millions and billions of them.
/// So a thousand of one unit are as many bytes as one of the next.
pub proof fn law_units_scale_by_a_thousand(value: &str, r: Option<Amount>)
    requires
        call_ensures(parse_size, (value,), r),
    ensures
        ({
            let parts = words::words(value@);
            let unit = parts[1];
            let bytes = unit.len() > 0 && (unit.last() == 'b' || unit.last() == 'B');
            &&& parts.len() < 2 ==> r is None
            &&& parts.len() >= 2 && !bytes ==> r is None
            &&& parts.len() >= 2 && unit.len() > 2 ==> r is None
            &&& parts.len() >= 2 && bytes && unit.len() == 1 ==> r is Some && r->0.multiplier == 1
            &&& parts.len() >= 2 && bytes && unit.len() == 2 && (unit[0] == 'k' || unit[0] == 'K')
                ==> r is Some && r->0.multiplier == 1000
            &&& parts.len() >= 2 && bytes && unit.len() == 2 && (unit[0] == 'm' || unit[0] == 'M')
                ==> r is Some && r->0.multiplier == 1000 * 1000
            &&& parts.len() >= 2 && bytes && unit.len() == 2 && (unit[0] == 'g' || unit[0] == 'G')
                ==> r is Some && r->0.multiplier == 1000 * 1000 * 1000
            &&& r is Some ==> r->0.multiplier == 1 || r->0.multiplier == 1000 || r->0.multiplier
                == 1000 * 1000 || r->0.multiplier == 1000 * 1000 * 1000
        }),
{
    if words::words(value@).len() >= 2 {
        lemma_unit(words::words(value@)[1]);
        reveal_strlit("b");
        reveal_strlit("kb");
        reveal_strlit("mb");
        reveal_strlit("gb");
    }
}

/// The number of a size is its first word, with a decimal point for a comma.
pub proof fn law_digits_of_a_size(value: &str, r: Option<Amount>, i: int)
    requires
        call_ensures(parse_size, (value,), r),
        r is Some,
        0 <= i < words::words(value@)[0].len(),
    ensures
        r->0.digits@.len() == words::words(value@)[0].len(),
        words::words(value@)[0][i] == ',' ==> r->0.digits@[i] == '.',
        words::words(value@)[0][i] != ',' ==> r->0.digits@[i] == words::words(value@)[0][i],
{
    let c = words::words(value@)[0][i];
    let commas = seq![','];
    assert(commas[0] == ',');
    if commas.contains(c) {
        let k = choose|k: int| 0 <= k < commas.len() && commas[k] == c;
        assert(c == ',');
    }
}

/// The same digits in thousands of bytes, millions and billions of them are a
/// thousand times as many as in the unit before.
pub proof fn law_larger_units(
    b: Option<u64>,
    kb: Option<u64>,
    mb: Option<u64>,
    gb: Option<u64>,
)
    requires
        call_ensures(multiplier_of, ("b",), b),
        call_ensures(multiplier_of, ("kb",), kb),
        call_ensures(multiplier_of, ("mb",), mb),
        call_ensures(multiplier_of, ("gb",), gb),
    ensures
        b == Some(1u64),
        kb is Some && kb->0 == 1000 * b->0,
        mb is Some && mb->0 == 1000 * kb->0,
        gb is Some && gb->0 == 1000 * mb->0,
{
    reveal_strlit("b");
    reveal_strlit("kb");
    reveal_strlit("mb");
    reveal_strlit("gb");
    assert("b"@.len() == 1 && "kb"@.len() == 2 && "mb"@.len() == 2 && "gb"@.len() == 2);
    assert("kb"@[0] == 'k' && "mb"@[0] == 'm' && "gb"@[0] == 'g');
}

/// The hash of a link is the 32 hexadecimal digits between `/md5/` and the next
/// slash, question mark or hash sign, in small letters.
pub proof fn law_hash_in_a_link(
    href: &str,
    r: Option<String>,
    head: Seq<char>,
    hash: Seq<char>,
    tail: Seq<char>,
)
    requires
        call_ensures(md5_from_href, (href,), r),
        href@ == head + "/md5/"@ + hash + tail,
        !text::occurs(head + "/md5"@, "/md5/"@),
        tail.len() == 0 || tail[0] == '/' || tail[0] == '?' || tail[0] == '#',
        !hash.contains('/'),
        !hash.contains('?'),
        !hash.contains('#'),
    ensures
        r is Some <==> hash.len() == 32 && text::all_hex(hash),
        r is Some ==> r->0@ == text::lowered(hash),
{
    let mark = "/md5/"@;
    let rest = hash + tail;
    assert(href@ =~= head + mark + rest);
    reveal_strlit("/md5/");
    reveal_strlit("/md5");
    assert(mark.drop_last() =~= "/md5"@);
    lemma_behind_mark(head, mark, rest);
    let stops = seq!['/', '?', '#'];
    assert(stops[0] == '/' && stops[1] == '?' && stops[2] == '#');
    assert forall|k: int| 0 <= k < hash.len() implies !stops.contains(#[trigger] hash[k]) by {
        assert(hash.contains(hash[k]));
    }
    words::law_first_piece(hash, tail, stops);
}

proof fn lemma_behind_mark(head: Seq<char>, mark: Seq<char>, rest: Seq<char>)
    requires
        mark.len() > 0,
        !text::occurs(head + mark.drop_last(), mark),
    ensures
        text::after_first(head + mark + rest, mark) == Some(rest),
{
    let whole = head + mark + rest;
    let front = head + mark.drop_last();
    text::lemma_find(whole, mark, 0);
    assert(whole.subrange(head.len() as int, head.len() as int + mark.len()) =~= mark);
    assert(text::occurs_at(whole, mark, head.len() as int));
    let i = text::find(whole, mark, 0)->0;
    if i < head.len() {
        assert(front.subrange(i, i + mark.len()) =~= whole.subrange(i, i + mark.len()));
        assert(text::occurs_at(front, mark, i));
    }
    assert(whole.subrange(i + mark.len(), whole.len() as int) =~= rest);
}

/// A link without `/md5/` has no hash.
pub proof fn law_no_hash_in_other_links(href: &str, r: Option<String>)
    requires
        call_ensures(md5_from_href, (href,), r),
        !text::occurs(href@, "/md5/"@),
    ensures
        r is None,
{
    text::lemma_find(href@, "/md5/"@, 0);
}

/// Of the title elements the longest text counts, and the later one of two that
/// are equally long.
pub proof fn law_longest_title_counts(titles: Seq<Seq<Option<Seq<char>>>>, i: int)
    requires
        0 <= i < titles.len(),
        direct_text(titles[i]) is Some,
    ensures
        longest_title(titles) is Some,
        byte_len(longest_title(titles)->0) >= byte_len(direct_text(titles[i])->0),
        exists|k: int|
            0 <= k < titles.len() && direct_text(#[trigger] titles[k]) == longest_title(titles)
                && all_shorter(titles, k),
{
    lemma_title_found(titles, i);
    let k = lemma_longest_title(titles);
    assert(direct_text(titles[k]) == longest_title(titles));
    if i > k {
        assert(is_shorter(titles[i], byte_len(direct_text(titles[k])->0)));
    }
}

/// The direct text of an element, if it has one, is shorter than `length`.
pub open spec fn is_shorter(title: Seq<Option<Seq<char>>>, length: usize) -> bool {
    direct_text(title) is Some ==> byte_len(direct_text(title)->0) < length
}

/// The direct text of an element, if it has one, is not longer than `length`.
pub open spec fn is_no_longer(title: Seq<Option<Seq<char>>>, length: usize) -> bool {
    direct_text(title) is Some ==> byte_len(direct_text(title)->0) <= length
}

/// The titles behind the one at `k` are shorter than it.
pub open spec fn all_shorter(titles: Seq<Seq<Option<Seq<char>>>>, k: int) -> bool {
    forall|j: int|
        k < j < titles.len() ==> is_shorter(
            #[trigger] titles[j],
            byte_len(direct_text(titles[k])->0),
        )
}

proof fn lemma_title_found(titles: Seq<Seq<Option<Seq<char>>>>, i: int)
    requires
        0 <= i < titles.len(),
        direct_text(titles[i]) is Some,
    ensures
        longest_title(titles) is Some,
    decreases titles.len(),
{
    if i < titles.len() - 1 {
        assert(titles.drop_last()[i] == titles[i]);
        lemma_title_found(titles.drop_last(), i);
    }
}

proof fn lemma_longest_title(titles: Seq<Seq<Option<Seq<char>>>>) -> (k: int)
    requires
        longest_title(titles) is Some,
    ensures
        0 <= k < titles.len(),
        direct_text(titles[k]) == longest_title(titles),
        all_shorter(titles, k),
        forall|j: int|
            0 <= j < titles.len() ==> is_no_longer(
                #[trigger] titles[j],
                byte_len(direct_text(titles[k])->0),
            ),
    decreases titles.len(),
{
    let front = titles.drop_last();
    let last = titles.len() - 1;
    let title = direct_text(titles[last]);
    if longest_title(front) is None {
        assert forall|j: int| 0 <= j < titles.len() implies is_no_longer(
            #[trigger] titles[j],
            byte_len(title->0),
        ) by {
            if j < last && direct_text(titles[j]) is Some {
                assert(front[j] == titles[j]);
                lemma_title_found(front, j);
            }
        }
        last
    } else {
        let k = lemma_longest_title(front);
        assert(front[k] == titles[k]);
        let most = byte_len(direct_text(titles[k])->0);
        assert forall|j: int| 0 <= j < last implies is_no_longer(#[trigger] titles[j], most) by {
            assert(front[j] == titles[j]);
        }
        if title is Some && byte_len(title->0) >= most {
            assert forall|j: int| 0 <= j < titles.len() implies is_no_longer(
                #[trigger] titles[j],
                byte_len(title->0),
            ) by {
                assert(is_no_longer(titles[j], most) || j == last);
            }
            last
        } else {
            assert forall|j: int| k < j < titles.len() implies is_shorter(
                #[trigger] titles[j],
                most,
            ) by {
                if j < last {
                    assert(front[j] == titles[j]);
                    assert(is_shorter(front[j], most));
                }
            }
            k
        }
    }
}

/// The text that stands directly in an element is all of its own texts and none
/// of those of the elements in it, with single spaces.
pub proof fn law_direct_text(nodes: &Vec<Option<String>>, r: Option<String>)
    requires
        call_ensures(direct_text_of, (nodes,), r),
    ensures
        nodes@.len() == 1 && nodes@[0] is Some ==> text::text_in(r) == words::squeezed_text(
            nodes@[0]->0@,
        ),
        nodes@.len() == 2 && nodes@[0] is Some && nodes@[1] is Some ==> text::text_in(r)
            == words::squeezed_text(nodes@[0]->0@ + nodes@[1]->0@),
        nodes@.len() == 2 && nodes@[0] is Some && nodes@[1] is None ==> text::text_in(r)
            == words::squeezed_text(nodes@[0]->0@),
        nodes@.len() == 2 && nodes@[0] is None && nodes@[1] is Some ==> text::text_in(r)
            == words::squeezed_text(nodes@[1]->0@),
        (forall|i: int| 0 <= i < nodes@.len() ==> (#[trigger] nodes@[i]) is None) ==> r is None,
{
    let all = text::texts_in(nodes@);
    reveal_with_fuel(own_texts, 3);
    reveal_with_fuel(words::concatenated, 3);
    if nodes@.len() == 1 && nodes@[0] is Some {
        assert(all.last() == Some(nodes@[0]->0@));
        assert(own_texts(all) =~= seq![nodes@[0]->0@]);
        assert(words::concatenated(own_texts(all)) =~= nodes@[0]->0@);
    } else if nodes@.len() == 2 {
        assert(all.last() == text::text_in(nodes@[1]));
        assert(all.drop_last().last() == text::text_in(nodes@[0]));
        assert(all.drop_last().drop_last().len() == 0);
        if nodes@[0] is Some && nodes@[1] is Some {
            assert(own_texts(all) =~= seq![nodes@[0]->0@, nodes@[1]->0@]);
            assert(own_texts(all).drop_last() =~= seq![nodes@[0]->0@]);
            assert(words::concatenated(seq![nodes@[0]->0@]) =~= nodes@[0]->0@);
            assert(words::concatenated(own_texts(all)) =~= nodes@[0]->0@ + nodes@[1]->0@);
        } else if nodes@[0] is Some {
            assert(own_texts(all) =~= seq![nodes@[0]->0@]);
            assert(words::concatenated(own_texts(all)) =~= nodes@[0]->0@);
        } else if nodes@[1] is Some {
            assert(own_texts(all) =~= seq![nodes@[1]->0@]);
            assert(words::concatenated(own_texts(all)) =~= nodes@[1]->0@);
        }
    }
    if forall|i: int| 0 <= i < nodes@.len() ==> (#[trigger] nodes@[i]) is None {
        assert forall|i: int| 0 <= i < all.len() implies (#[trigger] all[i]) is None by {
            assert(nodes@[i] is None);
        }
        lemma_no_own_texts(all);
        assert(words::words(Seq::<char>::empty()) =~= seq![]);
    }
}

proof fn lemma_no_own_texts(nodes: Seq<Option<Seq<char>>>)
    requires
        forall|i: int| 0 <= i < nodes.len() ==> (#[trigger] nodes[i]) is None,
    ensures
        own_texts(nodes).len() == 0,
    decreases nodes.len(),
{
    if nodes.len() > 0 {
        assert(nodes[nodes.len() - 1] is None);
        lemma_no_own_texts(nodes.drop_last());
    }
}

/// What the columns of the results table mean: the first holds the title, the
/// second the authors, the fifth the language, the seventh the size, the eighth
/// the format and the ninth the links.
pub proof fn law_columns(cells: &Vec<html::Cell>, r: Option<Draft>)
    requires
        call_ensures(book_from_row, (cells,), r),
    ensures
        cells@.len() < 9 ==> r is None,
        r is Some ==> {
            let draft = r->0@;
            &&& draft.book.source == "libgen"@
            &&& longest_title(cells@[0]@.titles) == Some(draft.book.title)
            &&& words::squeezed(cells@[1].text@).len() == 0 ==> draft.book.authors.len() == 0
            &&& words::squeezed(cells@[1].text@).len() > 0 ==> draft.book.authors == seq![
                words::squeezed(cells@[1].text@),
            ]
            &&& draft.book.language == words::squeezed_text(cells@[4].text@)
            &&& draft.amount == (match words::squeezed_text(cells@[6].text@) {
                Some(size) => amount_of(size),
                None => None,
            })
            &&& format_of(words::squeezed(cells@[7].text@)) == Some(
                draft.book.downloads[0].format,
            )
            &&& draft.book.downloads.len() == 1
            &&& first_hash(cells@[8]@.links) == Some(draft.book.id)
            &&& draft.book.downloads[0].url == "https://libgen.li/get.php?md5="@ + draft.book.id
            &&& draft.book.downloads[0].size is None
        },
        cells@.len() >= 9 && longest_title(cells@[0]@.titles) is Some && words::squeezed(
            cells@[7].text@,
        ).len() > 0 && format_of(words::squeezed(cells@[7].text@)) is Some && first_hash(
            cells@[8]@.links,
        ) is Some ==> r is Some,
{
    let row = html::row_view(cells@);
    assert(row.len() == cells@.len());
    if cells@.len() >= 9 {
        assert(row[0] == cells@[0]@ && row[1] == cells@[1]@ && row[4] == cells@[4]@);
        assert(row[6] == cells@[6]@ && row[7] == cells@[7]@ && row[8] == cells@[8]@);
        assert(row[1].text == cells@[1].text@ && row[4].text == cells@[4].text@);
        assert(row[6].text == cells@[6].text@ && row[7].text == cells@[7].text@);
    }
}

/// The first link with a hash names the file.
pub proof fn law_first_hash_counts(links: Seq<Option<Seq<char>>>, k: int)
    requires
        0 <= k < links.len(),
        links[k] is Some,
        hash_in(links[k]->0) is Some,
        forall|j: int|
            0 <= j < k ==> (#[trigger] links[j] matches Some(href) ==> hash_in(href) is None),
    ensures
        first_hash(links) == hash_in(links[k]->0),
    decreases links.len(),
{
    let front = links.drop_last();
    if k < links.len() - 1 {
        assert(front[k] == links[k]);
        assert forall|j: int| 0 <= j < k implies (#[trigger] front[j] matches Some(href)
            ==> hash_in(href) is None) by {
            assert(front[j] == links[j]);
        }
        law_first_hash_counts(front, k);
    } else {
        assert forall|j: int| 0 <= j < front.len() implies (#[trigger] front[j] matches Some(href)
            ==> hash_in(href) is None) by {
            assert(front[j] == links[j]);
        }
        lemma_no_hash(front);
    }
}

proof fn lemma_no_hash(links: Seq<Option<Seq<char>>>)
    requires
        forall|j: int|
            0 <= j < links.len() ==> (#[trigger] links[j] matches Some(href) ==> hash_in(
                href,
            ) is None),
    ensures
        first_hash(links) is None,
    decreases links.len(),
{
    if links.len() > 0 {
        let front = links.drop_last();
        assert forall|j: int| 0 <= j < front.len() implies (#[trigger] front[j] matches Some(href)
            ==> hash_in(href) is None) by {
            assert(front[j] == links[j]);
        }
        lemma_no_hash(front);
        assert(links[links.len() - 1] == links.last());
    }
}

/// Books are listed in the order of their rows, and of the rows with the same
/// hash the first one counts.
pub proof fn law_rows_keep_their_order(rows: Seq<Seq<html::CellView>>, n: int, limit: nat, i: int)
    requires
        0 <= n <= rows.len(),
        0 <= i < collected(rows, n, limit).len(),
    ensures
        exists|k: int|
            0 <= k < n && row_draft(#[trigger] rows[k]) == Some(collected(rows, n, limit)[i])
                && collected(rows, k, limit).len() == i && forall|j: int|
                0 <= j < k ==> (row_draft(#[trigger] rows[j]) matches Some(draft) ==> draft.book.id
                    != collected(rows, n, limit)[i].book.id),
    decreases n,
{
    let before = collected(rows, n - 1, limit);
    let now = collected(rows, n, limit);
    if i < before.len() {
        law_rows_keep_their_order(rows, n - 1, limit, i);
        assert(now[i] == before[i]);
        let k = choose|k: int|
            0 <= k < n - 1 && row_draft(#[trigger] rows[k]) == Some(before[i]) && collected(
                rows,
                k,
                limit,
            ).len() == i && forall|j: int|
                0 <= j < k ==> (row_draft(#[trigger] rows[j]) matches Some(draft) ==> draft.book.id
                    != before[i].book.id);
        assert(row_draft(rows[k]) == Some(now[i]));
    } else {
        assert(row_draft(rows[n - 1]) == Some(now[i]));
        assert forall|j: int| 0 <= j < n - 1 implies (row_draft(#[trigger] rows[j]) matches Some(
            draft,
        ) ==> draft.book.id != now[i].book.id) by {
            if let Some(draft) = row_draft(rows[j]) {
                law_limit_counts_distinct_books(rows, n - 1, limit, j);
            }
        }
    }
}

/// The page of a link is the number behind `page=` where a part of the link
/// begins so: behind a question mark or an ampersand. The first one counts.
pub proof fn law_page_in_a_link(
    href: &str,
    r: Option<usize>,
    head: Seq<char>,
    n: nat,
    rest: Seq<char>,
)
    requires
        call_ensures(page_from_href, (href,), r),
        !head.contains('?'),
        !head.contains('&'),
        !text::has_prefix(head, "page="@),
        n <= usize::MAX,
    ensures
        href@ == head + seq!['?'] + "page="@ + number::decimal(n) ==> r == Some(n as usize),
        href@ == head + seq!['&'] + "page="@ + number::decimal(n) ==> r == Some(n as usize),
        href@ == head + seq!['?'] + ("page="@ + number::decimal(n)) + seq!['&'] + rest ==> r == Some(
            n as usize,
        ),
        href@ == head ==> r is None,
{
    let stops = seq!['?', '&'];
    assert(stops[0] == '?' && stops[1] == '&');
    let part = "page="@ + number::decimal(n);
    reveal_strlit("page=");
    number::law_decimal_is_read_back(n);
    number::law_decimal_has_digits_only(n);
    assert forall|i: int| 0 <= i < part.len() implies !stops.contains(#[trigger] part[i]) by {
        if i >= 5 {
            assert(part[i] == number::decimal(n)[i - 5]);
        }
    }
    assert forall|i: int| 0 <= i < head.len() implies !stops.contains(#[trigger] head[i]) by {
        assert(head.contains(head[i]));
    }
    words::law_stops_divide(head, '?', part, stops);
    words::law_stops_divide(head, '&', part, stops);
    words::law_one_piece(head, stops);
    words::law_one_piece(part, stops);
    assert(seq![head] + seq![part] =~= seq![head, part]);
    words::law_stops_divide(head + seq!['?'] + part, '&', rest, stops);
    let longer = seq![head, part] + words::pieces(rest, stops);
    assert(longer[0] == head && longer[1] == part);
    assert(head + seq!['?'] + "page="@ + number::decimal(n) =~= head + seq!['?'] + part);
    assert(head + seq!['&'] + "page="@ + number::decimal(n) =~= head + seq!['&'] + part);
    assert(part.subrange(0, 5) =~= "page="@);
    assert(part.subrange(5, part.len() as int) =~= number::decimal(n));
    reveal_with_fuel(first_page, 3);
}

/// The last page is the highest one that is linked to.
pub proof fn law_last_page_is_the_highest(links: Seq<Option<Seq<char>>>, i: int)
    requires
        0 <= i < links.len(),
        links[i] is Some,
        page_in(links[i]->0) is Some,
    ensures
        last_page(links) is Some,
        last_page(links)->0 >= page_in(links[i]->0)->0,
        exists|k: int|
            0 <= k < links.len() && (#[trigger] links[k]) is Some && page_in(links[k]->0)
                == last_page(links),
    decreases links.len(),
{
    let front = links.drop_last();
    let last = links.len() - 1;
    if i < last {
        assert(front[i] == links[i]);
        law_last_page_is_the_highest(front, i);
        let k = choose|k: int|
            0 <= k < front.len() && (#[trigger] front[k]) is Some && page_in(front[k]->0)
                == last_page(front);
        assert(links[k] == front[k]);
        assert(links[last] == links.last());
    } else {
        assert(links[last] == links.last());
        if last_page(front) is Some && page_in(links[i]->0)->0 < last_page(front)->0 {
            lemma_linked_page(front);
            let k = choose|k: int|
                0 <= k < front.len() && (#[trigger] front[k]) is Some && page_in(front[k]->0)
                    == last_page(front);
            assert(links[k] == front[k]);
        }
    }
}

proof fn lemma_linked_page(links: Seq<Option<Seq<char>>>)
    requires
        last_page(links) is Some,
    ensures
        exists|k: int|
            0 <= k < links.len() && (#[trigger] links[k]) is Some && page_in(links[k]->0)
                == last_page(links),
    decreases links.len(),
{
    let front = links.drop_last();
    assert(links[links.len() - 1] == links.last());
    if last_page(front) is Some {
        lemma_linked_page(front);
        let k = choose|k: int|
            0 <= k < front.len() && (#[trigger] front[k]) is Some && page_in(front[k]->0)
                == last_page(front);
        assert(links[k] == front[k]);
    }
}

/// The number of pages that the script names counts; what is linked to only
/// where it names none.
pub proof fn law_script_counts_first(body: &str, links: &Vec<Option<String>>, r: Option<usize>)
    requires
        call_ensures(total_pages, (body, links), r),
    ensures
        script_pages(body@) is Some ==> r == script_pages(body@),
        script_pages(body@) is None ==> r == last_page(text::texts_in(links@)),
{
}

/// The script names the number of pages behind the name of the pager, before the
/// next comma.
pub proof fn law_pages_in_the_script(body: Seq<char>, head: Seq<char>, n: nat, tail: Seq<char>)
    requires
        body == head + "new Paginator(\"paginator_example_bottom\","@ + number::decimal(n)
            + seq![','] + tail,
        !text::occurs(
            head + "new Paginator(\"paginator_example_bottom\","@.drop_last(),
            "new Paginator(\"paginator_example_bottom\","@,
        ),
        n <= usize::MAX,
    ensures
        script_pages(body) == Some(n as usize),
{
    let mark = "new Paginator(\"paginator_example_bottom\","@;
    let digits = number::decimal(n);
    let rest = digits + seq![','] + tail;
    assert(body =~= head + mark + rest);
    assert(mark.len() > 0) by {
        reveal_strlit("new Paginator(\"paginator_example_bottom\",");
    }
    lemma_behind_mark(head, mark, rest);
    number::law_decimal_is_read_back(n);
    number::law_decimal_has_digits_only(n);
    let stops = seq![','];
    assert(stops[0] == ',');
    assert forall|k: int| 0 <= k < digits.len() implies !stops.contains(#[trigger] digits[k]) by {}
    let end = seq![','] + tail;
    assert(end[0] == ',');
    assert(rest =~= digits + end);
    words::law_first_piece(digits, end, stops);
    assert(!text::is_space(digits[0]) && !text::is_space(digits[digits.len() - 1]));
    assert(text::trimmed(digits) == digits);
}

/// A link downloads a file if it is one of the catalog's own, has a key, and
/// names the file's hash; the first such link counts, and leads to the catalog.
pub proof fn law_keyed_link(links: &Vec<Option<String>>, hash: &str, r: Option<String>, k: int)
    requires
        call_ensures(keyed_link, (links, hash), r),
        0 <= k < links@.len(),
    ensures
        r is Some ==> exists|i: int|
            0 <= i < links@.len() && (#[trigger] links@[i]) is Some && text::has_prefix(
                links@[i]->0@,
                "get.php?md5="@,
            ) && text::occurs(links@[i]->0@, "&key="@) && text::occurs(links@[i]->0@, hash@)
                && r->0@ == "https://libgen.li/"@ + links@[i]->0@,
        links@[k] is Some && text::has_prefix(links@[k]->0@, "get.php?md5="@) && text::occurs(
            links@[k]->0@,
            "&key="@,
        ) && text::occurs(links@[k]->0@, hash@) ==> r is Some,
        links@[0] is Some && text::has_prefix(links@[0]->0@, "get.php?md5="@) && text::occurs(
            links@[0]->0@,
            "&key="@,
        ) && text::occurs(links@[0]->0@, hash@) ==> r is Some && r->0@ == "https://libgen.li/"@
            + links@[0]->0@,
{
    let all = text::texts_in(links@);
    lemma_keyed(all, hash@, k);
    lemma_first_keyed(all, hash@);
    assert(all[k] == text::text_in(links@[k]));
    assert(all[0] == text::text_in(links@[0]));
    if keyed_url(all, hash@) is Some {
        let i = choose|i: int|
            0 <= i < all.len() && (#[trigger] all[i]) is Some && is_keyed(all[i]->0, hash@)
                && keyed_url(all, hash@) == Some("https://libgen.li/"@ + all[i]->0);
        assert(all[i] == text::text_in(links@[i]));
    }
}

proof fn lemma_keyed(links: Seq<Option<Seq<char>>>, hash: Seq<char>, k: int)
    requires
        0 <= k < links.len(),
    ensures
        keyed_url(links, hash) is Some ==> exists|i: int|
            0 <= i < links.len() && (#[trigger] links[i]) is Some && is_keyed(links[i]->0, hash)
                && keyed_url(links, hash) == Some("https://libgen.li/"@ + links[i]->0),
        links[k] is Some && is_keyed(links[k]->0, hash) ==> keyed_url(links, hash) is Some,
    decreases links.len(),
{
    let front = links.drop_last();
    assert(links[links.len() - 1] == links.last());
    if front.len() > 0 {
        let m = if k < front.len() {
            k
        } else {
            0
        };
        lemma_keyed(front, hash, m);
        assert(front[m] == links[m]);
        if keyed_url(front, hash) is Some {
            let i = choose|i: int|
                0 <= i < front.len() && (#[trigger] front[i]) is Some && is_keyed(
                    front[i]->0,
                    hash,
                ) && keyed_url(front, hash) == Some("https://libgen.li/"@ + front[i]->0);
            assert(links[i] == front[i]);
        }
    }
}

proof fn lemma_first_keyed(links: Seq<Option<Seq<char>>>, hash: Seq<char>)
    requires
        links.len() > 0,
    ensures
        links[0] is Some && is_keyed(links[0]->0, hash) ==> keyed_url(links, hash) == Some(
            "https://libgen.li/"@ + links[0]->0,
        ),
    decreases links.len(),
{
    if links.len() > 1 {
        lemma_first_keyed(links.drop_last(), hash);
    } else {
        assert(links.last() == links[0]);
        assert(keyed_url(links.drop_last(), hash) is None);
    }
}

/// The two hosts of the file network stand for each other, and no other host
/// for any.
pub proof fn law_two_hosts(host: &str, r: Option<&'static str>)
    requires
        call_ensures(alternate_host, (host,), r),
    ensures
        host@ == "cdn2.booksdl.lc"@ <==> r is Some && r->0@ == "cdn3.booksdl.lc"@,
        host@ == "cdn3.booksdl.lc"@ <==> r is Some && r->0@ == "cdn2.booksdl.lc"@,
        r is Some ==> host@ == "cdn2.booksdl.lc"@ || host@ == "cdn3.booksdl.lc"@,
{
    reveal_strlit("cdn2.booksdl.lc");
    reveal_strlit("cdn3.booksdl.lc");
    assert("cdn2.booksdl.lc"@[3] == '2' && "cdn3.booksdl.lc"@[3] == '3');
}

/// A download begins with the first attempt, where the catalog said.
pub proof fn law_first_attempt(url: &str, r: Fetch)
    requires
        call_ensures(Fetch::new, (url,), r),
    ensures
        r.attempt == 1,
        r.url@ == url@,
{
}

/// What becomes of a response: a page is read, an attachment is saved; after a
/// server error the file is asked for again, up to five times in all and after
/// a pause of 400 milliseconds for each attempt so far; any other failure is
/// the end.
pub proof fn law_responses(
    fetch: FetchView,
    status: u16,
    content_type: Seq<char>,
    disposition: Option<Seq<char>>,
)
    ensures
        ({
            let step = response_step(fetch, status, content_type, disposition);
            let attached = disposition is Some && text::occurs(
                text::lowered(disposition->0),
                "attachment"@,
            );
            let page = text::has_prefix(content_type, "text/html"@);
            &&& 200 <= status <= 299 && attached && !page ==> step == ResponseStep::Save
            &&& 200 <= status <= 299 && (page || !attached) ==> step == ResponseStep::ReadPage
            &&& 500 <= status <= 599 && fetch.attempt == 1 ==> step == (ResponseStep::Retry {
                wait_ms: 400,
            })
            &&& 500 <= status <= 599 && fetch.attempt == 2 ==> step == (ResponseStep::Retry {
                wait_ms: 800,
            })
            &&& 500 <= status <= 599 && fetch.attempt == 3 ==> step == (ResponseStep::Retry {
                wait_ms: 1200,
            })
            &&& 500 <= status <= 599 && fetch.attempt == 4 ==> step == (ResponseStep::Retry {
                wait_ms: 1600,
            })
            &&& 500 <= status <= 599 && fetch.attempt >= 5 ==> step == ResponseStep::Fail
            &&& status < 200 || 300 <= status <= 499 || status >= 600 ==> step
                == ResponseStep::Fail
        }),
{
}

/// Where the file is asked for again after a server error: at the other host
/// if there is one, else where it was asked for.
pub proof fn law_retries_change_hosts(fetch: FetchView, status: u16, response_url: Seq<char>)
    requires
        500 <= status <= 599,
        fetch.attempt < 5,
    ensures
        ({
            let next = after_response(fetch, status, response_url);
            &&& next.attempt == fetch.attempt + 1
            &&& alternate_url(response_url) is Some ==> next.url == alternate_url(response_url)->0
            &&& alternate_url(response_url) is None ==> next.url == fetch.url
        }),
{
}

/// A page in place of the file is followed to the link that it has, else the
/// download starts over where it began; after the fifth attempt neither is
/// done.
pub proof fn law_pages_are_followed(fetch: FetchView, keyed: Option<Seq<char>>, start: Seq<char>)
    ensures
        ({
            let next = after_page(fetch, keyed, start);
            &&& fetch.attempt < 5 ==> next.attempt == fetch.attempt + 1
            &&& fetch.attempt < 5 && keyed is Some ==> next.url == keyed->0
            &&& fetch.attempt < 5 && keyed is None ==> next.url == start
            &&& fetch.attempt >= 5 ==> next == fetch
        }),
{
}

/// A file is complete if as many bytes came as were announced, or none were
/// announced.
pub proof fn law_complete_files(seen: u64, content_length: Option<u64>)
    ensures
        is_complete(seen, None),
        is_complete(seen, content_length) && content_length is Some ==> content_length->0 == seen,
        content_length == Some(seen) ==> is_complete(seen, content_length),
{
}

/// The same file is asked for by the same hash, whatever the letter case of its
/// extension.
pub proof fn law_extension_in_any_case(extension: &str, r: Option<Format>)
    requires
        call_ensures(format_from_extension, (extension,), r),
    ensures
        ({
            let ext = text::trimmed(extension@);
            &&& ext.len() == 3 && (ext[0] == 'p' || ext[0] == 'P') && (ext[1] == 'd' || ext[1]
                == 'D') && (ext[2] == 'f' || ext[2] == 'F') ==> r is Some && r->0@
                == FormatView::Pdf
            &&& ext.len() == 4 && (ext[0] == 'e' || ext[0] == 'E') && (ext[1] == 'p' || ext[1]
                == 'P') && (ext[2] == 'u' || ext[2] == 'U') && (ext[3] == 'b' || ext[3] == 'B')
                ==> r is Some && r->0@ == FormatView::Epub
            &&& crate::source::format_in(r) == FormatView::of_extension(text::lowered(ext))
        }),
{
    let ext = text::trimmed(extension@);
    let low = text::lowered(ext);
    reveal_strlit("epub");
    reveal_strlit("pdf");
    if ext.len() == 3 && low[0] == 'p' && low[1] == 'd' && low[2] == 'f' {
        assert(low =~= "pdf"@);
        assert("epub"@.len() == 4);
    }
    if ext.len() == 4 && low[0] == 'e' && low[1] == 'p' && low[2] == 'u' && low[3] == 'b' {
        assert(low =~= "epub"@);
    }
}

/// What the user is told when the file does not come.
pub proof fn law_failures_are_told(
    status: &str,
    url: &str,
    page: String,
    seen: u64,
    total: Option<u64>,
    part: String,
)
    requires
        call_ensures(html_failure, (status, url), page),
        call_ensures(incomplete_failure, (seen, total), part),
    ensures
        page@ == "LibGen returned HTML instead of an ebook after 5 attempts ("@ + status@
            + " from "@ + url@ + ")"@,
        total is None ==> part@ == "incomplete LibGen download: received "@ + number::decimal(
            seen as nat,
        ) + " bytes, expected "@ + "None"@,
        total is Some ==> part@ == "incomplete LibGen download: received "@ + number::decimal(
            seen as nat,
        ) + " bytes, expected "@ + ("Some("@ + number::decimal(total->0 as nat) + ")"@),
{
}

/// What is read of a page of results: the rows of the catalog's table with their
/// cells, the links to editions as titles, all links of a cell, and the links of
/// the pager.
pub proof fn law_page_of_results(body: &str, limit: usize, r: Listing)
    requires
        call_ensures(parse, (body, limit), r),
    ensures
        ({
            let rows = html::document_rows(
                body@,
                "table#tablelibgen tbody tr"@,
                "td"@,
                "a[href^='edition.php']"@,
                "a[href]"@,
            );
            let pager = html::document_links(body@, "#paginator_example_bottom a[href]"@);
            &&& crate::source::drafts_view(r.drafts@) == collected(
                rows,
                rows.len() as int,
                limit as nat,
            )
            &&& r.drafts@.len() <= limit
            &&& script_pages(body@) is None ==> r.total_pages == last_page(pager)
            &&& script_pages(body@) is Some ==> r.total_pages == script_pages(body@)
        }),
{
    let rows = html::document_rows(
        body@,
        "table#tablelibgen tbody tr"@,
        "td"@,
        "a[href^='edition.php']"@,
        "a[href]"@,
    );
    law_hashes_are_distinct(rows, rows.len() as int, limit as nat);
    assert(crate::source::drafts_view(r.drafts@).len() == r.drafts@.len());
}

/// A page in place of a file is searched for a link in all of its links.
pub proof fn law_keyed_link_of_a_page(body: &str, hash: &str, r: Option<String>)
    requires
        call_ensures(keyed_download_url, (body, hash), r),
    ensures
        text::text_in(r) == keyed_url(html::document_links(body@, "a[href]"@), hash@),
{
}

/// The file is at the other host under the same key: of an address on the file
/// network, only the host changes.
pub proof fn law_other_host_has_the_file(url: &str, r: Option<String>, query: Seq<char>)
    requires
        call_ensures(alternate_cdn_url, (url,), r),
        url::is_simple_query(query),
    ensures
        url@ == "https://cdn2.booksdl.lc/get.php?"@ + query ==> r is Some && r->0@
            == "https://cdn3.booksdl.lc/get.php?"@ + query,
        url@ == "https://cdn3.booksdl.lc/get.php?"@ + query ==> r is Some && r->0@
            == "https://cdn2.booksdl.lc/get.php?"@ + query,
{
    reveal_strlit("https://");
    reveal_strlit("/get.php?");
    reveal_strlit("cdn2.booksdl.lc");
    reveal_strlit("cdn3.booksdl.lc");
    reveal_strlit("https://cdn2.booksdl.lc/get.php?");
    reveal_strlit("https://cdn3.booksdl.lc/get.php?");
    let two = "cdn2.booksdl.lc"@;
    let three = "cdn3.booksdl.lc"@;
    law_hosts_alternate(two);
    assert(two[3] == '2' && three[3] == '3');
    assert("https://"@ + two + "/get.php?"@ =~= "https://cdn2.booksdl.lc/get.php?"@);
    assert("https://"@ + three + "/get.php?"@ =~= "https://cdn3.booksdl.lc/get.php?"@);
    assert(url::file_address(two, query) == "https://cdn2.booksdl.lc/get.php?"@ + query);
    assert(url::file_address(three, query) == "https://cdn3.booksdl.lc/get.php?"@ + query);
}

/// What a response does to a download that is under way.
pub proof fn law_on_response(
    fetch: &mut Fetch,
    status: u16,
    response_url: &str,
    content_type: &str,
    disposition: Option<String>,
    r: ResponseStep,
)
    requires
        call_ensures(
            Fetch::on_response,
            (fetch, status, response_url, content_type, disposition),
            r,
        ),
    ensures
        200 <= status <= 299 ==> (r == ResponseStep::Save || r == ResponseStep::ReadPage)
            && final(fetch)@ == old(fetch)@,
        500 <= status <= 599 && old(fetch).attempt < 5 ==> r == (ResponseStep::Retry {
            wait_ms: (400 * old(fetch).attempt) as u64,
        }) && final(fetch).attempt == old(fetch).attempt + 1,
        500 <= status <= 599 && old(fetch).attempt >= 5 ==> r == ResponseStep::Fail
            && final(fetch)@ == old(fetch)@,
        status < 200 || 300 <= status <= 499 || status >= 600 ==> r == ResponseStep::Fail
            && final(fetch)@ == old(fetch)@,
{
}

/// A link found on a page is followed; without one the download starts over, at
/// the address that the catalog gave. The fifth attempt is the last.
pub proof fn law_on_keyed(fetch: &mut Fetch, keyed: Option<String>, start: &str, r: NextStep)
    requires
        call_ensures(Fetch::on_keyed, (fetch, keyed, start), r),
    ensures
        old(fetch).attempt >= 5 ==> r == NextStep::GiveUp && final(fetch)@ == old(fetch)@,
        old(fetch).attempt < 5 ==> r == NextStep::Again && final(fetch).attempt
            == old(fetch).attempt + 1,
        old(fetch).attempt < 5 && keyed is Some ==> final(fetch).url@ == keyed->0@,
        old(fetch).attempt < 5 && keyed is None ==> final(fetch).url@ == start@,
{
}

/// A page that could not be read counts as one without a link.
pub proof fn law_on_page(
    fetch: &mut Fetch,
    page: Option<String>,
    hash: &str,
    start: &str,
    r: NextStep,
)
    requires
        call_ensures(Fetch::on_page, (fetch, page, hash, start), r),
    ensures
        old(fetch).attempt >= 5 ==> r == NextStep::GiveUp && final(fetch)@ == old(fetch)@,
        old(fetch).attempt < 5 ==> r == NextStep::Again && final(fetch).attempt
            == old(fetch).attempt + 1,
        old(fetch).attempt < 5 && page is None ==> final(fetch).url@ == start@,
        old(fetch).attempt < 5 && page is Some ==> final(fetch).url@ == (match keyed_url(
            html::document_links(page->0@, "a[href]"@),
            hash@,
        ) {
            Some(url) => url,
            None => start@,
        }),
{
}

/// A file that came whole is done. One that did not is asked for again at the
/// same address, but not after the fifth attempt.
pub proof fn law_on_saved(fetch: &mut Fetch, seen: u64, content_length: Option<u64>, r: NextStep)
    requires
        call_ensures(Fetch::on_saved, (fetch, seen, content_length), r),
    ensures
        content_length is None || content_length == Some(seen) ==> r == NextStep::Done
            && final(fetch)@ == old(fetch)@,
        content_length is Some && content_length->0 != seen && old(fetch).attempt < 5 ==> r
            == NextStep::Again && final(fetch).attempt == old(fetch).attempt + 1
            && final(fetch).url@ == old(fetch).url@,
        content_length is Some && content_length->0 != seen && old(fetch).attempt >= 5 ==> r
            == NextStep::GiveUp && final(fetch)@ == old(fetch)@,
{
}

/// The books of a page are those of its rows.
pub proof fn law_books_of_the_rows(rows: &Vec<Vec<html::Cell>>, limit: usize, r: Vec<Draft>)
    requires
        call_ensures(books_from_rows, (rows, limit), r),
    ensures
        crate::source::drafts_view(r@) == collected(
            html::rows_view(rows@),
            rows@.len() as int,
            limit as nat,
        ),
{
}

/// The own texts of an element stand in their order; elements among them are
/// passed over.
pub proof fn law_own_texts(nodes: Seq<Option<Seq<char>>>, text: Seq<char>)
    ensures
        own_texts(seq![]).len() == 0,
        own_texts(nodes.push(Some(text))) == own_texts(nodes).push(text),
        own_texts(nodes.push(None)) == own_texts(nodes),
{
    assert(nodes.push(Some(text)).drop_last() =~= nodes);
    assert(nodes.push(None).drop_last() =~= nodes);
}

} // verus!
