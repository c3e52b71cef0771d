//! Template for a source backed by an HTML page instead of a JSON API.
//!
//! Not among the sources that are searched: the address and the selectors
//! below are placeholders.

use vstd::prelude::*;

use crate::html;
use crate::source::libgen;
use crate::source::{Book, BookView, Download, DownloadView, Format, FormatView};
use crate::source::{Request, RequestView, Source};
use crate::text;
use crate::words;

verus! {

broadcast use {
    crate::text::lemma_texts_push,
    crate::source::lemma_downloads_push,
    crate::source::lemma_books_push,
};

/// The address of the search page.
pub const BASE_URL: &'static str = "https://example.org/search";

/// The address of the site.
pub const SITE_URL: &'static str = "https://example.org";

/// A catalog that lists its books on an HTML page.
#[derive(Debug)]
pub struct HtmlCatalog;

impl Source for HtmlCatalog {
    open spec fn tag(&self) -> Seq<char> {
        "html-catalog"@
    }

    fn name(&self) -> (r: &'static str) {
        "html-catalog"
    }
}

/// The search for `query`, as the catalog understands it.
pub fn search_request(query: &str) -> (r: Request)
    ensures
        r@ == (RequestView { url: BASE_URL@, params: seq![("q"@, query@)] }),
{
    let mut params: Vec<(&'static str, String)> = Vec::new();
    params.push(("q", query.to_owned()));
    let r = Request { url: BASE_URL, params };
    assert(r@.params =~= seq![("q"@, query@)]);
    r
}

/// The address that a link leads to: links without a protocol stay on the site.
pub open spec fn absolute_url(href: Seq<char>) -> Seq<char> {
    if text::has_prefix(href, "http"@) {
        href
    } else {
        SITE_URL@ + href
    }
}

/// The address that a link leads to.
pub fn absolute(href: &str) -> (r: String)
    ensures
        r@ == absolute_url(href@),
{
    if text::starts_with(href, "http") {
        href.to_owned()
    } else {
        let mut out = SITE_URL.to_owned();
        out.append(href);
        out
    }
}

/// Absolute addresses are left alone.
pub proof fn law_absolute_is_final(href: Seq<char>)
    ensures
        text::has_prefix(absolute_url(href), "http"@),
        absolute_url(absolute_url(href)) == absolute_url(href),
{
    reveal_strlit("http");
    reveal_strlit("https://example.org");
    if !text::has_prefix(href, "http"@) {
        assert(absolute_url(href).subrange(0, 4) =~= "http"@);
    }
}

/// The format of the file that an address leads to.
pub open spec fn format_of_url(url: Seq<char>) -> FormatView {
    let extension = words::pieces(url, seq!['.']).last();
    if extension == "epub"@ {
        FormatView::Epub
    } else if extension == "pdf"@ {
        FormatView::Pdf
    } else if extension == "txt"@ {
        FormatView::Txt
    } else if extension == "mobi"@ {
        FormatView::Mobi
    } else if extension == "torrent"@ {
        FormatView::Torrent
    } else {
        FormatView::Other(extension)
    }
}

/// The format of the file that an address leads to.
pub fn format_from_url(url: &str) -> (r: Format)
    ensures
        r@ == format_of_url(url@),
{
    let dots: [char; 1] = ['.'];
    assert(dots@ =~= seq!['.']);
    let extension = words::last_piece(url, &dots);
    let ext = extension.as_str();
    if text::same(ext, "epub") {
        Format::Epub
    } else if text::same(ext, "pdf") {
        Format::Pdf
    } else if text::same(ext, "txt") {
        Format::Txt
    } else if text::same(ext, "mobi") {
        Format::Mobi
    } else if text::same(ext, "torrent") {
        Format::Torrent
    } else {
        Format::Other(extension)
    }
}

/// The last part of an address.
pub fn id_from_url(url: &str) -> (r: String)
    ensures
        r@ == words::pieces(url@, seq!['/']).last(),
{
    let slashes: [char; 1] = ['/'];
    assert(slashes@ =~= seq!['/']);
    words::last_piece(url, &slashes)
}

/// The first of some texts on one line, unless it is empty.
pub open spec fn first_text(list: Seq<Seq<char>>) -> Option<Seq<char>> {
    if list.len() == 0 {
        None
    } else {
        words::squeezed_text(list[0])
    }
}

/// The first of some texts on one line, unless it is empty.
pub fn text_of(list: &Vec<String>) -> (r: Option<String>)
    ensures
        text::text_in(r) == first_text(text::texts(list@)),
{
    if list.len() == 0 {
        None
    } else {
        assert(text::texts(list@)[0] == list@[0]@);
        words::squeeze_some(list[0].as_str())
    }
}

/// The book that an entry of the page describes. An entry without a title or
/// without a link describes none.
pub open spec fn entry_book(entry: html::ListedView) -> Option<BookView> {
    if first_text(entry.titles) is None || entry.links.len() == 0 || entry.links[0] is None {
        None
    } else {
        let url = absolute_url(entry.links[0]->0);
        Some(
            BookView {
                source: "html-catalog"@,
                id: words::pieces(url, seq!['/']).last(),
                title: first_text(entry.titles)->0,
                authors: libgen::at_most_one(first_text(entry.authors)),
                language: None,
                downloads: seq![DownloadView { format: format_of_url(url), url, size: None }],
            },
        )
    }
}

/// The book in an optional one.
pub open spec fn book_in(value: Option<Book>) -> Option<BookView> {
    match value {
        Some(book) => Some(book@),
        None => None,
    }
}

/// The book that an entry of the page describes, if it describes one.
pub fn book_from_row(row: &html::Listed) -> (r: Option<Book>)
    ensures
        book_in(r) == entry_book(row@),
{
    let title = match text_of(&row.titles) {
        Some(title) => title,
        None => return None,
    };
    if row.links.len() == 0 {
        return None;
    }
    assert(row@.links[0] == text::text_in(row.links@[0]));
    let href = match &row.links[0] {
        Some(href) => href,
        None => return None,
    };
    let url = absolute(href.as_str());
    let format = format_from_url(url.as_str());
    let id = id_from_url(url.as_str());
    let mut downloads: Vec<Download> = Vec::new();
    downloads.push(Download { format, url, size: None });
    let book = Book {
        source: "html-catalog",
        id,
        title,
        authors: libgen::list_of(text_of(&row.authors)),
        language: None,
        downloads,
    };
    assert(book@.downloads =~= entry_book(row@)->0.downloads);
    Some(book)
}

/// The books that the first `n` entries describe.
pub open spec fn entry_books(entries: Seq<html::ListedView>, n: int) -> Seq<BookView>
    decreases n,
{
    if n <= 0 {
        Seq::empty()
    } else {
        match entry_book(entries[n - 1]) {
            Some(book) => entry_books(entries, n - 1).push(book),
            None => entry_books(entries, n - 1),
        }
    }
}

/// How many of the entries are looked at.
pub open spec fn considered(entries: nat, limit: nat) -> int {
    if entries <= limit {
        entries as int
    } else {
        limit as int
    }
}

/// The books that the entries of the page describe; only the first `limit`
/// entries are looked at.
pub fn books_from_entries(entries: &Vec<html::Listed>, limit: usize) -> (r: Vec<Book>)
    ensures
        crate::source::books_view(r@) == entry_books(
            html::listed_view(entries@),
            considered(entries@.len(), limit as nat),
        ),
{
    let ghost all = html::listed_view(entries@);
    let mut out: Vec<Book> = Vec::new();
    let mut i: usize = 0;
    assert(crate::source::books_view(out@) =~= entry_books(all, 0));
    while i < entries.len() && i < limit
        invariant
            i <= entries@.len(),
            i <= limit,
            all == html::listed_view(entries@),
            crate::source::books_view(out@) == entry_books(all, i as int),
        decreases entries@.len() - i,
    {
        assert(all[i as int] == entries@[i as int]@);
        if let Some(book) = book_from_row(&entries[i]) {
            out.push(book);
        }
        i += 1;
    }
    out
}

/// The books on a page.
pub fn parse(body: &str, limit: usize) -> (r: Vec<Book>)
    requires
        html::is_page(body@),
    ensures
        ({
            let entries = html::document_entries(
                body@,
                "li.book"@,
                "a.title"@,
                "span.author"@,
                "a.download"@,
            );
            crate::source::books_view(r@) == entry_books(
                entries,
                considered(entries.len(), limit as nat),
            )
        }),
{
    proof {
        reveal_strlit("li.book");
        reveal_strlit("a.title");
        reveal_strlit("span.author");
        reveal_strlit("a.download");
    }
    let entries = html::entries(body, "li.book", "a.title", "span.author", "a.download");
    books_from_entries(&entries, limit)
}

/// There are never more books than the limit.
pub proof fn law_limit_holds(entries: Seq<html::ListedView>, limit: nat)
    ensures
        entry_books(entries, considered(entries.len(), limit)).len() <= limit,
{
    lemma_entry_books(entries, considered(entries.len(), limit));
}

proof fn lemma_entry_books(entries: Seq<html::ListedView>, n: int)
    requires
        0 <= n,
    ensures
        entry_books(entries, n).len() <= n,
    decreases n,
{
    if n > 0 {
        lemma_entry_books(entries, n - 1);
    }
}

/// A search asks for the query.
pub proof fn law_search_request(query: &str, r: Request)
    requires
        call_ensures(search_request, (query,), r),
    ensures
        r.url@ == "https://example.org/search"@,
        r.params@.len() == 1,
        r@.params[0] == ("q"@, query@),
{
    assert(r@.params.len() == r.params@.len());
}

/// A link that names its protocol is kept; any other one leads to the site.
pub proof fn law_absolute_addresses(href: &str, r: String, rest: Seq<char>)
    requires
        call_ensures(absolute, (href,), r),
    ensures
        href@ == seq!['h', 't', 't', 'p'] + rest ==> r@ == href@,
        href@ == seq!['/'] + rest ==> r@ == "https://example.org"@ + href@,
        href@.len() < 4 ==> r@ == "https://example.org"@ + href@,
{
    reveal_strlit("http");
    assert("http"@ =~= seq!['h', 't', 't', 'p']);
    if href@ == seq!['h', 't', 't', 'p'] + rest {
        assert(href@.subrange(0, 4) =~= "http"@);
    }
    if href@ == seq!['/'] + rest && text::has_prefix(href@, "http"@) {
        assert(href@.subrange(0, 4)[0] == href@[0]);
    }
}

/// The format of a file is told by what follows the last dot of its address.
pub proof fn law_format_of_an_address(url: &str, r: Format, head: Seq<char>, ext: Seq<char>)
    requires
        call_ensures(format_from_url, (url,), r),
        url@ == head + seq!['.'] + ext,
        !ext.contains('.'),
    ensures
        ext == "epub"@ <==> r@ == FormatView::Epub,
        ext == "pdf"@ <==> r@ == FormatView::Pdf,
        ext == "txt"@ <==> r@ == FormatView::Txt,
        ext == "mobi"@ <==> r@ == FormatView::Mobi,
        ext == "torrent"@ <==> r@ == FormatView::Torrent,
        r@ matches FormatView::Other(name) ==> name == ext,
{
    let dots = seq!['.'];
    assert(dots[0] == '.');
    assert forall|i: int| 0 <= i < ext.len() implies !dots.contains(#[trigger] ext[i]) by {
        assert(ext.contains(ext[i]));
    }
    words::law_one_piece(ext, dots);
    words::law_stops_divide(head, '.', ext, dots);
    reveal_strlit("epub");
    reveal_strlit("pdf");
    reveal_strlit("txt");
    reveal_strlit("mobi");
    reveal_strlit("torrent");
    assert("epub"@[0] == 'e' && "pdf"@[0] == 'p' && "txt"@[0] == 't' && "mobi"@[0] == 'm');
    assert("torrent"@.len() == 7 && "txt"@.len() == 3);
}

/// A book is known by the last part of its address.
pub proof fn law_id_of_an_address(url: &str, r: String, head: Seq<char>, id: Seq<char>)
    requires
        call_ensures(id_from_url, (url,), r),
        url@ == head + seq!['/'] + id,
        !id.contains('/'),
    ensures
        r@ == id,
{
    let slashes = seq!['/'];
    assert(slashes[0] == '/');
    assert forall|i: int| 0 <= i < id.len() implies !slashes.contains(#[trigger] id[i]) by {
        assert(id.contains(id[i]));
    }
    words::law_one_piece(id, slashes);
    words::law_stops_divide(head, '/', id, slashes);
}

/// What an entry tells of its book: the first title, the first author, and the
/// first link.
pub proof fn law_book_of_an_entry(row: &html::Listed, r: Option<Book>)
    requires
        call_ensures(book_from_row, (row,), r),
    ensures
        r is Some <==> row.titles@.len() > 0 && words::squeezed(row.titles@[0]@).len() > 0
            && row.links@.len() > 0 && row.links@[0] is Some,
        r is Some ==> {
            let book = r->0@;
            let url = absolute_url(row.links@[0]->0@);
            &&& book.source == "html-catalog"@
            &&& book.title == words::squeezed(row.titles@[0]@)
            &&& row.authors@.len() == 0 ==> book.authors.len() == 0
            &&& row.authors@.len() > 0 && words::squeezed(row.authors@[0]@).len() > 0
                ==> book.authors == seq![words::squeezed(row.authors@[0]@)]
            &&& row.authors@.len() > 0 && words::squeezed(row.authors@[0]@).len() == 0
                ==> book.authors.len() == 0
            &&& book.language is None
            &&& book.id == words::pieces(url, seq!['/']).last()
            &&& book.downloads.len() == 1
            &&& book.downloads[0].url == url
            &&& book.downloads[0].format == format_of_url(url)
            &&& book.downloads[0].size is None
        },
{
    assert(text::texts(row.titles@).len() == row.titles@.len());
    assert(text::texts(row.authors@).len() == row.authors@.len());
    assert(text::texts_in(row.links@).len() == row.links@.len());
    if row.titles@.len() > 0 {
        assert(text::texts(row.titles@)[0] == row.titles@[0]@);
    }
    if row.authors@.len() > 0 {
        assert(text::texts(row.authors@)[0] == row.authors@[0]@);
    }
    if row.links@.len() > 0 {
        assert(text::texts_in(row.links@)[0] == text::text_in(row.links@[0]));
    }
}

/// Of the first entries, as many as the limit says, those that tell of a book
/// are listed in their order.
pub proof fn law_entries_keep_their_order(entries: Seq<html::ListedView>, n: int, k: int)
    requires
        0 <= k < n <= entries.len(),
    ensures
        entry_books(entries, 0).len() == 0,
        entry_book(entries[k]) is Some ==> entry_books(entries, k).len() < entry_books(
            entries,
            n,
        ).len() && entry_books(entries, n)[entry_books(entries, k).len() as int] == entry_book(
            entries[k],
        )->0,
        entry_book(entries[k]) is None ==> entry_books(entries, k + 1) == entry_books(entries, k),
    decreases n,
{
    if k < n - 1 {
        law_entries_keep_their_order(entries, n - 1, k);
    }
}

/// What is read of a page: the entries of its list, with their titles, authors
/// and download links; the limit counts entries.
pub proof fn law_page_of_results(body: &str, limit: usize, r: Vec<Book>)
    requires
        call_ensures(parse, (body, limit), r),
    ensures
        ({
            let entries = html::document_entries(
                body@,
                "li.book"@,
                "a.title"@,
                "span.author"@,
                "a.download"@,
            );
            &&& entries.len() <= limit ==> crate::source::books_view(r@) == entry_books(
                entries,
                entries.len() as int,
            )
            &&& entries.len() > limit ==> crate::source::books_view(r@) == entry_books(
                entries,
                limit as int,
            )
        }),
{
}

} // verus!
